//! Character-level helpers shared by the text formats of the library:
//! decimal numbers, separators, hex digits and the std string calls they rest on.
use vstd::prelude::*;
use vstd::arithmetic::power::pow;

verus! {

// ============================================================
// SPECIFICATIONS
// ============================================================

/// The ASCII digit for a value below ten.
pub open spec fn digit_char(d: nat) -> char {
    if d == 0 { '0' } else if d == 1 { '1' } else if d == 2 { '2' } else if d == 3 { '3' }
    else if d == 4 { '4' } else if d == 5 { '5' } else if d == 6 { '6' } else if d == 7 { '7' }
    else if d == 8 { '8' } else { '9' }
}

pub open spec fn is_digit(c: char) -> bool {
    '0' <= c && c <= '9'
}

pub open spec fn digit_value(c: char) -> nat {
    (c as int - '0' as int) as nat
}

/// Decimal text of a natural number, without leading zeros.
pub open spec fn decimal(n: nat) -> Seq<char>
    decreases n,
{
    if n < 10 {
        seq![digit_char(n)]
    } else {
        decimal(n / 10).push(digit_char(n % 10))
    }
}

pub open spec fn all_digits(s: Seq<char>) -> bool {
    forall|i: int| 0 <= i < s.len() ==> is_digit(#[trigger] s[i])
}

/// Value of a sequence of decimal digits (most significant first).
pub open spec fn digits_value(s: Seq<char>) -> nat
    decreases s.len(),
{
    if s.len() == 0 {
        0
    } else {
        digits_value(s.drop_last()) * 10 + digit_value(s.last())
    }
}

/// What `str::parse::<u64>` accepts: an optional `+`, then one or more
/// ASCII digits whose value fits in a `u64`.
pub open spec fn parse_unsigned(s: Seq<char>, max: nat) -> Option<nat> {
    let d = if s.len() > 0 && s[0] == '+' { s.drop_first() } else { s };
    if d.len() > 0 && all_digits(d) && digits_value(d) <= max {
        Some(digits_value(d))
    } else {
        None
    }
}

/// Pieces of `s` between occurrences of `sep`, as `str::split` yields them.
pub open spec fn split_spec(s: Seq<char>, sep: char) -> Seq<Seq<char>>
    decreases s.len(),
{
    if s.len() == 0 {
        seq![Seq::empty()]
    } else {
        let r = split_spec(s.drop_last(), sep);
        if s.last() == sep {
            r.push(Seq::empty())
        } else {
            r.update(r.len() - 1, r.last().push(s.last()))
        }
    }
}

/// Pieces joined with `sep` between each two of them.
pub open spec fn join_spec(pieces: Seq<Seq<char>>, sep: char) -> Seq<char>
    decreases pieces.len(),
{
    if pieces.len() == 0 {
        Seq::empty()
    } else if pieces.len() == 1 {
        pieces[0]
    } else {
        join_spec(pieces.drop_last(), sep).push(sep) + pieces.last()
    }
}

/// Unicode `White_Space` code points, as `str::trim` removes them.
pub open spec fn is_whitespace(c: char) -> bool {
    let v = c as u32;
    (0x09 <= v && v <= 0x0D) || v == 0x20 || v == 0x85 || v == 0xA0 || v == 0x1680
        || (0x2000 <= v && v <= 0x200A) || v == 0x2028 || v == 0x2029 || v == 0x202F
        || v == 0x205F || v == 0x3000
}

pub open spec fn trim_start_spec(s: Seq<char>) -> Seq<char>
    decreases s.len(),
{
    if s.len() > 0 && is_whitespace(s[0]) { trim_start_spec(s.drop_first()) } else { s }
}

pub open spec fn trim_end_spec(s: Seq<char>) -> Seq<char>
    decreases s.len(),
{
    if s.len() > 0 && is_whitespace(s.last()) { trim_end_spec(s.drop_last()) } else { s }
}

pub open spec fn trim_spec(s: Seq<char>) -> Seq<char> {
    trim_end_spec(trim_start_spec(s))
}

pub open spec fn is_ascii_text(s: Seq<char>) -> bool {
    forall|i: int| 0 <= i < s.len() ==> (#[trigger] s[i] as u32) < 128
}

pub open spec fn ascii_upper_char(c: char) -> char {
    if 'a' <= c && c <= 'z' { ((c as u32) - 32) as char } else { c }
}

pub open spec fn ascii_upper(s: Seq<char>) -> Seq<char> {
    s.map_values(|c: char| ascii_upper_char(c))
}

/// What `str::to_uppercase` returns (Unicode case mapping).
pub uninterp spec fn unicode_upper(s: Seq<char>) -> Seq<char>;

/// Lower-case hex digit of a nibble.
pub open spec fn hex_digit(v: nat) -> char {
    if v < 10 { digit_char(v) } else if v == 10 { 'a' } else if v == 11 { 'b' } else if v == 12 { 'c' }
    else if v == 13 { 'd' } else if v == 14 { 'e' } else { 'f' }
}

pub open spec fn hex_encode_spec(b: Seq<u8>) -> Seq<char>
    decreases b.len(),
{
    if b.len() == 0 {
        Seq::empty()
    } else {
        hex_encode_spec(b.drop_last()).push(hex_digit((b.last() / 16) as nat)).push(hex_digit((b.last() % 16) as nat))
    }
}

pub open spec fn is_hex_char(c: char) -> bool {
    ('0' <= c && c <= '9') || ('a' <= c && c <= 'f') || ('A' <= c && c <= 'F')
}

pub open spec fn hex_value(c: char) -> nat {
    if '0' <= c && c <= '9' { (c as int - '0' as int) as nat }
    else if 'a' <= c && c <= 'f' { (c as int - 'a' as int + 10) as nat }
    else { (c as int - 'A' as int + 10) as nat }
}

/// What `hex::decode` returns on a string: bytes from pairs of hex digits
/// (either case), or nothing on odd length or any other character.
pub open spec fn hex_decode_spec(s: Seq<char>) -> Option<Seq<u8>> {
    if s.len() % 2 == 0 && (forall|i: int| 0 <= i < s.len() ==> is_hex_char(#[trigger] s[i])) {
        Some(Seq::new((s.len() / 2) as nat, |i: int| (hex_value(s[2 * i]) * 16 + hex_value(s[2 * i + 1])) as u8))
    } else {
        None
    }
}

pub open spec fn starts_with_spec(s: Seq<char>, prefix: Seq<char>) -> bool {
    prefix.len() <= s.len() && s.subrange(0, prefix.len() as int) == prefix
}

// ============================================================
// STD CALLS
// ============================================================

/// `String::push`: appends one character.
#[verifier::external_body]
pub fn push_char(s: &mut String, c: char)
    ensures
        final(s)@ == old(s)@.push(c),
{
    s.push(c);
}

/// `<str as PartialEq>::eq`: two string slices are equal when their characters are.
#[verifier::external_body]
pub fn str_eq(a: &str, b: &str) -> (r: bool)
    ensures
        r == (a@ == b@),
{
    a == b
}

/// `<u64 as ToString>::to_string`: decimal text without leading zeros.
#[verifier::external_body]
pub fn u64_text(n: u64) -> (r: String)
    ensures
        r@ == decimal(n as nat),
{
    n.to_string()
}

/// `str::parse::<u64>`: an optional `+` and decimal digits that fit in `u64`.
#[verifier::external_body]
pub fn parse_u64(s: &str) -> (r: Option<u64>)
    ensures
        r matches Some(v) ==> parse_unsigned(s@, u64::MAX as nat) == Some(v as nat),
        r is None ==> parse_unsigned(s@, u64::MAX as nat) is None,
{
    s.parse::<u64>().ok()
}

/// `str::parse::<u32>`: an optional `+` and decimal digits that fit in `u32`.
#[verifier::external_body]
pub fn parse_u32(s: &str) -> (r: Option<u32>)
    ensures
        r matches Some(v) ==> parse_unsigned(s@, u32::MAX as nat) == Some(v as nat),
        r is None ==> parse_unsigned(s@, u32::MAX as nat) is None,
{
    s.parse::<u32>().ok()
}

/// `str::parse::<u8>`: an optional `+` and decimal digits that fit in `u8`.
#[verifier::external_body]
pub fn parse_u8(s: &str) -> (r: Option<u8>)
    ensures
        r matches Some(v) ==> parse_unsigned(s@, u8::MAX as nat) == Some(v as nat),
        r is None ==> parse_unsigned(s@, u8::MAX as nat) is None,
{
    s.parse::<u8>().ok()
}

/// `str::to_uppercase`: Unicode upper case; on ASCII text, the ASCII upper case.
#[verifier::external_body]
pub fn to_upper(s: &str) -> (r: String)
    ensures
        r@ == unicode_upper(s@),
        is_ascii_text(s@) ==> r@ == ascii_upper(s@),
{
    s.to_uppercase()
}

/// `str::trim`: drops leading and trailing Unicode white space.
#[verifier::external_body]
pub fn trim(s: &str) -> (r: &str)
    ensures
        r@ == trim_spec(s@),
{
    s.trim()
}

pub assume_specification[<u64>::saturating_pow](x: u64, exp: u32) -> (r: u64)
    ensures
        r == if pow(x as int, exp as nat) > u64::MAX { u64::MAX as int } else { pow(x as int, exp as nat) },
;

pub assume_specification[<u64>::saturating_mul](x: u64, y: u64) -> (r: u64)
    ensures
        r == if x * y > u64::MAX { u64::MAX as int } else { x * y },
;

// ============================================================
// VERIFIED HELPERS
// ============================================================

/// Characters of a string slice.
pub fn chars_of(s: &str) -> (r: Vec<char>)
    ensures
        r@ == s@,
{
    let mut out: Vec<char> = Vec::new();
    for c in it: s.chars()
        invariant
            it.seq() == s@,
            out@ == it.seq().take(it.index() as int),
    {
        out.push(c);
    }
    out
}

/// A string holding the given characters.
pub fn string_from(v: &[char]) -> (r: String)
    ensures
        r@ == v@,
{
    let mut out = String::new();
    let mut i: usize = 0;
    while i < v.len()
        invariant
            i <= v@.len(),
            out@ == v@.take(i as int),
        decreases v@.len() - i,
    {
        push_char(&mut out, v[i]);
        assert(v@.take(i as int).push(v@[i as int]) =~= v@.take(i + 1));
        i += 1;
    }
    assert(v@.take(v@.len() as int) =~= v@);
    out
}

/// Appends a string slice.
pub fn push_str(s: &mut String, t: &str)
    ensures
        final(s)@ == old(s)@ + t@,
{
    let cs = chars_of(t);
    let mut i: usize = 0;
    while i < cs.len()
        invariant
            i <= cs@.len(),
            cs@ == t@,
            s@ == old(s)@ + t@.take(i as int),
        decreases cs@.len() - i,
    {
        push_char(s, cs[i]);
        assert(old(s)@ + t@.take(i as int) + seq![t@[i as int]] =~= old(s)@ + t@.take(i + 1));
        i += 1;
    }
    assert(t@.take(t@.len() as int) =~= t@);
}

/// Whether `s` begins with `prefix`.
pub fn starts_with(s: &str, prefix: &str) -> (r: bool)
    ensures
        r == starts_with_spec(s@, prefix@),
{
    let a = chars_of(s);
    let b = chars_of(prefix);
    if b.len() > a.len() {
        return false;
    }
    let mut i: usize = 0;
    while i < b.len()
        invariant
            i <= b@.len() <= a@.len(),
            a@ == s@,
            b@ == prefix@,
            forall|j: int| 0 <= j < i ==> a@[j] == b@[j],
        decreases b@.len() - i,
    {
        if a[i] != b[i] {
            assert(s@.subrange(0, prefix@.len() as int)[i as int] != prefix@[i as int]);
            return false;
        }
        i += 1;
    }
    assert(s@.subrange(0, prefix@.len() as int) =~= prefix@);
    true
}

/// Splits at every occurrence of `sep`, as `str::split` does.
pub fn split(s: &str, sep: char) -> (r: Vec<String>)
    ensures
        r@.len() == split_spec(s@, sep).len(),
        forall|i: int| 0 <= i < r@.len() ==> #[trigger] r@[i]@ == split_spec(s@, sep)[i],
{
    let cs = chars_of(s);
    let mut done: Vec<String> = Vec::new();
    let mut cur: Vec<char> = Vec::new();
    let mut i: usize = 0;
    while i < cs.len()
        invariant
            i <= cs@.len(),
            cs@ == s@,
            done@.len() + 1 == split_spec(s@.take(i as int), sep).len(),
            forall|j: int| 0 <= j < done@.len() ==> #[trigger] done@[j]@ == split_spec(s@.take(i as int), sep)[j],
            cur@ == split_spec(s@.take(i as int), sep).last(),
        decreases cs@.len() - i,
    {
        let c = cs[i];
        assert(s@.take(i + 1).drop_last() =~= s@.take(i as int));
        if c == sep {
            let piece = string_from(cur.as_slice());
            done.push(piece);
            cur = Vec::new();
        } else {
            cur.push(c);
        }
        i += 1;
    }
    assert(s@.take(s@.len() as int) =~= s@);
    let last = string_from(cur.as_slice());
    done.push(last);
    done
}

/// Decimal text of `n`, zero-padded on the left to `width` characters.
pub fn u64_text_padded(n: u64, width: usize) -> (r: String)
    ensures
        r@ == zero_pad(decimal(n as nat), width as nat),
{
    let digits = u64_text(n);
    let mut out = String::new();
    let len = digits.as_str().unicode_len();
    let mut k: usize = len;
    proof {
        assert(out@ =~= Seq::new(0, |i: int| '0'));
    }
    while k < width
        invariant
            len == decimal(n as nat).len(),
            len <= k <= width || (k == len && width < len),
            out@ == Seq::new((k - len) as nat, |i: int| '0'),
        decreases width - k,
    {
        push_char(&mut out, '0');
        assert(out@ =~= Seq::new((k + 1 - len) as nat, |i: int| '0'));
        k += 1;
    }
    push_str(&mut out, digits.as_str());
    out
}

/// Left padding with zeros up to `width` characters.
pub open spec fn zero_pad(s: Seq<char>, width: nat) -> Seq<char> {
    if s.len() >= width {
        s
    } else {
        Seq::new((width - s.len()) as nat, |i: int| '0') + s
    }
}

// ============================================================
// LEMMAS
// ============================================================

/// The decimal text of a number is all digits and reads back as that number.
pub proof fn lemma_decimal_digits(n: nat)
    ensures
        decimal(n).len() > 0,
        all_digits(decimal(n)),
        digits_value(decimal(n)) == n,
        decimal(n)[0] != '+',
    decreases n,
{
    lemma_digit_char(n % 10);
    if n < 10 {
        assert(decimal(n).drop_last() =~= Seq::<char>::empty());
        assert(digits_value(Seq::<char>::empty()) == 0);
        assert(decimal(n).last() == digit_char(n));
        assert(digits_value(decimal(n)) == digits_value(decimal(n).drop_last()) * 10 + digit_value(decimal(n).last()));
    } else {
        lemma_decimal_digits(n / 10);
        let d = decimal(n / 10);
        assert(decimal(n).drop_last() =~= d);
        assert(decimal(n).last() == digit_char(n % 10));
        assert(n == (n / 10) * 10 + n % 10) by (nonlinear_arith);
        assert(digits_value(decimal(n)) == digits_value(d) * 10 + digit_value(digit_char(n % 10)));
        assert forall|i: int| 0 <= i < decimal(n).len() implies is_digit(#[trigger] decimal(n)[i]) by {
            if i < d.len() {
                assert(decimal(n)[i] == d[i]);
            }
        }
    }
}

pub proof fn lemma_digit_char(d: nat)
    requires
        d < 10,
    ensures
        is_digit(digit_char(d)),
        digit_value(digit_char(d)) == d,
{
}

/// Reading back a number written in decimal gives the number.
pub proof fn lemma_parse_decimal(n: nat, max: nat)
    requires
        n <= max,
    ensures
        parse_unsigned(decimal(n), max) == Some(n),
{
    lemma_decimal_digits(n);
}

/// `str::split` always yields at least one piece.
pub proof fn lemma_split_nonempty(s: Seq<char>, sep: char)
    ensures
        split_spec(s, sep).len() >= 1,
    decreases s.len(),
{
    if s.len() > 0 {
        lemma_split_nonempty(s.drop_last(), sep);
    }
}

/// Appending text without the separator extends the last piece.
pub proof fn lemma_split_append(x: Seq<char>, b: Seq<char>, sep: char)
    requires
        forall|i: int| 0 <= i < b.len() ==> b[i] != sep,
    ensures
        split_spec(x + b, sep) == split_spec(x, sep).update(split_spec(x, sep).len() - 1, split_spec(x, sep).last() + b),
    decreases b.len(),
{
    lemma_split_nonempty(x, sep);
    let sx = split_spec(x, sep);
    if b.len() == 0 {
        assert(x + b =~= x);
        assert(sx.last() + b =~= sx.last());
        assert(sx.update(sx.len() - 1, sx.last()) =~= sx);
    } else {
        let b0 = b.drop_last();
        lemma_split_append(x, b0, sep);
        assert((x + b).drop_last() =~= x + b0);
        assert((x + b).last() == b.last());
        let r = split_spec(x + b0, sep);
        assert(r == sx.update(sx.len() - 1, sx.last() + b0));
        assert((sx.last() + b0).push(b.last()) =~= sx.last() + b);
        assert(r.update(r.len() - 1, r.last().push(b.last())) =~= sx.update(sx.len() - 1, sx.last() + b));
    }
}

/// Splitting pieces joined with a separator they do not hold gives the pieces back.
pub proof fn lemma_split_join(p: Seq<Seq<char>>, sep: char)
    requires
        p.len() >= 1,
        forall|i: int, j: int| 0 <= i < p.len() && 0 <= j < p[i].len() ==> p[i][j] != sep,
    ensures
        split_spec(join_spec(p, sep), sep) == p,
    decreases p.len(),
{
    if p.len() == 1 {
        lemma_split_append(Seq::empty(), p[0], sep);
        assert(Seq::<char>::empty() + p[0] =~= p[0]);
        assert(split_spec(Seq::<char>::empty(), sep) =~= seq![Seq::<char>::empty()]);
        assert(Seq::<char>::empty() + p[0] =~= p[0]);
        assert(seq![Seq::<char>::empty()].update(0, Seq::<char>::empty() + p[0]) =~= p);
    } else {
        let q = p.drop_last();
        assert forall|i: int, j: int| 0 <= i < q.len() && 0 <= j < q[i].len() implies q[i][j] != sep by {
            assert(q[i] == p[i]);
        }
        lemma_split_join(q, sep);
        let x = join_spec(q, sep).push(sep);
        assert(x.drop_last() =~= join_spec(q, sep));
        assert(split_spec(x, sep) == q.push(Seq::<char>::empty()));
        assert forall|j: int| 0 <= j < p.last().len() implies p.last()[j] != sep by {
            assert(p[p.len() - 1] == p.last());
        }
        lemma_split_append(x, p.last(), sep);
        let sx = q.push(Seq::<char>::empty());
        assert(Seq::<char>::empty() + p.last() =~= p.last());
        assert(sx.update(sx.len() - 1, sx.last() + p.last()) =~= p);
    }
}

/// Joined pieces hold a character only where a piece or the separator does.
pub proof fn lemma_join_free(p: Seq<Seq<char>>, sep: char, c: char)
    requires
        c != sep,
        forall|i: int, j: int| 0 <= i < p.len() && 0 <= j < p[i].len() ==> p[i][j] != c,
    ensures
        forall|j: int| 0 <= j < join_spec(p, sep).len() ==> join_spec(p, sep)[j] != c,
    decreases p.len(),
{
    if p.len() == 1 {
        assert forall|j: int| 0 <= j < join_spec(p, sep).len() implies join_spec(p, sep)[j] != c by {
            assert(join_spec(p, sep) == p[0]);
        }
    } else if p.len() > 1 {
        let q = p.drop_last();
        assert forall|i: int, j: int| 0 <= i < q.len() && 0 <= j < q[i].len() implies q[i][j] != c by {
            assert(q[i] == p[i]);
        }
        lemma_join_free(q, sep, c);
        let a = join_spec(q, sep).push(sep);
        let l = p.last();
        assert(join_spec(p, sep) == a + l);
        assert forall|j: int| 0 <= j < join_spec(p, sep).len() implies join_spec(p, sep)[j] != c by {
            if j < a.len() {
                assert(join_spec(p, sep)[j] == a[j]);
            } else {
                assert(join_spec(p, sep)[j] == l[j - a.len()]);
                assert(p[p.len() - 1] == l);
            }
        }
    }
}

/// Joined pieces are at least as long as the separators and the last piece.
pub proof fn lemma_join_len(p: Seq<Seq<char>>, sep: char)
    requires
        p.len() >= 1,
    ensures
        join_spec(p, sep).len() >= p.len() - 1 + p.last().len(),
    decreases p.len(),
{
    if p.len() > 1 {
        lemma_join_len(p.drop_last(), sep);
    }
}

proof fn lemma_hex_digit(v: nat)
    requires
        v < 16,
    ensures
        is_hex_char(hex_digit(v)),
        hex_value(hex_digit(v)) == v,
{
    if v < 10 {
        lemma_digit_char(v);
    }
}

proof fn lemma_hex_encode_shape(b: Seq<u8>)
    ensures
        hex_encode_spec(b).len() == 2 * b.len(),
        forall|i: int| 0 <= i < b.len() ==> {
            &&& #[trigger] hex_encode_spec(b)[2 * i] == hex_digit((b[i] / 16) as nat)
            &&& hex_encode_spec(b)[2 * i + 1] == hex_digit((b[i] % 16) as nat)
        },
    decreases b.len(),
{
    if b.len() > 0 {
        let p = b.drop_last();
        lemma_hex_encode_shape(p);
        let e = hex_encode_spec(b);
        assert forall|i: int| 0 <= i < b.len() implies {
            &&& #[trigger] e[2 * i] == hex_digit((b[i] / 16) as nat)
            &&& e[2 * i + 1] == hex_digit((b[i] % 16) as nat)
        } by {
            if i < p.len() {
                assert(b[i] == p[i]);
                assert(hex_encode_spec(p)[2 * i] == hex_digit((p[i] / 16) as nat));
            }
        }
    }
}

/// Hex text has two digits per byte.
pub proof fn lemma_hex_len(b: Seq<u8>)
    ensures
        hex_encode_spec(b).len() == 2 * b.len(),
{
    lemma_hex_encode_shape(b);
}

/// Hex text reads back as the bytes it was written from.
pub proof fn lemma_hex_round_trip(b: Seq<u8>)
    ensures
        hex_decode_spec(hex_encode_spec(b)) == Some(b),
{
    lemma_hex_encode_shape(b);
    let e = hex_encode_spec(b);
    assert forall|i: int| 0 <= i < e.len() implies is_hex_char(#[trigger] e[i]) by {
        let k = i / 2;
        assert(0 <= k < b.len());
        lemma_hex_digit((b[k] / 16) as nat);
        lemma_hex_digit((b[k] % 16) as nat);
        if i % 2 == 0 {
            assert(i == 2 * k);
            assert(e[2 * k] == hex_digit((b[k] / 16) as nat));
        } else {
            assert(i == 2 * k + 1);
            assert(e[2 * k] == hex_digit((b[k] / 16) as nat));
        }
    }
    let d = Seq::new((e.len() / 2) as nat, |i: int| (hex_value(e[2 * i]) * 16 + hex_value(e[2 * i + 1])) as u8);
    assert forall|i: int| 0 <= i < b.len() implies d[i] == b[i] by {
        assert(e[2 * i] == hex_digit((b[i] / 16) as nat));
        lemma_hex_digit((b[i] / 16) as nat);
        lemma_hex_digit((b[i] % 16) as nat);
    }
    assert(d =~= b);
}

/// `k` is where `c` first occurs in `s`.
pub open spec fn is_first_index(s: Seq<char>, c: char, k: int) -> bool {
    &&& 0 <= k < s.len()
    &&& s[k] == c
    &&& forall|j: int| 0 <= j < k ==> s[j] != c
}

/// There is only one first occurrence.
pub proof fn lemma_first_index_unique(s: Seq<char>, c: char, k: int, m: int)
    requires
        is_first_index(s, c, k),
        is_first_index(s, c, m),
    ensures
        k == m,
{
    if k < m {
        assert(s[k] != c);
    } else if m < k {
        assert(s[m] != c);
    }
}

/// `str::split_once`: the text before the first `c` and the text after it,
/// or `None` when `c` does not occur.
pub fn split_once(s: &str, c: char) -> (r: Option<(String, String)>)
    ensures
        r is None <==> (forall|i: int| 0 <= i < s@.len() ==> s@[i] != c),
        r matches Some((a, b)) ==> exists|k: int| is_first_index(s@, c, k) && a@ == s@.take(k) && b@ == s@.skip(k + 1),
{
    let cs = chars_of(s);
    let mut i: usize = 0;
    while i < cs.len()
        invariant
            i <= cs@.len(),
            cs@ == s@,
            forall|j: int| 0 <= j < i ==> s@[j] != c,
        decreases cs@.len() - i,
    {
        if cs[i] == c {
            let mut head: Vec<char> = Vec::new();
            let mut k: usize = 0;
            while k < i
                invariant
                    k <= i < cs@.len(),
                    head@ == cs@.take(k as int),
                decreases i - k,
            {
                head.push(cs[k]);
                assert(cs@.take(k as int).push(cs@[k as int]) =~= cs@.take(k + 1));
                k += 1;
            }
            let mut tail: Vec<char> = Vec::new();
            let mut m: usize = i + 1;
            while m < cs.len()
                invariant
                    i < m <= cs@.len(),
                    tail@ == cs@.subrange(i + 1, m as int),
                decreases cs@.len() - m,
            {
                tail.push(cs[m]);
                assert(cs@.subrange(i + 1, m as int).push(cs@[m as int]) =~= cs@.subrange(i + 1, m + 1));
                m += 1;
            }
            let a = string_from(head.as_slice());
            let b = string_from(tail.as_slice());
            assert(is_first_index(s@, c, i as int));
            assert(cs@.subrange(i + 1, cs@.len() as int) =~= s@.skip(i + 1));
            return Some((a, b));
        }
        i += 1;
    }
    None
}

/// Lexicographic order on text, by code point: the order of `str`'s `<`.
pub open spec fn lex_lt(a: Seq<char>, b: Seq<char>) -> bool
    decreases a.len(),
{
    if a.len() == 0 {
        b.len() > 0
    } else if b.len() == 0 {
        false
    } else if a[0] != b[0] {
        a[0] < b[0]
    } else {
        lex_lt(a.drop_first(), b.drop_first())
    }
}

/// No text comes before itself.
pub proof fn lemma_lex_irreflexive(a: Seq<char>)
    ensures
        !lex_lt(a, a),
    decreases a.len(),
{
    if a.len() > 0 {
        lemma_lex_irreflexive(a.drop_first());
    }
}

/// Of two different texts, one comes first, and not both.
pub proof fn lemma_lex_total(a: Seq<char>, b: Seq<char>)
    ensures
        a != b ==> (lex_lt(a, b) || lex_lt(b, a)),
        !(lex_lt(a, b) && lex_lt(b, a)),
    decreases a.len(),
{
    if a.len() > 0 && b.len() > 0 && a[0] == b[0] {
        lemma_lex_total(a.drop_first(), b.drop_first());
        if a != b {
            assert(a.drop_first() != b.drop_first()) by {
                if a.drop_first() == b.drop_first() {
                    assert(a =~= seq![a[0]] + a.drop_first());
                    assert(b =~= seq![b[0]] + b.drop_first());
                }
            }
        }
    } else if a.len() == 0 && b.len() == 0 {
        assert(a =~= b);
    }
}

pub proof fn lemma_lex_transitive(a: Seq<char>, b: Seq<char>, c: Seq<char>)
    requires
        lex_lt(a, b),
        lex_lt(b, c),
    ensures
        lex_lt(a, c),
    decreases a.len(),
{
    if a.len() > 0 && b.len() > 0 && c.len() > 0 && a[0] == b[0] && b[0] == c[0] {
        lemma_lex_transitive(a.drop_first(), b.drop_first(), c.drop_first());
    }
}

/// Whether `a` comes before `b` in lexicographic order.
pub fn text_lt(a: &str, b: &str) -> (r: bool)
    ensures
        r == lex_lt(a@, b@),
{
    let x = chars_of(a);
    let y = chars_of(b);
    let mut i: usize = 0;
    assert(a@.skip(0) =~= a@);
    assert(b@.skip(0) =~= b@);
    while i < x.len() && i < y.len()
        invariant
            i <= x@.len(),
            i <= y@.len(),
            x@ == a@,
            y@ == b@,
            lex_lt(a@, b@) == lex_lt(a@.skip(i as int), b@.skip(i as int)),
        decreases x@.len() - i,
    {
        assert(a@.skip(i as int)[0] == x@[i as int]);
        assert(b@.skip(i as int)[0] == y@[i as int]);
        if x[i] != y[i] {
            return x[i] < y[i];
        }
        assert(a@.skip(i as int).drop_first() =~= a@.skip(i + 1));
        assert(b@.skip(i as int).drop_first() =~= b@.skip(i + 1));
        i += 1;
    }
    i < y.len()
}

pub open spec fn ascii_lower_char(c: char) -> char {
    if 'A' <= c && c <= 'Z' { ((c as u32) + 32) as char } else { c }
}

/// `str::to_ascii_lowercase`.
pub open spec fn ascii_lower(s: Seq<char>) -> Seq<char> {
    s.map_values(|c: char| ascii_lower_char(c))
}

/// The text with ASCII letters in lower case, others unchanged.
pub fn to_ascii_lower(s: &str) -> (r: String)
    ensures
        r@ == ascii_lower(s@),
{
    let cs = chars_of(s);
    let mut out = String::new();
    let mut i: usize = 0;
    while i < cs.len()
        invariant
            i <= cs@.len(),
            cs@ == s@,
            out@ == ascii_lower(s@).take(i as int),
        decreases cs@.len() - i,
    {
        let c = cs[i];
        let d = if 'A' <= c && c <= 'Z' { ((c as u32) + 32) as u8 as char } else { c };
        assert(d == ascii_lower_char(c)) by {
            if 'A' <= c && c <= 'Z' {
                assert(((c as u32) + 32) as u8 as char == ((c as u32) + 32) as char);
            }
        }
        push_char(&mut out, d);
        assert(ascii_lower(s@).take(i + 1) =~= ascii_lower(s@).take(i as int).push(d));
        i += 1;
    }
    assert(ascii_lower(s@).take(cs@.len() as int) =~= ascii_lower(s@));
    out
}

/// The text with ASCII letters in upper case, others unchanged.
pub fn to_ascii_upper(s: &str) -> (r: String)
    ensures
        r@ == ascii_upper(s@),
{
    let cs = chars_of(s);
    let mut out = String::new();
    let mut i: usize = 0;
    while i < cs.len()
        invariant
            i <= cs@.len(),
            cs@ == s@,
            out@ == ascii_upper(s@).take(i as int),
        decreases cs@.len() - i,
    {
        let c = cs[i];
        let d = if 'a' <= c && c <= 'z' { ((c as u32) - 32) as u8 as char } else { c };
        assert(d == ascii_upper_char(c)) by {
            if 'a' <= c && c <= 'z' {
                assert(((c as u32) - 32) as u8 as char == ((c as u32) - 32) as char);
            }
        }
        push_char(&mut out, d);
        assert(ascii_upper(s@).take(i + 1) =~= ascii_upper(s@).take(i as int).push(d));
        i += 1;
    }
    assert(ascii_upper(s@).take(cs@.len() as int) =~= ascii_upper(s@));
    out
}

/// `str::parse::<usize>`: an optional `+` and decimal digits that fit in `usize`.
#[verifier::external_body]
pub fn parse_usize(s: &str) -> (r: Option<usize>)
    ensures
        r matches Some(v) ==> parse_unsigned(s@, usize::MAX as nat) == Some(v as nat),
        r is None ==> parse_unsigned(s@, usize::MAX as nat) is None,
{
    s.parse::<usize>().ok()
}

/// Trimming never lengthens a text.
pub proof fn lemma_trim_shorter(s: Seq<char>)
    ensures
        trim_start_spec(s).len() <= s.len(),
        trim_end_spec(s).len() <= s.len(),
    decreases s.len(),
{
    if s.len() > 0 {
        lemma_trim_shorter(s.drop_first());
        lemma_trim_shorter(s.drop_last());
    }
}

/// A text that trimming leaves alone, when not empty, begins and ends with
/// characters that are not white space.
pub proof fn lemma_trimmed_ends(s: Seq<char>)
    requires
        s.len() > 0,
        trim_spec(s) == s,
    ensures
        !is_whitespace(s[0]),
        !is_whitespace(s.last()),
        trim_start_spec(s) == s,
        trim_end_spec(s) == s,
{
    lemma_trim_shorter(s);
    lemma_trim_shorter(s.drop_first());
    lemma_trim_shorter(trim_start_spec(s));
    if is_whitespace(s[0]) {
        assert(trim_start_spec(s) == trim_start_spec(s.drop_first()));
        assert(trim_spec(s).len() < s.len());
    }
    assert(trim_start_spec(s) == s);
    lemma_trim_shorter(s.drop_last());
    if is_whitespace(s.last()) {
        assert(trim_end_spec(s) == trim_end_spec(s.drop_last()));
        assert(trim_spec(s).len() < s.len());
    }
}

/// A number below `10^k` (k ≥ 1) has at most `k` decimal digits.
pub proof fn lemma_decimal_len(n: nat, k: nat)
    requires
        k >= 1,
        n < pow(10, k),
    ensures
        decimal(n).len() <= k,
    decreases n,
{
    reveal(pow);
    if n >= 10 {
        assert(k >= 2) by {
            if k == 1 {
                assert(pow(10, 1) == 10 * pow(10, 0));
                assert(pow(10, 0) == 1);
            }
        }
        assert(pow(10, k) == 10 * pow(10, (k - 1) as nat));
        assert(n / 10 < pow(10, (k - 1) as nat));
        lemma_decimal_len(n / 10, (k - 1) as nat);
    }
}

/// Zeros in front leave the value of digits as it is.
pub proof fn lemma_leading_zeros(z: nat, s: Seq<char>)
    ensures
        digits_value(Seq::new(z, |i: int| '0') + s) == digits_value(s),
    decreases s.len(), z,
{
    let zs = Seq::new(z, |i: int| '0');
    if s.len() == 0 {
        assert(zs + s =~= zs);
        if z > 0 {
            assert(zs.drop_last() =~= Seq::new((z - 1) as nat, |i: int| '0'));
            lemma_leading_zeros((z - 1) as nat, s);
            assert(Seq::new((z - 1) as nat, |i: int| '0') + s =~= Seq::new((z - 1) as nat, |i: int| '0'));
        }
    } else {
        assert((zs + s).drop_last() =~= zs + s.drop_last());
        lemma_leading_zeros(z, s.drop_last());
    }
}

} // verus!
