//! The state file: the height on the first line, then each account as
//! `A|address|nonce|stake` followed by its balances as
//! `B|address|asset|amount`. An older format, `address|balance|nonce|stake`
//! with the balance in PEP, is still read.
use vstd::prelude::*;
use crate::blockchain::asset::{lemma_core_upper, AssetId, PEP};
use crate::assoc::to_map;
use crate::blockchain::state::{
    account_entry, core_definitions, held_map, lemma_height_apart, stake_of, Account, AccountView, State,
};
use crate::blockchain::storage::chain_store::text_lines;
use crate::text::{
    decimal, parse_u64, parse_unsigned, push_char, push_str, split, split_spec, str_eq, u64_text, unicode_upper,
};
use crate::wallet::Address;

verus! {

pub open spec fn balance_line(address: Seq<char>, e: (AssetId, u64)) -> Seq<char> {
    "B|"@ + address + seq!['|'] + e.0@ + seq!['|'] + decimal(e.1 as nat)
}

/// The lines of an account: its `A` line, then a `B` line per balance entry.
pub open spec fn account_lines(a: Account) -> Seq<Seq<char>> {
    seq!["A|"@ + a.address@ + seq!['|'] + decimal(a.nonce as nat) + seq!['|'] + decimal(a.stake as nat)]
        + a.balances@.map_values(|e: (AssetId, u64)| balance_line(a.address@, e))
}

pub open spec fn accounts_text(accounts: Seq<Account>) -> Seq<char>
    decreases accounts.len(),
{
    if accounts.len() == 0 {
        Seq::empty()
    } else {
        accounts_text(accounts.drop_last()) + lines_text(account_lines(accounts.last()))
    }
}

/// The file text of a state: each line followed by a line feed.
pub open spec fn state_text(s: State) -> Seq<char> {
    decimal(s.height as nat) + seq!['\n'] + accounts_text(s.accounts@)
}

pub open spec fn lines_text(lines: Seq<Seq<char>>) -> Seq<char>
    decreases lines.len(),
{
    if lines.len() == 0 { Seq::empty() } else { lines_text(lines.drop_last()) + lines.last() + seq!['\n'] }
}

/// A number field: its value, or zero when it is not a `u64`.
pub open spec fn number_or_zero(s: Seq<char>) -> u64 {
    match parse_unsigned(s, u64::MAX as nat) {
        Some(v) => v as u64,
        None => 0,
    }
}

/// The accounts after reading one line of the state file.
pub open spec fn apply_line(m: Map<Seq<char>, AccountView>, line: Seq<char>) -> Map<Seq<char>, AccountView> {
    let p = split_spec(line, '|');
    if p.len() != 4 {
        m
    } else if p[0] == "A"@ {
        m.insert(p[1], (Map::empty(), number_or_zero(p[2]), number_or_zero(p[3])))
    } else if p[0] == "B"@ {
        m.insert(p[1], (held_map(m, p[1]).insert(unicode_upper(p[2]), number_or_zero(p[3])),
            if m.contains_key(p[1]) { m[p[1]].1 } else { 0 }, stake_of(m, p[1])))
    } else {
        let balance = number_or_zero(p[1]);
        m.insert(p[0], (if balance > 0 { Map::empty().insert("PEP"@, balance) } else { Map::empty() },
            number_or_zero(p[2]), number_or_zero(p[3])))
    }
}

pub open spec fn apply_lines(m: Map<Seq<char>, AccountView>, lines: Seq<Seq<char>>) -> Map<Seq<char>, AccountView>
    decreases lines.len(),
{
    if lines.len() == 0 { m } else { apply_line(apply_lines(m, lines.drop_last()), lines.last()) }
}

/// What a state file reads as: the height of its first line and the
/// accounts its other lines give, over the core assets; `None` when there
/// is no first line holding a `u64`.
pub open spec fn parsed_state(text: Seq<char>) -> Option<(u64, Map<Seq<char>, AccountView>)> {
    let l = text_lines(text);
    if l.len() == 0 || parse_unsigned(l[0], u64::MAX as nat) is None || (l.len() == 1 && l[0].len() == 0) {
        None
    } else {
        Some((parse_unsigned(l[0], u64::MAX as nat)->0 as u64, apply_lines(Map::empty(), l.skip(1))))
    }
}

pub struct StateStore;

impl StateStore {
    /// The file text of a state (what `save` writes).
    pub fn text(state: &State) -> (r: String)
        ensures
            r@ == state_text(*state),
    {
        let mut out = u64_text(state.height);
        push_char(&mut out, '\n');
        let ghost head = out@;
        assert(state.accounts@.take(0) =~= Seq::<Account>::empty());
        let mut i: usize = 0;
        while i < state.accounts.len()
            invariant
                i <= state.accounts@.len(),
                head == decimal(state.height as nat) + seq!['\n'],
                out@ == head + accounts_text(state.accounts@.take(i as int)),
            decreases state.accounts@.len() - i,
        {
            StateStore::write_account(&mut out, &state.accounts[i]);
            assert(state.accounts@.take(i + 1).drop_last() =~= state.accounts@.take(i as int));
            assert(state.accounts@.take(i + 1).last() == state.accounts@[i as int]);
            i += 1;
        }
        assert(state.accounts@.take(state.accounts@.len() as int) =~= state.accounts@);
        out
    }

    fn write_account(out: &mut String, a: &Account)
        ensures
            final(out)@ == old(out)@ + lines_text(account_lines(*a)),
    {
        let mut line = "A|".to_string();
        push_str(&mut line, a.address.as_str());
        push_char(&mut line, '|');
        push_str(&mut line, u64_text(a.nonce).as_str());
        push_char(&mut line, '|');
        push_str(&mut line, u64_text(a.stake).as_str());
        push_str(out, line.as_str());
        push_char(out, '\n');
        let ghost done: Seq<Seq<char>> = seq![line@];
        proof {
            lemma_lines_text_push(Seq::empty(), line@);
            assert(Seq::<Seq<char>>::empty().push(line@) =~= done);
            assert(line@ =~= account_lines(*a)[0]);
            assert(done + a.balances@.take(0).map_values(|e: (AssetId, u64)| balance_line(a.address@, e)) =~= done);
        }
        let mut k: usize = 0;
        while k < a.balances.len()
            invariant
                k <= a.balances@.len(),
                done == seq![account_lines(*a)[0]],
                out@ == old(out)@ + lines_text(done + a.balances@.take(k as int).map_values(|e: (AssetId, u64)| balance_line(a.address@, e))),
            decreases a.balances@.len() - k,
        {
            let mut b = "B|".to_string();
            push_str(&mut b, a.address.as_str());
            push_char(&mut b, '|');
            push_str(&mut b, a.balances[k].0.as_str());
            push_char(&mut b, '|');
            push_str(&mut b, u64_text(a.balances[k].1).as_str());
            let ghost prev = done + a.balances@.take(k as int).map_values(|e: (AssetId, u64)| balance_line(a.address@, e));
            push_str(out, b.as_str());
            push_char(out, '\n');
            proof {
                assert(b@ == balance_line(a.address@, a.balances@[k as int]));
                lemma_lines_text_push(prev, b@);
                assert(prev.push(b@) =~= done + a.balances@.take(k + 1).map_values(|e: (AssetId, u64)| balance_line(a.address@, e)));
            }
            k += 1;
        }
        assert(a.balances@.take(a.balances@.len() as int) =~= a.balances@);
        assert(done + a.balances@.map_values(|e: (AssetId, u64)| balance_line(a.address@, e)) =~= account_lines(*a));
    }

    /// The state a file text holds (what `load` computes from the file).
    pub fn parse(text: &str) -> (r: Option<State>)
        ensures
            match r {
                Some(s) => s.wf() && parsed_state(text@) == Some((s.height, s.view())) && s.definitions() == core_definitions(),
                None => parsed_state(text@) is None,
            },
    {
        let pieces = split(text, '\n');
        let ghost p = split_spec(text@, '\n');
        let ghost l = text_lines(text@);
        let n = pieces.len();
        let mut lines: Vec<String> = Vec::new();
        let mut i: usize = 0;
        while i < n
            invariant
                i <= n == pieces@.len() == p.len(),
                p == split_spec(text@, '\n'),
                l == text_lines(text@),
                forall|j: int| 0 <= j < pieces@.len() ==> #[trigger] pieces@[j]@ == p[j],
                lines@.len() == i,
                forall|j: int| 0 <= j < i ==> #[trigger] lines@[j]@ == l[j],
            decreases n - i,
        {
            let piece = pieces[i].as_str();
            let len = piece.unicode_len();
            let line: String = if i + 1 < n && len > 0 && piece.get_char(len - 1) == '\r' {
                piece.substring_char(0, len - 1).to_string()
            } else {
                piece.to_string()
            };
            assert(line@ == l[i as int]) by {
                if i + 1 < n && len > 0 && p[i as int].last() == '\r' {
                    assert(line@ =~= p[i as int].drop_last());
                }
            }
            lines.push(line);
            i += 1;
        }
        if n == 0 || (n == 1 && lines[0].as_str().unicode_len() == 0) {
            return None;
        }
        let height = parse_u64(lines[0].as_str())?;
        let mut state = State::new();
        let ghost fresh = state;
        state.height = height;
        proof {
            lemma_height_apart(fresh, state);
        }
        let ghost rest = l.skip(1);
        let mut k: usize = 1;
        while k < n
            invariant
                1 <= k <= n == lines@.len() == l.len(),
                rest == l.skip(1),
                forall|j: int| 0 <= j < n ==> #[trigger] lines@[j]@ == l[j],
                state.wf(),
                state.height == height,
                state.definitions() == core_definitions(),
                state.view() == apply_lines(Map::empty(), rest.take(k - 1)),
            decreases n - k,
        {
            StateStore::read_line(&mut state, lines[k].as_str());
            assert(rest.take(k as int).drop_last() =~= rest.take(k - 1));
            assert(rest.take(k as int).last() == l[k as int]);
            k += 1;
        }
        assert(rest.take(n - 1) =~= rest);
        Some(state)
    }

    fn read_line(state: &mut State, line: &str)
        requires
            old(state).wf(),
        ensures
            final(state).wf(),
            final(state).height == old(state).height,
            final(state).definitions() == old(state).definitions(),
            final(state).view() == apply_line(old(state).view(), line@),
    {
        let parts = split(line, '|');
        if parts.len() != 4 {
            return;
        }
        proof {
            reveal_strlit("A");
            reveal_strlit("B");
        }
        if str_eq(parts[0].as_str(), "A") {
            let address = Address::new(parts[1].clone());
            let account = Account::with_counters(address, number_field(parts[2].as_str()), number_field(parts[3].as_str()));
            state.replace_account(account);
            return;
        }
        if str_eq(parts[0].as_str(), "B") {
            let address = Address::new(parts[1].clone());
            let asset = AssetId::new(parts[2].as_str());
            let amount = number_field(parts[3].as_str());
            state.set_holding(&address, &asset, amount);
            return;
        }
        let address = Address::new(parts[0].clone());
        let balance = number_field(parts[1].as_str());
        let mut account = Account::with_counters(address, number_field(parts[2].as_str()), number_field(parts[3].as_str()));
        if balance > 0 {
            let pep = AssetId::new(PEP);
            proof {
                lemma_core_upper("PEP"@);
            }
            account.set_balance(&pep, balance);
        }
        state.replace_account(account);
    }
}

/// A number field read as `u64`, zero when it is not one.
fn number_field(s: &str) -> (r: u64)
    ensures
        r == number_or_zero(s@),
{
    match parse_u64(s) {
        Some(v) => v,
        None => 0,
    }
}

proof fn lemma_lines_text_push(lines: Seq<Seq<char>>, line: Seq<char>)
    ensures
        lines_text(lines.push(line)) == lines_text(lines) + line + seq!['\n'],
{
    assert(lines.push(line).drop_last() =~= lines);
}

/// The lines of a list of accounts, one account after another.
pub open spec fn accounts_lines(accounts: Seq<Account>) -> Seq<Seq<char>>
    decreases accounts.len(),
{
    if accounts.len() == 0 {
        Seq::empty()
    } else {
        accounts_lines(accounts.drop_last()) + account_lines(accounts.last())
    }
}

proof fn lemma_lines_text_concat(x: Seq<Seq<char>>, y: Seq<Seq<char>>)
    ensures
        lines_text(x + y) == lines_text(x) + lines_text(y),
    decreases y.len(),
{
    if y.len() == 0 {
        assert(x + y =~= x);
        assert(lines_text(x) + lines_text(y) =~= lines_text(x));
    } else {
        lemma_lines_text_concat(x, y.drop_last());
        assert((x + y).drop_last() =~= x + y.drop_last());
        assert((x + y).last() == y.last());
    }
}

proof fn lemma_accounts_text(accounts: Seq<Account>)
    ensures
        accounts_text(accounts) == lines_text(accounts_lines(accounts)),
    decreases accounts.len(),
{
    if accounts.len() > 0 {
        lemma_accounts_text(accounts.drop_last());
        lemma_lines_text_concat(accounts_lines(accounts.drop_last()), account_lines(accounts.last()));
    }
}

/// The pieces of a text of lines at line feeds: the lines, then an empty piece.
proof fn lemma_lines_pieces(lines: Seq<Seq<char>>)
    requires
        forall|i: int, j: int| 0 <= i < lines.len() && 0 <= j < lines[i].len() ==> lines[i][j] != '\n',
    ensures
        split_spec(lines_text(lines), '\n') == lines.push(Seq::<char>::empty()),
    decreases lines.len(),
{
    if lines.len() == 0 {
        assert(lines_text(lines) =~= Seq::<char>::empty());
        assert(lines.push(Seq::<char>::empty()) =~= seq![Seq::<char>::empty()]);
    } else {
        let d = lines.drop_last();
        assert forall|i: int, j: int| 0 <= i < d.len() && 0 <= j < d[i].len() implies d[i][j] != '\n' by {
            assert(d[i] == lines[i]);
        }
        lemma_lines_pieces(d);
        let x = lines_text(d);
        let l = lines.last();
        assert forall|j: int| 0 <= j < l.len() implies l[j] != '\n' by {
            assert(lines[lines.len() - 1] == l);
        }
        crate::text::lemma_split_append(x, l, '\n');
        assert(split_spec(x, '\n').last() + l =~= l);
        let y = x + l;
        assert(lines_text(lines) == y.push('\n'));
        assert(y.push('\n').drop_last() =~= y);
        assert(split_spec(y, '\n') =~= lines);
    }
}

proof fn lemma_apply_concat(m: Map<Seq<char>, AccountView>, x: Seq<Seq<char>>, y: Seq<Seq<char>>)
    ensures
        apply_lines(m, x + y) == apply_lines(apply_lines(m, x), y),
    decreases y.len(),
{
    if y.len() == 0 {
        assert(x + y =~= x);
    } else {
        lemma_apply_concat(m, x, y.drop_last());
        assert((x + y).drop_last() =~= x + y.drop_last());
        assert((x + y).last() == y.last());
    }
}

/// A text field of the state file: no `|`, line feed or carriage return.
pub open spec fn state_field(s: Seq<char>) -> bool {
    crate::pepdex::order_journal::free_of(s, '|') && crate::pepdex::order_journal::free_of(s, '\n')
        && crate::pepdex::order_journal::free_of(s, '\r')
}

/// An account the state file holds faithfully: its address and asset
/// symbols are state fields and its symbols are already in upper case.
pub open spec fn storable_account(a: Account) -> bool {
    &&& state_field(a.address@)
    &&& forall|k: int| 0 <= k < a.balances@.len() ==> state_field((#[trigger] a.balances@[k]).0@)
        && unicode_upper(a.balances@[k].0@) == a.balances@[k].0@
}

proof fn lemma_four_fields(a: Seq<char>, b: Seq<char>, c: Seq<char>, d: Seq<char>)
    requires
        crate::pepdex::order_journal::free_of(a, '|'),
        crate::pepdex::order_journal::free_of(b, '|'),
        crate::pepdex::order_journal::free_of(c, '|'),
        crate::pepdex::order_journal::free_of(d, '|'),
    ensures
        split_spec(a + seq!['|'] + b + seq!['|'] + c + seq!['|'] + d, '|') == seq![a, b, c, d],
{
    let p = seq![a, b, c, d];
    assert forall|i: int, j: int| 0 <= i < p.len() && 0 <= j < p[i].len() implies p[i][j] != '|' by {}
    crate::text::lemma_split_join(p, '|');
    let p3 = seq![a, b, c];
    let p2 = seq![a, b];
    assert(p.drop_last() =~= p3);
    assert(p3.drop_last() =~= p2);
    assert(p2.drop_last() =~= seq![a]);
    assert(crate::text::join_spec(seq![a], '|') == a);
    assert(p2.last() == b && p3.last() == c && p.last() == d);
    assert(crate::text::join_spec(p2, '|') =~= a + seq!['|'] + b);
    assert(crate::text::join_spec(p3, '|') =~= a + seq!['|'] + b + seq!['|'] + c);
    assert(crate::text::join_spec(p, '|') =~= a + seq!['|'] + b + seq!['|'] + c + seq!['|'] + d);
}

proof fn lemma_digits_plain(n: nat)
    ensures
        state_field(decimal(n)),
        decimal(n).len() > 0,
        decimal(n).last() != '\r',
{
    crate::text::lemma_decimal_digits(n);
    assert forall|i: int| 0 <= i < decimal(n).len() implies decimal(n)[i] != '|' && decimal(n)[i] != '\n' && decimal(n)[i] != '\r' by {
        assert(crate::text::is_digit(decimal(n)[i]));
    }
    assert(crate::text::is_digit(decimal(n)[decimal(n).len() - 1]));
}

/// Reading the first `k` balance lines of an account after its `A` line.
proof fn lemma_balance_lines(m: Map<Seq<char>, AccountView>, a: Account, k: int)
    requires
        storable_account(a),
        0 <= k <= a.balances@.len(),
    ensures
        apply_lines(m.insert(a.address@, (Map::<Seq<char>, u64>::empty(), a.nonce, a.stake)),
            a.balances@.map_values(|e: (AssetId, u64)| balance_line(a.address@, e)).take(k))
            == m.insert(a.address@, (to_map(a.balances@.map_values(|e: (AssetId, u64)| crate::blockchain::state::holding_entry(e)).take(k)),
                a.nonce, a.stake)),
    decreases k,
{
    let addr = a.address@;
    let entries = a.balances@.map_values(|e: (AssetId, u64)| crate::blockchain::state::holding_entry(e));
    let bl = a.balances@.map_values(|e: (AssetId, u64)| balance_line(addr, e));
    let m1 = m.insert(addr, (Map::<Seq<char>, u64>::empty(), a.nonce, a.stake));
    if k == 0 {
        assert(entries.take(0) =~= Seq::<(Seq<char>, u64)>::empty());
        assert(bl.take(0) =~= Seq::<Seq<char>>::empty());
        assert(to_map(entries.take(0)) == Map::<Seq<char>, u64>::empty());
    } else {
        lemma_balance_lines(m, a, k - 1);
        reveal_strlit("A");
        reveal_strlit("B");
        reveal_strlit("B|");
        assert("A"@ != "B"@) by {
            assert("A"@[0] != "B"@[0]);
        }
        let e = a.balances@[k - 1];
        let line = balance_line(addr, e);
        lemma_digits_plain(e.1 as nat);
        assert(crate::pepdex::order_journal::free_of("B"@, '|'));
        assert(state_field(e.0@));
        lemma_four_fields("B"@, addr, e.0@, decimal(e.1 as nat));
        assert(line =~= "B"@ + seq!['|'] + addr + seq!['|'] + e.0@ + seq!['|'] + decimal(e.1 as nat));
        crate::text::lemma_parse_decimal(e.1 as nat, u64::MAX as nat);
        assert(bl.take(k).drop_last() =~= bl.take(k - 1));
        assert(bl.take(k).last() == line);
        assert(entries.take(k).drop_last() =~= entries.take(k - 1));
        assert(entries.take(k).last() == (e.0@, e.1));
        assert(unicode_upper(e.0@) == e.0@);
    }
}

/// Reading an account's lines puts the account in.
proof fn lemma_account_apply(m: Map<Seq<char>, AccountView>, a: Account)
    requires
        storable_account(a),
    ensures
        apply_lines(m, account_lines(a)) == m.insert(a.address@, (
            to_map(a.balances@.map_values(|e: (AssetId, u64)| crate::blockchain::state::holding_entry(e))), a.nonce, a.stake)),
{
    reveal_strlit("A");
    reveal_strlit("B");
    reveal_strlit("A|");
    assert("A"@ != "B"@) by {
        assert("A"@[0] != "B"@[0]);
    }
    let addr = a.address@;
    let entries = a.balances@.map_values(|e: (AssetId, u64)| crate::blockchain::state::holding_entry(e));
    let bl = a.balances@.map_values(|e: (AssetId, u64)| balance_line(addr, e));
    let al = "A|"@ + addr + seq!['|'] + decimal(a.nonce as nat) + seq!['|'] + decimal(a.stake as nat);
    lemma_digits_plain(a.nonce as nat);
    lemma_digits_plain(a.stake as nat);
    assert(crate::pepdex::order_journal::free_of("A"@, '|'));
    lemma_four_fields("A"@, addr, decimal(a.nonce as nat), decimal(a.stake as nat));
    assert(al =~= "A"@ + seq!['|'] + addr + seq!['|'] + decimal(a.nonce as nat) + seq!['|'] + decimal(a.stake as nat));
    crate::text::lemma_parse_decimal(a.nonce as nat, u64::MAX as nat);
    crate::text::lemma_parse_decimal(a.stake as nat, u64::MAX as nat);
    assert(account_lines(a) =~= seq![al] + bl);
    lemma_apply_concat(m, seq![al], bl);
    assert(seq![al].drop_last() =~= Seq::<Seq<char>>::empty());
    let m1 = apply_lines(m, seq![al]);
    assert(apply_lines(m, Seq::<Seq<char>>::empty()) == m);
    assert(seq![al].last() == al);
    assert(m1 == apply_line(m, al));
    assert(split_spec(al, '|') == seq!["A"@, addr, decimal(a.nonce as nat), decimal(a.stake as nat)]);
    assert(number_or_zero(decimal(a.nonce as nat)) == a.nonce);
    assert(number_or_zero(decimal(a.stake as nat)) == a.stake);
    assert(m1 == m.insert(addr, (Map::<Seq<char>, u64>::empty(), a.nonce, a.stake)));
    assert(bl.take(a.balances@.len() as int) =~= bl);
    assert(entries.take(a.balances@.len() as int) =~= entries);
    lemma_balance_lines(m, a, a.balances@.len() as int);
    assert(bl.take(a.balances@.len() as int) =~= bl);
    assert(entries.take(a.balances@.len() as int) =~= entries);
}

/// The lines of a storable account hold no line feed and end in a digit.
proof fn lemma_account_lines_plain(a: Account)
    requires
        storable_account(a),
    ensures
        forall|i: int| 0 <= i < account_lines(a).len() ==> state_line(#[trigger] account_lines(a)[i]),
{
    reveal_strlit("A|");
    reveal_strlit("B|");
    let addr = a.address@;
    lemma_digits_plain(a.nonce as nat);
    lemma_digits_plain(a.stake as nat);
    let l = account_lines(a);
    assert forall|i: int| 0 <= i < l.len() implies state_line(#[trigger] l[i]) by {
        if i == 0 {
            let x = l[0];
            assert(x == "A|"@ + addr + seq!['|'] + decimal(a.nonce as nat) + seq!['|'] + decimal(a.stake as nat));
            assert forall|j: int| 0 <= j < x.len() implies x[j] != '\n' by {
                let n1 = "A|"@.len() + addr.len();
                let n2 = n1 + 1 + decimal(a.nonce as nat).len();
                if j < 2 {
                } else if j < n1 {
                    assert(x[j] == addr[j - 2]);
                } else if j == n1 {
                } else if j < n2 {
                    assert(x[j] == decimal(a.nonce as nat)[j - n1 - 1]);
                } else if j == n2 {
                } else {
                    assert(x[j] == decimal(a.stake as nat)[j - n2 - 1]);
                }
            }
            assert(x.last() == decimal(a.stake as nat).last());
        } else {
            let e = a.balances@[i - 1];
            assert(state_field(e.0@));
            lemma_digits_plain(e.1 as nat);
            let x = l[i];
            assert(x == balance_line(addr, e));
            assert forall|j: int| 0 <= j < x.len() implies x[j] != '\n' by {
                let n1 = "B|"@.len() + addr.len();
                let n2 = n1 + 1 + e.0@.len();
                if j < 2 {
                } else if j < n1 {
                    assert(x[j] == addr[j - 2]);
                } else if j == n1 {
                } else if j < n2 {
                    assert(x[j] == e.0@[j - n1 - 1]);
                } else if j == n2 {
                } else {
                    assert(x[j] == decimal(e.1 as nat)[j - n2 - 1]);
                }
            }
            assert(x.last() == decimal(e.1 as nat).last());
        }
    }
}

/// A line of the state file: no line feed, and not ending in a carriage
/// return.
pub open spec fn state_line(l: Seq<char>) -> bool {
    crate::pepdex::order_journal::free_of(l, '\n') && l.len() > 0 && l.last() != '\r'
}

proof fn lemma_accounts_lines_plain(accounts: Seq<Account>)
    requires
        forall|i: int| 0 <= i < accounts.len() ==> storable_account(#[trigger] accounts[i]),
    ensures
        forall|i: int| 0 <= i < accounts_lines(accounts).len() ==> state_line(#[trigger] accounts_lines(accounts)[i]),
    decreases accounts.len(),
{
    if accounts.len() > 0 {
        let d = accounts.drop_last();
        assert forall|i: int| 0 <= i < d.len() implies storable_account(#[trigger] d[i]) by {
            assert(d[i] == accounts[i]);
        }
        lemma_accounts_lines_plain(d);
        assert(storable_account(accounts[accounts.len() - 1]));
        lemma_account_lines_plain(accounts.last());
        let x = accounts_lines(d);
        let y = account_lines(accounts.last());
        assert forall|i: int| 0 <= i < (x + y).len() implies state_line(#[trigger] (x + y)[i]) by {
            if i < x.len() {
                assert((x + y)[i] == x[i]);
            } else {
                assert((x + y)[i] == y[i - x.len()]);
            }
        }
    }
}

/// Reading the lines of the accounts gives the accounts by address.
proof fn lemma_accounts_apply(accounts: Seq<Account>)
    requires
        forall|i: int| 0 <= i < accounts.len() ==> storable_account(#[trigger] accounts[i]),
    ensures
        apply_lines(Map::empty(), accounts_lines(accounts)) == to_map(accounts.map_values(|a: Account| account_entry(a))),
    decreases accounts.len(),
{
    if accounts.len() == 0 {
        assert(accounts.map_values(|a: Account| account_entry(a)) =~= Seq::<(Seq<char>, AccountView)>::empty());
    } else {
        let d = accounts.drop_last();
        assert forall|i: int| 0 <= i < d.len() implies storable_account(#[trigger] d[i]) by {
            assert(d[i] == accounts[i]);
        }
        lemma_accounts_apply(d);
        let a = accounts.last();
        assert(storable_account(accounts[accounts.len() - 1]));
        lemma_apply_concat(Map::empty(), accounts_lines(d), account_lines(a));
        lemma_account_apply(apply_lines(Map::empty(), accounts_lines(d)), a);
        crate::blockchain::state::lemma_holdings_of_list(a);
        let pv = accounts.map_values(|a: Account| account_entry(a));
        assert(pv.drop_last() =~= d.map_values(|a: Account| account_entry(a)));
        assert(pv.last() == account_entry(a));
    }
}

/// Reading a state's file text back gives its height and its accounts,
/// when every address and asset symbol is a state field and every symbol is
/// already in upper case.
pub proof fn lemma_state_round_trip(s: State)
    requires
        forall|i: int| 0 <= i < s.accounts@.len() ==> storable_account(#[trigger] s.accounts@[i]),
    ensures
        parsed_state(state_text(s)) == Some((s.height, s.view())),
{
    let h = decimal(s.height as nat);
    let big = seq![h] + accounts_lines(s.accounts@);
    lemma_accounts_text(s.accounts@);
    lemma_lines_text_concat(seq![h], accounts_lines(s.accounts@));
    lemma_lines_text_push(Seq::empty(), h);
    assert(Seq::<Seq<char>>::empty().push(h) =~= seq![h]);
    assert(state_text(s) == lines_text(big));
    lemma_accounts_lines_plain(s.accounts@);
    lemma_digits_plain(s.height as nat);
    assert forall|i: int| 0 <= i < big.len() implies state_line(#[trigger] big[i]) by {
        if i > 0 {
            assert(big[i] == accounts_lines(s.accounts@)[i - 1]);
        }
    }
    assert forall|i: int, j: int| 0 <= i < big.len() && 0 <= j < big[i].len() implies big[i][j] != '\n' by {
        assert(state_line(big[i]));
    }
    lemma_lines_pieces(big);
    let l = text_lines(state_text(s));
    assert(l.len() == big.len() + 1);
    assert forall|i: int| 0 <= i < big.len() implies l[i] == big[i] by {
        assert(state_line(big[i]));
    }
    assert(l[big.len() as int] == Seq::<char>::empty());
    assert(l =~= big.push(Seq::<char>::empty()));
    crate::text::lemma_parse_decimal(s.height as nat, u64::MAX as nat);
    assert(l[0] == h);
    assert(l.skip(1) =~= accounts_lines(s.accounts@).push(Seq::<char>::empty()));
    lemma_apply_concat(Map::empty(), accounts_lines(s.accounts@), seq![Seq::<char>::empty()]);
    assert(accounts_lines(s.accounts@).push(Seq::<char>::empty()) =~= accounts_lines(s.accounts@) + seq![Seq::<char>::empty()]);
    assert(split_spec(Seq::<char>::empty(), '|').len() == 1);
    assert(seq![Seq::<char>::empty()].drop_last() =~= Seq::<Seq<char>>::empty());
    lemma_accounts_apply(s.accounts@);
    crate::blockchain::state::lemma_view_of_list(s);
    let al = accounts_lines(s.accounts@);
    let e = seq![Seq::<char>::empty()];
    assert(apply_lines(apply_lines(Map::empty(), al), e) == apply_line(apply_lines(apply_lines(Map::empty(), al), Seq::empty()), Seq::<char>::empty()));
    assert(apply_line(apply_lines(Map::empty(), al), Seq::<char>::empty()) == apply_lines(Map::empty(), al));
    assert(apply_lines(Map::empty(), l.skip(1)) == s.view());
    assert(parse_unsigned(l[0], u64::MAX as nat) == Some(s.height as nat));
    assert(l.len() >= 2);
}

} // verus!
