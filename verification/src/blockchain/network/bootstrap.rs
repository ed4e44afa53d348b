//! Registration with the bootstrap registry: when to try again, and which
//! of the peers it answers with to keep.
use vstd::prelude::*;
use crate::text::str_eq;

verus! {

/// Registration attempts before giving up.
pub const BOOTSTRAP_ATTEMPTS: u32 = 3;

/// What to do after a registration attempt.
#[derive(Debug, Clone, Copy, PartialEq, Eq, Structural)]
pub enum BootstrapAction {
    /// The registry answered: read its peers.
    Done,
    /// Wait a moment and try again.
    RetryAfterPause,
    /// Stop and report the last failure.
    GiveUp,
}

/// After attempt `attempt` (counted from 1): done when it went through, tried
/// again while attempts remain, else given up.
pub fn next_bootstrap(attempt: u32, ok: bool) -> (r: BootstrapAction)
    ensures
        ok ==> r == BootstrapAction::Done,
        !ok && attempt < BOOTSTRAP_ATTEMPTS ==> r == BootstrapAction::RetryAfterPause,
        !ok && attempt >= BOOTSTRAP_ATTEMPTS ==> r == BootstrapAction::GiveUp,
{
    if ok {
        BootstrapAction::Done
    } else if attempt < BOOTSTRAP_ATTEMPTS {
        BootstrapAction::RetryAfterPause
    } else {
        BootstrapAction::GiveUp
    }
}

/// The peers kept from a registry answer: in answer order, each address that
/// parses (`Some` of its text), other than this node's own, once.
pub open spec fn kept_peers(reply: Seq<Option<Seq<char>>>, advertised: Seq<char>) -> Seq<Seq<char>>
    decreases reply.len(),
{
    if reply.len() == 0 {
        Seq::empty()
    } else {
        let prev = kept_peers(reply.drop_last(), advertised);
        match reply.last() {
            Some(t) => if t != advertised && !prev.contains(t) { prev.push(t) } else { prev },
            None => prev,
        }
    }
}

pub open spec fn opt_text(o: Option<String>) -> Option<Seq<char>> {
    match o {
        Some(s) => Some(s@),
        None => None,
    }
}

/// The peers to keep from a registry answer; each entry is the text of the
/// socket address the answer gave, or `None` where it did not parse.
pub fn bootstrap_peers(reply: Vec<Option<String>>, advertised: &str) -> (r: Vec<String>)
    ensures
        r@.map_values(|s: String| s@) == kept_peers(reply@.map_values(|o: Option<String>| opt_text(o)), advertised@),
{
    let ghost rv = reply@.map_values(|o: Option<String>| opt_text(o));
    let mut out: Vec<String> = Vec::new();
    let mut i: usize = 0;
    while i < reply.len()
        invariant
            i <= reply@.len(),
            rv == reply@.map_values(|o: Option<String>| opt_text(o)),
            out@.map_values(|s: String| s@) == kept_peers(rv.take(i as int), advertised@),
        decreases reply@.len() - i,
    {
        assert(rv.take(i + 1).drop_last() =~= rv.take(i as int));
        assert(rv.take(i + 1).last() == opt_text(reply@[i as int]));
        if let Some(t) = &reply[i] {
            if !str_eq(t.as_str(), advertised) {
                let mut seen = false;
                let mut j: usize = 0;
                while j < out.len()
                    invariant
                        j <= out@.len(),
                        seen == exists|k: int| 0 <= k < j && out@[k]@ == t@,
                    decreases out@.len() - j,
                {
                    if str_eq(out[j].as_str(), t.as_str()) {
                        seen = true;
                    }
                    j += 1;
                }
                proof {
                    let v = out@.map_values(|s: String| s@);
                    if seen {
                        let k = choose|k: int| 0 <= k < out@.len() && out@[k]@ == t@;
                        assert(v[k] == t@);
                    } else {
                        assert forall|k: int| 0 <= k < v.len() implies v[k] != t@ by {
                            assert(v[k] == out@[k]@);
                        }
                    }
                }
                if !seen {
                    let ghost before = out@;
                    out.push(t.clone());
                    assert(out@.map_values(|s: String| s@) =~= before.map_values(|s: String| s@).push(t@));
                }
            }
        }
        i += 1;
    }
    assert(rv.take(reply@.len() as int) =~= rv);
    out
}

} // verus!
