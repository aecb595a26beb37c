//! **Where a thread's round stands**: who it expects an answer from, who has answered, who still
//! owes one — the register both the addressee derivation and the return path read.
use vstd::prelude::*;
use crate::channel::RESERVED_HANDLE_PREFIX;
use crate::text::{chars_of, starts_with, str_starts_with, string_of};

verus! {

/// One thread's round, as the store reports it.
#[derive(Debug, Clone, PartialEq, Eq)]
pub struct ThreadQuorum {
    pub thread_id: String,
    pub channel_id: Option<String>,
    /// Who opened the thread, qualified, where that is recorded.
    pub opener: Option<String>,
    /// Whom the thread expects an answer from.
    pub expects: Vec<String>,
    /// Who of them has answered.
    pub replied: Vec<String>,
    /// Who of them still owes an answer.
    pub outstanding: Vec<String>,
    /// It expected somebody, and nobody is still owed.
    pub complete: bool,
    /// The instant the answer is due by, where a window was declared.
    pub deadline: Option<String>,
    /// The window ran out with an answer still owed.
    pub stale: bool,
    /// What the conversation is called, where it has a name.
    pub name: Option<String>,
    pub held: bool,
}

/// The part of a qualified handle after its last `/` — the bare handle.
pub open spec fn bare_handle(h: Seq<char>) -> Seq<char>
    decreases h.len(),
{
    if h.len() == 0 {
        h
    } else if h.last() == '/' {
        Seq::empty()
    } else {
        bare_handle(h.drop_last()).push(h.last())
    }
}

/// **An identity only the engine holds**: its bare handle carries the reserved prefix.
pub open spec fn engine_identity(h: Seq<char>) -> bool {
    starts_with(bare_handle(h), RESERVED_HANDLE_PREFIX@)
}

/// Is `handle` one of the engine's own identities?
pub fn is_engine_identity(handle: &str) -> (r: bool)
    ensures
        r == engine_identity(handle@),
{
    let c = chars_of(handle);
    let mut start: usize = c.len();
    assert(handle@.take(start as int) =~= handle@);
    assert(handle@.skip(start as int) =~= Seq::<char>::empty());
    assert(bare_handle(handle@) =~= bare_handle(handle@.take(start as int)) + handle@.skip(start as int));
    while start > 0 && c[start - 1] != '/'
        invariant
            c@ == handle@,
            start <= c@.len(),
            bare_handle(handle@) == bare_handle(handle@.take(start as int)) + handle@.skip(start as int),
        decreases start,
    {
        proof {
            let t = handle@.take(start as int);
            assert(t.drop_last() =~= handle@.take(start - 1));
            assert(t.last() == c@[start - 1]);
            assert(handle@.skip(start - 1) =~= seq![c@[start - 1]] + handle@.skip(start as int));
        }
        start -= 1;
    }
    proof {
        if start > 0 {
            assert(handle@.take(start as int).last() == '/');
        }
        assert(bare_handle(handle@.take(start as int)) =~= Seq::<char>::empty());
    }
    let mut bare: Vec<char> = Vec::new();
    let mut k: usize = start;
    while k < c.len()
        invariant
            c@ == handle@,
            start <= k <= c@.len(),
            bare@ == handle@.subrange(start as int, k as int),
        decreases c@.len() - k,
    {
        bare.push(c[k]);
        k += 1;
        assert(bare@ =~= handle@.subrange(start as int, k as int));
    }
    assert(bare@ =~= handle@.skip(start as int));
    str_starts_with(string_of(&bare).as_str(), RESERVED_HANDLE_PREFIX)
}

} // verus!
