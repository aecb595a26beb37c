//! **The pointers a message carries** — a session, a branch, a pull request, tickets — built from
//! repeated `k=v` pairs, with an unknown key refused by name.
use vstd::prelude::*;
use crate::error::NxfError;
use crate::text::{chars_of, string_of, views};

verus! {

/// What a message points at.
#[derive(Debug, Clone, PartialEq, Eq)]
pub struct Refs {
    pub session_id: Option<String>,
    pub branch: Option<String>,
    pub pr: Option<String>,
    pub nxf_ids: Vec<String>,
}

impl Default for Refs {
    fn default() -> (r: Refs)
        ensures
            r.session_id is None,
            r.branch is None,
            r.pr is None,
            r.nxf_ids@.len() == 0,
    {
        Refs { session_id: None, branch: None, pr: None, nxf_ids: Vec::new() }
    }
}

/// [`Refs`] as plain values.
pub struct RefsView {
    pub session_id: Option<Seq<char>>,
    pub branch: Option<Seq<char>>,
    pub pr: Option<Seq<char>>,
    pub nxf_ids: Seq<Seq<char>>,
}

/// The plain values of a [`Refs`].
pub open spec fn refs_view(r: Refs) -> RefsView {
    RefsView {
        session_id: crate::addressees::opt_view(r.session_id),
        branch: crate::addressees::opt_view(r.branch),
        pr: crate::addressees::opt_view(r.pr),
        nxf_ids: views(r.nxf_ids@),
    }
}

/// The position of the first `=` in `p` at or after `i`.
pub open spec fn first_eq_from(p: Seq<char>, i: int) -> Option<int>
    decreases p.len() - i,
{
    if i < 0 || i >= p.len() {
        None
    } else if p[i] == '=' {
        Some(i)
    } else {
        first_eq_from(p, i + 1)
    }
}

/// One pair applied to what the pairs before it built.
pub open spec fn apply_pair(r: RefsView, p: Seq<char>) -> Result<RefsView, Seq<char>> {
    match first_eq_from(p, 0) {
        None => Err("--ref expects k=v, got: "@ + p),
        Some(i) => {
            let k = p.take(i);
            let v = p.skip(i + 1);
            if k == "session_id"@ {
                Ok(RefsView { session_id: Some(v), ..r })
            } else if k == "branch"@ {
                Ok(RefsView { branch: Some(v), ..r })
            } else if k == "pr"@ {
                Ok(RefsView { pr: Some(v), ..r })
            } else if k == "nxf_ids"@ || k == "nxf_id"@ {
                Ok(RefsView { nxf_ids: r.nxf_ids.push(v), ..r })
            } else {
                Err("unknown --ref key: "@ + k)
            }
        },
    }
}

/// **What the first `upto` pairs build**: every pair applied in order, a later scalar replacing an
/// earlier one and every ticket kept, or the first pair's refusal.
pub open spec fn refs_from(pairs: Seq<Seq<char>>, upto: int) -> Result<RefsView, Seq<char>>
    decreases upto,
{
    if upto <= 0 {
        Ok(RefsView { session_id: None, branch: None, pr: None, nxf_ids: Seq::empty() })
    } else {
        match refs_from(pairs, upto - 1) {
            Err(e) => Err(e),
            Ok(r) => apply_pair(r, pairs[upto - 1]),
        }
    }
}

/// Where the first `=` of `p` is.
fn first_eq(p: &Vec<char>) -> (r: Option<usize>)
    ensures
        match r {
            Some(i) => first_eq_from(p@, 0) == Some(i as int) && i < p@.len(),
            None => first_eq_from(p@, 0) is None,
        },
{
    let mut i: usize = 0;
    while i < p.len()
        invariant
            i <= p@.len(),
            first_eq_from(p@, 0) == first_eq_from(p@, i as int),
        decreases p@.len() - i,
    {
        if p[i] == '=' {
            return Some(i);
        }
        i += 1;
    }
    None
}

/// The characters of `v` from `from` to `to`.
fn slice_chars(v: &Vec<char>, from: usize, to: usize) -> (s: String)
    requires
        from <= to <= v@.len(),
    ensures
        s@ == v@.subrange(from as int, to as int),
{
    let mut out: Vec<char> = Vec::new();
    let mut k: usize = from;
    while k < to
        invariant
            from <= k <= to,
            to <= v@.len(),
            out@ == v@.subrange(from as int, k as int),
        decreases to - k,
    {
        out.push(v[k]);
        k += 1;
        assert(out@ =~= v@.subrange(from as int, k as int));
    }
    string_of(&out)
}

/// **Build [`Refs`] from repeated `k=v` pairs.** Known keys: `session_id`, `branch`, `pr`
/// (scalar, the last one wins) and `nxf_ids`/`nxf_id` (repeatable). A pair without `=`, and an
/// unknown key, are validation errors that name it.
pub fn parse_refs(pairs: &[String]) -> (r: Result<Refs, NxfError>)
    ensures
        match refs_from(views(pairs@), pairs@.len() as int) {
            Ok(v) => r matches Ok(refs) && refs_view(refs) == v,
            Err(m) => r matches Err(e) && e.kind == crate::error::ErrorKind::Validation && e.msg@ == m,
        },
{
    let ghost ps = views(pairs@);
    let mut refs = Refs::default();
    let mut i: usize = 0;
    assert(views(refs.nxf_ids@) =~= Seq::<Seq<char>>::empty());
    while i < pairs.len()
        invariant
            i <= pairs@.len(),
            ps == views(pairs@),
            refs_from(ps, i as int) == Ok::<RefsView, Seq<char>>(refs_view(refs)),
        decreases pairs@.len() - i,
    {
        let p = chars_of(pairs[i].as_str());
        assert(p@ == ps[i as int]);
        let at = match first_eq(&p) {
            Some(at) => at,
            None => {
                let mut msg = String::new();
                msg.append("--ref expects k=v, got: ");
                msg.append(pairs[i].as_str());
                proof {
                    assert(refs_from(ps, i + 1) == Err::<RefsView, Seq<char>>(msg@));
                    lemma_refusal_stays(ps, i + 1, pairs@.len() as int);
                }
                return Err(NxfError::validation(msg));
            },
        };
        assert(at < p.len());
        let k = slice_chars(&p, 0, at);
        let v = slice_chars(&p, at + 1, p.len());
        assert(k@ =~= p@.take(at as int));
        assert(v@ =~= p@.skip(at + 1));
        let ks = k.as_str();
        proof {
            reveal_strlit("session_id");
            reveal_strlit("branch");
            reveal_strlit("pr");
            reveal_strlit("nxf_ids");
            reveal_strlit("nxf_id");
        }
        if crate::text::str_eq(ks, "session_id") {
            refs.session_id = Some(v);
        } else if crate::text::str_eq(ks, "branch") {
            refs.branch = Some(v);
        } else if crate::text::str_eq(ks, "pr") {
            refs.pr = Some(v);
        } else if crate::text::str_eq(ks, "nxf_ids") || crate::text::str_eq(ks, "nxf_id") {
            let ghost before = views(refs.nxf_ids@);
            refs.nxf_ids.push(v);
            assert(views(refs.nxf_ids@) =~= before.push(p@.skip(at + 1)));
        } else {
            let mut msg = String::new();
            msg.append("unknown --ref key: ");
            msg.append(ks);
            proof {
                assert(refs_from(ps, i + 1) == Err::<RefsView, Seq<char>>(msg@));
                lemma_refusal_stays(ps, i + 1, pairs@.len() as int);
            }
            return Err(NxfError::validation(msg));
        }
        i += 1;
    }
    Ok(refs)
}

/// Once a pair is refused, the whole list is refused with that refusal.
proof fn lemma_refusal_stays(pairs: Seq<Seq<char>>, a: int, b: int)
    requires
        0 < a <= b,
        refs_from(pairs, a) is Err,
    ensures
        refs_from(pairs, b) == refs_from(pairs, a),
    decreases b - a,
{
    if a < b {
        lemma_refusal_stays(pairs, a, b - 1);
    }
}

} // verus!
