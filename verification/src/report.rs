//! **What a terminal reader is told** about a thread's working copy and a withdrawn holder — the
//! lines the status and the thread views print.
use vstd::prelude::*;
use vstd::utf8::{encode_utf8, is_char_boundary};
use crate::anchor::{Anchor, short_len, short_of};
use crate::text::{byte_prefix, byte_prefix_of, join, join_strings, prefix_len, views};

verus! {

/// Where an anchor's `HEAD` was, in a status row: on its branch, or detached.
pub open spec fn where_suffix(a: Anchor) -> Seq<char> {
    if a.branch@.len() == 0 {
        " (detached)"@
    } else {
        " on "@ + a.branch@
    }
}

/// **The working-copy suffix of a `status` row**: nothing for a thread with no anchor; otherwise
/// the short commit, where `HEAD` was, and — only when there was any — that uncommitted work was
/// not saved.
pub open spec fn anchor_suffix_of(anchor: Option<Anchor>) -> Seq<char> {
    match anchor {
        None => Seq::empty(),
        Some(a) => "  · tree "@ + short_of(a.commit@) + where_suffix(a) + if a.dirty {
            ", uncommitted work NOT saved"@
        } else {
            Seq::empty()
        },
    }
}

/// A short form can be taken of this anchor's commit.
pub open spec fn has_short_form(a: Anchor) -> bool {
    is_char_boundary(encode_utf8(a.commit@), short_len(a.commit@))
}

/// The working-copy suffix of one `status` row.
pub fn anchor_suffix(anchor: Option<&Anchor>) -> (s: String)
    requires
        anchor matches Some(a) ==> has_short_form(*a),
    ensures
        s@ == anchor_suffix_of(
            match anchor {
                Some(a) => Some(*a),
                None => None,
            },
        ),
{
    match anchor {
        None => String::new(),
        Some(a) => {
            let mut s = String::new();
            s.append("  · tree ");
            s.append(a.short());
            if a.branch.as_str().is_empty() {
                s.append(" (detached)");
            } else {
                s.append(" on ");
                s.append(a.branch.as_str());
            }
            if a.dirty {
                s.append(", uncommitted work NOT saved");
            }
            s
        },
    }
}

/// **The working-copy line of a message in a thread view**: the short commit, the branch or a
/// detached `HEAD`, and whether the tree was clean or held unsaved work.
pub open spec fn anchor_line_of(a: Anchor) -> Seq<char> {
    "working copy: "@ + short_of(a.commit@) + " "@ + (if a.branch@.len() == 0 {
        "detached HEAD"@
    } else {
        "on "@ + a.branch@
    }) + if a.dirty {
        " · uncommitted work NOT saved anywhere"@
    } else {
        " · clean"@
    }
}

/// The working-copy line of one message.
pub fn anchor_line(a: &Anchor) -> (s: String)
    requires
        has_short_form(*a),
    ensures
        s@ == anchor_line_of(*a),
{
    let mut s = String::new();
    s.append("working copy: ");
    s.append(a.short());
    s.append(" ");
    if a.branch.as_str().is_empty() {
        s.append("detached HEAD");
    } else {
        s.append("on ");
        s.append(a.branch.as_str());
    }
    if a.dirty {
        s.append(" · uncommitted work NOT saved anywhere");
    } else {
        s.append(" · clean");
    }
    s
}

/// A holder of the working copy that was withdrawn and has not been parked yet.
#[derive(Debug, Clone, PartialEq, Eq)]
pub struct WithdrawnHolderStatus {
    /// When it was withdrawn.
    pub withdrawn_at: String,
    /// Who withdrew it.
    pub by: String,
    /// The sessions still pinning its claim.
    pub pinned_by: Vec<String>,
}

/// **The status line of a withdrawn holder**: who withdrew it and when, then who still pins it —
/// or that nothing does and the next tick parks it.
pub open spec fn withdrawn_line_of(w: WithdrawnHolderStatus) -> Seq<char> {
    "  withdrawn by "@ + w.by@ + " at "@ + w.withdrawn_at@ + " — waiting to park; "@ + if w.pinned_by@.len() == 0 {
        "nothing is pinning it any more, the next tick parks it"@
    } else {
        "still pinned by session(s) "@ + join(views(w.pinned_by@), ", "@)
    }
}

/// The status line of a withdrawn holder.
pub fn withdrawn_line(w: &WithdrawnHolderStatus) -> (s: String)
    ensures
        s@ == withdrawn_line_of(*w),
{
    let mut s = String::new();
    s.append("  withdrawn by ");
    s.append(w.by.as_str());
    s.append(" at ");
    s.append(w.withdrawn_at.as_str());
    s.append(" — waiting to park; ");
    if w.pinned_by.len() == 0 {
        s.append("nothing is pinning it any more, the next tick parks it");
    } else {
        s.append("still pinned by session(s) ");
        s.append(join_strings(&w.pinned_by, ", ").as_str());
    }
    s
}

/// **Where a park left an operation's work**: the branch and commit it is on, what the tree was on
/// before, whether the park had to create the branch, and whether there was anything to commit.
#[derive(Debug, Clone, PartialEq, Eq)]
pub struct Parked {
    pub branch: String,
    pub commit: String,
    pub base_branch: String,
    pub base_commit: String,
    pub created_branch: bool,
    pub committed: bool,
}

/// One parked-work record: the park, and when the working copy was handed on.
#[derive(Debug, Clone, PartialEq, Eq)]
pub struct ParkedWork {
    pub parked: Parked,
    pub parked_at: String,
}

/// A park that was refused and is being retried: which refusal, its own words, and since when.
#[derive(Debug, Clone, PartialEq, Eq)]
pub struct ParkRefusalNote {
    pub refusal: String,
    pub detail: String,
    pub since: String,
}

/// The detail an operation's status block carries under its threads.
#[derive(Debug, Clone, PartialEq, Eq)]
pub struct StatusOperation {
    /// Rounds taken back on purpose and still waiting for their park.
    pub withdrawn: Vec<WithdrawnHolderStatus>,
    /// A refused park being retried, if any.
    pub park_refused: Option<ParkRefusalNote>,
    /// Parks not resumed yet, newest first.
    pub parked: Vec<ParkedWork>,
}

/// **The status line of a refused park**: the refusal, its own words, and since when it has been
/// retried.
pub open spec fn park_refused_line_of(note: ParkRefusalNote) -> Seq<char> {
    "  park refused ("@ + note.refusal@ + "): "@ + note.detail@ + " — retrying since "@ + note.since@
}

/// The status line of a refused park.
pub fn park_refused_line(note: &ParkRefusalNote) -> (s: String)
    ensures
        s@ == park_refused_line_of(*note),
{
    let mut s = String::new();
    s.append("  park refused (");
    s.append(note.refusal.as_str());
    s.append("): ");
    s.append(note.detail.as_str());
    s.append(" — retrying since ");
    s.append(note.since.as_str());
    s
}

/// The short commit a parked line prints can be taken.
pub open spec fn has_parked_short_form(p: ParkedWork) -> bool {
    is_char_boundary(encode_utf8(p.parked.commit@), prefix_len(p.parked.commit@, 7))
}

/// **The status line of one parked-work record**: the branch, the commit's first seven bytes, when
/// the copy was handed on — and, where the park found nothing to commit, that it did.
pub open spec fn parked_line_of(p: ParkedWork) -> Seq<char> {
    "  parked on "@ + p.parked.branch@ + " at "@ + byte_prefix_of(p.parked.commit@, 7) + " since "@
        + p.parked_at@ + if p.parked.committed {
        Seq::empty()
    } else {
        ", nothing was uncommitted"@
    }
}

/// The status line of one parked-work record.
pub fn parked_line(p: &ParkedWork) -> (s: String)
    requires
        has_parked_short_form(*p),
    ensures
        s@ == parked_line_of(*p),
{
    let mut s = String::new();
    s.append("  parked on ");
    s.append(p.parked.branch.as_str());
    s.append(" at ");
    s.append(byte_prefix(p.parked.commit.as_str(), 7));
    s.append(" since ");
    s.append(p.parked_at.as_str());
    if !p.parked.committed {
        s.append(", nothing was uncommitted");
    }
    s
}

/// **The detail lines of an operation**: each withdrawn round waiting for its park, then a refused
/// park, then the parks not resumed yet — in that order.
pub open spec fn operation_detail_lines_of(op: StatusOperation) -> Seq<Seq<char>> {
    op.withdrawn@.map_values(|w: WithdrawnHolderStatus| withdrawn_line_of(w)) + (match op.park_refused {
        Some(n) => seq![park_refused_line_of(n)],
        None => Seq::empty(),
    }) + op.parked@.map_values(|p: ParkedWork| parked_line_of(p))
}

/// The detail lines of an operation.
pub fn operation_detail_lines(op: &StatusOperation) -> (lines: Vec<String>)
    requires
        forall|i: int| 0 <= i < op.parked@.len() ==> has_parked_short_form(#[trigger] op.parked@[i]),
    ensures
        views(lines@) == operation_detail_lines_of(*op),
{
    let mut lines: Vec<String> = Vec::new();
    let mut i: usize = 0;
    while i < op.withdrawn.len()
        invariant
            i <= op.withdrawn@.len(),
            views(lines@) == op.withdrawn@.take(i as int).map_values(
                |w: WithdrawnHolderStatus| withdrawn_line_of(w),
            ),
        decreases op.withdrawn@.len() - i,
    {
        let l = withdrawn_line(&op.withdrawn[i]);
        let ghost before = lines@;
        lines.push(l);
        assert(views(lines@) =~= views(before).push(withdrawn_line_of(op.withdrawn@[i as int])));
        assert(op.withdrawn@.take(i + 1) =~= op.withdrawn@.take(i as int).push(op.withdrawn@[i as int]));
        i += 1;
        assert(views(lines@) =~= op.withdrawn@.take(i as int).map_values(
            |w: WithdrawnHolderStatus| withdrawn_line_of(w),
        ));
    }
    assert(op.withdrawn@.take(i as int) =~= op.withdrawn@);
    let ghost head = views(lines@);
    match &op.park_refused {
        Some(n) => lines.push(park_refused_line(n)),
        None => {},
    }
    let ghost middle = views(lines@);
    assert(middle =~= head + match op.park_refused {
        Some(n) => seq![park_refused_line_of(n)],
        None => Seq::<Seq<char>>::empty(),
    });
    let mut j: usize = 0;
    while j < op.parked.len()
        invariant
            j <= op.parked@.len(),
            forall|k: int| 0 <= k < op.parked@.len() ==> has_parked_short_form(#[trigger] op.parked@[k]),
            views(lines@) == middle + op.parked@.take(j as int).map_values(
                |p: ParkedWork| parked_line_of(p),
            ),
        decreases op.parked@.len() - j,
    {
        let l = parked_line(&op.parked[j]);
        let ghost before = lines@;
        lines.push(l);
        assert(views(lines@) =~= views(before).push(parked_line_of(op.parked@[j as int])));
        assert(op.parked@.take(j + 1) =~= op.parked@.take(j as int).push(op.parked@[j as int]));
        j += 1;
        assert(views(lines@) =~= middle + op.parked@.take(j as int).map_values(
            |p: ParkedWork| parked_line_of(p),
        ));
    }
    assert(op.parked@.take(j as int) =~= op.parked@);
    assert(views(lines@) =~= operation_detail_lines_of(*op));
    lines
}

} // verus!
