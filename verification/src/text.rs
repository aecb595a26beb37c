//! Character-level text operations with their meaning stated over `Seq<char>`: the pieces every
//! message composer and every validation message in this crate is built from.
use vstd::prelude::*;
use vstd::string::StringSliceAdditionalSpecFns;
use vstd::utf8::{decode_utf8, encode_utf8, is_char_boundary};

verus! {

/// Appending one character to a `String` appends it to the string's character sequence.
pub assume_specification[ String::push ](s: &mut String, ch: char)
    ensures
        final(s)@ == old(s)@.push(ch),
;

/// The string whose characters are `s`.
pub open spec fn text(s: &str) -> Seq<char> {
    s@
}

/// The view of every string in a list.
pub open spec fn views(v: Seq<String>) -> Seq<Seq<char>> {
    v.map_values(|s: String| s@)
}

/// `w` stands in `c` starting at position `p`.
pub open spec fn occurs_at(c: Seq<char>, p: int, w: Seq<char>) -> bool {
    0 <= p && p + w.len() <= c.len() && c.subrange(p, p + w.len()) == w
}

/// `w` is a substring of `c`.
pub open spec fn contains(c: Seq<char>, w: Seq<char>) -> bool {
    exists|p: int| #[trigger] occurs_at(c, p, w)
}

/// `c` begins with `w`.
pub open spec fn starts_with(c: Seq<char>, w: Seq<char>) -> bool {
    occurs_at(c, 0, w)
}

/// Unicode `White_Space`, the property `char::is_whitespace` and `str::trim` go by.
pub open spec fn is_white(c: char) -> bool {
    ||| c == '\t' || c == '\n' || c == '\u{0B}' || c == '\u{0C}' || c == '\r' || c == ' '
    ||| c == '\u{85}' || c == '\u{A0}' || c == '\u{1680}'
    ||| ('\u{2000}' <= c && c <= '\u{200A}')
    ||| c == '\u{2028}' || c == '\u{2029}' || c == '\u{202F}' || c == '\u{205F}'
    ||| c == '\u{3000}'
}

/// Nothing but whitespace: what `s.trim().is_empty()` asks.
pub open spec fn is_blank(s: Seq<char>) -> bool {
    forall|i: int| 0 <= i < s.len() ==> is_white(#[trigger] s[i])
}

/// An ASCII decimal digit.
pub open spec fn is_digit(c: char) -> bool {
    '0' <= c && c <= '9'
}

/// The character of one decimal digit.
pub open spec fn digit(d: int) -> char {
    if d <= 0 {
        '0'
    } else if d == 1 {
        '1'
    } else if d == 2 {
        '2'
    } else if d == 3 {
        '3'
    } else if d == 4 {
        '4'
    } else if d == 5 {
        '5'
    } else if d == 6 {
        '6'
    } else if d == 7 {
        '7'
    } else if d == 8 {
        '8'
    } else {
        '9'
    }
}

/// The canonical decimal rendering of `n` — what `Display` writes for an unsigned integer.
pub open spec fn dec(n: nat) -> Seq<char>
    decreases n,
{
    if n < 10 {
        seq![digit(n as int)]
    } else {
        dec(n / 10).push(digit((n % 10) as int))
    }
}

/// Every non-overlapping occurrence of `pat`, taken left to right, replaced by `rep` — what
/// `str::replace` does for a non-empty pattern.
pub open spec fn replace_all(s: Seq<char>, pat: Seq<char>, rep: Seq<char>) -> Seq<char>
    decreases s.len(),
{
    if s.len() == 0 {
        s
    } else if pat.len() > 0 && starts_with(s, pat) {
        rep + replace_all(s.skip(pat.len() as int), pat, rep)
    } else {
        seq![s[0]] + replace_all(s.skip(1), pat, rep)
    }
}

/// The parts joined by `sep`, as `[..].join(sep)` joins them.
pub open spec fn join(parts: Seq<Seq<char>>, sep: Seq<char>) -> Seq<char>
    decreases parts.len(),
{
    if parts.len() == 0 {
        Seq::empty()
    } else if parts.len() == 1 {
        parts[0]
    } else {
        join(parts.drop_last(), sep) + sep + parts.last()
    }
}

/// What `{:?}` writes for a string: the string quoted, with `Debug`'s escapes.
pub uninterp spec fn debug_str(s: Seq<char>) -> Seq<char>;

/// The `Debug` rendering of a string, by std's `format!("{s:?}")`. Claimed: the result is
/// [`debug_str`] of the characters, so it depends on them alone; which characters std escapes, and
/// how, is left unstated.
#[verifier::external_body]
pub(crate) fn debug_quoted(s: &str) -> (res: String)
    ensures
        res@ == debug_str(s@),
{
    format!("{s:?}")
}

/// The characters of `s`, in order.
pub fn chars_of(s: &str) -> (v: Vec<char>)
    ensures
        v@ == s@,
{
    let mut v: Vec<char> = Vec::new();
    for c in it: s.chars()
        invariant
            v@ == it.seq().take(it.index() as int),
    {
        v.push(c);
    }
    assert(v@ =~= s@);
    v
}

/// The string whose characters are `v`.
pub fn string_of(v: &Vec<char>) -> (s: String)
    ensures
        s@ == v@,
{
    let mut s = String::new();
    let mut i: usize = 0;
    while i < v.len()
        invariant
            i <= v.len(),
            s@ == v@.take(i as int),
        decreases v.len() - i,
    {
        s.push(v[i]);
        i += 1;
        assert(s@ =~= v@.take(i as int));
    }
    assert(v@.take(v.len() as int) =~= v@);
    s
}

/// An owned copy of `s`.
pub fn owned(s: &str) -> (r: String)
    ensures
        r@ == s@,
{
    let mut r = String::new();
    r.append(s);
    assert(r@ =~= s@);
    r
}

/// `a` followed by `b`.
pub fn cat(a: &str, b: &str) -> (r: String)
    ensures
        r@ == a@ + b@,
{
    let mut r = String::new();
    r.append(a);
    r.append(b);
    assert(r@ =~= a@ + b@);
    r
}

/// `w` stands in `c` at position `p`.
pub fn occurs_at_exec(c: &Vec<char>, p: usize, w: &Vec<char>) -> (r: bool)
    ensures
        r == occurs_at(c@, p as int, w@),
{
    if p > c.len() || w.len() > c.len() - p {
        return false;
    }
    let mut k: usize = 0;
    while k < w.len()
        invariant
            k <= w.len(),
            p + w.len() <= c.len(),
            forall|j: int| 0 <= j < k ==> c@[p + j] == w@[j],
        decreases w.len() - k,
    {
        if c[p + k] != w[k] {
            assert(c@.subrange(p as int, p + w.len())[k as int] != w@[k as int]);
            return false;
        }
        k += 1;
    }
    assert(c@.subrange(p as int, p + w.len()) =~= w@);
    true
}

/// Is `w` a substring of `c`?
pub fn contains_exec(c: &Vec<char>, w: &Vec<char>) -> (r: bool)
    ensures
        r == contains(c@, w@),
{
    if w.len() > c.len() {
        assert forall|p: int| !occurs_at(c@, p, w@) by {}
        return false;
    }
    let last = c.len() - w.len();
    let mut p: usize = 0;
    loop
        invariant
            last == c.len() - w.len(),
            p <= last,
            forall|q: int| 0 <= q < p ==> !occurs_at(c@, q, w@),
        decreases last - p,
    {
        if occurs_at_exec(c, p, w) {
            assert(occurs_at(c@, p as int, w@));
            return true;
        }
        if p == last {
            assert forall|q: int| !occurs_at(c@, q, w@) by {
                if 0 <= q < p {
                }
            }
            return false;
        }
        p += 1;
    }
}

/// Does `s` begin with `w`?
pub fn str_starts_with(s: &str, w: &str) -> (r: bool)
    ensures
        r == starts_with(s@, w@),
{
    let c = chars_of(s);
    let p = chars_of(w);
    occurs_at_exec(&c, 0, &p)
}

/// Is `c` whitespace?
pub fn is_white_exec(c: char) -> (r: bool)
    ensures
        r == is_white(c),
{
    c == '\t' || c == '\n' || c == '\u{0B}' || c == '\u{0C}' || c == '\r' || c == ' ' || c
        == '\u{85}' || c == '\u{A0}' || c == '\u{1680}' || ('\u{2000}' <= c && c <= '\u{200A}')
        || c == '\u{2028}' || c == '\u{2029}' || c == '\u{202F}' || c == '\u{205F}' || c
        == '\u{3000}'
}

/// Is `s` nothing but whitespace — does `s.trim()` come out empty?
pub fn blank(s: &str) -> (r: bool)
    ensures
        r == is_blank(s@),
{
    let v = chars_of(s);
    let mut i: usize = 0;
    while i < v.len()
        invariant
            v@ == s@,
            i <= v.len(),
            forall|j: int| 0 <= j < i ==> is_white(#[trigger] v@[j]),
        decreases v.len() - i,
    {
        if !is_white_exec(v[i]) {
            return false;
        }
        i += 1;
    }
    true
}

/// Is `c` an ASCII decimal digit?
pub fn is_digit_exec(c: char) -> (r: bool)
    ensures
        r == is_digit(c),
{
    '0' <= c && c <= '9'
}

/// The character of the digit `d`.
pub fn digit_exec(d: u128) -> (c: char)
    requires
        d < 10,
    ensures
        c == digit(d as int),
{
    if d == 0 {
        '0'
    } else if d == 1 {
        '1'
    } else if d == 2 {
        '2'
    } else if d == 3 {
        '3'
    } else if d == 4 {
        '4'
    } else if d == 5 {
        '5'
    } else if d == 6 {
        '6'
    } else if d == 7 {
        '7'
    } else if d == 8 {
        '8'
    } else {
        '9'
    }
}

/// Append the decimal rendering of `n` to `s`.
pub fn push_decimal(s: &mut String, n: u128)
    ensures
        final(s)@ == old(s)@ + dec(n as nat),
    decreases n,
{
    if n >= 10 {
        push_decimal(s, n / 10);
    }
    let d = digit_exec(n % 10);
    s.push(d);
    assert(final(s)@ =~= old(s)@ + dec(n as nat));
}

/// The decimal rendering of `n` — `n.to_string()`.
pub fn decimal(n: u128) -> (r: String)
    ensures
        r@ == dec(n as nat),
{
    let mut s = String::new();
    push_decimal(&mut s, n);
    assert(s@ =~= dec(n as nat));
    s
}

/// Unfolding `replace_all` one step past a position where `pat` stands.
proof fn lemma_replace_step(s: Seq<char>, i: int, pat: Seq<char>, rep: Seq<char>)
    requires
        0 <= i < s.len(),
    ensures
        pat.len() > 0 && starts_with(s.skip(i), pat) ==> replace_all(s.skip(i), pat, rep) == rep
            + replace_all(s.skip(i + pat.len()), pat, rep),
        !(pat.len() > 0 && starts_with(s.skip(i), pat)) ==> replace_all(s.skip(i), pat, rep)
            == seq![s[i]] + replace_all(s.skip(i + 1), pat, rep),
{
    let t = s.skip(i);
    assert(t.len() > 0);
    if pat.len() > 0 && starts_with(t, pat) {
        assert(t.skip(pat.len() as int) =~= s.skip(i + pat.len()));
    } else {
        assert(t.skip(1) =~= s.skip(i + 1));
        assert(t[0] == s[i]);
    }
}

/// `s` with every occurrence of `pat` replaced by `rep` — `s.replace(pat, rep)`.
pub fn replace(s: &str, pat: &str, rep: &str) -> (r: String)
    requires
        pat@.len() > 0,
    ensures
        r@ == replace_all(s@, pat@, rep@),
{
    let c = chars_of(s);
    let p = chars_of(pat);
    let mut out = String::new();
    let mut i: usize = 0;
    assert(s@.skip(0) =~= s@);
    while i < c.len()
        invariant
            c@ == s@,
            p@ == pat@,
            p@.len() > 0,
            i <= c.len(),
            out@ + replace_all(s@.skip(i as int), pat@, rep@) == replace_all(s@, pat@, rep@),
        decreases c.len() - i,
    {
        proof {
            lemma_replace_step(s@, i as int, pat@, rep@);
        }
        let here = occurs_at_exec(&c, i, &p);
        proof {
            if here {
                assert(s@.skip(i as int).subrange(0, pat@.len() as int) =~= s@.subrange(
                    i as int,
                    i + pat@.len(),
                ));
            } else {
                if i + p@.len() <= c@.len() {
                    assert(s@.skip(i as int).subrange(0, pat@.len() as int) =~= s@.subrange(
                        i as int,
                        i + pat@.len(),
                    ));
                }
            }
        }
        if here {
            out.append(rep);
            i += p.len();
        } else {
            out.push(c[i]);
            i += 1;
        }
        assert(out@ + replace_all(s@.skip(i as int), pat@, rep@) =~= replace_all(
            s@,
            pat@,
            rep@,
        ));
    }
    assert(s@.skip(i as int).len() == 0);
    assert(out@ =~= replace_all(s@, pat@, rep@));
    out
}

/// The strings of `parts` joined by `sep` — `parts.join(sep)`.
pub fn join_strings(parts: &Vec<String>, sep: &str) -> (r: String)
    ensures
        r@ == join(views(parts@), sep@),
{
    let mut r = String::new();
    let ghost all = views(parts@);
    let mut i: usize = 0;
    while i < parts.len()
        invariant
            all == views(parts@),
            i <= parts.len(),
            r@ == join(all.take(i as int), sep@),
        decreases parts.len() - i,
    {
        assert(all.take(i + 1).drop_last() =~= all.take(i as int));
        if i != 0 {
            r.append(sep);
        }
        r.append(parts[i].as_str());
        i += 1;
        assert(r@ =~= join(all.take(i as int), sep@));
    }
    assert(all.take(parts.len() as int) =~= all);
    r
}

/// The character sequences of a list of character vectors.
pub open spec fn cviews(v: Seq<Vec<char>>) -> Seq<Seq<char>> {
    v.map_values(|x: Vec<char>| x@)
}

/// `a` followed by `b`.
pub fn concat_chars(a: &Vec<char>, b: &Vec<char>) -> (r: Vec<char>)
    ensures
        r@ == a@ + b@,
{
    let mut r: Vec<char> = Vec::new();
    let mut i: usize = 0;
    while i < a.len()
        invariant
            i <= a.len(),
            r@ == a@.take(i as int),
        decreases a.len() - i,
    {
        r.push(a[i]);
        i += 1;
        assert(r@ =~= a@.take(i as int));
    }
    let mut j: usize = 0;
    while j < b.len()
        invariant
            i == a.len(),
            j <= b.len(),
            r@ == a@ + b@.take(j as int),
        decreases b.len() - j,
    {
        r.push(b[j]);
        j += 1;
        assert(r@ =~= a@ + b@.take(j as int));
    }
    assert(a@.take(a.len() as int) =~= a@);
    assert(b@.take(b.len() as int) =~= b@);
    r
}

/// Do `a` and `b` hold the same characters?
pub fn chars_eq(a: &Vec<char>, b: &Vec<char>) -> (r: bool)
    ensures
        r == (a@ == b@),
{
    if a.len() != b.len() {
        return false;
    }
    let mut i: usize = 0;
    while i < a.len()
        invariant
            a.len() == b.len(),
            i <= a.len(),
            forall|j: int| 0 <= j < i ==> a@[j] == b@[j],
        decreases a.len() - i,
    {
        if a[i] != b[i] {
            return false;
        }
        i += 1;
    }
    assert(a@ =~= b@);
    true
}

/// The first `n` characters of `v`.
pub fn take_chars(v: &Vec<char>, n: usize) -> (r: Vec<char>)
    requires
        n <= v.len(),
    ensures
        r@ == v@.take(n as int),
{
    let mut r: Vec<char> = Vec::new();
    let mut i: usize = 0;
    while i < n
        invariant
            n <= v.len(),
            i <= n,
            r@ == v@.take(i as int),
        decreases n - i,
    {
        r.push(v[i]);
        i += 1;
        assert(r@ =~= v@.take(i as int));
    }
    r
}

/// Do `a` and `b` spell the same characters?
pub fn str_eq(a: &str, b: &str) -> (r: bool)
    ensures
        r == (a@ == b@),
{
    chars_eq(&chars_of(a), &chars_of(b))
}

/// Does `v` hold a string spelling `x`?
pub fn holds(v: &Vec<String>, x: &str) -> (r: bool)
    ensures
        r == views(v@).contains(x@),
{
    let mut i: usize = 0;
    while i < v.len()
        invariant
            i <= v.len(),
            forall|k: int| 0 <= k < i ==> #[trigger] v@[k]@ != x@,
        decreases v.len() - i,
    {
        if str_eq(v[i].as_str(), x) {
            assert(views(v@)[i as int] == x@);
            return true;
        }
        i += 1;
    }
    assert forall|k: int| 0 <= k < views(v@).len() implies views(v@)[k] != x@ by {
        assert(views(v@)[k] == v@[k]@);
    }
    false
}

/// A copy of every string in `v`.
pub fn copy_strings(v: &Vec<String>) -> (r: Vec<String>)
    ensures
        views(r@) == views(v@),
{
    let mut r: Vec<String> = Vec::new();
    let mut i: usize = 0;
    while i < v.len()
        invariant
            i <= v.len(),
            views(r@) == views(v@).take(i as int),
        decreases v.len() - i,
    {
        let c = v[i].clone();
        let ghost before = r@;
        r.push(c);
        assert(r@ == before.push(c));
        assert(c@ == v@[i as int]@);
        assert(views(r@) =~= views(before).push(c@));
        assert(views(v@).take(i + 1) =~= views(v@).take(i as int).push(v@[i as int]@));
        i += 1;
    }
    assert(views(v@).take(v.len() as int) =~= views(v@));
    r
}

/// `s` without every entry equal to `x`, the rest in order.
pub open spec fn without(s: Seq<Seq<char>>, x: Seq<char>) -> Seq<Seq<char>>
    decreases s.len(),
{
    if s.len() == 0 {
        s
    } else if s.last() == x {
        without(s.drop_last(), x)
    } else {
        without(s.drop_last(), x).push(s.last())
    }
}

/// `s` with every later repeat of an entry dropped, first occurrences in order.
pub open spec fn dedup(s: Seq<Seq<char>>) -> Seq<Seq<char>>
    decreases s.len(),
{
    if s.len() == 0 {
        s
    } else if dedup(s.drop_last()).contains(s.last()) {
        dedup(s.drop_last())
    } else {
        dedup(s.drop_last()).push(s.last())
    }
}

/// Every string of `v` except those spelling `x`, in order.
pub fn strings_without(v: Vec<String>, x: &str) -> (r: Vec<String>)
    ensures
        views(r@) == without(views(v@), x@),
{
    let mut r: Vec<String> = Vec::new();
    let mut i: usize = 0;
    while i < v.len()
        invariant
            i <= v.len(),
            views(r@) == without(views(v@).take(i as int), x@),
        decreases v.len() - i,
    {
        assert(views(v@).take(i + 1).drop_last() =~= views(v@).take(i as int));
        if !str_eq(v[i].as_str(), x) {
            let c = v[i].clone();
            assert(c@ == v@[i as int]@);
            r.push(c);
            assert(views(r@) =~= without(views(v@).take(i + 1), x@));
        }
        i += 1;
    }
    assert(views(v@).take(v.len() as int) =~= views(v@));
    r
}


/// What [`without`] leaves is everything but `x`.
pub proof fn lemma_without(s: Seq<Seq<char>>, x: Seq<char>)
    ensures
        forall|y: Seq<char>| #[trigger] without(s, x).contains(y) <==> (s.contains(y) && y != x),
    decreases s.len(),
{
    if s.len() > 0 {
        let d = s.drop_last();
        lemma_without(d, x);
        let w = without(s, x);
        assert forall|y: Seq<char>| #[trigger] w.contains(y) <==> (s.contains(y) && y != x) by {
            if s.contains(y) && y != x {
                let k = choose|k: int| 0 <= k < s.len() && s[k] == y;
                if k < d.len() {
                    assert(d[k] == y);
                    assert(d.contains(y));
                    assert(without(d, x).contains(y));
                    let m = choose|m: int| 0 <= m < without(d, x).len() && without(d, x)[m] == y;
                    assert(w[m] == y);
                } else {
                    assert(w[w.len() - 1] == y);
                }
            }
            if w.contains(y) {
                let m = choose|m: int| 0 <= m < w.len() && w[m] == y;
                if m < without(d, x).len() {
                    assert(without(d, x)[m] == y);
                    assert(without(d, x).contains(y));
                    let k = choose|k: int| 0 <= k < d.len() && d[k] == y;
                    assert(s[k] == y);
                } else {
                    assert(s[s.len() - 1] == y);
                }
            }
        }
    }
}

/// What [`dedup`] keeps is everything there was, each once.
pub proof fn lemma_dedup(s: Seq<Seq<char>>)
    ensures
        forall|y: Seq<char>| #[trigger] dedup(s).contains(y) <==> s.contains(y),
        dedup(s).no_duplicates(),
    decreases s.len(),
{
    if s.len() > 0 {
        let d = s.drop_last();
        lemma_dedup(d);
        let p = dedup(d);
        let r = dedup(s);
        assert forall|y: Seq<char>| #[trigger] r.contains(y) <==> s.contains(y) by {
            if s.contains(y) {
                let k = choose|k: int| 0 <= k < s.len() && s[k] == y;
                if k < d.len() {
                    assert(d[k] == y);
                    assert(d.contains(y));
                    assert(p.contains(y));
                    let m = choose|m: int| 0 <= m < p.len() && p[m] == y;
                    assert(r[m] == y);
                } else if !p.contains(s.last()) {
                    assert(r[r.len() - 1] == y);
                }
            }
            if r.contains(y) {
                let m = choose|m: int| 0 <= m < r.len() && r[m] == y;
                if m < p.len() {
                    assert(p[m] == y);
                    assert(p.contains(y));
                    let k = choose|k: int| 0 <= k < d.len() && d[k] == y;
                    assert(s[k] == y);
                } else {
                    assert(s[s.len() - 1] == y);
                }
            }
        }
        if !p.contains(s.last()) {
            assert forall|a: int, b: int| 0 <= a < r.len() && 0 <= b < r.len() && a != b implies r[a] != r[b] by {
                if a < p.len() && b < p.len() {
                } else if a < p.len() {
                    assert(p.contains(p[a]));
                } else if b < p.len() {
                    assert(p.contains(p[b]));
                }
            }
        }
    }
}

/// How many bytes a prefix of at most `n` bytes of `s` keeps: `n`, or all of a shorter string.
pub open spec fn prefix_len(s: Seq<char>, n: int) -> int {
    let b = (encode_utf8(s).len() as usize) as int;
    if b < n {
        b
    } else {
        n
    }
}

/// The first `n` bytes of `s`, or all of a shorter one, as characters — `&s[..s.len().min(n)]`.
pub open spec fn byte_prefix_of(s: Seq<char>, n: int) -> Seq<char> {
    decode_utf8(encode_utf8(s).subrange(0, prefix_len(s, n)))
}

/// The first `n` bytes of `s`, or all of a shorter one.
pub fn byte_prefix(s: &str, n: usize) -> (r: &str)
    requires
        is_char_boundary(encode_utf8(s@), prefix_len(s@, n as int)),
    ensures
        r@ == byte_prefix_of(s@, n as int),
{
    let len = s.len();
    let k = if len < n {
        len
    } else {
        n
    };
    assert(s.spec_bytes() == encode_utf8(s@));
    let (head, _) = s.split_at(k);
    proof {
        vstd::utf8::encode_utf8_decode_utf8(head@);
    }
    head
}

/// The decimal rendering of a signed integer — what `Display` writes for an `i64`.
pub open spec fn signed_dec(n: int) -> Seq<char> {
    if n < 0 {
        seq!['-'] + dec((-n) as nat)
    } else {
        dec(n as nat)
    }
}

/// The decimal rendering of `n` — `n.to_string()` for an `i64`.
pub fn signed_decimal(n: i64) -> (r: String)
    ensures
        r@ == signed_dec(n as int),
{
    let mut s = String::new();
    if n < 0 {
        s.push('-');
        let m: i128 = -(n as i128);
        push_decimal(&mut s, m as u128);
    } else {
        push_decimal(&mut s, n as u128);
    }
    assert(s@ =~= signed_dec(n as int));
    s
}

} // verus!
