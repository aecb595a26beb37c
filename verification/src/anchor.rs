//! **Where the working copy stood when a turn changed hands** — the commit anchor a handover
//! records, the fingerprint that makes two of them comparable, and what moved between two.
use vstd::prelude::*;
use vstd::utf8::{decode_utf8, encode_utf8, is_char_boundary};
use vstd::string::StringSliceAdditionalSpecFns;
use sha2::{Digest, Sha256};

verus! {

/// **Where the working copy stood at one handover.**
#[derive(Debug, Clone, PartialEq, Eq)]
pub struct Anchor {
    /// The commit `HEAD` pointed at, in full.
    pub commit: String,
    /// The branch `HEAD` was on, or empty for a detached `HEAD`.
    pub branch: String,
    /// Something was uncommitted: tracked changes, untracked files, or both.
    pub dirty: bool,
    /// The comparable summary of the commit, the porcelain status and the diff.
    pub fingerprint: String,
}

/// How many bytes of the commit the short form keeps.
pub open spec fn short_len(commit: Seq<char>) -> int {
    let n = (encode_utf8(commit).len() as usize) as int;
    if n < 12 {
        n
    } else {
        12
    }
}

/// The short form of a commit, as characters.
pub open spec fn short_of(commit: Seq<char>) -> Seq<char> {
    decode_utf8(encode_utf8(commit).subrange(0, short_len(commit)))
}

impl Anchor {
    /// The first twelve bytes of the commit — what a human line prints — or all of a shorter one.
    pub fn short(&self) -> (s: &str)
        requires
            is_char_boundary(encode_utf8(self.commit@), short_len(self.commit@)),
        ensures
            encode_utf8(s@) == encode_utf8(self.commit@).subrange(0, short_len(self.commit@)),
            s@ == short_of(self.commit@),
    {
        let c = self.commit.as_str();
        let len = c.len();
        let n = if len < 12 {
            len
        } else {
            12
        };
        assert(c.spec_bytes() == encode_utf8(self.commit@));
        let (head, _) = c.split_at(n);
        proof {
            vstd::utf8::encode_utf8_decode_utf8(head@);
        }
        head
    }

    /// **Has the working copy moved since `then` was taken?** `self` is now. The commit and the
    /// branch are reported when they changed; the uncommitted work only while the commit stands
    /// still, since fingerprints at two commits are not comparable.
    pub fn drift_from(&self, then: &Anchor) -> (d: Drift)
        ensures
            d == drift_of(*self, *then),
    {
        Drift {
            commit_now: if self.commit != then.commit {
                Some(self.commit.clone())
            } else {
                None
            },
            branch_now: if self.branch != then.branch {
                Some(self.branch.clone())
            } else {
                None
            },
            uncommitted_now: self.commit == then.commit && self.fingerprint != then.fingerprint,
        }
    }
}

/// **What moved between two anchors** — three separate answers.
#[derive(Debug, Clone, PartialEq, Eq)]
pub struct Drift {
    /// `HEAD` is a different commit now — the new one.
    pub commit_now: Option<String>,
    /// `HEAD` is on a different branch now — the new one, or empty for a detached `HEAD`.
    pub branch_now: Option<String>,
    /// The commit stands still and the uncommitted work does not.
    pub uncommitted_now: bool,
}

impl Default for Drift {
    fn default() -> (d: Drift)
        ensures
            d.commit_now is None,
            d.branch_now is None,
            !d.uncommitted_now,
    {
        Drift { commit_now: None, branch_now: None, uncommitted_now: false }
    }
}

/// What moved from `then` to `now`.
pub open spec fn drift_of(now: Anchor, then: Anchor) -> Drift {
    Drift {
        commit_now: if now.commit@ != then.commit@ {
            Some(now.commit)
        } else {
            None
        },
        branch_now: if now.branch@ != then.branch@ {
            Some(now.branch)
        } else {
            None
        },
        uncommitted_now: now.commit@ == then.commit@ && now.fingerprint@ != then.fingerprint@,
    }
}

/// Did anything move at all?
pub open spec fn moved(d: Drift) -> bool {
    d.commit_now is Some || d.branch_now is Some || d.uncommitted_now
}

impl Drift {
    /// Did anything move at all? The one question a resume branches on.
    pub fn any(&self) -> (r: bool)
        ensures
            r == moved(*self),
    {
        self.commit_now.is_some() || self.branch_now.is_some() || self.uncommitted_now
    }
}

/// **Each of the three drifts is reported on its own terms**: the new commit exactly when the
/// commit changed; the new branch exactly when the branch changed, whatever the commits did; and
/// moved uncommitted work exactly when the commit stands still and the fingerprint does not.
pub proof fn lemma_each_drift_on_its_own(now: Anchor, then: Anchor)
    ensures
        (drift_of(now, then).commit_now is None) <==> now.commit@ == then.commit@,
        drift_of(now, then).commit_now matches Some(c) ==> c == now.commit,
        (drift_of(now, then).branch_now is None) <==> now.branch@ == then.branch@,
        drift_of(now, then).branch_now matches Some(b) ==> b == now.branch,
        drift_of(now, then).uncommitted_now <==> (now.commit@ == then.commit@ && now.fingerprint@
            != then.fingerprint@),
{
}

/// **An anchor compared with itself has not moved.**
pub proof fn lemma_no_drift_from_itself(a: Anchor)
    ensures
        !moved(drift_of(a, a)),
{
}

/// **Why no anchor was taken** — every one of these leaves the handover as it was.
#[derive(Debug, Clone, PartialEq, Eq)]
pub enum AnchorRefusal {
    /// The runtime runs its sessions in no directory this process can see.
    NoWorkingCopy(String),
    /// There is a directory and git does not know it.
    NotARepository(String),
    /// A git read failed where it should have worked; what git said.
    Git(String),
}

impl AnchorRefusal {
    /// The one-line prose every caller prints.
    pub fn detail(&self) -> (s: &str)
        ensures
            s@ == match *self {
                AnchorRefusal::NoWorkingCopy(m) => m@,
                AnchorRefusal::NotARepository(m) => m@,
                AnchorRefusal::Git(m) => m@,
            },
    {
        match self {
            AnchorRefusal::NoWorkingCopy(s) => s.as_str(),
            AnchorRefusal::NotARepository(s) => s.as_str(),
            AnchorRefusal::Git(s) => s.as_str(),
        }
    }
}

// ---- the fingerprint -----------------------------------------------------------------------

/// The SHA-256 digest of a byte string.
pub uninterp spec fn sha256_of(data: Seq<u8>) -> Seq<u8>;

/// The SHA-256 digest of `data`, by `sha2::Sha256` (`new`, one `update`, `finalize`). Claimed: the
/// result is [`sha256_of`] of the bytes, so it depends on them alone, and it is 32 bytes long; what
/// the digest is is left unstated.
#[verifier::external_body]
fn sha256_digest(data: &[u8]) -> (d: Vec<u8>)
    ensures
        d@ == sha256_of(data@),
        d@.len() == 32,
{
    let mut h = Sha256::new();
    h.update(data);
    h.finalize().to_vec()
}

/// `n` as eight big-endian bytes.
pub open spec fn be_u64(n: u64) -> Seq<u8> {
    Seq::new(8, |i: int| ((n as int / pow256(7 - i)) % 256) as u8)
}

/// `256` to the `k`.
pub open spec fn pow256(k: int) -> int
    decreases k,
{
    if k <= 0 {
        1
    } else {
        256 * pow256(k - 1)
    }
}

/// One part of the fingerprinted message: its length, then its bytes.
pub open spec fn framed_part(p: Seq<u8>) -> Seq<u8> {
    be_u64(p.len() as u64) + p
}

/// **What the fingerprint hashes**: the commit, the porcelain status and the diff, each prefixed
/// by its length so no one of them can end where the next begins.
pub open spec fn framed(commit: Seq<u8>, porcelain: Seq<u8>, diff: Seq<u8>) -> Seq<u8> {
    framed_part(commit) + framed_part(porcelain) + framed_part(diff)
}

/// The lowercase hex digit for `d`.
pub open spec fn hex_digit(d: int) -> char {
    if d < 10 {
        (48 + d) as char
    } else {
        (87 + d) as char
    }
}

/// Bytes as lowercase hex, two digits a byte.
pub open spec fn hex_of(b: Seq<u8>) -> Seq<char>
    decreases b.len(),
{
    if b.len() == 0 {
        Seq::empty()
    } else {
        hex_of(b.drop_last()) + seq![hex_digit(b.last() as int / 16), hex_digit(b.last() as int % 16)]
    }
}

/// **The fingerprint of three inputs**: the hex SHA-256 of [`framed`].
pub open spec fn fingerprint_spec(commit: Seq<char>, porcelain: Seq<u8>, diff: Seq<u8>) -> Seq<char> {
    hex_of(sha256_of(framed(encode_utf8(commit), porcelain, diff)))
}

/// The digit character of a value below sixteen.
fn hex_digit_exec(d: u8) -> (c: char)
    requires
        d < 16,
    ensures
        c == hex_digit(d as int),
{
    if d < 10 {
        (48 + d) as char
    } else {
        (87 + d) as char
    }
}

/// **Bytes as lowercase hex**, two digits a byte — how a digest is printed.
pub fn hex_lower(bytes: &[u8]) -> (s: String)
    ensures
        s@ == hex_of(bytes@),
{
    let mut s = String::new();
    let mut i: usize = 0;
    while i < bytes.len()
        invariant
            i <= bytes@.len(),
            s@ == hex_of(bytes@.take(i as int)),
        decreases bytes@.len() - i,
    {
        let b = bytes[i];
        s.push(hex_digit_exec(b / 16));
        s.push(hex_digit_exec(b % 16));
        proof {
            let t = bytes@.take(i + 1);
            assert(t.drop_last() =~= bytes@.take(i as int));
            assert(t.last() == b);
        }
        i += 1;
    }
    assert(bytes@.take(i as int) =~= bytes@);
    s
}

/// Append `n` as eight big-endian bytes.
fn push_be_u64(out: &mut Vec<u8>, n: u64)
    ensures
        final(out)@ == old(out)@ + be_u64(n),
{
    let ghost start = out@;
    let mut k: usize = 0;
    while k < 8
        invariant
            k <= 8,
            out@ == start + be_u64(n).take(k as int),
        decreases 8 - k,
    {
        let shift: u64 = (56 - 8 * k) as u64;
        let byte = ((n >> shift) & 0xff) as u8;
        proof {
            lemma_shift_is_division(n, k as int);
        }
        out.push(byte);
        assert(be_u64(n).take(k + 1) =~= be_u64(n).take(k as int).push(be_u64(n)[k as int]));
        k += 1;
    }
    assert(be_u64(n).take(8) =~= be_u64(n));
}

/// Byte `k` of the big-endian form is the one the shift picks out.
proof fn lemma_shift_is_division(n: u64, k: int)
    requires
        0 <= k < 8,
    ensures
        ((n >> ((56 - 8 * k) as u64)) & 0xff) as u8 == ((n as int / pow256(7 - k)) % 256) as u8,
{
    reveal_with_fuel(pow256, 8);
    let s = (56 - 8 * k) as u64;
    if k == 0 {
        assert(((n >> 56u64) & 0xff) as u8 == ((n / 0x100000000000000u64) % 256) as u8) by (bit_vector);
    } else if k == 1 {
        assert(((n >> 48u64) & 0xff) as u8 == ((n / 0x1000000000000u64) % 256) as u8) by (bit_vector);
    } else if k == 2 {
        assert(((n >> 40u64) & 0xff) as u8 == ((n / 0x10000000000u64) % 256) as u8) by (bit_vector);
    } else if k == 3 {
        assert(((n >> 32u64) & 0xff) as u8 == ((n / 0x100000000u64) % 256) as u8) by (bit_vector);
    } else if k == 4 {
        assert(((n >> 24u64) & 0xff) as u8 == ((n / 0x1000000u64) % 256) as u8) by (bit_vector);
    } else if k == 5 {
        assert(((n >> 16u64) & 0xff) as u8 == ((n / 0x10000u64) % 256) as u8) by (bit_vector);
    } else if k == 6 {
        assert(((n >> 8u64) & 0xff) as u8 == ((n / 0x100u64) % 256) as u8) by (bit_vector);
    } else {
        assert(((n >> 0u64) & 0xff) as u8 == ((n / 1u64) % 256) as u8) by (bit_vector);
    }
}

/// Append one length-prefixed part.
fn push_part(out: &mut Vec<u8>, part: &[u8])
    ensures
        final(out)@ == old(out)@ + framed_part(part@),
{
    let ghost start = out@;
    push_be_u64(out, part.len() as u64);
    let ghost mid = out@;
    let mut i: usize = 0;
    while i < part.len()
        invariant
            i <= part@.len(),
            out@ == mid + part@.take(i as int),
        decreases part@.len() - i,
    {
        out.push(part[i]);
        assert(part@.take(i + 1) =~= part@.take(i as int).push(part@[i as int]));
        i += 1;
    }
    assert(part@.take(i as int) =~= part@);
    assert(out@ =~= start + framed_part(part@));
}

/// **The fingerprint, as a function of its three inputs alone**: the SHA-256 of the commit, the
/// porcelain status and the diff, each length-prefixed, as lowercase hex.
pub fn fingerprint_of(commit: &str, porcelain: &[u8], diff: &[u8]) -> (f: String)
    ensures
        f@ == fingerprint_spec(commit@, porcelain@, diff@),
        f@.len() == 64,
{
    let mut message: Vec<u8> = Vec::new();
    push_part(&mut message, commit.as_bytes());
    push_part(&mut message, porcelain);
    push_part(&mut message, diff);
    assert(message@ =~= framed(encode_utf8(commit@), porcelain@, diff@));
    let digest = sha256_digest(message.as_slice());
    let f = hex_lower(digest.as_slice());
    proof {
        lemma_hex_len(digest@);
    }
    f
}

/// Two hex digits a byte.
proof fn lemma_hex_len(b: Seq<u8>)
    ensures
        hex_of(b).len() == 2 * b.len(),
    decreases b.len(),
{
    if b.len() > 0 {
        lemma_hex_len(b.drop_last());
    }
}


// ---- the framing cannot be misread ---------------------------------------------------------

/// Two values whose low bytes agree as bytes agree below 256.
proof fn lemma_byte_of(x: u64, y: u64)
    requires
        ((x % 256) as u8) == ((y % 256) as u8),
    ensures
        x % 256 == y % 256,
{
}

/// Eight big-endian bytes name one number.
proof fn lemma_be_u64_injective(a: u64, b: u64)
    requires
        be_u64(a) == be_u64(b),
    ensures
        a == b,
{
    reveal_with_fuel(pow256, 8);
    assert(be_u64(a)[0] == ((a / 0x100000000000000u64) % 256) as u8);
    assert(be_u64(b)[0] == ((b / 0x100000000000000u64) % 256) as u8);
    lemma_byte_of(a / 0x100000000000000u64, b / 0x100000000000000u64);
    assert(be_u64(a)[1] == ((a / 0x1000000000000u64) % 256) as u8);
    assert(be_u64(b)[1] == ((b / 0x1000000000000u64) % 256) as u8);
    lemma_byte_of(a / 0x1000000000000u64, b / 0x1000000000000u64);
    assert(be_u64(a)[2] == ((a / 0x10000000000u64) % 256) as u8);
    assert(be_u64(b)[2] == ((b / 0x10000000000u64) % 256) as u8);
    lemma_byte_of(a / 0x10000000000u64, b / 0x10000000000u64);
    assert(be_u64(a)[3] == ((a / 0x100000000u64) % 256) as u8);
    assert(be_u64(b)[3] == ((b / 0x100000000u64) % 256) as u8);
    lemma_byte_of(a / 0x100000000u64, b / 0x100000000u64);
    assert(be_u64(a)[4] == ((a / 0x1000000u64) % 256) as u8);
    assert(be_u64(b)[4] == ((b / 0x1000000u64) % 256) as u8);
    lemma_byte_of(a / 0x1000000u64, b / 0x1000000u64);
    assert(be_u64(a)[5] == ((a / 0x10000u64) % 256) as u8);
    assert(be_u64(b)[5] == ((b / 0x10000u64) % 256) as u8);
    lemma_byte_of(a / 0x10000u64, b / 0x10000u64);
    assert(be_u64(a)[6] == ((a / 0x100u64) % 256) as u8);
    assert(be_u64(b)[6] == ((b / 0x100u64) % 256) as u8);
    lemma_byte_of(a / 0x100u64, b / 0x100u64);
    assert(be_u64(a)[7] == ((a / 1u64) % 256) as u8);
    assert(be_u64(b)[7] == ((b / 1u64) % 256) as u8);
    lemma_byte_of(a / 1u64, b / 1u64);
    assert(a == b) by (bit_vector)
        requires
            (a / 0x100000000000000u64) % 256 == (b / 0x100000000000000u64) % 256,
            (a / 0x1000000000000u64) % 256 == (b / 0x1000000000000u64) % 256,
            (a / 0x10000000000u64) % 256 == (b / 0x10000000000u64) % 256,
            (a / 0x100000000u64) % 256 == (b / 0x100000000u64) % 256,
            (a / 0x1000000u64) % 256 == (b / 0x1000000u64) % 256,
            (a / 0x10000u64) % 256 == (b / 0x10000u64) % 256,
            (a / 0x100u64) % 256 == (b / 0x100u64) % 256,
            (a / 1u64) % 256 == (b / 1u64) % 256,
    ;
}

/// A length-prefixed part followed by anything is read back as that part and that rest.
proof fn lemma_read_part(p1: Seq<u8>, r1: Seq<u8>, p2: Seq<u8>, r2: Seq<u8>)
    requires
        p1.len() < 0x1_0000_0000_0000_0000,
        p2.len() < 0x1_0000_0000_0000_0000,
        framed_part(p1) + r1 == framed_part(p2) + r2,
    ensures
        p1 == p2,
        r1 == r2,
{
    let x = framed_part(p1) + r1;
    let y = framed_part(p2) + r2;
    assert(x.take(8) =~= be_u64(p1.len() as u64));
    assert(y.take(8) =~= be_u64(p2.len() as u64));
    lemma_be_u64_injective(p1.len() as u64, p2.len() as u64);
    assert(p1.len() == p2.len());
    assert(x.subrange(8, 8 + p1.len() as int) =~= p1);
    assert(y.subrange(8, 8 + p2.len() as int) =~= p2);
    assert(x.skip(8 + p1.len() as int) =~= r1);
    assert(y.skip(8 + p2.len() as int) =~= r2);
}

/// **The three inputs of a fingerprint cannot bleed into each other**: the message hashed names
/// its commit, its porcelain status and its diff exactly, so two different triples never hash
/// the same message — whatever a diff's last line looks like.
pub proof fn lemma_framing_is_injective(
    c1: Seq<u8>,
    p1: Seq<u8>,
    d1: Seq<u8>,
    c2: Seq<u8>,
    p2: Seq<u8>,
    d2: Seq<u8>,
)
    requires
        c1.len() < 0x1_0000_0000_0000_0000,
        p1.len() < 0x1_0000_0000_0000_0000,
        d1.len() < 0x1_0000_0000_0000_0000,
        c2.len() < 0x1_0000_0000_0000_0000,
        p2.len() < 0x1_0000_0000_0000_0000,
        d2.len() < 0x1_0000_0000_0000_0000,
        framed(c1, p1, d1) == framed(c2, p2, d2),
    ensures
        c1 == c2,
        p1 == p2,
        d1 == d2,
{
    assert(framed(c1, p1, d1) =~= framed_part(c1) + (framed_part(p1) + framed_part(d1)));
    assert(framed(c2, p2, d2) =~= framed_part(c2) + (framed_part(p2) + framed_part(d2)));
    lemma_read_part(c1, framed_part(p1) + framed_part(d1), c2, framed_part(p2) + framed_part(d2));
    lemma_read_part(p1, framed_part(d1), p2, framed_part(d2));
    assert(framed_part(d1) =~= framed_part(d1) + Seq::<u8>::empty());
    assert(framed_part(d2) =~= framed_part(d2) + Seq::<u8>::empty());
    lemma_read_part(d1, Seq::empty(), d2, Seq::empty());
}


// ---- taking an anchor ----------------------------------------------------------------------

/// ASCII whitespace: space, tab, line feed, form feed, carriage return.
pub open spec fn ascii_white(c: u8) -> bool {
    c == 0x20 || c == 0x09 || c == 0x0A || c == 0x0C || c == 0x0D
}

/// `b` without its leading ASCII whitespace.
pub open spec fn trim_start(b: Seq<u8>) -> Seq<u8>
    decreases b.len(),
{
    if b.len() > 0 && ascii_white(b[0]) {
        trim_start(b.drop_first())
    } else {
        b
    }
}

/// `b` without its trailing ASCII whitespace.
pub open spec fn trim_end(b: Seq<u8>) -> Seq<u8>
    decreases b.len(),
{
    if b.len() > 0 && ascii_white(b.last()) {
        trim_end(b.drop_last())
    } else {
        b
    }
}

/// `b` without ASCII whitespace at either end.
pub open spec fn trimmed(b: Seq<u8>) -> Seq<u8> {
    trim_end(trim_start(b))
}

/// **ASCII whitespace off both ends of a byte slice** — `str::trim` for reads that never became
/// text, and that may not be text at all.
pub fn trim_ascii(b: &[u8]) -> (t: &[u8])
    ensures
        t@ == trimmed(b@),
{
    let mut start: usize = 0;
    assert(b@.skip(0) =~= b@);
    while start < b.len() && (b[start] == 0x20 || b[start] == 0x09 || b[start] == 0x0A || b[start] == 0x0C || b[start] == 0x0D)
        invariant
            start <= b@.len(),
            trim_start(b@) == trim_start(b@.skip(start as int)),
        decreases b@.len() - start,
    {
        proof {
            assert(b@.skip(start as int).drop_first() =~= b@.skip(start + 1));
        }
        start += 1;
    }
    let mut end: usize = b.len();
    let ghost rest = b@.skip(start as int);
    proof {
        assert(trim_start(b@) == rest);
        assert(b@.subrange(start as int, b@.len() as int) =~= rest);
    }
    while end > start && (b[end - 1] == 0x20 || b[end - 1] == 0x09 || b[end - 1] == 0x0A || b[end - 1] == 0x0C || b[end - 1] == 0x0D)
        invariant
            start <= end <= b@.len(),
            rest == b@.skip(start as int),
            trim_end(rest) == trim_end(b@.subrange(start as int, end as int)),
        decreases end,
    {
        proof {
            assert(b@.subrange(start as int, end as int).drop_last() =~= b@.subrange(start as int, end - 1));
        }
        end -= 1;
    }
    vstd::slice::slice_subrange(b, start, end)
}

/// What git answered in a working copy, read by read.
pub struct GitReads {
    /// `rev-parse --git-dir`: whether the directory is a repository at all.
    pub git_dir: Result<String, String>,
    /// `rev-parse HEAD`: the commit, or what git said.
    pub head: Result<String, String>,
    /// `symbolic-ref --quiet --short HEAD`: the branch; a detached `HEAD` answers with an error.
    pub branch: Result<String, String>,
    /// `status --porcelain --untracked-files=all`, as bytes.
    pub porcelain: Result<Vec<u8>, String>,
    /// `diff HEAD --no-textconv`, as bytes.
    pub diff: Result<Vec<u8>, String>,
}

/// **A working copy**: the directory a runtime runs its sessions in.
pub struct WorkingCopy {
    root: String,
}

/// Why a directory git does not know gets no anchor.
pub open spec fn not_a_repository_msg(root: Seq<char>) -> Seq<char> {
    "the working copy at "@ + root
        + " is not a git repository, so this handover cannot record where the tree stood — the message is posted either way"@
}

/// Why a runtime with no visible directory gets no anchor.
pub const NO_WORKING_COPY: &'static str = "this workspace's runtime does not run its sessions in a directory this process can see, so a handover cannot record where the working copy stood";

/// **What taking an anchor in `root` yields from `reads`**: a refusal naming the first read that
/// failed — not a repository, then the commit, the status, the diff — or the anchor.
pub open spec fn anchor_outcome(root: Seq<char>, reads: GitReads, r: Result<Anchor, AnchorRefusal>) -> bool {
    if reads.git_dir is Err {
        r matches Err(AnchorRefusal::NotARepository(m)) && m@ == not_a_repository_msg(root)
    } else if reads.head is Err {
        r matches Err(AnchorRefusal::Git(m)) && m == reads.head->Err_0
    } else if reads.porcelain is Err {
        r matches Err(AnchorRefusal::Git(m)) && m == reads.porcelain->Err_0
    } else if reads.diff is Err {
        r matches Err(AnchorRefusal::Git(m)) && m == reads.diff->Err_0
    } else {
        r matches Ok(a) && a.commit == reads.head->Ok_0 && a.branch@ == match reads.branch {
            Ok(b) => b@,
            Err(_) => Seq::empty(),
        } && a.dirty == (trimmed(reads.porcelain->Ok_0@).len() > 0) && a.fingerprint@ == fingerprint_spec(
            reads.head->Ok_0@,
            reads.porcelain->Ok_0@,
            reads.diff->Ok_0@,
        )
    }
}

impl WorkingCopy {
    /// The working copy at `root`.
    pub fn at(root: String) -> (w: WorkingCopy)
        ensures
            w.root() == root,
    {
        WorkingCopy { root }
    }

    /// Where it is.
    pub closed spec fn root(&self) -> String {
        self.root
    }

    /// Where it is, as text.
    pub fn root_text(&self) -> (r: &str)
        ensures
            r@ == self.root()@,
    {
        self.root.as_str()
    }

    /// **Where this working copy stands**, from what git answered in it: the commit, the branch
    /// (empty for a detached `HEAD`), whether anything is uncommitted — any status line that is
    /// more than whitespace — and the fingerprint of the three reads.
    pub fn anchor(&self, reads: &GitReads) -> (r: Result<Anchor, AnchorRefusal>)
        ensures
            anchor_outcome(self.root()@, *reads, r),
    {
        if reads.git_dir.is_err() {
            let mut m = String::new();
            m.append("the working copy at ");
            m.append(self.root.as_str());
            m.append(" is not a git repository, so this handover cannot record where the tree stood — the message is posted either way");
            return Err(AnchorRefusal::NotARepository(m));
        }
        let commit = match &reads.head {
            Ok(c) => c.clone(),
            Err(e) => {
                return Err(AnchorRefusal::Git(e.clone()));
            },
        };
        let branch = match &reads.branch {
            Ok(b) => b.clone(),
            Err(_) => String::new(),
        };
        let porcelain = match &reads.porcelain {
            Ok(p) => p,
            Err(e) => {
                return Err(AnchorRefusal::Git(e.clone()));
            },
        };
        let diff = match &reads.diff {
            Ok(d) => d,
            Err(e) => {
                return Err(AnchorRefusal::Git(e.clone()));
            },
        };
        let fingerprint = fingerprint_of(commit.as_str(), porcelain.as_slice(), diff.as_slice());
        let dirty = trim_ascii(porcelain.as_slice()).len() > 0;
        Ok(Anchor { commit, branch, dirty, fingerprint })
    }
}

/// **The anchor for a runtime that may have no working copy**: refused as
/// [`AnchorRefusal::NoWorkingCopy`] when there is no directory, and otherwise whatever the
/// working copy at `root` yields from `reads`.
pub fn anchor_for(root: Option<&str>, reads: &GitReads) -> (r: Result<Anchor, AnchorRefusal>)
    ensures
        match root {
            None => r matches Err(AnchorRefusal::NoWorkingCopy(m)) && m@ == NO_WORKING_COPY@,
            Some(dir) => anchor_outcome(dir@, *reads, r),
        },
{
    match root {
        None => Err(AnchorRefusal::NoWorkingCopy(NO_WORKING_COPY.to_string())),
        Some(dir) => WorkingCopy::at(dir.to_string()).anchor(reads),
    }
}

} // verus!
