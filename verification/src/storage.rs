//! Layout of the API's data directory and the checks on names and paths within it.
use vstd::prelude::*;

use vstd::utf8::encode_utf8;

use crate::text::{chars_of, lemma_split_on_nonempty, lemma_split_step, split_on, string_of};

verus! {

/// The data directory: `uploads/`, `jobs/` and `tmp/` below `root`. A path is held as the
/// operating system's bytes for it (a Unix path is a byte string, not always UTF-8).
#[derive(Debug, Clone, PartialEq, Eq)]
pub struct Storage {
    pub root: Vec<u8>,
}

/// Why a path was refused.
#[derive(Debug, Clone, PartialEq, Eq)]
pub enum StorageError {
    /// The path lies outside the data directory.
    OutsideRoot,
}

/// `PathBuf::join` on Unix, over the paths' bytes (47 is `/`): an absolute `p` replaces
/// `base`; otherwise `p` is appended after a separator (none is added after an empty base
/// or one that ends in `/`).
pub open spec fn path_join(base: Seq<u8>, p: Seq<u8>) -> Seq<u8> {
    if p.len() > 0 && p[0] == 47u8 {
        p
    } else if base.len() == 0 {
        p
    } else if base.last() == 47u8 {
        base + p
    } else {
        base + seq![47u8] + p
    }
}

pub fn join_path(base: &[u8], p: &[u8]) -> (r: Vec<u8>)
    ensures
        r@ == path_join(base@, p@),
{
    if p.len() > 0 && p[0] == 47u8 {
        return copy_bytes(p);
    }
    if base.len() == 0 {
        return copy_bytes(p);
    }
    let mut out = copy_bytes(base);
    if base[base.len() - 1] != 47u8 {
        out.push(47u8);
    }
    let mut i: usize = 0;
    let ghost head = out@;
    while i < p.len()
        invariant
            i <= p@.len(),
            out@ == head + p@.take(i as int),
        decreases p.len() - i,
    {
        out.push(p[i]);
        i += 1;
        assert(out@ =~= head + p@.take(i as int));
    }
    assert(p@.take(p@.len() as int) =~= p@);
    assert(out@ =~= path_join(base@, p@));
    out
}

fn copy_bytes(s: &[u8]) -> (r: Vec<u8>)
    ensures
        r@ == s@,
{
    let mut r: Vec<u8> = Vec::new();
    let mut k: usize = 0;
    while k < s.len()
        invariant
            k <= s@.len(),
            r@ == s@.take(k as int),
        decreases s.len() - k,
    {
        r.push(s[k]);
        k += 1;
        assert(r@ =~= s@.take(k as int));
    }
    assert(s@.take(s@.len() as int) =~= s@);
    r
}

fn bytes_eq(a: &[u8], b: &[u8]) -> (r: bool)
    ensures
        r <==> a@ == b@,
{
    if a.len() != b.len() {
        return false;
    }
    let mut k: usize = 0;
    while k < a.len()
        invariant
            a@.len() == b@.len(),
            k <= a@.len(),
            forall|m: int| 0 <= m < k ==> a@[m] == b@[m],
        decreases a.len() - k,
    {
        if a[k] != b[k] {
            return false;
        }
        k += 1;
    }
    assert(a@ =~= b@);
    true
}

pub open spec fn byte_views(v: Seq<Vec<u8>>) -> Seq<Seq<u8>> {
    v.map_values(|x: Vec<u8>| x@)
}

fn split_bytes(s: &[u8], sep: u8) -> (r: Vec<Vec<u8>>)
    ensures
        byte_views(r@) == split_on(s@, sep),
{
    let mut parts: Vec<Vec<u8>> = Vec::new();
    let mut cur: Vec<u8> = Vec::new();
    let mut i: usize = 0;
    assert(s@.take(0) =~= Seq::<u8>::empty());
    assert(byte_views(parts@).push(cur@) =~= split_on(s@.take(0), sep));
    while i < s.len()
        invariant
            i <= s@.len(),
            byte_views(parts@).push(cur@) == split_on(s@.take(i as int), sep),
        decreases s.len() - i,
    {
        proof {
            lemma_split_step(s@, i as int, sep);
        }
        let c = s[i];
        if c == sep {
            let done = cur;
            parts.push(done);
            cur = Vec::new();
            assert(byte_views(parts@).push(cur@) =~= split_on(s@.take(i + 1), sep));
        } else {
            let ghost before = byte_views(parts@).push(cur@);
            cur.push(c);
            assert(byte_views(parts@).push(cur@) =~= before.update(
                before.len() - 1,
                before.last().push(c),
            ));
        }
        i += 1;
    }
    assert(s@.take(s@.len() as int) =~= s@);
    parts.push(cur);
    assert(byte_views(parts@) =~= split_on(s@, sep));
    parts
}

/// A character kept by `sanitize_name`.
pub open spec fn name_char_ok(c: char) -> bool {
    ('a' <= c && c <= 'z') || ('A' <= c && c <= 'Z') || ('0' <= c && c <= '9') || c == '.' || c
        == '-' || c == '_'
}

pub open spec fn sanitize_char(c: char) -> char {
    if name_char_ok(c) { c } else { '_' }
}

/// The first 200 characters of `name`, each unsafe character replaced by `_`.
pub open spec fn spec_sanitize_name(name: Seq<char>) -> Seq<char> {
    let n = if name.len() < 200 { name.len() as int } else { 200 };
    name.take(n).map_values(|c: char| sanitize_char(c))
}

/// The components of a Unix path as `Path::components` yields them: `/` for the root,
/// a leading `.` of a relative path, then the non-empty parts other than `.` (46 is `.`).
pub open spec fn normal_parts(segs: Seq<Seq<u8>>) -> Seq<Seq<u8>>
    decreases segs.len(),
{
    if segs.len() == 0 {
        Seq::empty()
    } else {
        let prev = normal_parts(segs.drop_last());
        let s = segs.last();
        if s.len() > 0 && s != seq![46u8] {
            prev.push(s)
        } else {
            prev
        }
    }
}

pub open spec fn path_components(p: Seq<u8>) -> Seq<Seq<u8>> {
    let segs = split_on(p, 47u8);
    let rooted = p.len() > 0 && p[0] == 47u8;
    let root = if rooted { seq![seq![47u8]] } else { Seq::<Seq<u8>>::empty() };
    let cur = if !rooted && segs[0] == seq![46u8] {
        seq![seq![46u8]]
    } else {
        Seq::<Seq<u8>>::empty()
    };
    root + cur + normal_parts(segs)
}

/// `Path::starts_with`: the components of `base` are a prefix of those of `path`.
pub open spec fn path_starts_with(path: Seq<u8>, base: Seq<u8>) -> bool {
    let a = path_components(path);
    let b = path_components(base);
    b.len() <= a.len() && a.take(b.len() as int) == b
}

fn path_components_exec(p: &[u8]) -> (r: Vec<Vec<u8>>)
    ensures
        byte_views(r@) == path_components(p@),
{
    let segs = split_bytes(p, 47u8);
    proof {
        lemma_split_on_nonempty(p@, 47u8);
    }
    let mut dot: Vec<u8> = Vec::new();
    dot.push(46u8);
    assert(dot@ =~= seq![46u8]);
    let rooted = p.len() > 0 && p[0] == 47u8;
    let mut out: Vec<Vec<u8>> = Vec::new();
    if rooted {
        let mut r: Vec<u8> = Vec::new();
        r.push(47u8);
        assert(r@ =~= seq![47u8]);
        out.push(r);
    } else if bytes_eq(&segs[0], &dot) {
        let d = copy_bytes(&dot);
        out.push(d);
    }
    let ghost head = byte_views(out@);
    assert(head == path_components(p@).take(head.len() as int)) by {
        assert(byte_views(segs@)[0] == segs@[0]@);
        if rooted {
            assert(head =~= seq![seq![47u8]]);
        } else if segs@[0]@ == seq![46u8] {
            assert(head =~= seq![seq![46u8]]);
        } else {
            assert(head =~= Seq::<Seq<u8>>::empty());
        }
    }
    let mut k: usize = 0;
    while k < segs.len()
        invariant
            k <= segs@.len(),
            byte_views(segs@) == split_on(p@, 47u8),
            dot@ == seq![46u8],
            byte_views(out@) == head + normal_parts(byte_views(segs@).take(k as int)),
        decreases segs.len() - k,
    {
        assert(byte_views(segs@).take(k + 1).drop_last() =~= byte_views(segs@).take(k as int));
        assert(byte_views(segs@).take(k + 1).last() == segs@[k as int]@);
        if segs[k].len() > 0 && !bytes_eq(&segs[k], &dot) {
            let s = copy_bytes(&segs[k]);
            let ghost before = out@;
            out.push(s);
            assert(byte_views(out@) =~= byte_views(before).push(s@));
            assert(s@ == segs@[k as int]@);
        }
        k += 1;
    }
    assert(byte_views(segs@).take(segs@.len() as int) =~= byte_views(segs@));
    assert(byte_views(out@) =~= path_components(p@)) by {
        assert(byte_views(segs@)[0] == segs@[0]@);
    }
    out
}

impl Storage {
    /// Where the upload `upload_id` is stored: `<root>/uploads/<upload_id>`.
    pub fn upload_path(&self, upload_id: &str) -> (r: Vec<u8>)
        ensures
            r@ == path_join(path_join(self.root@, encode_utf8("uploads"@)), encode_utf8(upload_id@)),
    {
        let d = join_path(self.root.as_slice(), "uploads".as_bytes());
        join_path(d.as_slice(), upload_id.as_bytes())
    }

    /// The directory of job `job_id`: `<root>/jobs/<job_id>`.
    pub fn job_dir(&self, job_id: &str) -> (r: Vec<u8>)
        ensures
            r@ == path_join(path_join(self.root@, encode_utf8("jobs"@)), encode_utf8(job_id@)),
    {
        let d = join_path(self.root.as_slice(), "jobs".as_bytes());
        join_path(d.as_slice(), job_id.as_bytes())
    }

    /// A safe file name: ASCII letters, digits, `.`, `-` and `_` kept, all else `_`, at most
    /// 200 characters.
    pub fn sanitize_name(name: &str) -> (r: String)
        ensures
            r@ == spec_sanitize_name(name@),
    {
        let c = chars_of(name);
        let n: usize = if c.len() < 200 { c.len() } else { 200 };
        let mut out: Vec<char> = Vec::new();
        let mut i: usize = 0;
        while i < n
            invariant
                n <= c@.len(),
                n == (if c@.len() < 200 { c@.len() as int } else { 200 }),
                i <= n,
                out@ == c@.take(i as int).map_values(|ch: char| sanitize_char(ch)),
            decreases n - i,
        {
            let ch = c[i];
            let ok = ('a' <= ch && ch <= 'z') || ('A' <= ch && ch <= 'Z') || ('0' <= ch && ch
                <= '9') || ch == '.' || ch == '-' || ch == '_';
            out.push(if ok { ch } else { '_' });
            i += 1;
            assert(out@ =~= c@.take(i as int).map_values(|ch: char| sanitize_char(ch)));
        }
        string_of(&out)
    }

    /// `Ok` when the canonical `path` lies within the canonical data directory (component
    /// by component, as `Path::starts_with` compares).
    pub fn assert_under_root(canonical_root: &[u8], canonical_path: &[u8]) -> (r: Result<(), StorageError>)
        ensures
            r is Ok <==> path_starts_with(canonical_path@, canonical_root@),
    {
        let a = path_components_exec(canonical_path);
        let b = path_components_exec(canonical_root);
        if b.len() > a.len() {
            return Err(StorageError::OutsideRoot);
        }
        let mut k: usize = 0;
        while k < b.len()
            invariant
                byte_views(a@) == path_components(canonical_path@),
                byte_views(b@) == path_components(canonical_root@),
                b@.len() <= a@.len(),
                k <= b@.len(),
                forall|m: int| 0 <= m < k ==> byte_views(a@)[m] == byte_views(b@)[m],
            decreases b.len() - k,
        {
            if !bytes_eq(&a[k], &b[k]) {
                assert(byte_views(a@)[k as int] == a@[k as int]@);
                assert(byte_views(b@)[k as int] == b@[k as int]@);
                assert(byte_views(a@).take(b@.len() as int)[k as int] != byte_views(b@)[k as int]);
                return Err(StorageError::OutsideRoot);
            }
            k += 1;
        }
        assert(byte_views(a@).take(b@.len() as int) =~= byte_views(b@));
        Ok(())
    }
}

/// A sanitised name is at most 200 characters long and has only safe characters.
pub proof fn law_sanitized_name_is_safe(name: Seq<char>)
    ensures
        spec_sanitize_name(name).len() <= 200,
        forall|i: int|
            0 <= i < spec_sanitize_name(name).len() ==> name_char_ok(
                #[trigger] spec_sanitize_name(name)[i],
            ),
{
}

} // verus!
