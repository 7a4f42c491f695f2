//! Byte-string model of POSIX paths.
//!
//! Paths are sequences of bytes; `/` (byte 47) separates components and `.`
//! (byte 46) separates a file name from its extension. The functions here are
//! the path arithmetic that the rest of the library builds on: taking the
//! final component of a path, splitting a name into stem and extension,
//! stripping a root prefix, and joining paths.

use vstd::prelude::*;

verus! {

pub open spec fn sep() -> u8 {
    '/' as u8
}

pub open spec fn dot() -> u8 {
    '.' as u8
}

/// Position of the last occurrence of `b` in `s`, if any.
pub open spec fn rfind_sp(s: Seq<u8>, b: u8) -> Option<int>
    decreases s.len(),
{
    if s.len() == 0 {
        None
    } else if s[s.len() - 1] == b {
        Some(s.len() - 1)
    } else {
        rfind_sp(s.drop_last(), b)
    }
}

/// `rfind_sp` finds exactly the last occurrence.
pub proof fn lemma_rfind_sp(s: Seq<u8>, b: u8)
    ensures
        match rfind_sp(s, b) {
            Some(j) => 0 <= j < s.len() && s[j] == b && (forall|k: int|
                j < k < s.len() ==> s[k] != b),
            None => forall|k: int| 0 <= k < s.len() ==> s[k] != b,
        },
    decreases s.len(),
{
    if s.len() > 0 && s[s.len() - 1] != b {
        lemma_rfind_sp(s.drop_last(), b);
        assert forall|k: int| 0 <= k < s.len() - 1 implies s.drop_last()[k] == s[k] by {}
    }
}

/// Last occurrence of `b` in `v`.
pub fn rfind_byte(v: &[u8], b: u8) -> (r: Option<usize>)
    ensures
        match r {
            Some(j) => rfind_sp(v@, b) == Some(j as int) && j < v@.len() && v@[j as int] == b,
            None => rfind_sp(v@, b) == None::<int>,
        },
{
    let mut i: usize = v.len();
    while i > 0
        invariant
            i <= v.len(),
            forall|k: int| i <= k < v.len() ==> v@[k] != b,
        decreases i,
    {
        i -= 1;
        if v[i] == b {
            proof {
                lemma_rfind_sp(v@, b);
                match rfind_sp(v@, b) {
                    Some(j) => {
                        assert(j >= i as int);
                        assert(j <= i as int);
                    },
                    None => {
                        assert(v@[i as int] != b);
                    },
                }
            }
            return Some(i);
        }
    }
    proof {
        lemma_rfind_sp(v@, b);
    }
    None
}

/// The bytes after the last separator; the whole path when it has none.
pub open spec fn raw_tail_sp(p: Seq<u8>) -> Seq<u8> {
    match rfind_sp(p, sep()) {
        Some(j) => p.subrange(j + 1, p.len() as int),
        None => p,
    }
}

/// The final component of a path: the bytes after the last separator,
/// unless they are empty, `.` or `..`.
pub open spec fn file_name_sp(p: Seq<u8>) -> Option<Seq<u8>> {
    let t = raw_tail_sp(p);
    if t.len() == 0 || t == seq![dot()] || t == seq![dot(), dot()] {
        None
    } else {
        Some(t)
    }
}

/// Executable form of `file_name_sp`.
pub fn path_file_name(p: &Vec<u8>) -> (r: Option<Vec<u8>>)
    ensures
        match r {
            Some(n) => file_name_sp(p@) == Some(n@),
            None => file_name_sp(p@) == None::<Seq<u8>>,
        },
{
    let n: usize = p.len();
    let start: usize = match rfind_byte(p.as_slice(), '/' as u8) {
        Some(j) => {
            assert(j < n);
            j + 1
        },
        None => 0,
    };
    proof {
        lemma_rfind_sp(p@, sep());
    }
    let tail: Vec<u8> = vstd::slice::slice_to_vec(vstd::slice::slice_subrange(
        p.as_slice(),
        start,
        p.len(),
    ));
    assert(tail@ =~= raw_tail_sp(p@));
    if tail.len() == 0 {
        return None;
    }
    if tail.len() == 1 && tail[0] == '.' as u8 {
        assert(tail@ =~= seq![dot()]);
        return None;
    }
    if tail.len() == 2 && tail[0] == '.' as u8 && tail[1] == '.' as u8 {
        assert(tail@ =~= seq![dot(), dot()]);
        return None;
    }
    proof {
        assert(tail@ != seq![dot()]);
        assert(tail@ != seq![dot(), dot()]);
    }
    Some(tail)
}

/// Position of the dot that separates a file name from its extension:
/// the last dot, except that a dot at the very start marks no extension.
pub open spec fn ext_dot_sp(name: Seq<u8>) -> Option<int> {
    match rfind_sp(name, dot()) {
        Some(j) => if j > 0 {
            Some(j)
        } else {
            None
        },
        None => None,
    }
}

/// The extension of a file name, when it has one.
pub open spec fn name_ext_sp(name: Seq<u8>) -> Option<Seq<u8>> {
    match ext_dot_sp(name) {
        Some(j) => Some(name.subrange(j + 1, name.len() as int)),
        None => None,
    }
}

/// The stem of a file name: everything before the extension dot.
pub open spec fn name_stem_sp(name: Seq<u8>) -> Seq<u8> {
    match ext_dot_sp(name) {
        Some(j) => name.subrange(0, j),
        None => name,
    }
}

/// Executable form of `name_ext_sp`.
pub fn name_extension(name: &Vec<u8>) -> (r: Option<Vec<u8>>)
    ensures
        match r {
            Some(e) => name_ext_sp(name@) == Some(e@),
            None => name_ext_sp(name@) == None::<Seq<u8>>,
        },
{
    let n: usize = name.len();
    match rfind_byte(name.as_slice(), '.' as u8) {
        Some(j) if j > 0 => {
            assert(j < n);
            let e: Vec<u8> = vstd::slice::slice_to_vec(vstd::slice::slice_subrange(
                name.as_slice(),
                j + 1,
                name.len(),
            ));
            assert(e@ =~= name@.subrange(j + 1, name@.len() as int));
            Some(e)
        },
        _ => None,
    }
}

/// Executable form of `name_stem_sp`.
pub fn name_stem(name: &Vec<u8>) -> (r: Vec<u8>)
    ensures
        r@ == name_stem_sp(name@),
{
    match rfind_byte(name.as_slice(), '.' as u8) {
        Some(j) if j > 0 => {
            let s: Vec<u8> = vstd::slice::slice_to_vec(vstd::slice::slice_subrange(
                name.as_slice(),
                0,
                j,
            ));
            assert(s@ =~= name_stem_sp(name@));
            s
        },
        _ => {
            let s = name.clone();
            assert(s@ =~= name_stem_sp(name@));
            s
        },
    }
}

/// Joining a path onto a base: empty parts vanish, an absolute part wins,
/// and exactly one separator stands between the two otherwise.
pub open spec fn join_sp(a: Seq<u8>, b: Seq<u8>) -> Seq<u8> {
    if a.len() == 0 {
        b
    } else if b.len() == 0 {
        a
    } else if b[0] == sep() {
        b
    } else if a[a.len() - 1] == sep() {
        a + b
    } else {
        a + seq![sep()] + b
    }
}

/// Executable form of `join_sp`.
pub fn path_join(a: &Vec<u8>, b: &Vec<u8>) -> (r: Vec<u8>)
    ensures
        r@ == join_sp(a@, b@),
{
    if a.len() == 0 {
        return b.clone();
    }
    if b.len() == 0 {
        return a.clone();
    }
    if b[0] == '/' as u8 {
        return b.clone();
    }
    let mut r = a.clone();
    if a[a.len() - 1] != '/' as u8 {
        r.push('/' as u8);
    }
    r.extend_from_slice(b.as_slice());
    assert(r@ =~= join_sp(a@, b@));
    r
}

/// The path relative to `root`, when `p` lies under it: the whole of `p`
/// when `root` is empty, the empty path when they are equal, and the bytes
/// after the separating slash when `root` is a proper component prefix.
pub open spec fn strip_prefix_sp(p: Seq<u8>, root: Seq<u8>) -> Option<Seq<u8>> {
    if root.len() == 0 {
        Some(p)
    } else if p == root {
        Some(Seq::<u8>::empty())
    } else if p.len() > root.len() && p.subrange(0, root.len() as int) == root {
        if root[root.len() - 1] == sep() {
            Some(p.subrange(root.len() as int, p.len() as int))
        } else if p[root.len() as int] == sep() {
            Some(p.subrange(root.len() + 1int, p.len() as int))
        } else {
            None
        }
    } else {
        None
    }
}

/// Executable form of `strip_prefix_sp`.
pub fn path_strip_prefix(p: &Vec<u8>, root: &Vec<u8>) -> (r: Option<Vec<u8>>)
    ensures
        match r {
            Some(rel) => strip_prefix_sp(p@, root@) == Some(rel@),
            None => strip_prefix_sp(p@, root@) == None::<Seq<u8>>,
        },
{
    if root.len() == 0 {
        return Some(p.clone());
    }
    if p.len() < root.len() {
        proof {
            if p@ == root@ {
                assert(p@.len() == root@.len());
            }
        }
        return None;
    }
    let head = vstd::slice::slice_subrange(p.as_slice(), 0, root.len());
    if !crate::bytes_eq(head, root.as_slice()) {
        proof {
            if p@ == root@ {
                assert(p@.subrange(0, root@.len() as int) =~= root@);
            }
        }
        return None;
    }
    assert(p@.subrange(0, root@.len() as int) == root@);
    if p.len() == root.len() {
        assert(p@ =~= root@);
        return Some(Vec::new());
    }
    if root[root.len() - 1] == '/' as u8 {
        let rel: Vec<u8> = vstd::slice::slice_to_vec(vstd::slice::slice_subrange(
            p.as_slice(),
            root.len(),
            p.len(),
        ));
        proof {
            assert(p@ != root@);
        }
        return Some(rel);
    }
    if p[root.len()] == '/' as u8 {
        let rel: Vec<u8> = vstd::slice::slice_to_vec(vstd::slice::slice_subrange(
            p.as_slice(),
            root.len() + 1,
            p.len(),
        ));
        proof {
            assert(p@ != root@);
        }
        return Some(rel);
    }
    proof {
        assert(p@ != root@);
    }
    None
}

/// The directory part of a path: the bytes before the last separator
/// (the root itself when that separator starts the path), the empty path
/// for a bare name, nothing for the empty path.
pub open spec fn parent_sp(p: Seq<u8>) -> Option<Seq<u8>> {
    if p.len() == 0 {
        None
    } else {
        match rfind_sp(p, sep()) {
            Some(j) => if j == 0 {
                Some(seq![sep()])
            } else {
                Some(p.subrange(0, j))
            },
            None => Some(Seq::<u8>::empty()),
        }
    }
}

/// A tidy path has no empty components: no doubled separator and no
/// trailing one.
pub open spec fn tidy_path_sp(p: Seq<u8>) -> bool {
    &&& (p.len() > 0 ==> p[p.len() - 1] != sep())
    &&& forall|i: int| #![trigger p[i]] 0 < i < p.len() ==> !(p[i] == sep() && p[i - 1] == sep())
}

/// Stripping the base of a join gives back the part that was joined on,
/// for any relative part.
pub proof fn lemma_join_strip(root: Seq<u8>, rel: Seq<u8>)
    requires
        rel.len() > 0 ==> rel[0] != sep(),
    ensures
        strip_prefix_sp(join_sp(root, rel), root) == Some(rel),
{
    let p = join_sp(root, rel);
    if root.len() == 0 {
    } else if rel.len() == 0 {
        assert(strip_prefix_sp(p, root) == Some(Seq::<u8>::empty()));
        assert(rel =~= Seq::<u8>::empty());
    } else if root[root.len() - 1] == sep() {
        assert(p == root + rel);
        assert(p.len() > root.len());
        assert(p != root);
        assert(p.subrange(0, root.len() as int) =~= root);
        assert(p.subrange(root.len() as int, p.len() as int) =~= rel);
    } else {
        assert(p == root + seq![sep()] + rel);
        assert(p.len() > root.len());
        assert(p != root);
        assert(p.subrange(0, root.len() as int) =~= root);
        assert(p[root.len() as int] == sep());
        assert(p.subrange(root.len() + 1int, p.len() as int) =~= rel);
    }
}

/// Bytes appended to a nonempty relative part may be appended before or
/// after the join.
pub proof fn lemma_join_append(a: Seq<u8>, b: Seq<u8>, c: Seq<u8>)
    requires
        b.len() > 0,
    ensures
        join_sp(a, b) + c == join_sp(a, b + c),
{
    assert((b + c)[0] == b[0]);
    if a.len() == 0 {
        assert(join_sp(a, b) + c =~= join_sp(a, b + c));
    } else if b[0] == sep() {
        assert(join_sp(a, b) + c =~= join_sp(a, b + c));
    } else if a[a.len() - 1] == sep() {
        assert(a + b + c =~= a + (b + c));
    } else {
        assert(a + seq![sep()] + b + c =~= a + seq![sep()] + (b + c));
    }
}

/// Joining a tidy relative part onto a tidy base gives a tidy path.
pub proof fn lemma_join_tidy(a: Seq<u8>, b: Seq<u8>)
    requires
        tidy_path_sp(a),
        tidy_path_sp(b),
        b.len() > 0 ==> b[0] != sep(),
    ensures
        tidy_path_sp(join_sp(a, b)),
{
    if a.len() == 0 || b.len() == 0 {
    } else {
        let p = a + seq![sep()] + b;
        assert(join_sp(a, b) == p);
        assert(p[p.len() - 1] == b[b.len() - 1]);
        assert forall|i: int| #![trigger p[i]] 0 < i < p.len() implies !(p[i] == sep() && p[i - 1]
            == sep()) by {
            if i < a.len() {
                assert(p[i] == a[i]);
                assert(p[i - 1] == a[i - 1]);
            } else if i == a.len() {
                assert(p[i - 1] == a[a.len() - 1]);
            } else if i == a.len() + 1 {
                assert(p[i] == b[0]);
            } else {
                assert(p[i] == b[i - a.len() - 1]);
                assert(p[i - 1] == b[i - a.len() - 2]);
            }
        }
    }
}

/// Searching for a byte that the appended part does not hold finds what
/// the front holds.
pub proof fn lemma_rfind_concat_none(a: Seq<u8>, b: Seq<u8>, c: u8)
    requires
        forall|i: int| 0 <= i < b.len() ==> b[i] != c,
    ensures
        rfind_sp(a + b, c) == rfind_sp(a, c),
    decreases b.len(),
{
    if b.len() == 0 {
        assert(a + b =~= a);
    } else {
        let t = a + b;
        assert(t[t.len() - 1] == b[b.len() - 1]);
        assert(t.drop_last() =~= a + b.drop_last());
        lemma_rfind_concat_none(a, b.drop_last(), c);
    }
}

/// Joining a tidy path's directory part back onto its final component
/// gives the path itself.
pub proof fn lemma_parent_join(p: Seq<u8>)
    requires
        p.len() > 0,
        tidy_path_sp(p),
    ensures
        raw_tail_sp(p).len() > 0,
        parent_sp(p) matches Some(par) && join_sp(par, raw_tail_sp(p)) == p,
{
    lemma_rfind_sp(p, sep());
    match rfind_sp(p, sep()) {
        Some(j) => {
            assert(j < p.len() - 1);
            let tail = p.subrange(j + 1, p.len() as int);
            if j == 0 {
                let par = seq![sep()];
                assert(tail[0] == p[1]);
                assert(p[1] != sep());
                assert(par + tail =~= p);
            } else {
                let par = p.subrange(0, j);
                assert(par[par.len() - 1] == p[j - 1]);
                assert(p[j - 1] != sep());
                assert(tail[0] == p[j + 1]);
                assert(p[j + 1] != sep());
                assert(par + seq![sep()] + tail =~= p);
            }
        },
        None => {
            assert(join_sp(Seq::<u8>::empty(), p) == p);
        },
    }
}

/// Executable form of `parent_sp`.
pub fn path_parent(p: &Vec<u8>) -> (r: Option<Vec<u8>>)
    ensures
        match r {
            Some(d) => parent_sp(p@) == Some(d@),
            None => parent_sp(p@) == None::<Seq<u8>>,
        },
{
    if p.len() == 0 {
        return None;
    }
    match rfind_byte(p.as_slice(), '/' as u8) {
        Some(j) => if j == 0 {
            let d: Vec<u8> = vec!['/' as u8];
            assert(d@ =~= seq![sep()]);
            Some(d)
        } else {
            let d: Vec<u8> = vstd::slice::slice_to_vec(vstd::slice::slice_subrange(
                p.as_slice(),
                0,
                j,
            ));
            assert(d@ =~= p@.subrange(0, j as int));
            Some(d)
        },
        None => Some(Vec::new()),
    }
}

} // verus!
