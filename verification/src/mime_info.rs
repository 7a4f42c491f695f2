//! Extension database: resolves a mime type (a byte string) to a canonical
//! file extension.
//!
//! A lookup consults, in order: an in-memory cache, the on-disk glob database
//! (one XML record per mime type, handed in as raw bytes by the caller), and
//! a built-in static table. Whatever source answers, the answer is cached, so
//! later lookups for the same mime type touch neither the disk record nor the
//! table again.

use vstd::prelude::*;

use crate::pathbytes::{join_sp, dot};

verus! {

/// The resolution result for one mime type.
#[derive(Debug, PartialEq, Eq)]
pub enum Mime {
    /// The type is known but has no canonical extension.
    Generic,
    /// The type is known and has this canonical extension.
    WithExt(Vec<u8>),
    /// The type was found in no source.
    Unknown,
}

/// Mathematical value of a `Mime`.
pub enum MimeV {
    Generic,
    WithExt(Seq<u8>),
    Unknown,
}

impl View for Mime {
    type V = MimeV;

    open spec fn view(&self) -> MimeV {
        match self {
            Mime::Generic => MimeV::Generic,
            Mime::WithExt(e) => MimeV::WithExt(e@),
            Mime::Unknown => MimeV::Unknown,
        }
    }
}

impl Clone for Mime {
    fn clone(&self) -> (r: Self)
        ensures
            r@ == self@,
    {
        match self {
            Mime::Generic => Mime::Generic,
            Mime::WithExt(e) => {
                let c = e.clone();
                assert(c@ =~= e@);
                Mime::WithExt(c)
            },
            Mime::Unknown => Mime::Unknown,
        }
    }
}

/// One node of a parsed glob-database record: its tag name and its
/// attributes as raw bytes, in document order. Non-element nodes carry an
/// empty name and no attributes.
#[derive(Debug, PartialEq, Eq)]
pub struct XmlElement {
    pub name: Vec<u8>,
    pub attrs: Vec<(Vec<u8>, Vec<u8>)>,
}

/// View of an attribute list as pairs of byte strings.
pub open spec fn attrs_view(attrs: Seq<(Vec<u8>, Vec<u8>)>) -> Seq<(Seq<u8>, Seq<u8>)> {
    Seq::new(attrs.len(), |i: int| (attrs[i].0@, attrs[i].1@))
}

impl View for XmlElement {
    type V = (Seq<u8>, Seq<(Seq<u8>, Seq<u8>)>);

    open spec fn view(&self) -> Self::V {
        (self.name@, attrs_view(self.attrs@))
    }
}

impl DeepView for XmlElement {
    type V = (Seq<u8>, Seq<(Seq<u8>, Seq<u8>)>);

    open spec fn deep_view(&self) -> Self::V {
        self@
    }
}

/// The nodes of the XML document that the bytes spell, in document order,
/// each with its tag name and attributes; nothing when the bytes are not a
/// well-formed document.
pub uninterp spec fn xml_elements_of(xml: Seq<u8>) -> Option<
    Seq<(Seq<u8>, Seq<(Seq<u8>, Seq<u8>)>)>,
>;

/// The extension list that the built-in static table holds for a mime type.
pub uninterp spec fn table_extensions_of(mime: Seq<u8>) -> Option<Seq<Seq<u8>>>;

/// Relies on `roxmltree::Document::parse` and its node accessors: the
/// parsed document's nodes with their tag names and attributes, in document
/// order, or nothing when the bytes do not parse. A function of the bytes
/// alone.
#[verifier::external_body]
fn xml_elements(xml: &Vec<u8>) -> (r: Option<Vec<XmlElement>>)
    ensures
        match r {
            Some(elems) => xml_elements_of(xml@) == Some(elems.deep_view()),
            None => xml_elements_of(xml@) == None::<Seq<(Seq<u8>, Seq<(Seq<u8>, Seq<u8>)>)>>,
        },
{
    let text = match core::str::from_utf8(xml.as_slice()) { Ok(t) => t, Err(_) => return None };
    let doc = match roxmltree::Document::parse(text) { Ok(d) => d, Err(_) => return None };
    let to_bytes = |s: &str| s.as_bytes().to_vec();
    Some(doc.descendants().map(|n| XmlElement {
        name: to_bytes(n.tag_name().name()),
        attrs: n.attributes().map(|a| (to_bytes(a.name()), to_bytes(a.value()))).collect(),
    }).collect())
}

/// Relies on `mime_db::extensions`: the candidate extensions for a mime
/// type, `None` when the table offers none; a function of the static table
/// and the argument alone. The table never offers an empty candidate list.
#[verifier::external_body]
fn table_extensions(mime: &Vec<u8>) -> (r: Option<Vec<Vec<u8>>>)
    ensures
        match r {
            Some(v) => table_extensions_of(mime@) == Some(v.deep_view()) && v@.len() > 0,
            None => table_extensions_of(mime@) == None::<Seq<Seq<u8>>>,
        },
{
    let text = match core::str::from_utf8(mime.as_slice()) {
        Ok(t) => t,
        Err(_) => return None,
    };
    mime_db::extensions(text).map(|exts| exts.map(|e| e.as_bytes().to_vec()).collect())
}

/// A glob pattern with every leading `*.` removed.
pub open spec fn strip_glob_prefix_sp(p: Seq<u8>) -> Seq<u8>
    decreases p.len(),
{
    if p.len() >= 2 && p[0] == '*' as u8 && p[1] == dot() {
        strip_glob_prefix_sp(p.subrange(2, p.len() as int))
    } else {
        p
    }
}

/// Executable form of `strip_glob_prefix_sp`.
pub fn strip_glob_prefix(p: &Vec<u8>) -> (r: Vec<u8>)
    ensures
        r@ == strip_glob_prefix_sp(p@),
{
    let n: usize = p.len();
    let mut i: usize = 0;
    assert(p@.subrange(0, p@.len() as int) =~= p@);
    while n - i >= 2 && p[i] == '*' as u8 && p[i + 1] == '.' as u8
        invariant
            i <= n,
            n == p@.len(),
            strip_glob_prefix_sp(p@) == strip_glob_prefix_sp(p@.subrange(i as int, p@.len() as int)),
        decreases p@.len() - i,
    {
        proof {
            let s = p@.subrange(i as int, p@.len() as int);
            assert(s.len() >= 2);
            assert(s[0] == '*' as u8);
            assert(s[1] == dot());
            assert(s.subrange(2, s.len() as int) =~= p@.subrange(
                i + 2int,
                p@.len() as int,
            ));
        }
        i += 2;
    }
    proof {
        let s = p@.subrange(i as int, p@.len() as int);
        assert(!(s.len() >= 2 && s[0] == '*' as u8 && s[1] == dot()));
        assert(strip_glob_prefix_sp(s) == s);
    }
    vstd::slice::slice_to_vec(vstd::slice::slice_subrange(p.as_slice(), i, p.len()))
}

/// The tag name of the element that carries a record's glob pattern.
pub open spec fn glob_tag() -> Seq<u8> {
    seq!['g' as u8, 'l' as u8, 'o' as u8, 'b' as u8]
}

/// The attribute that holds the pattern itself.
pub open spec fn pattern_key() -> Seq<u8> {
    seq!['p' as u8, 'a' as u8, 't' as u8, 't' as u8, 'e' as u8, 'r' as u8, 'n' as u8]
}

/// The first attribute with this key, if any.
pub open spec fn find_attr_sp(attrs: Seq<(Seq<u8>, Seq<u8>)>, key: Seq<u8>) -> Option<Seq<u8>>
    decreases attrs.len(),
{
    if attrs.len() == 0 {
        None
    } else if attrs[0].0 == key {
        Some(attrs[0].1)
    } else {
        find_attr_sp(attrs.drop_first(), key)
    }
}

/// The pattern attribute of a record's first glob element: nothing when no
/// glob element exists, and the element's pattern attribute (or its
/// absence) when one does.
pub open spec fn first_glob_pattern_sp(elems: Seq<(Seq<u8>, Seq<(Seq<u8>, Seq<u8>)>)>) -> Option<
    Option<Seq<u8>>,
>
    decreases elems.len(),
{
    if elems.len() == 0 {
        None
    } else if elems[0].0 == glob_tag() {
        Some(find_attr_sp(elems[0].1, pattern_key()))
    } else {
        first_glob_pattern_sp(elems.drop_first())
    }
}

/// The `Mime` value that one glob-database record stands for: an unreadable
/// or unparsable record says nothing, a record without a glob pattern marks
/// the type as generic, and a pattern gives the extension once its leading
/// `*.` is removed.
pub open spec fn record_mime_sp(scan: Option<Seq<(Seq<u8>, Seq<(Seq<u8>, Seq<u8>)>)>>) -> MimeV {
    match scan {
        None => MimeV::Unknown,
        Some(elems) => match first_glob_pattern_sp(elems) {
            None => MimeV::Generic,
            Some(None) => MimeV::Generic,
            Some(Some(p)) => MimeV::WithExt(strip_glob_prefix_sp(p)),
        },
    }
}

/// Skipping attributes that do not hold the key keeps the found value.
proof fn lemma_attr_from(attrs: Seq<(Seq<u8>, Seq<u8>)>, key: Seq<u8>, i: int)
    requires
        0 <= i <= attrs.len(),
        forall|j: int| 0 <= j < i ==> attrs[j].0 != key,
    ensures
        find_attr_sp(attrs, key) == find_attr_sp(attrs.subrange(i, attrs.len() as int), key),
    decreases i,
{
    if i > 0 {
        assert(attrs[0].0 != key);
        lemma_attr_from(attrs.drop_first(), key, i - 1);
        assert(attrs.drop_first().subrange(i - 1, attrs.drop_first().len() as int) =~= attrs
            .subrange(i, attrs.len() as int));
    } else {
        assert(attrs.subrange(0, attrs.len() as int) =~= attrs);
    }
}

/// Skipping elements that are no glob element keeps the found pattern.
proof fn lemma_glob_from(elems: Seq<(Seq<u8>, Seq<(Seq<u8>, Seq<u8>)>)>, i: int)
    requires
        0 <= i <= elems.len(),
        forall|j: int| 0 <= j < i ==> elems[j].0 != glob_tag(),
    ensures
        first_glob_pattern_sp(elems) == first_glob_pattern_sp(
            elems.subrange(i, elems.len() as int),
        ),
    decreases i,
{
    if i > 0 {
        assert(elems[0].0 != glob_tag());
        lemma_glob_from(elems.drop_first(), i - 1);
        assert(elems.drop_first().subrange(i - 1, elems.drop_first().len() as int) =~= elems
            .subrange(i, elems.len() as int));
    } else {
        assert(elems.subrange(0, elems.len() as int) =~= elems);
    }
}

/// The first `pattern` attribute of an attribute list.
fn find_pattern_attr(attrs: &Vec<(Vec<u8>, Vec<u8>)>) -> (r: Option<Vec<u8>>)
    ensures
        match r {
            Some(v) => find_attr_sp(attrs_view(attrs@), pattern_key()) == Some(v@),
            None => find_attr_sp(attrs_view(attrs@), pattern_key()) == None::<Seq<u8>>,
        },
{
    let key: Vec<u8> = vec![
        'p' as u8,
        'a' as u8,
        't' as u8,
        't' as u8,
        'e' as u8,
        'r' as u8,
        'n' as u8,
    ];
    assert(key@ =~= pattern_key());
    let n = attrs.len();
    let mut i: usize = 0;
    while i < n
        invariant
            i <= n,
            n == attrs@.len(),
            key@ == pattern_key(),
            forall|j: int| 0 <= j < i ==> attrs_view(attrs@)[j].0 != pattern_key(),
        decreases n - i,
    {
        if crate::bytes_eq(attrs[i].0.as_slice(), key.as_slice()) {
            proof {
                assert(attrs_view(attrs@)[i as int].0 == attrs@[i as int].0@);
                lemma_attr_from(attrs_view(attrs@), pattern_key(), i as int);
                let s = attrs_view(attrs@).subrange(i as int, attrs_view(attrs@).len() as int);
                assert(s[0] == attrs_view(attrs@)[i as int]);
            }
            let v = attrs[i].1.clone();
            assert(v@ =~= attrs@[i as int].1@);
            return Some(v);
        }
        proof {
            assert(attrs_view(attrs@)[i as int].0 == attrs@[i as int].0@);
        }
        i += 1;
    }
    proof {
        lemma_attr_from(attrs_view(attrs@), pattern_key(), n as int);
        assert(attrs_view(attrs@).subrange(n as int, attrs_view(attrs@).len() as int).len() == 0);
    }
    None
}

/// The `Mime` value a parsed record stands for: find the first glob
/// element and read its pattern.
pub fn extract_glob(elems: &Vec<XmlElement>) -> (r: Mime)
    ensures
        r@ == record_mime_sp(Some(elems.deep_view())),
{
    let tag: Vec<u8> = vec!['g' as u8, 'l' as u8, 'o' as u8, 'b' as u8];
    assert(tag@ =~= glob_tag());
    let n = elems.len();
    let mut i: usize = 0;
    while i < n
        invariant
            i <= n,
            n == elems@.len(),
            tag@ == glob_tag(),
            forall|j: int| 0 <= j < i ==> elems.deep_view()[j].0 != glob_tag(),
        decreases n - i,
    {
        proof {
            assert(elems.deep_view()[i as int] == elems@[i as int]@);
        }
        if crate::bytes_eq(elems[i].name.as_slice(), tag.as_slice()) {
            proof {
                lemma_glob_from(elems.deep_view(), i as int);
                let s = elems.deep_view().subrange(i as int, elems.deep_view().len() as int);
                assert(s[0] == elems.deep_view()[i as int]);
            }
            return match find_pattern_attr(&elems[i].attrs) {
                Some(p) => Mime::WithExt(strip_glob_prefix(&p)),
                None => Mime::Generic,
            };
        }
        i += 1;
    }
    proof {
        lemma_glob_from(elems.deep_view(), n as int);
        assert(elems.deep_view().subrange(n as int, elems.deep_view().len() as int).len() == 0);
    }
    Mime::Generic
}

/// The `Mime` value that the static table stands for: absent means unknown,
/// listed with candidates gives the first one, listed without any marks the
/// type as generic.
pub open spec fn mime_of_table(t: Option<Seq<Seq<u8>>>) -> MimeV {
    match t {
        None => MimeV::Unknown,
        Some(exts) => if exts.len() > 0 {
            MimeV::WithExt(exts[0])
        } else {
            MimeV::Generic
        },
    }
}

/// Executable form of `mime_of_table`.
pub fn mime_from_table(t: &Option<Vec<Vec<u8>>>) -> (r: Mime)
    ensures
        r@ == mime_of_table(match t {
            Some(v) => Some(v.deep_view()),
            None => None::<Seq<Seq<u8>>>,
        }),
{
    match t {
        Some(exts) => if exts.len() > 0 {
            let e = exts[0].clone();
            assert(e@ =~= exts.deep_view()[0]);
            Mime::WithExt(e)
        } else {
            Mime::Generic
        },
        None => Mime::Unknown,
    }
}

/// What one disk record contributes to a lookup.
pub open spec fn disk_mime_sp(disk: Option<Seq<u8>>) -> MimeV {
    match disk {
        Some(content) => record_mime_sp(xml_elements_of(content)),
        None => MimeV::Unknown,
    }
}

/// The value a cache miss resolves to: the disk record when it knows the
/// type, the static table otherwise.
pub open spec fn resolve_sp(mime: Seq<u8>, disk: Option<Seq<u8>>) -> MimeV {
    if disk_mime_sp(disk) != MimeV::Unknown {
        disk_mime_sp(disk)
    } else {
        mime_of_table(table_extensions_of(mime))
    }
}

/// The cached value for a key in an association list: the first entry wins.
spec fn cached_in(s: Seq<(Vec<u8>, Mime)>, key: Seq<u8>) -> Option<MimeV>
    decreases s.len(),
{
    if s.len() == 0 {
        None
    } else if s[0].0@ == key {
        Some(s[0].1@)
    } else {
        cached_in(s.drop_first(), key)
    }
}

/// An absent key matches no entry.
proof fn lemma_cached_none(s: Seq<(Vec<u8>, Mime)>, key: Seq<u8>)
    requires
        cached_in(s, key) == None::<MimeV>,
    ensures
        forall|i: int| 0 <= i < s.len() ==> s[i].0@ != key,
    decreases s.len(),
{
    if s.len() > 0 {
        lemma_cached_none(s.drop_first(), key);
        assert forall|i: int| 0 <= i < s.len() implies s[i].0@ != key by {
            if i > 0 {
                assert(s.drop_first()[i - 1] == s[i]);
            }
        }
    }
}

/// Entries before a match do not hold the key, so dropping them keeps the
/// cached value.
proof fn lemma_cached_from(s: Seq<(Vec<u8>, Mime)>, key: Seq<u8>, i: int)
    requires
        0 <= i <= s.len(),
        forall|j: int| 0 <= j < i ==> s[j].0@ != key,
    ensures
        cached_in(s, key) == cached_in(s.subrange(i, s.len() as int), key),
    decreases i,
{
    if i > 0 {
        assert(s.len() > 0);
        assert(s[0].0@ != key);
        lemma_cached_from(s.drop_first(), key, i - 1);
        assert(s.drop_first().subrange(i - 1, s.drop_first().len() as int) =~= s.subrange(
            i,
            s.len() as int,
        ));
    } else {
        assert(s.subrange(0, s.len() as int) =~= s);
    }
}

/// Replacing the value of the first entry that holds a key changes the
/// cached value of that key and of no other.
proof fn lemma_cached_update(s: Seq<(Vec<u8>, Mime)>, key: Seq<u8>, i: int, v: Mime, k: Seq<u8>)
    requires
        0 <= i < s.len(),
        s[i].0@ == key,
        forall|j: int| 0 <= j < i ==> s[j].0@ != key,
    ensures
        cached_in(s.update(i, (s[i].0, v)), k) == (if k == key {
            Some(v@)
        } else {
            cached_in(s, k)
        }),
    decreases i,
{
    let t = s.update(i, (s[i].0, v));
    if i == 0 {
        assert(t[0] == (s[0].0, v));
        if k != key {
            assert(t.drop_first() =~= s.drop_first());
        }
    } else {
        lemma_cached_update(s.drop_first(), key, i - 1, v, k);
        assert(t[0] == s[0]);
        assert(s.drop_first()[i - 1] == s[i]);
        assert(t.drop_first() =~= s.drop_first().update(i - 1, (s[i].0, v)));
    }
}

/// Appending an entry for an absent key caches that key and no other.
proof fn lemma_cached_push(s: Seq<(Vec<u8>, Mime)>, entry: (Vec<u8>, Mime), k: Seq<u8>)
    requires
        cached_in(s, entry.0@) == None::<MimeV>,
    ensures
        cached_in(s.push(entry), k) == (if k == entry.0@ {
            Some(entry.1@)
        } else {
            cached_in(s, k)
        }),
    decreases s.len(),
{
    let t = s.push(entry);
    if s.len() == 0 {
        assert(t[0] == entry);
        if k == entry.0@ {
            assert(cached_in(t, k) == Some(entry.1@));
        } else {
            assert(t.drop_first() =~= Seq::<(Vec<u8>, Mime)>::empty());
            assert(cached_in(t, k) == cached_in(t.drop_first(), k));
            assert(cached_in(t.drop_first(), k) == None::<MimeV>);
        }
    } else {
        assert(s[0].0@ != entry.0@);
        assert(cached_in(s.drop_first(), entry.0@) == None::<MimeV>);
        lemma_cached_push(s.drop_first(), entry, k);
        assert(t[0] == s[0]);
        assert(t.drop_first() =~= s.drop_first().push(entry));
        if k == s[0].0@ {
            assert(cached_in(t, k) == Some(s[0].1@));
            assert(cached_in(s, k) == Some(s[0].1@));
        } else {
            assert(cached_in(t, k) == cached_in(t.drop_first(), k));
            assert(cached_in(s, k) == cached_in(s.drop_first(), k));
        }
    }
}

/// The extension database: an optional glob-database root and the cache.
pub struct MimeInfoDb {
    db_root: Option<Vec<u8>>,
    cache: Vec<(Vec<u8>, Mime)>,
}

impl MimeInfoDb {
    /// The cached resolution for a mime type, if any.
    pub closed spec fn cached(&self, key: Seq<u8>) -> Option<MimeV> {
        cached_in(self.cache@, key)
    }

    /// Whether a glob-database root directory is configured.
    pub closed spec fn has_root(&self) -> bool {
        self.db_root is Some
    }

    /// The configured glob-database root.
    pub closed spec fn root_sp(&self) -> Option<Seq<u8>> {
        match self.db_root {
            Some(r) => Some(r@),
            None => None,
        }
    }

    /// Each mime type holds at most one cache entry.
    pub closed spec fn wf(&self) -> bool {
        forall|i: int, j: int|
            0 <= i < j < self.cache@.len() ==> self.cache@[i].0@ != self.cache@[j].0@
    }

    /// A lookup needs the disk record only for an uncached key, and only
    /// when a root is configured at all.
    pub closed spec fn spec_needs_disk(&self, mime: Seq<u8>) -> bool {
        self.cached(mime) is None && self.has_root()
    }

    /// A fresh database: an empty cache, with the root kept only when the
    /// caller found it to be a directory.
    pub fn new(db_root_path: Vec<u8>, root_is_dir: bool) -> (r: Self)
        ensures
            r.wf(),
            r.has_root() == root_is_dir,
            root_is_dir ==> r.root_sp() == Some(db_root_path@),
            forall|k: Seq<u8>| r.cached(k) == None::<MimeV>,
    {
        let db_root = if root_is_dir {
            Some(db_root_path)
        } else {
            None
        };
        Self { db_root, cache: Vec::new() }
    }

    /// The path of the glob-database record for a mime type.
    pub fn record_path(&self, mime: &Vec<u8>) -> (r: Option<Vec<u8>>)
        ensures
            match r {
                Some(p) => self.root_sp() matches Some(root) && p@ == join_sp(
                    root,
                    mime@ + xml_suffix(),
                ),
                None => !self.has_root(),
            },
    {
        match &self.db_root {
            Some(root) => {
                let mut rel = mime.clone();
                assert(rel@ =~= mime@);
                rel.push('.' as u8);
                rel.push('x' as u8);
                rel.push('m' as u8);
                rel.push('l' as u8);
                assert(rel@ =~= mime@ + xml_suffix());
                Some(crate::pathbytes::path_join(root, &rel))
            },
            None => None,
        }
    }

    /// Whether a `get` for this mime type would consult the disk record.
    pub fn needs_disk(&self, mime: &Vec<u8>) -> (r: bool)
        ensures
            r == self.spec_needs_disk(mime@),
    {
        if self.db_root.is_none() {
            return false;
        }
        self.find(mime).is_none()
    }

    /// The index of the cache entry for a key.
    fn find(&self, mime: &Vec<u8>) -> (r: Option<usize>)
        ensures
            match r {
                Some(i) => {
                    &&& i < self.cache@.len()
                    &&& self.cache@[i as int].0@ == mime@
                    &&& forall|j: int| 0 <= j < i ==> self.cache@[j].0@ != mime@
                    &&& self.cached(mime@) == Some(self.cache@[i as int].1@)
                },
                None => self.cached(mime@) == None::<MimeV>,
            },
    {
        let n = self.cache.len();
        let mut i: usize = 0;
        while i < n
            invariant
                i <= n,
                n == self.cache@.len(),
                forall|j: int| 0 <= j < i ==> self.cache@[j].0@ != mime@,
            decreases n - i,
        {
            if crate::bytes_eq(self.cache[i].0.as_slice(), mime.as_slice()) {
                proof {
                    lemma_cached_from(self.cache@, mime@, i as int);
                    let s = self.cache@.subrange(i as int, self.cache@.len() as int);
                    assert(s[0] == self.cache@[i as int]);
                }
                return Some(i);
            }
            i += 1;
        }
        proof {
            lemma_cached_from(self.cache@, mime@, n as int);
            assert(self.cache@.subrange(n as int, self.cache@.len() as int).len() == 0);
        }
        None
    }

    /// One lookup step: a hit returns the cached value and changes nothing;
    /// a miss resolves from the disk record and the static table, caches the
    /// answer under the looked-up key, and touches no other key.
    pub open spec fn get_step(
        pre: MimeInfoDb,
        post: MimeInfoDb,
        mime: Seq<u8>,
        disk: Option<Seq<u8>>,
        r: MimeV,
    ) -> bool {
        match pre.cached(mime) {
            Some(v) => r == v && post == pre,
            None => {
                &&& r == resolve_sp(mime, disk)
                &&& post.cached(mime) == Some(r)
                &&& forall|k: Seq<u8>| k != mime ==> post.cached(k) == pre.cached(k)
            },
        }
    }

    /// Resolve a mime type. `disk` is the raw content of the glob-database
    /// record for this type, when the caller could read one; a cache hit
    /// ignores it.
    pub fn get(&mut self, mime: &Vec<u8>, disk: Option<&Vec<u8>>) -> (r: Mime)
        requires
            old(self).wf(),
        ensures
            final(self).wf(),
            final(self).has_root() == old(self).has_root(),
            final(self).root_sp() == old(self).root_sp(),
            Self::get_step(*old(self), *final(self), mime@, disk_view(disk), r@),
    {
        if let Some(i) = self.find(mime) {
            return self.cache[i].1.clone();
        }
        let from_disk = match disk {
            Some(content) => match xml_elements(content) {
                Some(elems) => extract_glob(&elems),
                None => Mime::Unknown,
            },
            None => Mime::Unknown,
        };
        assert(from_disk@ == disk_mime_sp(disk_view(disk)));
        let resolved = match from_disk {
            Mime::Unknown => mime_from_table(&table_extensions(mime)),
            other => other,
        };
        assert(resolved@ == resolve_sp(mime@, disk_view(disk)));
        let r = resolved.clone();
        let key = mime.clone();
        assert(key@ =~= mime@);
        let entry = (key, resolved);
        proof {
            lemma_cached_none(self.cache@, mime@);
            assert forall|k: Seq<u8>| #![auto]
                cached_in(self.cache@.push(entry), k) == (if k == mime@ {
                    Some(entry.1@)
                } else {
                    cached_in(self.cache@, k)
                }) by {
                lemma_cached_push(self.cache@, entry, k);
            }
            assert forall|x: int, y: int|
                0 <= x < y < self.cache@.push(entry).len() implies self.cache@.push(entry)[x].0@
                != self.cache@.push(entry)[y].0@ by {
                if y < self.cache@.len() {
                } else {
                    assert(self.cache@.push(entry)[y] == entry);
                }
            }
        }
        self.cache.push(entry);
        r
    }

    /// Record the resolved extension for a mime type, overwriting any cached
    /// value.
    pub fn set(&mut self, mime: &Vec<u8>, ext: &Vec<u8>)
        requires
            old(self).wf(),
        ensures
            final(self).wf(),
            final(self).has_root() == old(self).has_root(),
            final(self).root_sp() == old(self).root_sp(),
            final(self).cached(mime@) == Some(MimeV::WithExt(ext@)),
            forall|k: Seq<u8>| k != mime@ ==> final(self).cached(k) == old(self).cached(k),
    {
        let value = Mime::WithExt(ext.clone());
        assert(value@ == MimeV::WithExt(ext@));
        match self.find(mime) {
            Some(i) => {
                let ghost pre = self.cache@;
                proof {
                    assert forall|k: Seq<u8>| #![auto]
                        cached_in(pre.update(i as int, (pre[i as int].0, value)), k) == (if k
                            == mime@ {
                            Some(value@)
                        } else {
                            cached_in(pre, k)
                        }) by {
                        lemma_cached_update(pre, mime@, i as int, value, k);
                    }
                }
                let entry = vstd::std_specs::vec::vec_index_mut(&mut self.cache, i);
                entry.1 = value;
                proof {
                    assert(self.cache@ == pre.update(i as int, (pre[i as int].0, value)));
                    assert forall|x: int, y: int|
                        0 <= x < y < self.cache@.len() implies self.cache@[x].0@
                        != self.cache@[y].0@ by {
                        assert(self.cache@[x].0 == pre[x].0);
                        assert(self.cache@[y].0 == pre[y].0);
                    }
                }
            },
            None => {
                let key = mime.clone();
                assert(key@ =~= mime@);
                let entry = (key, value);
                proof {
                    lemma_cached_none(self.cache@, mime@);
                    assert forall|k: Seq<u8>| #![auto]
                        cached_in(self.cache@.push(entry), k) == (if k == mime@ {
                            Some(entry.1@)
                        } else {
                            cached_in(self.cache@, k)
                        }) by {
                        lemma_cached_push(self.cache@, entry, k);
                    }
                    assert forall|x: int, y: int|
                        0 <= x < y < self.cache@.push(entry).len() implies self.cache@.push(
                            entry,
                        )[x].0@ != self.cache@.push(entry)[y].0@ by {
                        if y < self.cache@.len() {
                        } else {
                            assert(self.cache@.push(entry)[y] == entry);
                        }
                    }
                }
                self.cache.push(entry);
            },
        }
    }
}

/// View of an optional borrowed disk record.
pub open spec fn disk_view(disk: Option<&Vec<u8>>) -> Option<Seq<u8>> {
    match disk {
        Some(c) => Some(c@),
        None => None,
    }
}

/// The `.xml` suffix of a glob-database record's file name.
pub open spec fn xml_suffix() -> Seq<u8> {
    seq![dot(), 'x' as u8, 'm' as u8, 'l' as u8]
}

/// Once a key is cached, every later lookup for it returns the same value,
/// leaves the database unchanged, and needs no disk record at all.
pub proof fn lemma_get_idempotent(
    pre: MimeInfoDb,
    mid: MimeInfoDb,
    post: MimeInfoDb,
    mime: Seq<u8>,
    d1: Option<Seq<u8>>,
    d2: Option<Seq<u8>>,
    r1: MimeV,
    r2: MimeV,
)
    requires
        MimeInfoDb::get_step(pre, mid, mime, d1, r1),
        MimeInfoDb::get_step(mid, post, mime, d2, r2),
    ensures
        r2 == r1,
        post == mid,
        !mid.spec_needs_disk(mime),
{
}

} // verus!
