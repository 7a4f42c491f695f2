//! The type-resolution cascade.
//!
//! A file is classified in stages, first match wins: a quick content
//! signature sniff; for mime types in the configured trigger set, and only
//! for them, a deeper inspection that may refine the type; the extension
//! database; and, when deep inspection was already paid for, its extension
//! guesser, whose answer is written back into the database so that the next
//! file of the same type needs no second inspection.

use vstd::prelude::*;

use crate::{Config, FileType};
use crate::mime_info::{disk_view, Mime, MimeInfoDb, MimeV};

verus! {

/// Whether some element of the list holds exactly these bytes.
pub open spec fn contains_bytes_sp(list: Seq<Vec<u8>>, val: Seq<u8>) -> bool {
    exists|i: int| 0 <= i < list.len() && list[i]@ == val
}

/// Executable form of `contains_bytes_sp`.
pub fn contains_ref(list: &Vec<Vec<u8>>, val: &Vec<u8>) -> (r: bool)
    ensures
        r == contains_bytes_sp(list@, val@),
{
    let n = list.len();
    let mut i: usize = 0;
    while i < n
        invariant
            i <= n,
            n == list@.len(),
            forall|j: int| 0 <= j < i ==> list@[j]@ != val@,
        decreases n - i,
    {
        if crate::bytes_eq(list[i].as_slice(), val.as_slice()) {
            assert(list@[i as int]@ == val@);
            return true;
        }
        i += 1;
    }
    false
}

/// Deep refinement is attempted exactly for trigger-set members, and only
/// while a handle is there to attempt it with.
pub open spec fn spec_should_refine(trigger_set: Seq<Vec<u8>>, mime: Seq<u8>, handle: bool) -> bool {
    contains_bytes_sp(trigger_set, mime) && handle
}

/// A mime type outside the trigger set never invites deep inspection, with
/// or without a handle.
pub proof fn lemma_trigger_gating(trigger_set: Seq<Vec<u8>>, mime: Seq<u8>, handle: bool)
    requires
        !contains_bytes_sp(trigger_set, mime),
    ensures
        !spec_should_refine(trigger_set, mime, handle),
{
}

/// Position of the first occurrence of `b` in `s`, if any.
pub open spec fn ffind_sp(s: Seq<u8>, b: u8) -> Option<int>
    decreases s.len(),
{
    if s.len() == 0 {
        None
    } else if s[0] == b {
        Some(0)
    } else {
        match ffind_sp(s.drop_first(), b) {
            Some(j) => Some(j + 1),
            None => None,
        }
    }
}

/// `ffind_sp` finds exactly the first occurrence.
proof fn lemma_ffind_sp(s: Seq<u8>, b: u8)
    ensures
        match ffind_sp(s, b) {
            Some(j) => 0 <= j < s.len() && s[j] == b && (forall|k: int| 0 <= k < j ==> s[k] != b),
            None => forall|k: int| 0 <= k < s.len() ==> s[k] != b,
        },
    decreases s.len(),
{
    if s.len() > 0 && s[0] != b {
        lemma_ffind_sp(s.drop_first(), b);
        match ffind_sp(s.drop_first(), b) {
            Some(j) => {
                assert(s.drop_first()[j] == s[j + 1]);
                assert forall|k: int| 0 <= k < j + 1 implies s[k] != b by {
                    if k > 0 {
                        assert(s.drop_first()[k - 1] == s[k]);
                    }
                }
            },
            None => {
                assert forall|k: int| 0 <= k < s.len() implies s[k] != b by {
                    if k > 0 {
                        assert(s.drop_first()[k - 1] == s[k]);
                    }
                }
            },
        }
    }
}

/// The sentinel answer with which the extension guesser says it knows
/// nothing.
pub open spec fn no_ext_sentinel() -> Seq<u8> {
    seq!['?' as u8, '?' as u8, '?' as u8]
}

/// The extension that a guesser answer carries: the alternatives are
/// separated by slashes and the first one counts; an empty answer or the
/// sentinel carries none.
pub open spec fn first_candidate_sp(exts: Seq<u8>) -> Option<Seq<u8>> {
    if exts.len() == 0 || exts == no_ext_sentinel() {
        None
    } else {
        match ffind_sp(exts, '/' as u8) {
            Some(k) => Some(exts.subrange(0, k)),
            None => Some(exts),
        }
    }
}

/// Executable form of `first_candidate_sp`.
pub fn first_candidate(exts: &Vec<u8>) -> (r: Option<Vec<u8>>)
    ensures
        match r {
            Some(e) => first_candidate_sp(exts@) == Some(e@),
            None => first_candidate_sp(exts@) == None::<Seq<u8>>,
        },
{
    let n = exts.len();
    if n == 0 {
        return None;
    }
    if n == 3 && exts[0] == '?' as u8 && exts[1] == '?' as u8 && exts[2] == '?' as u8 {
        assert(exts@ =~= no_ext_sentinel());
        return None;
    }
    assert(exts@ != no_ext_sentinel());
    let mut i: usize = 0;
    while i < n
        invariant
            i <= n,
            n == exts@.len(),
            forall|j: int| 0 <= j < i ==> exts@[j] != '/' as u8,
        decreases n - i,
    {
        if exts[i] == '/' as u8 {
            proof {
                lemma_ffind_sp(exts@, '/' as u8);
            }
            let e: Vec<u8> = vstd::slice::slice_to_vec(vstd::slice::slice_subrange(
                exts.as_slice(),
                0,
                i,
            ));
            assert(e@ =~= exts@.subrange(0, i as int));
            return Some(e);
        }
        i += 1;
    }
    proof {
        lemma_ffind_sp(exts@, '/' as u8);
    }
    Some(exts.clone())
}

/// No byte of the path is a NUL: what every path that names a real
/// filesystem entry satisfies, and what the deep-inspection call needs to
/// not abort.
pub open spec fn nul_free(path: Seq<u8>) -> bool {
    forall|i: int| 0 <= i < path.len() ==> path[i] != 0u8
}

/// Relies on `tree_magic_mini::from_filepath`: a quick content sniff of
/// the file at this path; what comes back depends on what is on disk. The
/// byte path crosses over lossily, so a non-UTF-8 path names no real file
/// and the sniff of it simply fails.
#[verifier::external_body]
fn sniff_mime(path: &Vec<u8>) -> (r: Option<Vec<u8>>) {
    let p = std::path::PathBuf::from(String::from_utf8_lossy(path.as_slice()).into_owned());
    tree_magic_mini::from_filepath(&p).map(|m| m.as_bytes().to_vec())
}

/// A loaded deep-inspection handle: `magic::Cookie` in its loaded state.
/// The cookie type's own state parameter is bound by a sealed trait, which
/// a declaration cannot repeat, so the handle is held opaquely instead.
#[verifier::external_body]
pub struct MagicHandle {
    cookie: magic::cookie::Cookie<magic::cookie::Load>,
}

/// Relies on `magic::Cookie::open` and `Cookie::load`: a mime-flavoured
/// handle comes back only when the inspection database loads; whether it
/// does depends on the machine. The byte path crosses over lossily, so a
/// non-UTF-8 database path simply fails to load; one with a NUL byte is
/// rejected by the path constructor, never aborted on.
#[verifier::external_body]
fn open_mime_cookie(db_file: &Vec<u8>) -> (r: Option<MagicHandle>) {
    let path = std::path::PathBuf::from(String::from_utf8_lossy(db_file.as_slice()).into_owned());
    let cookie = magic::Cookie::open(magic::cookie::Flags::MIME_TYPE).ok()?;
    let databases = magic::cookie::DatabasePaths::new([&path]).ok()?;
    let loaded = cookie.load(&databases).ok()?;
    Some(MagicHandle { cookie: loaded })
}

/// Relies on `magic::Cookie::open` and `Cookie::load`, as the mime-flavoured
/// opener does, but asking for extension guesses.
#[verifier::external_body]
fn open_ext_cookie(db_file: &Vec<u8>) -> (r: Option<MagicHandle>) {
    let path = std::path::PathBuf::from(String::from_utf8_lossy(db_file.as_slice()).into_owned());
    let cookie = magic::Cookie::open(magic::cookie::Flags::EXTENSION).ok()?;
    let databases = magic::cookie::DatabasePaths::new([&path]).ok()?;
    let loaded = cookie.load(&databases).ok()?;
    Some(MagicHandle { cookie: loaded })
}

/// Relies on `magic::Cookie::file`: what the deep inspection of the file at
/// this path yields — a refined mime type or an extension list, by the
/// handle's flavour; it depends on what is on disk, and a failed inspection
/// is `None`. The byte path crosses over lossily, so a non-UTF-8 path names
/// no real file and its inspection fails; a path with a NUL byte would
/// abort inside the call, so it is kept out.
#[verifier::external_body]
fn cookie_file(handle: &MagicHandle, path: &Vec<u8>) -> (r: Option<Vec<u8>>)
    requires
        nul_free(path@),
{
    let p = std::path::PathBuf::from(String::from_utf8_lossy(path.as_slice()).into_owned());
    match handle.cookie.file(&p) {
        Ok(answer) => Some(answer.into_bytes()),
        Err(_) => None,
    }
}

/// Resolve the extension for a mime type through the database. `disk` is
/// the glob-database record for it, when one could be read.
pub fn guess_extension(mime_info_db: &mut MimeInfoDb, mime_type: &Vec<u8>, disk: Option<&Vec<u8>>) -> (r:
    Option<Vec<u8>>)
    requires
        old(mime_info_db).wf(),
    ensures
        final(mime_info_db).wf(),
        final(mime_info_db).has_root() == old(mime_info_db).has_root(),
        final(mime_info_db).root_sp() == old(mime_info_db).root_sp(),
        match r {
            Some(e) => MimeInfoDb::get_step(
                *old(mime_info_db),
                *final(mime_info_db),
                mime_type@,
                disk_view(disk),
                MimeV::WithExt(e@),
            ),
            None => exists|v: MimeV|
                !(v is WithExt) && #[trigger] MimeInfoDb::get_step(
                    *old(mime_info_db),
                    *final(mime_info_db),
                    mime_type@,
                    disk_view(disk),
                    v,
                ),
        },
{
    let looked = mime_info_db.get(mime_type, disk);
    match looked {
        Mime::WithExt(e) => Some(e),
        Mime::Generic => {
            assert(!(MimeV::Generic is WithExt));
            None
        },
        Mime::Unknown => {
            assert(!(MimeV::Unknown is WithExt));
            None
        },
    }
}

/// The cascade's owner: the configuration, up to two deep-inspection
/// handles, and the extension database.
pub struct Classifier {
    config: Config,
    cookie_mime_opt: Option<MagicHandle>,
    cookie_ext_opt: Option<MagicHandle>,
    mime_info_db: MimeInfoDb,
}

impl Classifier {
    /// The mime types for which deep refinement is attempted.
    pub closed spec fn trigger_set(&self) -> Seq<Vec<u8>> {
        self.config.libmagic_used_for@
    }

    /// The extension database the classifier owns.
    pub closed spec fn db(&self) -> MimeInfoDb {
        self.mime_info_db
    }

    /// Whether a mime-flavoured deep-inspection handle is available.
    pub closed spec fn has_mime_handle(&self) -> bool {
        self.cookie_mime_opt is Some
    }

    /// Whether an extension-flavoured deep-inspection handle is available.
    pub closed spec fn has_ext_handle(&self) -> bool {
        self.cookie_ext_opt is Some
    }

    /// Build a classifier: open the two deep-inspection handles (each may
    /// fail and stay absent) and start with an empty extension cache. The
    /// caller says whether the configured glob-database root is a
    /// directory.
    pub fn new(config: Config, db_root_is_dir: bool) -> (r: Self)
        ensures
            r.db().wf(),
            r.db().has_root() == db_root_is_dir,
            db_root_is_dir ==> r.db().root_sp() == Some(config.mime_info_db_root@),
            forall|k: Seq<u8>| r.db().cached(k) == None::<MimeV>,
            r.trigger_set() == config.libmagic_used_for@,
    {
        let db_root = config.mime_info_db_root.clone();
        assert(db_root@ =~= config.mime_info_db_root@);
        let mime_info_db = MimeInfoDb::new(db_root, db_root_is_dir);
        let cookie_mime_opt = open_mime_cookie(&config.libmagic_db_file);
        let cookie_ext_opt = open_ext_cookie(&config.libmagic_db_file);
        Classifier { config, cookie_mime_opt, cookie_ext_opt, mime_info_db }
    }

    /// Whether the mime-flavoured handle opened and loaded.
    pub fn mime_handle_available(&self) -> (r: bool)
        ensures
            r == self.has_mime_handle(),
    {
        self.cookie_mime_opt.is_some()
    }

    /// Whether the extension-flavoured handle opened and loaded.
    pub fn ext_handle_available(&self) -> (r: bool)
        ensures
            r == self.has_ext_handle(),
    {
        self.cookie_ext_opt.is_some()
    }

    /// Maybe refine a sniffed mime type by deep inspection. The inspector
    /// is invoked only for trigger-set members and only through an open
    /// handle; everything else — a non-member, an absent handle, a failed
    /// inspection — keeps the sniffed type untouched. The flag says whether
    /// deep inspection actually answered.
    pub fn refine_mime(&self, input_path: &Vec<u8>, sniffed: Vec<u8>) -> (r: (Vec<u8>, bool))
        requires
            nul_free(input_path@),
        ensures
            r.1 ==> spec_should_refine(self.trigger_set(), sniffed@, self.has_mime_handle()),
            !r.1 ==> r.0@ == sniffed@,
    {
        if contains_ref(&self.config.libmagic_used_for, &sniffed) {
            match &self.cookie_mime_opt {
                Some(cookie) => match cookie_file(cookie, input_path) {
                    Some(refined) => (refined, true),
                    None => (sniffed, false),
                },
                None => (sniffed, false),
            }
        } else {
            (sniffed, false)
        }
    }

    /// Classify one file. `read_record` reads the raw bytes of a
    /// glob-database record by path; it is consulted only when the
    /// database misses its cache.
    ///
    /// The cascade: a failed sniff is final and classifies the file as
    /// unknown. A sniffed type in the trigger set is refined by deep
    /// inspection when a handle is there; a failed refinement keeps the
    /// sniffed type. The extension comes from the database, or, when deep
    /// inspection was already used, from its extension guesser, whose
    /// answer is cached for the next lookup of the same type.
    pub fn process_file<F: Fn(&Vec<u8>) -> Option<Vec<u8>>>(
        &mut self,
        input_path: &Vec<u8>,
        read_record: F,
    ) -> (r: FileType)
        requires
            old(self).db().wf(),
            nul_free(input_path@),
            forall|p: &Vec<u8>| #[trigger] read_record.requires((p,)),
        ensures
            final(self).db().wf(),
            final(self).trigger_set() == old(self).trigger_set(),
            final(self).db().has_root() == old(self).db().has_root(),
            r.mime is None ==> r.ext is None && *final(self) == *old(self),
            match (&r.mime, &r.ext) {
                (Some(m), Some(e)) => final(self).db().cached(m@) == Some(MimeV::WithExt(e@)),
                (Some(m), None) => final(self).db().cached(m@) matches Some(v) && !(v
                    is WithExt),
                _ => true,
            },
            // a cached extension for the returned mime propagates into the
            // result and is never downgraded
            r.mime matches Some(m) ==> (old(self).db().cached(m@) matches Some(
                MimeV::WithExt(e),
            ) ==> r.ext matches Some(x) && x@ == e),
            // no other cache key is touched
            r.mime matches Some(m) ==> forall|k: Seq<u8>|
                k != m@ ==> final(self).db().cached(k) == old(self).db().cached(k),
    {
        let sniffed = match sniff_mime(input_path) {
            Some(m) => m,
            None => {
                return FileType::unknown();
            },
        };
        let (mime_final, used_deep) = self.refine_mime(input_path, sniffed);
        let disk: Option<Vec<u8>> = if self.mime_info_db.needs_disk(&mime_final) {
            match self.mime_info_db.record_path(&mime_final) {
                Some(p) => read_record(&p),
                None => None,
            }
        } else {
            None
        };
        let from_db = guess_extension(&mut self.mime_info_db, &mime_final, disk.as_ref());
        let ext_opt: Option<Vec<u8>> = match from_db {
            Some(e) => Some(e),
            None => {
                if used_deep {
                    let guess = match &self.cookie_ext_opt {
                        Some(cookie) => cookie_file(cookie, input_path),
                        None => None,
                    };
                    match guess {
                        Some(exts) => match first_candidate(&exts) {
                            Some(ext) => {
                                self.mime_info_db.set(&mime_final, &ext);
                                Some(ext)
                            },
                            None => None,
                        },
                        None => None,
                    }
                } else {
                    None
                }
            },
        };
        match ext_opt {
            Some(e) => FileType { mime: Some(mime_final), ext: Some(e) },
            None => FileType { mime: Some(mime_final), ext: None },
        }
    }
}

} // verus!
