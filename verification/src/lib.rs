use vstd::prelude::*;

pub mod pathbytes;
pub mod mime_info;
pub mod placer;
pub mod codec;
pub mod classifier;
pub mod conf;

verus! {

/// View of an optional byte string.
pub open spec fn opt_bytes(o: &Option<Vec<u8>>) -> Option<Seq<u8>> {
    match o {
        Some(v) => Some(v@),
        None => None,
    }
}

/// Classifier configuration: where the glob database and the deep
/// inspector's database live, and the trigger set of mime types for which
/// deep refinement is attempted.
#[derive(Debug)]
pub struct Config {
    pub mime_info_db_root: Vec<u8>,
    pub libmagic_db_file: Vec<u8>,
    pub libmagic_used_for: Vec<Vec<u8>>,
}

/// The two roots a run works between.
#[derive(Debug)]
pub struct Params {
    pub input_path: Vec<u8>,
    pub output_path: Vec<u8>,
}

/// The outcome of classifying one file. A missing mime means the signature
/// oracle found nothing; a missing extension means no source could resolve
/// one for the mime.
#[derive(Debug)]
pub struct FileType {
    pub mime: Option<Vec<u8>>,
    pub ext: Option<Vec<u8>>,
}

impl FileType {
    /// The classification of a file whose type no oracle recognized.
    pub fn unknown() -> (r: Self)
        ensures
            r.mime is None,
            r.ext is None,
    {
        Self { mime: None, ext: None }
    }
}

/// Byte-for-byte equality of two byte slices.
pub fn bytes_eq(a: &[u8], b: &[u8]) -> (r: bool)
    ensures
        r == (a@ == b@),
{
    if a.len() != b.len() {
        assert(a@ != b@);
        return false;
    }
    let mut i: usize = 0;
    while i < a.len()
        invariant
            i <= a.len(),
            a.len() == b.len(),
            forall|j: int| 0 <= j < i ==> a@[j] == b@[j],
        decreases a.len() - i,
    {
        if a[i] != b[i] {
            assert(a@ != b@);
            return false;
        }
        i += 1;
    }
    assert(a@ =~= b@);
    true
}

} // verus!

