//! The shape of the optional configuration file, and the built-in
//! defaults used when no file can be read.

use vstd::prelude::*;

verus! {

/// The glob-database section: where the per-mime records live.
#[derive(Debug)]
pub struct InfoDbConfig {
    pub root: Vec<u8>,
}

/// The deep-inspection section: the signature database and the trigger
/// set.
#[derive(Debug)]
pub struct LibMagicConfig {
    pub db_file: Vec<u8>,
    pub used_for: Vec<Vec<u8>>,
}

/// A loaded configuration file.
#[derive(Debug)]
pub struct Config {
    pub mime_info_db: InfoDbConfig,
    pub libmagic: LibMagicConfig,
}

impl Config {
    /// The classifier configuration this file describes.
    pub fn to_classifier_config(self) -> (r: crate::Config)
        ensures
            r.mime_info_db_root@ == self.mime_info_db.root@,
            r.libmagic_db_file@ == self.libmagic.db_file@,
            r.libmagic_used_for@ == self.libmagic.used_for@,
    {
        crate::Config {
            mime_info_db_root: self.mime_info_db.root,
            libmagic_db_file: self.libmagic.db_file,
            libmagic_used_for: self.libmagic.used_for,
        }
    }
}

/// The default glob-database root, `/usr/share/mime`.
pub open spec fn default_db_root() -> Seq<u8> {
    seq![
        '/' as u8,
        'u' as u8,
        's' as u8,
        'r' as u8,
        '/' as u8,
        's' as u8,
        'h' as u8,
        'a' as u8,
        'r' as u8,
        'e' as u8,
        '/' as u8,
        'm' as u8,
        'i' as u8,
        'm' as u8,
        'e' as u8,
    ]
}

/// The default deep-inspection database, `/usr/share/file/misc/magic.mgc`.
pub open spec fn default_magic_db() -> Seq<u8> {
    seq![
        '/' as u8,
        'u' as u8,
        's' as u8,
        'r' as u8,
        '/' as u8,
        's' as u8,
        'h' as u8,
        'a' as u8,
        'r' as u8,
        'e' as u8,
        '/' as u8,
        'f' as u8,
        'i' as u8,
        'l' as u8,
        'e' as u8,
        '/' as u8,
        'm' as u8,
        'i' as u8,
        's' as u8,
        'c' as u8,
        '/' as u8,
        'm' as u8,
        'a' as u8,
        'g' as u8,
        'i' as u8,
        'c' as u8,
        '.' as u8,
        'm' as u8,
        'g' as u8,
        'c' as u8,
    ]
}

/// The one default trigger-set member, `application/zip`: the quick sniff
/// collapses many archive formats into it.
pub open spec fn default_trigger() -> Seq<u8> {
    seq![
        'a' as u8,
        'p' as u8,
        'p' as u8,
        'l' as u8,
        'i' as u8,
        'c' as u8,
        'a' as u8,
        't' as u8,
        'i' as u8,
        'o' as u8,
        'n' as u8,
        '/' as u8,
        'z' as u8,
        'i' as u8,
        'p' as u8,
    ]
}

/// The configuration used when no file is found or it does not parse.
pub fn default_config() -> (r: crate::Config)
    ensures
        r.mime_info_db_root@ == default_db_root(),
        r.libmagic_db_file@ == default_magic_db(),
        r.libmagic_used_for@.len() == 1,
        r.libmagic_used_for@[0]@ == default_trigger(),
{
    let root: Vec<u8> = vec![
        '/' as u8,
        'u' as u8,
        's' as u8,
        'r' as u8,
        '/' as u8,
        's' as u8,
        'h' as u8,
        'a' as u8,
        'r' as u8,
        'e' as u8,
        '/' as u8,
        'm' as u8,
        'i' as u8,
        'm' as u8,
        'e' as u8,
    ];
    assert(root@ =~= default_db_root());
    let magic_db: Vec<u8> = vec![
        '/' as u8,
        'u' as u8,
        's' as u8,
        'r' as u8,
        '/' as u8,
        's' as u8,
        'h' as u8,
        'a' as u8,
        'r' as u8,
        'e' as u8,
        '/' as u8,
        'f' as u8,
        'i' as u8,
        'l' as u8,
        'e' as u8,
        '/' as u8,
        'm' as u8,
        'i' as u8,
        's' as u8,
        'c' as u8,
        '/' as u8,
        'm' as u8,
        'a' as u8,
        'g' as u8,
        'i' as u8,
        'c' as u8,
        '.' as u8,
        'm' as u8,
        'g' as u8,
        'c' as u8,
    ];
    assert(magic_db@ =~= default_magic_db());
    let trigger: Vec<u8> = vec![
        'a' as u8,
        'p' as u8,
        'p' as u8,
        'l' as u8,
        'i' as u8,
        'c' as u8,
        'a' as u8,
        't' as u8,
        'i' as u8,
        'o' as u8,
        'n' as u8,
        '/' as u8,
        'z' as u8,
        'i' as u8,
        'p' as u8,
    ];
    assert(trigger@ =~= default_trigger());
    let mut used_for: Vec<Vec<u8>> = Vec::new();
    used_for.push(trigger);
    crate::Config {
        mime_info_db_root: root,
        libmagic_db_file: magic_db,
        libmagic_used_for: used_for,
    }
}

} // verus!
