//! Output placement: turning a classified input path into the name and
//! directory of the symlink that stands for it.
//!
//! The name starts from the input's file name (or a random one when the
//! input has none), gains the resolved extension when it does not already
//! carry it, and is renamed with a fresh random infix for as long as the
//! caller finds the candidate taken. The directory is the output root, the
//! mime type (or `unknown`), and the input's relative parent.

use vstd::prelude::*;

use rand::RngExt;

use crate::FileType;
use crate::opt_bytes;
use crate::pathbytes::{
    dot,
    file_name_sp,
    join_sp,
    name_ext_sp,
    name_stem_sp,
    parent_sp,
    strip_prefix_sp,
    ext_dot_sp,
};
use crate::pathbytes::{name_extension, name_stem, path_file_name, path_join, path_parent,
    path_strip_prefix};

verus! {

/// An ASCII digit or letter.
pub open spec fn is_alnum_byte(b: u8) -> bool {
    ('0' as u8 <= b <= '9' as u8) || ('A' as u8 <= b <= 'Z' as u8) || ('a' as u8 <= b <= 'z'
        as u8)
}

/// Six ASCII digits or letters: the shape of every random name part.
pub open spec fn is_alnum6(s: Seq<u8>) -> bool {
    s.len() == 6 && forall|i: int| 0 <= i < s.len() ==> is_alnum_byte(#[trigger] s[i])
}

/// Relies on `rand`'s `Alphanumeric` distribution, which yields only ASCII
/// digits and letters; which six of them come back is up to the generator.
#[verifier::external_body]
fn random_alnum6() -> (r: Vec<u8>)
    ensures
        is_alnum6(r@),
{
    rand::rng().sample_iter(rand::distr::Alphanumeric).take(6).collect()
}

/// The extension a name carries, or the empty byte string when it has none.
pub open spec fn ext_or_empty_sp(name: Seq<u8>) -> Seq<u8> {
    match name_ext_sp(name) {
        Some(e) => e,
        None => Seq::<u8>::empty(),
    }
}

/// A name with the resolved extension appended, unless the name already
/// carries exactly that extension.
pub open spec fn append_ext_sp(name: Seq<u8>, ext: Option<Seq<u8>>) -> Seq<u8> {
    match ext {
        None => name,
        Some(e) => if ext_or_empty_sp(name) == e {
            name
        } else {
            name + seq![dot()] + e
        },
    }
}

/// Executable form of `append_ext_sp`.
pub fn append_ext_if_needed(file_name: &Vec<u8>, ext: &Option<Vec<u8>>) -> (r: Vec<u8>)
    ensures
        r@ == append_ext_sp(file_name@, opt_bytes(ext)),
{
    match ext {
        None => file_name.clone(),
        Some(e) => {
            let current: Vec<u8> = match name_extension(file_name) {
                Some(x) => x,
                None => Vec::new(),
            };
            assert(current@ == ext_or_empty_sp(file_name@));
            if crate::bytes_eq(current.as_slice(), e.as_slice()) {
                file_name.clone()
            } else {
                let mut r = file_name.clone();
                r.push('.' as u8);
                r.extend_from_slice(e.as_slice());
                assert(r@ =~= file_name@ + seq![dot()] + e@);
                r
            }
        },
    }
}

/// A fresh random base name carrying the resolved extension.
pub fn random_name(ext: &Option<Vec<u8>>) -> (r: Vec<u8>)
    ensures
        exists|s: Seq<u8>| #[trigger] is_alnum6(s) && r@ == append_ext_sp(s, opt_bytes(ext)),
{
    let base = random_alnum6();
    let r = append_ext_if_needed(&base, ext);
    assert(is_alnum6(base@) && r@ == append_ext_sp(base@, opt_bytes(ext)));
    r
}

/// The first name to try for an input: its file name with the extension
/// appended, or a random name when the input has no file name component.
pub fn initial_output_name(input: &Vec<u8>, ext: &Option<Vec<u8>>) -> (r: Vec<u8>)
    ensures
        match file_name_sp(input@) {
            Some(n) => r@ == append_ext_sp(n, opt_bytes(ext)),
            None => exists|s: Seq<u8>| #[trigger] is_alnum6(s) && r@ == append_ext_sp(
                s,
                opt_bytes(ext),
            ),
        },
{
    match path_file_name(input) {
        Some(n) => append_ext_if_needed(&n, ext),
        None => random_name(ext),
    }
}

/// A taken name renamed: its stem, a hyphen, a fresh suffix, and its own
/// extension back again.
pub open spec fn rename_sp(name: Seq<u8>, suffix: Seq<u8>) -> Seq<u8> {
    name_stem_sp(name) + seq![hyphen()] + suffix + (match name_ext_sp(name) {
        Some(e) => seq![dot()] + e,
        None => Seq::<u8>::empty(),
    })
}

pub open spec fn hyphen() -> u8 {
    '-' as u8
}

/// The next candidate after a collision: the current name with a fresh
/// random infix; a nameless candidate starts over from a random name.
pub fn collision_rename(name: &Vec<u8>, ext: &Option<Vec<u8>>) -> (r: Vec<u8>)
    ensures
        name@.len() > 0 ==> exists|s: Seq<u8>| #[trigger] is_alnum6(s) && r@ == rename_sp(
            name@,
            s,
        ),
        name@.len() == 0 ==> exists|s: Seq<u8>| #[trigger] is_alnum6(s) && r@ == append_ext_sp(
            s,
            opt_bytes(ext),
        ),
{
    if name.len() == 0 {
        return random_name(ext);
    }
    let suffix = random_alnum6();
    let mut r = name_stem(name);
    r.push('-' as u8);
    r.extend_from_slice(suffix.as_slice());
    match name_extension(name) {
        Some(e) => {
            r.push('.' as u8);
            r.extend_from_slice(e.as_slice());
            assert(r@ =~= rename_sp(name@, suffix@));
        },
        None => {
            assert(r@ =~= rename_sp(name@, suffix@));
        },
    }
    assert(is_alnum6(suffix@) && r@ == rename_sp(name@, suffix@));
    r
}

/// Renaming with two different suffixes of one length gives two different
/// names, whatever the colliding name was.
pub proof fn lemma_rename_distinct(name: Seq<u8>, s1: Seq<u8>, s2: Seq<u8>)
    requires
        s1.len() == s2.len(),
        s1 != s2,
    ensures
        rename_sp(name, s1) != rename_sp(name, s2),
{
    let st = name_stem_sp(name);
    let r1 = rename_sp(name, s1);
    let r2 = rename_sp(name, s2);
    if r1 == r2 {
        assert forall|i: int| 0 <= i < s1.len() implies s1[i] == s2[i] by {
            assert(r1[st.len() + 1 + i] == s1[i]);
            assert(r2[st.len() + 1 + i] == s2[i]);
        }
        assert(s1 =~= s2);
    }
}

/// A name splits into its stem, the dot, and its extension.
proof fn lemma_name_decomp(name: Seq<u8>)
    ensures
        match name_ext_sp(name) {
            Some(e) => name =~= name_stem_sp(name) + seq![dot()] + e,
            None => name_stem_sp(name) == name,
        },
{
    crate::pathbytes::lemma_rfind_sp(name, dot());
    match ext_dot_sp(name) {
        Some(j) => {
            assert(name[j] == dot());
            assert(name =~= name.subrange(0, j) + seq![dot()] + name.subrange(
                j + 1,
                name.len() as int,
            ));
        },
        None => {},
    }
}

/// A renamed candidate is seven bytes longer than the name it replaces, so
/// the two never coincide.
pub proof fn lemma_rename_fresh(name: Seq<u8>, suffix: Seq<u8>)
    requires
        suffix.len() == 6,
    ensures
        rename_sp(name, suffix).len() == name.len() + 7,
        rename_sp(name, suffix) != name,
{
    lemma_name_decomp(name);
}

/// The directory one classified input is placed in: the output root, then
/// the mime type (or `unknown` when the signature oracle found nothing),
/// then the input's parent relative to the input root when the input lies
/// under it.
pub open spec fn output_dir_sp(
    output_root: Seq<u8>,
    mime: Option<Seq<u8>>,
    input: Seq<u8>,
    input_root: Seq<u8>,
) -> Seq<u8> {
    let base = join_sp(
        output_root,
        match mime {
            Some(m) => m,
            None => unknown_dir(),
        },
    );
    match strip_prefix_sp(input, input_root) {
        Some(rel) => match parent_sp(rel) {
            Some(par) => join_sp(base, par),
            None => base,
        },
        None => base,
    }
}

/// The directory name for inputs whose type no source knew.
pub open spec fn unknown_dir() -> Seq<u8> {
    seq![
        'u' as u8,
        'n' as u8,
        'k' as u8,
        'n' as u8,
        'o' as u8,
        'w' as u8,
        'n' as u8,
    ]
}

/// Executable form of `output_dir_sp`.
pub fn output_dir_for(
    output_root: &Vec<u8>,
    file_type: &FileType,
    input: &Vec<u8>,
    input_root: &Vec<u8>,
) -> (r: Vec<u8>)
    ensures
        r@ == output_dir_sp(output_root@, opt_bytes(&file_type.mime), input@, input_root@),
{
    let type_dir: Vec<u8> = match &file_type.mime {
        Some(m) => m.clone(),
        None => {
            let u: Vec<u8> = vec![
                'u' as u8,
                'n' as u8,
                'k' as u8,
                'n' as u8,
                'o' as u8,
                'w' as u8,
                'n' as u8,
            ];
            assert(u@ =~= unknown_dir());
            u
        },
    };
    let base = path_join(output_root, &type_dir);
    match path_strip_prefix(input, input_root) {
        Some(rel) => match path_parent(&rel) {
            Some(par) => path_join(&base, &par),
            None => base,
        },
        None => base,
    }
}

} // verus!
