//! Backup and restore of a directory tree's structure and symlinks.
//!
//! A backup mirrors every directory and encodes every symlink as a plain
//! file: the link's name with `.lns` appended, holding the raw target bytes
//! and one trailing newline. Regular files are left out on purpose. A
//! restore recreates the directories and turns every `.lns` file back into
//! a symlink with the exact target bytes; all other files are ignored.

use vstd::prelude::*;

use crate::Params;
use crate::pathbytes::{dot, file_name_sp, join_sp, name_ext_sp, name_stem_sp, parent_sp,
    raw_tail_sp, rfind_sp, sep, strip_prefix_sp};
use crate::pathbytes::{name_extension, name_stem, path_file_name, path_join, path_parent,
    path_strip_prefix, rfind_byte};

verus! {

/// What kind of filesystem entry a traversal found.
#[derive(Debug, Clone, Copy, PartialEq, Eq)]
pub enum EntryKind {
    Dir,
    File,
    Symlink,
    Other,
}

/// What a backup does with one entry.
#[derive(Debug, Clone, Copy, PartialEq, Eq)]
pub enum BackupAction {
    /// Mirror the directory under the backup root.
    MakeDir,
    /// Encode the symlink as a `.lns` file.
    EncodeLink,
    /// Leave the entry out of the backup.
    Skip,
}

/// What a restore does with one entry of the backup tree.
#[derive(Debug, Clone, Copy, PartialEq, Eq)]
pub enum RestoreAction {
    /// Recreate the directory under the destination root.
    MakeDir,
    /// Read the file and, when it is a `.lns` file, recreate the symlink.
    DecodeFile,
    /// Leave the entry alone.
    Skip,
}

/// A backup mirrors directories, encodes symlinks, and skips everything
/// else — regular files above all.
pub fn backup_action(kind: EntryKind) -> (r: BackupAction)
    ensures
        r is MakeDir <==> kind is Dir,
        r is EncodeLink <==> kind is Symlink,
        r is Skip <==> (kind is File || kind is Other),
{
    match kind {
        EntryKind::Dir => BackupAction::MakeDir,
        EntryKind::Symlink => BackupAction::EncodeLink,
        EntryKind::File => BackupAction::Skip,
        EntryKind::Other => BackupAction::Skip,
    }
}

/// A restore recreates directories and inspects regular files; symlinks and
/// anything else in the backup tree are left alone.
pub fn restore_action(kind: EntryKind) -> (r: RestoreAction)
    ensures
        r is MakeDir <==> kind is Dir,
        r is DecodeFile <==> kind is File,
        r is Skip <==> (kind is Symlink || kind is Other),
{
    match kind {
        EntryKind::Dir => RestoreAction::MakeDir,
        EntryKind::File => RestoreAction::DecodeFile,
        EntryKind::Symlink => RestoreAction::Skip,
        EntryKind::Other => RestoreAction::Skip,
    }
}

/// Why a backup or restore step failed.
#[derive(Debug, Clone, Copy, PartialEq, Eq)]
pub enum CodecError {
    /// The source path does not lie under the configured input root.
    NotUnderRoot,
}

/// The newline byte that ends every encoded link target.
pub open spec fn nl() -> u8 {
    10u8
}

/// The `.lns` suffix that marks an encoded symlink.
pub open spec fn lns_suffix() -> Seq<u8> {
    seq![dot(), 'l' as u8, 'n' as u8, 's' as u8]
}

/// The `lns` extension on its own.
pub open spec fn lns_ext() -> Seq<u8> {
    seq!['l' as u8, 'n' as u8, 's' as u8]
}

/// A link target as stored: the raw bytes plus one newline.
pub open spec fn encode_sp(target: Seq<u8>) -> Seq<u8> {
    target + seq![nl()]
}

/// Stored bytes read back: exactly one trailing newline is stripped, and
/// nothing else.
pub open spec fn decode_sp(content: Seq<u8>) -> Seq<u8> {
    if content.len() > 0 && content[content.len() - 1] == nl() {
        content.drop_last()
    } else {
        content
    }
}

/// Executable form of `encode_sp`.
pub fn encode_link_target(target: &Vec<u8>) -> (r: Vec<u8>)
    ensures
        r@ == encode_sp(target@),
{
    let mut r = target.clone();
    r.push(10u8);
    assert(r@ =~= encode_sp(target@));
    r
}

/// Executable form of `decode_sp`.
pub fn decode_link_content(content: &Vec<u8>) -> (r: Vec<u8>)
    ensures
        r@ == decode_sp(content@),
{
    let n = content.len();
    if n > 0 && content[n - 1] == 10u8 {
        let r: Vec<u8> = vstd::slice::slice_to_vec(vstd::slice::slice_subrange(
            content.as_slice(),
            0,
            n - 1,
        ));
        assert(r@ =~= content@.drop_last());
        r
    } else {
        content.clone()
    }
}

/// Decoding inverts encoding: the stored form gives back the raw target,
/// byte for byte, whatever bytes it holds.
pub proof fn lemma_codec_roundtrip(target: Seq<u8>)
    ensures
        decode_sp(encode_sp(target)) == target,
{
    assert(encode_sp(target).drop_last() =~= target);
}

/// Whether a path names an encoded symlink: its final component carries
/// exactly the `lns` extension.
pub open spec fn has_lns_sp(p: Seq<u8>) -> bool {
    name_ext_sp(raw_tail_sp(p)) == Some(lns_ext())
}

/// Executable form of `has_lns_sp`.
pub fn has_lns_ext(p: &Vec<u8>) -> (r: bool)
    ensures
        r == has_lns_sp(p@),
{
    let n: usize = p.len();
    let start: usize = match rfind_byte(p.as_slice(), '/' as u8) {
        Some(j) => {
            assert(j < n);
            j + 1
        },
        None => 0,
    };
    let tail: Vec<u8> = vstd::slice::slice_to_vec(vstd::slice::slice_subrange(
        p.as_slice(),
        start,
        n,
    ));
    proof {
        crate::pathbytes::lemma_rfind_sp(p@, sep());
        assert(tail@ =~= raw_tail_sp(p@));
    }
    match name_extension(&tail) {
        Some(e) => {
            let lns: Vec<u8> = vec!['l' as u8, 'n' as u8, 's' as u8];
            assert(lns@ =~= lns_ext());
            crate::bytes_eq(e.as_slice(), lns.as_slice())
        },
        None => false,
    }
}

/// Where a decoded symlink goes: the destination path with the final
/// component's extension removed.
pub open spec fn restore_dest_sp(dst: Seq<u8>) -> Seq<u8> {
    match file_name_sp(dst) {
        Some(n) => match parent_sp(dst) {
            Some(par) => join_sp(par, name_stem_sp(n)),
            None => dst,
        },
        None => dst,
    }
}

/// Executable form of `restore_dest_sp`.
pub fn restore_dest(dst: &Vec<u8>) -> (r: Vec<u8>)
    ensures
        r@ == restore_dest_sp(dst@),
{
    match path_file_name(dst) {
        Some(n) => match path_parent(dst) {
            Some(par) => path_join(&par, &name_stem(&n)),
            None => dst.clone(),
        },
        None => dst.clone(),
    }
}

/// Appending `.lns` to a tidy path marks it as an encoded symlink, and
/// removing the suffix gives back exactly the path.
pub proof fn lemma_restore_dest(dst: Seq<u8>)
    requires
        dst.len() > 0,
        crate::pathbytes::tidy_path_sp(dst),
    ensures
        has_lns_sp(dst + lns_suffix()),
        restore_dest_sp(dst + lns_suffix()) == dst,
{
    let q = dst + lns_suffix();
    crate::pathbytes::lemma_parent_join(dst);
    let tail = raw_tail_sp(dst);
    crate::pathbytes::lemma_rfind_concat_none(dst, lns_suffix(), sep());
    let tq = tail + lns_suffix();
    match rfind_sp(dst, sep()) {
        Some(j) => {
            crate::pathbytes::lemma_rfind_sp(dst, sep());
            assert(q.subrange(j + 1, q.len() as int) =~= tq);
            if j > 0 {
                assert(q.subrange(0, j) =~= dst.subrange(0, j));
            }
        },
        None => {
            assert(tail == dst);
            assert(raw_tail_sp(q) == q);
            assert(q =~= tq);
        },
    }
    assert(raw_tail_sp(q) == tq);
    // The last dot of the suffixed name is the one that was appended.
    let t3 = tail + seq![dot(), 'l' as u8, 'n' as u8];
    let t2 = tail + seq![dot(), 'l' as u8];
    let t1 = tail + seq![dot()];
    assert(tq[tq.len() - 1] == 's' as u8);
    assert(tq.drop_last() =~= t3);
    assert(t3[t3.len() - 1] == 'n' as u8);
    assert(t3.drop_last() =~= t2);
    assert(t2[t2.len() - 1] == 'l' as u8);
    assert(t2.drop_last() =~= t1);
    assert(t1[t1.len() - 1] == dot());
    assert(rfind_sp(tq, dot()) == rfind_sp(t3, dot()));
    assert(rfind_sp(t3, dot()) == rfind_sp(t2, dot()));
    assert(rfind_sp(t2, dot()) == rfind_sp(t1, dot()));
    assert(rfind_sp(t1, dot()) == Some(t1.len() - 1));
    assert(rfind_sp(tq, dot()) == Some(tail.len() as int));
    assert(name_ext_sp(tq) == Some(tq.subrange(tail.len() + 1int, tq.len() as int)));
    assert(tq.subrange(tail.len() + 1int, tq.len() as int) =~= lns_ext());
    assert(file_name_sp(q) == Some(tq)) by {
        assert(tq.len() >= 5);
        assert(tq != seq![dot()] && tq != seq![dot(), dot()]);
    }
    assert(name_stem_sp(tq) =~= tail);
    assert(parent_sp(q) == parent_sp(dst));
    assert(restore_dest_sp(q) == dst);
}

/// Backing up a symlink and restoring the backup reproduces it. The backup
/// file stands at the link's relative path with `.lns` appended; restoring
/// that file recreates the link at the same relative path under the new
/// root; and the decoded target is the encoded one, byte for byte,
/// whatever bytes it holds.
pub proof fn lemma_backup_restore_roundtrip(
    rel: Seq<u8>,
    target: Seq<u8>,
    bak_root: Seq<u8>,
    out_root: Seq<u8>,
)
    requires
        rel.len() > 0,
        rel[0] != sep(),
        crate::pathbytes::tidy_path_sp(rel),
        crate::pathbytes::tidy_path_sp(out_root),
    ensures
        join_sp(bak_root, rel) + lns_suffix() == join_sp(bak_root, rel + lns_suffix()),
        strip_prefix_sp(join_sp(bak_root, rel) + lns_suffix(), bak_root) == Some(
            rel + lns_suffix(),
        ),
        restore_dest_sp(join_sp(out_root, rel + lns_suffix())) == join_sp(out_root, rel),
        decode_sp(encode_sp(target)) == target,
{
    crate::pathbytes::lemma_join_append(bak_root, rel, lns_suffix());
    assert((rel + lns_suffix())[0] == rel[0]);
    crate::pathbytes::lemma_join_strip(bak_root, rel + lns_suffix());
    let dst = join_sp(out_root, rel);
    crate::pathbytes::lemma_join_tidy(out_root, rel);
    assert(dst.len() > 0);
    lemma_restore_dest(dst);
    crate::pathbytes::lemma_join_append(out_root, rel, lns_suffix());
    lemma_codec_roundtrip(target);
}

/// Walks a source tree and mirrors its structure and symlinks under the
/// output root.
pub struct BackupProcessor {
    params: Params,
}

impl BackupProcessor {
    /// The root the backup reads from.
    pub closed spec fn input_root_sp(&self) -> Seq<u8> {
        self.params.input_path@
    }

    /// The root the backup writes under.
    pub closed spec fn output_root_sp(&self) -> Seq<u8> {
        self.params.output_path@
    }

    pub fn new(params: Params) -> (r: Self)
        ensures
            r.input_root_sp() == params.input_path@,
            r.output_root_sp() == params.output_path@,
    {
        Self { params }
    }

    pub fn input_root(&self) -> (r: &Vec<u8>)
        ensures
            r@ == self.input_root_sp(),
    {
        &self.params.input_path
    }

    pub fn output_root(&self) -> (r: &Vec<u8>)
        ensures
            r@ == self.output_root_sp(),
    {
        &self.params.output_path
    }

    /// The destination for one source entry: the output root joined with
    /// the entry's path relative to the input root. An entry outside the
    /// input root is a fault.
    pub fn backup_item(&self, src_path: &Vec<u8>) -> (r: Result<Vec<u8>, CodecError>)
        ensures
            match r {
                Ok(dst) => strip_prefix_sp(src_path@, self.input_root_sp()) matches Some(rel)
                    && dst@ == join_sp(self.output_root_sp(), rel),
                Err(e) => strip_prefix_sp(src_path@, self.input_root_sp()) is None && e
                    is NotUnderRoot,
            },
    {
        match path_strip_prefix(src_path, &self.params.input_path) {
            Some(rel) => Ok(path_join(&self.params.output_path, &rel)),
            None => Err(CodecError::NotUnderRoot),
        }
    }

    /// The file that stands for one symlink: the destination path with
    /// `.lns` appended, holding the raw target bytes and one newline.
    pub fn backup_symlink(&self, src_path: &Vec<u8>, link_target: &Vec<u8>) -> (r: Result<
        (Vec<u8>, Vec<u8>),
        CodecError,
    >)
        ensures
            match r {
                Ok(out) => strip_prefix_sp(src_path@, self.input_root_sp()) matches Some(rel)
                    && out.0@ == join_sp(self.output_root_sp(), rel) + lns_suffix() && out.1@
                    == encode_sp(link_target@),
                Err(e) => strip_prefix_sp(src_path@, self.input_root_sp()) is None && e
                    is NotUnderRoot,
            },
    {
        let dst = match self.backup_item(src_path) {
            Ok(d) => d,
            Err(e) => return Err(e),
        };
        let mut dst_file = dst;
        dst_file.push('.' as u8);
        dst_file.push('l' as u8);
        dst_file.push('n' as u8);
        dst_file.push('s' as u8);
        proof {
            let rel = strip_prefix_sp(src_path@, self.input_root_sp()).unwrap();
            assert(dst_file@ =~= join_sp(self.output_root_sp(), rel) + lns_suffix());
        }
        Ok((dst_file, encode_link_target(link_target)))
    }
}

/// Walks a backup tree and rebuilds the directories and symlinks it
/// encodes.
pub struct RestoreProcessor {
    params: Params,
}

impl RestoreProcessor {
    /// The backup tree the restore reads from.
    pub closed spec fn input_root_sp(&self) -> Seq<u8> {
        self.params.input_path@
    }

    /// The root the restore rebuilds under.
    pub closed spec fn output_root_sp(&self) -> Seq<u8> {
        self.params.output_path@
    }

    pub fn new(params: Params) -> (r: Self)
        ensures
            r.input_root_sp() == params.input_path@,
            r.output_root_sp() == params.output_path@,
    {
        Self { params }
    }

    pub fn input_root(&self) -> (r: &Vec<u8>)
        ensures
            r@ == self.input_root_sp(),
    {
        &self.params.input_path
    }

    pub fn output_root(&self) -> (r: &Vec<u8>)
        ensures
            r@ == self.output_root_sp(),
    {
        &self.params.output_path
    }

    /// The destination for one backup entry, mirrored under the output
    /// root.
    pub fn restore_item(&self, src_path: &Vec<u8>) -> (r: Result<Vec<u8>, CodecError>)
        ensures
            match r {
                Ok(dst) => strip_prefix_sp(src_path@, self.input_root_sp()) matches Some(rel)
                    && dst@ == join_sp(self.output_root_sp(), rel),
                Err(e) => strip_prefix_sp(src_path@, self.input_root_sp()) is None && e
                    is NotUnderRoot,
            },
    {
        match path_strip_prefix(src_path, &self.params.input_path) {
            Some(rel) => Ok(path_join(&self.params.output_path, &rel)),
            None => Err(CodecError::NotUnderRoot),
        }
    }

    /// Decode one regular file of the backup tree. A `.lns` file gives the
    /// symlink to create — its path with the suffix removed, and the raw
    /// target with the trailing newline stripped; any other file is
    /// ignored.
    pub fn restore_symlink(&self, src_path: &Vec<u8>, content: &Vec<u8>) -> (r: Result<
        Option<(Vec<u8>, Vec<u8>)>,
        CodecError,
    >)
        ensures
            match r {
                Ok(out) => {
                    &&& strip_prefix_sp(src_path@, self.input_root_sp()) matches Some(rel)
                    &&& match out {
                        Some(link) => {
                            &&& has_lns_sp(src_path@)
                            &&& strip_prefix_sp(src_path@, self.input_root_sp()) matches Some(
                                rel,
                            ) && link.0@ == restore_dest_sp(join_sp(self.output_root_sp(), rel))
                            &&& link.1@ == decode_sp(content@)
                        },
                        None => !has_lns_sp(src_path@),
                    }
                },
                Err(e) => strip_prefix_sp(src_path@, self.input_root_sp()) is None && e
                    is NotUnderRoot,
            },
    {
        if !has_lns_ext(src_path) {
            return match path_strip_prefix(src_path, &self.params.input_path) {
                Some(_) => Ok(None),
                None => Err(CodecError::NotUnderRoot),
            };
        }
        let dst = match self.restore_item(src_path) {
            Ok(d) => d,
            Err(e) => return Err(e),
        };
        let dst_file = restore_dest(&dst);
        let target = decode_link_content(content);
        Ok(Some((dst_file, target)))
    }
}

} // verus!
