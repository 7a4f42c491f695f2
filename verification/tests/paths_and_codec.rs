use classifiles::codec::{
    backup_action, decode_link_content, encode_link_target, has_lns_ext, restore_action,
    restore_dest, BackupAction, BackupProcessor, CodecError, EntryKind, RestoreAction,
    RestoreProcessor,
};
use classifiles::pathbytes::{
    name_extension, name_stem, path_file_name, path_join, path_parent, path_strip_prefix,
};
use classifiles::Params;

#[test]
fn file_name_of_paths() {
    assert_eq!(
        path_file_name(&b"/in/sub/report.pdf".to_vec()),
        Some(b"report.pdf".to_vec())
    );
    assert_eq!(path_file_name(&b"report".to_vec()), Some(b"report".to_vec()));
    assert_eq!(path_file_name(&b"/in/sub/".to_vec()), None);
    assert_eq!(path_file_name(&b"/in/..".to_vec()), None);
    assert_eq!(path_file_name(&b"".to_vec()), None);
}

#[test]
fn name_extension_and_stem() {
    assert_eq!(name_extension(&b"a.tar.gz".to_vec()), Some(b"gz".to_vec()));
    assert_eq!(name_stem(&b"a.tar.gz".to_vec()), b"a.tar".to_vec());
    assert_eq!(name_extension(&b"report".to_vec()), None);
    assert_eq!(name_stem(&b"report".to_vec()), b"report".to_vec());
    assert_eq!(name_extension(&b".bashrc".to_vec()), None);
    assert_eq!(name_stem(&b".bashrc".to_vec()), b".bashrc".to_vec());
}

#[test]
fn join_and_strip_prefix() {
    assert_eq!(
        path_join(&b"/out".to_vec(), &b"sub/x".to_vec()),
        b"/out/sub/x".to_vec()
    );
    assert_eq!(path_join(&b"/out/".to_vec(), &b"x".to_vec()), b"/out/x".to_vec());
    assert_eq!(path_join(&b"".to_vec(), &b"x".to_vec()), b"x".to_vec());
    assert_eq!(
        path_strip_prefix(&b"/in/sub/x".to_vec(), &b"/in".to_vec()),
        Some(b"sub/x".to_vec())
    );
    assert_eq!(path_strip_prefix(&b"/in".to_vec(), &b"/in".to_vec()), Some(b"".to_vec()));
    assert_eq!(path_strip_prefix(&b"/other/x".to_vec(), &b"/in".to_vec()), None);
    assert_eq!(path_strip_prefix(&b"/inx/y".to_vec(), &b"/in".to_vec()), None);
}

#[test]
fn parent_of_paths() {
    assert_eq!(path_parent(&b"/in/sub/x".to_vec()), Some(b"/in/sub".to_vec()));
    assert_eq!(path_parent(&b"/x".to_vec()), Some(b"/".to_vec()));
    assert_eq!(path_parent(&b"x".to_vec()), Some(b"".to_vec()));
    assert_eq!(path_parent(&b"".to_vec()), None);
}

#[test]
fn link_content_codec() {
    assert_eq!(encode_link_target(&b"/etc/passwd".to_vec()), b"/etc/passwd\n".to_vec());
    assert_eq!(decode_link_content(&b"/etc/passwd\n".to_vec()), b"/etc/passwd".to_vec());
    assert_eq!(decode_link_content(&b"/etc/passwd".to_vec()), b"/etc/passwd".to_vec());
    // exactly one newline is stripped
    assert_eq!(decode_link_content(&b"x\n\n".to_vec()), b"x\n".to_vec());
    assert_eq!(decode_link_content(&b"".to_vec()), b"".to_vec());
}

#[test]
fn link_content_codec_raw_bytes() {
    let target = vec![0x2f, 0xff, 0xfe, 0x00, 0x80];
    let stored = encode_link_target(&target);
    assert_eq!(stored.len(), target.len() + 1);
    assert_eq!(decode_link_content(&stored), target);
}

#[test]
fn lns_name_detection() {
    assert!(has_lns_ext(&b"/bak/link.lns".to_vec()));
    assert!(has_lns_ext(&b"a.txt.lns".to_vec()));
    assert!(!has_lns_ext(&b"/bak/link".to_vec()));
    assert!(!has_lns_ext(&b"/bak/link.lnsx".to_vec()));
    assert!(!has_lns_ext(&b"/bak/link.txt".to_vec()));
}

#[test]
fn restore_destination_strips_suffix() {
    assert_eq!(restore_dest(&b"/out/sub/link.lns".to_vec()), b"/out/sub/link".to_vec());
    assert_eq!(restore_dest(&b"/out/a.txt.lns".to_vec()), b"/out/a.txt".to_vec());
}

#[test]
fn backup_skips_regular_files() {
    assert_eq!(backup_action(EntryKind::File), BackupAction::Skip);
    assert_eq!(backup_action(EntryKind::Other), BackupAction::Skip);
    assert_eq!(backup_action(EntryKind::Dir), BackupAction::MakeDir);
    assert_eq!(backup_action(EntryKind::Symlink), BackupAction::EncodeLink);
}

#[test]
fn restore_ignores_symlinks() {
    assert_eq!(restore_action(EntryKind::Dir), RestoreAction::MakeDir);
    assert_eq!(restore_action(EntryKind::File), RestoreAction::DecodeFile);
    assert_eq!(restore_action(EntryKind::Symlink), RestoreAction::Skip);
    assert_eq!(restore_action(EntryKind::Other), RestoreAction::Skip);
}

#[test]
fn backup_item_mirrors_relative_path() {
    let b = BackupProcessor::new(Params {
        input_path: b"/in".to_vec(),
        output_path: b"/bak".to_vec(),
    });
    assert_eq!(b.input_root(), &b"/in".to_vec());
    assert_eq!(b.output_root(), &b"/bak".to_vec());
    assert_eq!(b.backup_item(&b"/in/sub".to_vec()), Ok(b"/bak/sub".to_vec()));
    assert_eq!(
        b.backup_item(&b"/elsewhere/sub".to_vec()),
        Err(CodecError::NotUnderRoot)
    );
}

#[test]
fn backup_then_restore_symlink_roundtrip() {
    let b = BackupProcessor::new(Params {
        input_path: b"/in".to_vec(),
        output_path: b"/bak".to_vec(),
    });
    let (stored_path, stored_content) = b
        .backup_symlink(&b"/in/sub/link".to_vec(), &b"/etc/passwd".to_vec())
        .unwrap();
    assert_eq!(stored_path, b"/bak/sub/link.lns".to_vec());
    assert_eq!(stored_content, b"/etc/passwd\n".to_vec());

    let r = RestoreProcessor::new(Params {
        input_path: b"/bak".to_vec(),
        output_path: b"/restored".to_vec(),
    });
    let restored = r.restore_symlink(&stored_path, &stored_content).unwrap();
    let (link_path, target) = restored.expect("a .lns file must decode to a symlink");
    assert_eq!(link_path, b"/restored/sub/link".to_vec());
    assert_eq!(target, b"/etc/passwd".to_vec());
}

#[test]
fn backup_then_restore_symlink_raw_target() {
    let b = BackupProcessor::new(Params {
        input_path: b"/in".to_vec(),
        output_path: b"/bak".to_vec(),
    });
    let raw_target = vec![0x2f, 0x74, 0x6d, 0x70, 0x2f, 0xff, 0xfe, 0x80];
    let (stored_path, stored_content) =
        b.backup_symlink(&b"/in/link".to_vec(), &raw_target).unwrap();

    let r = RestoreProcessor::new(Params {
        input_path: b"/bak".to_vec(),
        output_path: b"/out".to_vec(),
    });
    let restored = r.restore_symlink(&stored_path, &stored_content).unwrap();
    let (link_path, target) = restored.unwrap();
    assert_eq!(link_path, b"/out/link".to_vec());
    assert_eq!(target, raw_target);
}

#[test]
fn restore_ignores_other_files() {
    let r = RestoreProcessor::new(Params {
        input_path: b"/bak".to_vec(),
        output_path: b"/out".to_vec(),
    });
    assert_eq!(r.restore_symlink(&b"/bak/notes.txt".to_vec(), &b"data".to_vec()), Ok(None));
    assert_eq!(
        r.restore_symlink(&b"/elsewhere/x.lns".to_vec(), &b"t\n".to_vec()),
        Err(CodecError::NotUnderRoot)
    );
}

#[test]
fn restore_item_mirrors_relative_path() {
    let r = RestoreProcessor::new(Params {
        input_path: b"/bak".to_vec(),
        output_path: b"/out".to_vec(),
    });
    assert_eq!(r.input_root(), &b"/bak".to_vec());
    assert_eq!(r.output_root(), &b"/out".to_vec());
    assert_eq!(r.restore_item(&b"/bak/sub".to_vec()), Ok(b"/out/sub".to_vec()));
}
