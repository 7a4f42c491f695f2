use classifiles::classifier::{contains_ref, first_candidate, guess_extension, Classifier};
use classifiles::conf;
use classifiles::mime_info::{extract_glob, mime_from_table, strip_glob_prefix, Mime, MimeInfoDb,
    XmlElement};
use classifiles::placer::{append_ext_if_needed, collision_rename, initial_output_name,
    output_dir_for, random_name};
use classifiles::{Config, FileType};

#[test]
fn extension_appended_when_missing() {
    let name = append_ext_if_needed(&b"report".to_vec(), &Some(b"pdf".to_vec()));
    assert_eq!(name, b"report.pdf".to_vec());
}

#[test]
fn extension_not_appended_twice() {
    let name = append_ext_if_needed(&b"report.pdf".to_vec(), &Some(b"pdf".to_vec()));
    assert_eq!(name, b"report.pdf".to_vec());
}

#[test]
fn extension_appended_when_different() {
    let name = append_ext_if_needed(&b"archive.tar".to_vec(), &Some(b"gz".to_vec()));
    assert_eq!(name, b"archive.tar.gz".to_vec());
    // the comparison is case-sensitive and exact
    let name = append_ext_if_needed(&b"report.PDF".to_vec(), &Some(b"pdf".to_vec()));
    assert_eq!(name, b"report.PDF.pdf".to_vec());
    let name = append_ext_if_needed(&b"report.pdf".to_vec(), &None);
    assert_eq!(name, b"report.pdf".to_vec());
}

#[test]
fn random_names_have_the_documented_shape() {
    let name = random_name(&None);
    assert_eq!(name.len(), 6);
    assert!(name.iter().all(|b| b.is_ascii_alphanumeric()));
    let name = random_name(&Some(b"pdf".to_vec()));
    assert_eq!(name.len(), 10);
    assert_eq!(&name[6..], b".pdf");
}

#[test]
fn initial_name_prefers_the_file_name() {
    let name = initial_output_name(&b"/in/report".to_vec(), &Some(b"pdf".to_vec()));
    assert_eq!(name, b"report.pdf".to_vec());
    // a path without a file name gets a random one
    let name = initial_output_name(&b"/in/..".to_vec(), &Some(b"pdf".to_vec()));
    assert_eq!(name.len(), 10);
    assert_eq!(&name[6..], b".pdf");
}

#[test]
fn collision_rename_keeps_stem_and_extension() {
    let renamed = collision_rename(&b"photo.jpg".to_vec(), &None);
    assert_eq!(renamed.len(), b"photo.jpg".len() + 7);
    assert_eq!(&renamed[..6], b"photo-");
    assert_eq!(&renamed[renamed.len() - 4..], b".jpg");
    let renamed = collision_rename(&b"photo".to_vec(), &None);
    assert_eq!(renamed.len(), 5 + 7);
    assert_eq!(&renamed[..6], b"photo-");
}

#[test]
fn collision_rename_gives_distinct_names() {
    let base = b"photo.jpg".to_vec();
    let mut seen: Vec<Vec<u8>> = Vec::new();
    for _ in 0..5 {
        let fresh = collision_rename(&base, &None);
        assert_ne!(fresh, base);
        assert!(!seen.contains(&fresh));
        seen.push(fresh);
    }
}

#[test]
fn unknown_files_go_under_the_unknown_directory() {
    let unknown = FileType::unknown();
    assert!(unknown.mime.is_none());
    assert!(unknown.ext.is_none());
    let dir = output_dir_for(
        &b"/out".to_vec(),
        &unknown,
        &b"/in/sub/mystery".to_vec(),
        &b"/in".to_vec(),
    );
    assert_eq!(dir, b"/out/unknown/sub".to_vec());
}

#[test]
fn classified_files_go_under_their_type_directory() {
    let ft = FileType { mime: Some(b"application/zip".to_vec()), ext: Some(b"zip".to_vec()) };
    let dir = output_dir_for(&b"/out".to_vec(), &ft, &b"/in/deep/a.bin".to_vec(), &b"/in".to_vec());
    assert_eq!(dir, b"/out/application/zip/deep".to_vec());
    // an input outside the input root keeps no relative parent
    let dir = output_dir_for(&b"/out".to_vec(), &ft, &b"/elsewhere/a".to_vec(), &b"/in".to_vec());
    assert_eq!(dir, b"/out/application/zip".to_vec());
}

#[test]
fn glob_records_resolve_extensions() {
    let xml = b"<mime-type><glob pattern=\"*.zip\"/></mime-type>".to_vec();
    let mut db = MimeInfoDb::new(b"/db".to_vec(), true);
    let got = db.get(&b"application/zip".to_vec(), Some(&xml));
    assert_eq!(got, Mime::WithExt(b"zip".to_vec()));
}

#[test]
fn second_lookup_needs_no_disk_record() {
    let xml = b"<mime-type><glob pattern=\"*.zip\"/></mime-type>".to_vec();
    let mut db = MimeInfoDb::new(b"/db".to_vec(), true);
    assert!(db.needs_disk(&b"application/zip".to_vec()));
    let first = db.get(&b"application/zip".to_vec(), Some(&xml));
    // the key is cached now: no record is wanted and none is read
    assert!(!db.needs_disk(&b"application/zip".to_vec()));
    let second = db.get(&b"application/zip".to_vec(), None);
    assert_eq!(first, second);
    let third = db.get(&b"application/zip".to_vec(), Some(&b"garbage".to_vec()));
    assert_eq!(first, third);
}

#[test]
fn unparsable_records_fall_back_to_the_table() {
    let mut db = MimeInfoDb::new(b"/db".to_vec(), true);
    let got = db.get(&b"application/json".to_vec(), Some(&b"not xml <".to_vec()));
    assert_eq!(got, Mime::WithExt(b"json".to_vec()));
}

#[test]
fn table_answers_when_no_record_exists() {
    let mut db = MimeInfoDb::new(b"ignored".to_vec(), false);
    assert!(!db.needs_disk(&b"text/plain".to_vec()));
    let got = db.get(&b"text/plain".to_vec(), None);
    assert_eq!(got, Mime::WithExt(b"txt".to_vec()));
}

#[test]
fn absent_types_stay_unknown() {
    let mut db = MimeInfoDb::new(b"ignored".to_vec(), false);
    let got = db.get(&b"fantasy/nonsense".to_vec(), None);
    assert_eq!(got, Mime::Unknown);
    // a later set upgrades the entry, and the upgrade sticks
    db.set(&b"fantasy/nonsense".to_vec(), &b"fnord".to_vec());
    let got = db.get(&b"fantasy/nonsense".to_vec(), None);
    assert_eq!(got, Mime::WithExt(b"fnord".to_vec()));
}

#[test]
fn record_paths_follow_the_on_disk_layout() {
    let db = MimeInfoDb::new(b"/db".to_vec(), true);
    assert_eq!(
        db.record_path(&b"application/zip".to_vec()),
        Some(b"/db/application/zip.xml".to_vec())
    );
    let rootless = MimeInfoDb::new(b"/db".to_vec(), false);
    assert_eq!(rootless.record_path(&b"application/zip".to_vec()), None);
}

#[test]
fn guessing_resolves_and_caches() {
    let mut db = MimeInfoDb::new(b"ignored".to_vec(), false);
    assert_eq!(guess_extension(&mut db, &b"text/plain".to_vec(), None), Some(b"txt".to_vec()));
    // the resolution is cached: a generic or unknown answer stays one
    assert_eq!(guess_extension(&mut db, &b"fantasy/nonsense".to_vec(), None), None);
    assert_eq!(db.get(&b"fantasy/nonsense".to_vec(), None), Mime::Unknown);
}

#[test]
fn parsed_records_map_to_mime_values() {
    // a record without any glob element marks the type as generic
    let plain = vec![XmlElement { name: b"mime-type".to_vec(), attrs: vec![] }];
    assert_eq!(extract_glob(&plain), Mime::Generic);
    // a glob element without a pattern attribute does too
    let bare = vec![
        XmlElement { name: b"mime-type".to_vec(), attrs: vec![] },
        XmlElement { name: b"glob".to_vec(), attrs: vec![(b"weight".to_vec(), b"50".to_vec())] },
    ];
    assert_eq!(extract_glob(&bare), Mime::Generic);
    // the first glob element's pattern attribute wins
    let record = vec![
        XmlElement { name: b"mime-type".to_vec(), attrs: vec![] },
        XmlElement {
            name: b"glob".to_vec(),
            attrs: vec![(b"pattern".to_vec(), b"*.tar.gz".to_vec())],
        },
        XmlElement { name: b"glob".to_vec(), attrs: vec![(b"pattern".to_vec(), b"*.tgz".to_vec())] },
    ];
    assert_eq!(extract_glob(&record), Mime::WithExt(b"tar.gz".to_vec()));
}

#[test]
fn glob_prefix_is_stripped_repeatedly() {
    assert_eq!(strip_glob_prefix(&b"*.zip".to_vec()), b"zip".to_vec());
    assert_eq!(strip_glob_prefix(&b"*.*.zip".to_vec()), b"zip".to_vec());
    assert_eq!(strip_glob_prefix(&b"zip".to_vec()), b"zip".to_vec());
    assert_eq!(strip_glob_prefix(&b"Makefile".to_vec()), b"Makefile".to_vec());
}

#[test]
fn table_answers_map_to_mime_values() {
    assert_eq!(
        mime_from_table(&Some(vec![b"zip".to_vec(), b"jar".to_vec()])),
        Mime::WithExt(b"zip".to_vec())
    );
    assert_eq!(mime_from_table(&Some(vec![])), Mime::Generic);
    assert_eq!(mime_from_table(&None), Mime::Unknown);
}

#[test]
fn first_candidate_takes_the_first_alternative() {
    assert_eq!(first_candidate(&b"zip/jar".to_vec()), Some(b"zip".to_vec()));
    assert_eq!(first_candidate(&b"zip".to_vec()), Some(b"zip".to_vec()));
    assert_eq!(first_candidate(&b"???".to_vec()), None);
    assert_eq!(first_candidate(&b"".to_vec()), None);
}

#[test]
fn trigger_set_membership_is_exact() {
    let set = vec![b"application/zip".to_vec(), b"application/x-tar".to_vec()];
    assert!(contains_ref(&set, &b"application/zip".to_vec()));
    assert!(!contains_ref(&set, &b"text/plain".to_vec()));
    assert!(!contains_ref(&set, &b"application/zi".to_vec()));
}

#[test]
fn unreadable_files_classify_as_unknown() {
    let config = conf::default_config();
    let mut classifier = Classifier::new(config, false);
    let ft = classifier.process_file(&b"/no/such/file/anywhere".to_vec(), |_p: &Vec<u8>| None);
    assert!(ft.mime.is_none());
    assert!(ft.ext.is_none());
}

#[test]
fn default_configuration_values() {
    let config = conf::default_config();
    assert_eq!(config.mime_info_db_root, b"/usr/share/mime".to_vec());
    assert_eq!(config.libmagic_db_file, b"/usr/share/file/misc/magic.mgc".to_vec());
    assert_eq!(config.libmagic_used_for, vec![b"application/zip".to_vec()]);
}

#[test]
fn loaded_configuration_converts() {
    let loaded = conf::Config {
        mime_info_db: conf::InfoDbConfig { root: b"/db".to_vec() },
        libmagic: conf::LibMagicConfig {
            db_file: b"/magic.mgc".to_vec(),
            used_for: vec![b"application/zip".to_vec()],
        },
    };
    let config: Config = loaded.to_classifier_config();
    assert_eq!(config.mime_info_db_root, b"/db".to_vec());
    assert_eq!(config.libmagic_db_file, b"/magic.mgc".to_vec());
    assert_eq!(config.libmagic_used_for, vec![b"application/zip".to_vec()]);
}
