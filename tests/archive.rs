use std::io::Write;

use cosmic_checker::archive::{
    extract_game_archives, is_game_jar, open_archive, plan_extraction, target_names, ArchiveError,
    ExtractionTarget,
};

fn zip_of(entries: &[(&str, &[u8])]) -> Vec<u8> {
    let mut cursor = std::io::Cursor::new(Vec::new());
    {
        let mut writer = zip::ZipWriter::new(&mut cursor);
        let options = zip::write::SimpleFileOptions::default()
            .compression_method(zip::CompressionMethod::Stored);
        for (name, content) in entries {
            writer.start_file(*name, options).unwrap();
            writer.write_all(content).unwrap();
        }
        writer.finish().unwrap();
    }
    cursor.into_inner()
}

#[test]
fn game_jar_name_rule() {
    assert!(is_game_jar("Cosmic Reach-0.3.jar"));
    assert!(is_game_jar("Cosmic Reach-1.0.JAR"));
    assert!(is_game_jar("Cosmic Reach-1.0.Jar"));
    assert!(!is_game_jar("Cosmic Reach-1.0.zip"));
    assert!(!is_game_jar("Cosmic Reach-1.0.jarx"));
    assert!(!is_game_jar("cosmic-reach-1.0.jar"));
    assert!(!is_game_jar("Other-1.0.jar"));
    assert!(!is_game_jar("README.txt"));
    assert!(!is_game_jar("Cosmic Reach-"));
    assert!(!is_game_jar(""));
}

#[test]
fn sanitising_drops_root_and_parent_parts() {
    assert_eq!(
        target_names("/../games/./Cosmic Reach-0.3.jar"),
        Some(vec!["games".to_string(), "Cosmic Reach-0.3.jar".to_string()])
    );
    assert_eq!(
        target_names("..\\a\\Cosmic Reach-0.3.jar"),
        Some(vec!["a".to_string(), "Cosmic Reach-0.3.jar".to_string()])
    );
}

#[test]
fn sanitising_drops_names_that_are_not_plain() {
    assert_eq!(
        target_names("C:/x//../Cosmic Reach-2.jar"),
        Some(vec!["x".to_string(), "Cosmic Reach-2.jar".to_string()])
    );
}

#[test]
fn non_game_entry_has_no_target() {
    assert_eq!(target_names("README.txt"), None);
    assert_eq!(target_names("Cosmic Reach-1.jar/inner.txt"), None);
    assert_eq!(target_names("Cosmic Reach-1.jar/"), None);
    assert_eq!(target_names(""), None);
}

#[test]
fn garbage_is_not_an_archive() {
    assert!(matches!(open_archive(b"not a zip".to_vec()), Err(ArchiveError::Malformed)));
    assert!(matches!(
        extract_game_archives(1, b"not a zip".to_vec()),
        Err(ArchiveError::Malformed)
    ));
}

#[test]
fn mixed_entries_select_only_the_game_jar() {
    let bytes = zip_of(&[
        ("README.txt", b"read me"),
        ("Cosmic Reach-1.0.jar", b"game"),
        ("cosmic-reach-1.0.zip", b"other"),
    ]);
    let archive = open_archive(bytes).unwrap();
    let plan = plan_extraction(9, &archive);
    assert_eq!(plan.len(), 1);
    assert_eq!(plan[0].index, 1);
    assert_eq!(plan[0].directory, 9);
    assert_eq!(plan[0].names, vec!["Cosmic Reach-1.0.jar".to_string()]);
}

#[test]
fn escaping_entries_stay_under_the_download_directory() {
    let bytes = zip_of(&[
        ("../Cosmic Reach-1.jar", b"one"),
        ("/abs/Cosmic Reach-2.jar", b"two"),
        ("a/../../Cosmic Reach-3.jar", b"three"),
    ]);
    let extracted = extract_game_archives(5, bytes).unwrap();
    assert_eq!(extracted.len(), 3);
    for e in &extracted {
        assert_eq!(e.target.directory, 5);
        assert!(!e.target.names.is_empty());
        for name in &e.target.names {
            assert_ne!(name, "..");
            assert_ne!(name, ".");
            assert!(!name.contains('/'));
        }
    }
    assert_eq!(extracted[0].target.names, vec!["Cosmic Reach-1.jar".to_string()]);
    assert_eq!(extracted[0].contents.as_deref().unwrap(), b"one");
    assert_eq!(extracted[1].target.names, vec!["abs".to_string(), "Cosmic Reach-2.jar".to_string()]);
    assert_eq!(extracted[1].contents.as_deref().unwrap(), b"two");
}

#[test]
fn extraction_reads_entry_contents() {
    let bytes = zip_of(&[("Cosmic Reach-0.3.jar", b"abc")]);
    let extracted = extract_game_archives(123, bytes).unwrap();
    assert_eq!(extracted.len(), 1);
    assert_eq!(extracted[0].target.names, vec!["Cosmic Reach-0.3.jar".to_string()]);
    assert_eq!(extracted[0].contents.as_deref().unwrap(), b"abc");
}

#[test]
fn archive_without_game_jar_gives_empty_plan() {
    let bytes = zip_of(&[("README.txt", b"x")]);
    assert!(extract_game_archives(2, bytes).unwrap().is_empty());
}

#[test]
fn path_text_joins_identifier_and_names() {
    let t = ExtractionTarget {
        index: 0,
        directory: 123,
        names: vec!["Cosmic Reach-0.3.jar".to_string()],
    };
    assert_eq!(t.path_text(), "123/Cosmic Reach-0.3.jar");
    let t = ExtractionTarget {
        index: 4,
        directory: 18_446_744_073_709_551_615,
        names: vec!["abs".to_string(), "Cosmic Reach-2.jar".to_string()],
    };
    assert_eq!(t.path_text(), "18446744073709551615/abs/Cosmic Reach-2.jar");
    let t = ExtractionTarget { index: 0, directory: 0, names: vec!["x".to_string()] };
    assert_eq!(t.path_text(), "0/x");
}

#[test]
fn entries_with_the_same_destination_are_extracted_once() {
    let bytes = zip_of(&[
        ("a/../Cosmic Reach-X.jar", b"first"),
        ("Cosmic Reach-X.jar", b"second"),
        ("../Cosmic Reach-X.jar", b"third"),
        ("Cosmic Reach-Y.jar", b"other"),
    ]);
    let extracted = extract_game_archives(3, bytes).unwrap();
    let paths: Vec<String> = extracted.iter().map(|e| e.target.path_text()).collect();
    assert_eq!(paths, vec!["3/a/Cosmic Reach-X.jar".to_string(), "3/Cosmic Reach-X.jar".to_string(), "3/Cosmic Reach-Y.jar".to_string()]);
    assert_eq!(extracted[1].contents.as_deref().unwrap(), b"second");
    assert_eq!(extracted[2].contents.as_deref().unwrap(), b"other");
}

#[test]
fn prefix_with_other_extension_is_not_extracted() {
    let bytes = zip_of(&[("Cosmic Reach-1.0.zip", b"zip")]);
    assert!(extract_game_archives(1, bytes).unwrap().is_empty());
}

#[test]
fn jar_without_prefix_is_not_extracted() {
    let bytes = zip_of(&[("game.jar", b"a"), ("cosmic reach-1.0.jar", b"b")]);
    assert!(extract_game_archives(1, bytes).unwrap().is_empty());
}

#[test]
fn case_variants_of_the_extension_are_extracted() {
    let bytes = zip_of(&[("Cosmic Reach-1.JAR", b"a"), ("Cosmic Reach-2.Jar", b"b")]);
    let extracted = extract_game_archives(7, bytes).unwrap();
    let paths: Vec<String> = extracted.iter().map(|e| e.target.path_text()).collect();
    assert_eq!(paths, vec!["7/Cosmic Reach-1.JAR".to_string(), "7/Cosmic Reach-2.Jar".to_string()]);
}
