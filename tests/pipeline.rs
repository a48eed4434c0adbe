use std::io::Write;

use cosmic_checker::archive::extract_game_archives;
use cosmic_checker::digest::Sha256Hash;
use cosmic_checker::manifest::{KnownHashes, Version, Versions};
use cosmic_checker::pipeline::{fresh_paths, is_content_unarchived, is_version_unarchived, Artifact};

const ABC_DIGEST: &str = "ba7816bf8f01cfea414140de5dae2223b00361a396177a9cb410ff61f20015ad";

fn zip_of(entries: &[(&str, &[u8])]) -> Vec<u8> {
    let mut cursor = std::io::Cursor::new(Vec::new());
    {
        let mut writer = zip::ZipWriter::new(&mut cursor);
        let options = zip::write::SimpleFileOptions::default()
            .compression_method(zip::CompressionMethod::Stored);
        for (name, content) in entries {
            writer.start_file(*name, options).unwrap();
            writer.write_all(content).unwrap();
        }
        writer.finish().unwrap();
    }
    cursor.into_inner()
}

fn manifest_with(digests: &[&str]) -> KnownHashes {
    let versions = Versions {
        latest: Vec::new(),
        versions: digests
            .iter()
            .map(|d| {
                Version::parse(
                    "v".to_string(),
                    "release".to_string(),
                    0,
                    "https://example.org/v.jar",
                    d,
                    0,
                )
                .unwrap()
            })
            .collect(),
    };
    versions.hashes()
}

/// Runs the library's part of the pipeline for one download on in-memory data.
fn fresh_for(id: u64, bytes: Vec<u8>, known: &KnownHashes) -> Vec<String> {
    let artifacts = extract_game_archives(id, bytes)
        .unwrap()
        .into_iter()
        .map(|e| {
            let path = e.target.path_text();
            let digest = e.contents.ok().map(|c| Sha256Hash::of_bytes(&c));
            Artifact { path, digest }
        })
        .collect();
    fresh_paths(known, artifacts)
}

#[test]
fn unreadable_file_counts_as_archived() {
    let known = manifest_with(&[]);
    assert!(!is_version_unarchived(&known, None));
}

#[test]
fn digest_absent_from_manifest_is_unarchived() {
    let known = manifest_with(&[ABC_DIGEST]);
    assert!(is_version_unarchived(&known, Some(Sha256Hash::of_bytes(b"abd"))));
    assert!(!is_version_unarchived(&known, Some(Sha256Hash::of_bytes(b"abc"))));
    assert!(is_content_unarchived(&known, b"abd"));
    assert!(!is_content_unarchived(&known, b"abc"));
}

#[test]
fn fresh_paths_keep_only_unrecorded_readable_artifacts() {
    let known = manifest_with(&[ABC_DIGEST]);
    let artifacts = vec![
        Artifact { path: "1/a.jar".to_string(), digest: Some(Sha256Hash::of_bytes(b"abc")) },
        Artifact { path: "2/b.jar".to_string(), digest: Some(Sha256Hash::of_bytes(b"new")) },
        Artifact { path: "3/c.jar".to_string(), digest: None },
        Artifact { path: "4/d.jar".to_string(), digest: Some(Sha256Hash::of_bytes(b"newer")) },
    ];
    assert_eq!(fresh_paths(&known, artifacts), vec!["2/b.jar".to_string(), "4/d.jar".to_string()]);
}

#[test]
fn fresh_version_is_reported() {
    let known = manifest_with(&[]);
    let bytes = zip_of(&[("Cosmic Reach-0.3.jar", b"abc")]);
    assert_eq!(fresh_for(123, bytes, &known), vec!["123/Cosmic Reach-0.3.jar".to_string()]);
}

#[test]
fn archived_version_is_not_reported() {
    let known = manifest_with(&[ABC_DIGEST]);
    let bytes = zip_of(&[("Cosmic Reach-0.3.jar", b"abc")]);
    assert!(fresh_for(123, bytes, &known).is_empty());
}

#[test]
fn mixed_entries_report_only_the_game_jar() {
    let known = manifest_with(&[]);
    let bytes = zip_of(&[
        ("README.txt", b"read me"),
        ("Cosmic Reach-1.0.jar", b"fresh"),
        ("cosmic-reach-1.0.zip", b"other"),
    ]);
    assert_eq!(fresh_for(9, bytes, &known), vec!["9/Cosmic Reach-1.0.jar".to_string()]);
}

#[test]
fn two_downloads_one_fresh() {
    let known = manifest_with(&[ABC_DIGEST]);
    let first = zip_of(&[("Cosmic Reach-X.jar", b"abc")]);
    let second = zip_of(&[("Cosmic Reach-X.jar", b"something new")]);
    let mut out = fresh_for(1, first, &known);
    out.extend(fresh_for(2, second, &known));
    assert_eq!(out, vec!["2/Cosmic Reach-X.jar".to_string()]);
}

#[test]
fn downloads_do_not_share_directories() {
    let known = manifest_with(&[]);
    let a = zip_of(&[("Cosmic Reach-X.jar", b"one")]);
    let b = zip_of(&[("README.txt", b"nothing")]);
    let out_a = fresh_for(1, a, &known);
    let out_b = fresh_for(2, b, &known);
    assert_eq!(out_a, vec!["1/Cosmic Reach-X.jar".to_string()]);
    assert!(out_b.is_empty());
}
