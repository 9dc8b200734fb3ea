use std::io::{Cursor, Write};

use bonelab_mod_manager::archive::archive_folder;
use bonelab_mod_manager::install::ModError;
use zip::write::FileOptions;
use zip::{CompressionMethod, ZipWriter};

fn build_zip(entries: &[(&str, &[u8])]) -> Vec<u8> {
    let mut writer = ZipWriter::new(Cursor::new(Vec::new()));
    let options = FileOptions::default().compression_method(CompressionMethod::Stored);
    for (name, data) in entries {
        writer.start_file(*name, options).unwrap();
        writer.write_all(data).unwrap();
    }
    writer.finish().unwrap().into_inner()
}

#[test]
fn folder_is_outermost_segment_of_first_entry() {
    let bytes = build_zip(&[
        ("ModA/pallet.json", b"{}"),
        ("ModA/level.bundle", b"bytes"),
    ]);
    assert_eq!(archive_folder(&bytes).unwrap(), b"ModA".to_vec());
}

#[test]
fn single_file_archive_uses_the_file_name() {
    let bytes = build_zip(&[("loadable.file", b"x")]);
    assert_eq!(archive_folder(&bytes).unwrap(), b"loadable.file".to_vec());
}

#[test]
fn deeply_nested_first_entry_still_gives_top_folder() {
    let bytes = build_zip(&[("Pack/inner/deep/data.bin", b"x")]);
    assert_eq!(archive_folder(&bytes).unwrap(), b"Pack".to_vec());
}

#[test]
fn empty_archive_is_an_error() {
    let bytes = build_zip(&[]);
    match archive_folder(&bytes) {
        Err(ModError::EmptyArchive) => {}
        other => panic!("expected EmptyArchive, got {:?}", other.is_ok()),
    }
}

#[test]
fn unreadable_bytes_are_an_error() {
    match archive_folder(&b"this is no zip archive".to_vec()) {
        Err(ModError::BadArchive) => {}
        other => panic!("expected BadArchive, got {:?}", other.is_ok()),
    }
}

#[test]
fn leading_separator_is_an_error() {
    let bytes = build_zip(&[("/rooted", b"x")]);
    match archive_folder(&bytes) {
        Err(ModError::EmptyEntryName) => {}
        other => panic!("expected EmptyEntryName, got {:?}", other.is_ok()),
    }
}
