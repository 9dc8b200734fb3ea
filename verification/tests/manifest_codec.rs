use bonelab_mod_manager::codec::{decode_manifest, encode_manifest, read_manifest, SCHEMA_VERSION};
use bonelab_mod_manager::manifest::{InstalledMod, Manifest};

fn record(mod_id: u32, date_updated: u64, folder: &[u8]) -> InstalledMod {
    InstalledMod {
        mod_id,
        date_updated,
        folder: folder.to_vec(),
    }
}

fn manifest(chunks: u8, records: Vec<InstalledMod>) -> Manifest {
    Manifest {
        secret_chunk_count: chunks,
        records,
    }
}

fn assert_same(a: &Manifest, b: &Manifest) {
    assert_eq!(a.secret_chunk_count, b.secret_chunk_count);
    assert_eq!(a.records.len(), b.records.len());
    for (x, y) in a.records.iter().zip(b.records.iter()) {
        assert_eq!(x.mod_id, y.mod_id);
        assert_eq!(x.date_updated, y.date_updated);
        assert_eq!(x.folder, y.folder);
    }
}

#[test]
fn round_trip_empty_manifest() {
    let m = manifest(0, vec![]);
    let bytes = encode_manifest(&m);
    let back = read_manifest(&bytes);
    assert_same(&m, &back);
}

#[test]
fn round_trip_single_record() {
    let m = manifest(3, vec![record(42, 100, b"ModA")]);
    let bytes = encode_manifest(&m);
    let back = read_manifest(&bytes);
    assert_same(&m, &back);
}

#[test]
fn round_trip_many_records_large_values() {
    let m = manifest(
        255,
        vec![
            record(0, 0, b""),
            record(7, 127, b"tiny"),
            record(128, 128, b"boundary"),
            record(300, 1 << 40, b"a folder with spaces"),
            record(u32::MAX, u64::MAX, b"Last.Mod_Folder-99"),
        ],
    );
    let bytes = encode_manifest(&m);
    let back = read_manifest(&bytes);
    assert_same(&m, &back);
}

#[test]
fn encoding_is_compact_varint() {
    // version, chunk count, record count 0: exactly three bytes.
    let bytes = encode_manifest(&manifest(9, vec![]));
    assert_eq!(bytes, vec![SCHEMA_VERSION, 9, 0]);
    // one record with small values stays small: 3 header bytes plus
    // id, date, folder length, folder bytes.
    let bytes = encode_manifest(&manifest(0, vec![record(5, 100, b"M")]));
    assert_eq!(bytes, vec![SCHEMA_VERSION, 0, 1, 5, 100, 1, b'M']);
}

#[test]
fn garbage_reads_as_empty() {
    let back = read_manifest(&b"not a manifest at all".to_vec());
    assert_eq!(back.secret_chunk_count, 0);
    assert_eq!(back.records.len(), 0);
}

#[test]
fn wrong_version_reads_as_empty() {
    let m = manifest(2, vec![record(1, 2, b"F")]);
    let mut bytes = encode_manifest(&m);
    bytes[0] = SCHEMA_VERSION.wrapping_add(1);
    assert!(decode_manifest(&bytes).is_none());
    let back = read_manifest(&bytes);
    assert_eq!(back.records.len(), 0);
}

#[test]
fn truncated_bytes_read_as_empty() {
    let m = manifest(1, vec![record(10, 20, b"Folder")]);
    let mut bytes = encode_manifest(&m);
    bytes.pop();
    assert!(decode_manifest(&bytes).is_none());
    let back = read_manifest(&bytes);
    assert_eq!(back.records.len(), 0);
}

#[test]
fn trailing_bytes_are_rejected() {
    let m = manifest(1, vec![record(10, 20, b"Folder")]);
    let mut bytes = encode_manifest(&m);
    bytes.push(0);
    assert!(decode_manifest(&bytes).is_none());
}

#[test]
fn unsorted_records_are_rejected() {
    // Hand-build an encoding whose records are out of order: two
    // records with ids 2 then 1, empty folders.
    let bytes = vec![SCHEMA_VERSION, 0, 2, 2, 9, 0, 1, 9, 0];
    assert!(decode_manifest(&bytes).is_none());
    // The same records in order decode fine.
    let bytes = vec![SCHEMA_VERSION, 0, 2, 1, 9, 0, 2, 9, 0];
    let m = decode_manifest(&bytes).unwrap();
    assert_eq!(m.records.len(), 2);
    assert_eq!(m.records[0].mod_id, 1);
    assert_eq!(m.records[1].mod_id, 2);
}

#[test]
fn duplicate_ids_are_rejected() {
    let bytes = vec![SCHEMA_VERSION, 0, 2, 1, 9, 0, 1, 9, 0];
    assert!(decode_manifest(&bytes).is_none());
}

#[test]
fn non_canonical_varint_is_rejected() {
    // Record count written as two bytes 0x80 0x00, a non-canonical zero.
    let bytes = vec![SCHEMA_VERSION, 0, 0x80, 0x00];
    assert!(decode_manifest(&bytes).is_none());
}
