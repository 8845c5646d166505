use std::collections::{BTreeMap, BTreeSet};
use std::io::Write;

use yanvm::archive::{Archive, ArchiveError, ArchiveType, Decompressor, EntryKind, FsOp, RawEntry};

#[test]
fn test_get_ext() {
    assert_eq!(ArchiveType::TarGz.get_ext(), "tar.gz");
    assert_eq!(ArchiveType::TarXz.get_ext(), "tar.xz");
    assert_eq!(ArchiveType::Zip.get_ext(), "zip");
}

#[test]
fn test_total_len() {
    let archive = Archive {
        dirs: vec!["a".to_string(), "b".to_string()],
        files: vec![("c".to_string(), vec![1, 2, 3])],
    };
    assert_eq!(archive.total_len(), 3);
}

fn sample_tar_bytes() -> Vec<u8> {
    let mut builder = tar::Builder::new(Vec::new());

    let mut dir = tar::Header::new_gnu();
    dir.set_entry_type(tar::EntryType::Directory);
    dir.set_path("node-v1.2.3/").unwrap();
    dir.set_size(0);
    dir.set_mode(0o755);
    dir.set_cksum();
    builder.append(&dir, std::io::empty()).unwrap();

    let data = b"#!/bin/sh\necho node\n";
    let mut file = tar::Header::new_gnu();
    file.set_entry_type(tar::EntryType::Regular);
    file.set_path("node-v1.2.3/bin-node").unwrap();
    file.set_size(data.len() as u64);
    file.set_mode(0o644);
    file.set_cksum();
    builder.append(&file, &data[..]).unwrap();

    builder.into_inner().unwrap()
}

#[test]
fn test_decompress_tar_gz() {
    let tar_bytes = sample_tar_bytes();
    let mut encoder = flate2::write::GzEncoder::new(Vec::new(), flate2::Compression::default());
    encoder.write_all(&tar_bytes).unwrap();
    let gz_bytes = encoder.finish().unwrap();
    assert_ne!(gz_bytes, tar_bytes);

    let archive = Decompressor::new(gz_bytes)
        .decompress_into_mem("root", &ArchiveType::TarGz)
        .unwrap();

    assert_eq!(archive.dirs, vec!["root/node-v1.2.3".to_string()]);
    assert_eq!(archive.files.len(), 1);
    assert_eq!(archive.files[0].0, "root/node-v1.2.3/bin-node");
    assert_eq!(archive.files[0].1, b"#!/bin/sh\necho node\n".to_vec());
}

#[test]
fn test_decompress_tar_xz() {
    let tar_bytes = sample_tar_bytes();
    let mut encoder = xz2::write::XzEncoder::new(Vec::new(), 6);
    encoder.write_all(&tar_bytes).unwrap();
    let xz_bytes = encoder.finish().unwrap();

    let archive = Decompressor::new(xz_bytes)
        .decompress_into_mem("opt", &ArchiveType::TarXz)
        .unwrap();

    assert_eq!(archive.dirs.len(), 1);
    assert_eq!(archive.files.len(), 1);
    assert_eq!(archive.dirs[0], "opt/node-v1.2.3");
    assert_eq!(archive.files[0].0, "opt/node-v1.2.3/bin-node");
    assert_eq!(archive.files[0].1, b"#!/bin/sh\necho node\n".to_vec());
}

#[test]
fn test_decompress_zip() {
    let mut writer = zip::ZipWriter::new(std::io::Cursor::new(Vec::new()));
    let options = zip::write::SimpleFileOptions::default();
    writer.add_directory("node-v1.2.3/", options).unwrap();
    writer.start_file("node-v1.2.3/node.exe", options).unwrap();
    writer.write_all(b"MZ fake binary").unwrap();
    let zip_bytes = writer.finish().unwrap().into_inner();

    let archive = Decompressor::new(zip_bytes)
        .decompress_into_mem("root", &ArchiveType::Zip)
        .unwrap();

    assert_eq!(archive.dirs, vec!["root/node-v1.2.3".to_string()]);
    assert_eq!(archive.files.len(), 1);
    assert_eq!(archive.files[0].0, "root/node-v1.2.3/node.exe");
    assert_eq!(archive.files[0].1, b"MZ fake binary".to_vec());
}

#[test]
fn test_decompress_rejects_traversal() {
    let mut writer = zip::ZipWriter::new(std::io::Cursor::new(Vec::new()));
    let options = zip::write::SimpleFileOptions::default();
    writer.start_file("../evil", options).unwrap();
    writer.write_all(b"boom").unwrap();
    let zip_bytes = writer.finish().unwrap().into_inner();

    let result = Decompressor::new(zip_bytes).decompress_into_mem("root", &ArchiveType::Zip);
    assert_eq!(result.unwrap_err(), ArchiveError::UnsafePath);
}

#[test]
fn test_decompress_rejects_absolute_path() {
    let mut writer = zip::ZipWriter::new(std::io::Cursor::new(Vec::new()));
    let options = zip::write::SimpleFileOptions::default();
    writer.start_file("/etc/evil", options).unwrap();
    writer.write_all(b"boom").unwrap();
    let zip_bytes = writer.finish().unwrap().into_inner();

    let result = Decompressor::new(zip_bytes).decompress_into_mem("root", &ArchiveType::Zip);
    assert_eq!(result.unwrap_err(), ArchiveError::UnsafePath);
}

#[test]
fn test_decompress_rejects_symlink_entry() {
    let mut builder = tar::Builder::new(Vec::new());
    let mut link = tar::Header::new_gnu();
    link.set_entry_type(tar::EntryType::Symlink);
    link.set_path("node").unwrap();
    link.set_link_name("/usr/bin/node").unwrap();
    link.set_size(0);
    link.set_cksum();
    builder.append(&link, std::io::empty()).unwrap();
    let tar_bytes = builder.into_inner().unwrap();

    let mut encoder = flate2::write::GzEncoder::new(Vec::new(), flate2::Compression::default());
    encoder.write_all(&tar_bytes).unwrap();
    let gz_bytes = encoder.finish().unwrap();

    let result = Decompressor::new(gz_bytes).decompress_into_mem("root", &ArchiveType::TarGz);
    assert_eq!(result.unwrap_err(), ArchiveError::UnsupportedEntry);
}

#[test]
fn test_decompress_rejects_corrupt_stream() {
    let garbage = vec![0xde, 0xad, 0xbe, 0xef, 0x00, 0x01, 0x02];
    let result = Decompressor::new(garbage.clone()).decompress_into_mem("r", &ArchiveType::TarGz);
    assert_eq!(result.unwrap_err(), ArchiveError::Corrupt);

    let result = Decompressor::new(garbage).decompress_into_mem("r", &ArchiveType::Zip);
    assert_eq!(result.unwrap_err(), ArchiveError::Corrupt);
}

#[test]
fn test_from_entries_error_order() {
    // The first offending entry decides the error: here an unsafe path
    // comes before an unsupported kind.
    let entries = vec![
        RawEntry {
            path: "ok".to_string(),
            kind: EntryKind::File,
            data: vec![1],
        },
        RawEntry {
            path: "a/../b".to_string(),
            kind: EntryKind::File,
            data: vec![],
        },
        RawEntry {
            path: "fine".to_string(),
            kind: EntryKind::Unsupported,
            data: vec![],
        },
    ];
    let result = Archive::from_entries("root", entries);
    assert_eq!(result.unwrap_err(), ArchiveError::UnsafePath);
}

fn sample_archive() -> Archive {
    Archive {
        dirs: vec!["root/node".to_string(), "root/node/bin".to_string()],
        files: vec![
            ("root/node/bin/node".to_string(), b"binary".to_vec()),
            ("root/node/README.md".to_string(), b"docs".to_vec()),
        ],
    }
}

fn run_ops(
    dirs: &mut BTreeSet<String>,
    files: &mut BTreeMap<String, Vec<u8>>,
    ops: &[FsOp],
) {
    for op in ops {
        match op {
            FsOp::CreateDir(d) => {
                dirs.insert(d.clone());
            }
            FsOp::WriteFile(p, b) => {
                files.insert(p.clone(), b.clone());
            }
        }
    }
}

#[test]
fn test_materialize_ops_order() {
    let ops = sample_archive().materialize_ops();
    assert_eq!(ops.len(), 4);
    assert!(matches!(&ops[0], FsOp::CreateDir(d) if d == "root/node"));
    assert!(matches!(&ops[1], FsOp::CreateDir(d) if d == "root/node/bin"));
    assert!(matches!(&ops[2], FsOp::WriteFile(p, b) if p == "root/node/bin/node" && b == b"binary"));
    assert!(matches!(&ops[3], FsOp::WriteFile(p, b) if p == "root/node/README.md" && b == b"docs"));
}

#[test]
fn test_materialize_twice_is_idempotent() {
    let ops = sample_archive().materialize_ops();

    let mut dirs = BTreeSet::new();
    dirs.insert("root".to_string());
    let mut files = BTreeMap::new();
    files.insert("root/orphan".to_string(), b"old".to_vec());

    run_ops(&mut dirs, &mut files, &ops);
    let dirs_once = dirs.clone();
    let files_once = files.clone();

    run_ops(&mut dirs, &mut files, &ops);
    assert_eq!(dirs, dirs_once);
    assert_eq!(files, files_once);
}
