use eopkginst::archive::{
    check_path, find_sparse_header, ArchiveError, ArchiveErrorKind, ArchiveMember, StagingArea,
    KIND_DIRECTORY, KIND_FILE,
};
use std::io::Write;

fn tar_bytes(members: &[(&[u8], u8, u32, &[u8])]) -> Vec<u8> {
    let mut builder = tar::Builder::new(Vec::new());
    for (path, kind, mode, content) in members {
        let mut header = tar::Header::new_gnu();
        header.set_size(content.len() as u64);
        header.set_mode(*mode);
        header.set_entry_type(tar::EntryType::new(*kind));
        header.as_old_mut().name[..path.len()].copy_from_slice(path);
        header.set_cksum();
        builder.append(&header, *content).unwrap();
    }
    builder.into_inner().unwrap()
}

fn xz(data: &[u8]) -> Vec<u8> {
    let mut encoder = xz2::write::XzEncoder::new(Vec::new(), 6);
    encoder.write_all(data).unwrap();
    encoder.finish().unwrap()
}

fn member(path: &[u8], kind: u8, content: &[u8]) -> ArchiveMember {
    ArchiveMember { path: path.to_vec(), kind, content: content.to_vec() }
}

#[test]
fn members_are_staged_under_their_paths() {
    let archive = xz(&tar_bytes(&[
        (b"bin", KIND_DIRECTORY, 0o755, b""),
        (b"bin/app", KIND_FILE, 0o755, b"#!/bin/sh\n"),
        (b"etc/app.conf", KIND_FILE, 0o644, b"key=value\n"),
    ]));
    let staging = StagingArea::extract(&archive).unwrap();
    assert_eq!(staging.get(b"bin"), Some(&member(b"bin", KIND_DIRECTORY, b"")));
    assert_eq!(staging.get(b"bin/app"), Some(&member(b"bin/app", KIND_FILE, b"#!/bin/sh\n")));
    assert_eq!(
        staging.get(b"etc/app.conf"),
        Some(&member(b"etc/app.conf", KIND_FILE, b"key=value\n"))
    );
    assert!(staging.contains(b"bin/app"));
    assert!(!staging.contains(b"bin/other"));
    assert_eq!(staging.get(b"etc"), None);
}

#[test]
fn empty_archive_stages_nothing() {
    let staging = StagingArea::extract(&xz(&tar_bytes(&[]))).unwrap();
    assert!(!staging.contains(b"a"));
}

#[test]
fn later_member_replaces_earlier_one() {
    let staging = StagingArea::stage(vec![
        member(b"a", KIND_FILE, b"old"),
        member(b"b", KIND_FILE, b"b"),
        member(b"a", KIND_FILE, b"new"),
    ])
    .unwrap();
    assert_eq!(staging.get(b"a"), Some(&member(b"a", KIND_FILE, b"new")));
    assert_eq!(staging.get(b"b"), Some(&member(b"b", KIND_FILE, b"b")));
}

#[test]
fn traversal_member_is_rejected() {
    let archive = xz(&tar_bytes(&[
        (b"bin/app", KIND_FILE, 0o755, b"ok"),
        (b"../../etc/passwd", KIND_FILE, 0o644, b"root::0:0::/:/bin/sh\n"),
        (b"/abs", KIND_FILE, 0o644, b"x"),
    ]));
    match StagingArea::extract(&archive) {
        Err(e) => assert_eq!(
            e,
            ArchiveError { kind: ArchiveErrorKind::PathTraversal, path: b"../../etc/passwd".to_vec() }
        ),
        Ok(_) => panic!("a traversal member was staged"),
    }
}

#[test]
fn first_unsafe_member_is_reported() {
    let r = StagingArea::stage(vec![
        member(b"ok", KIND_FILE, b""),
        member(b"/abs", KIND_FILE, b""),
        member(b"..", KIND_FILE, b""),
    ]);
    match r {
        Err(e) => assert_eq!(e, ArchiveError { kind: ArchiveErrorKind::PathTraversal, path: b"/abs".to_vec() }),
        Ok(_) => panic!("an absolute member was staged"),
    }
}

#[test]
fn corrupt_archive_is_rejected() {
    let corrupt = ArchiveError { kind: ArchiveErrorKind::Corrupt, path: vec![] };
    match StagingArea::extract(b"this is not an xz stream") {
        Err(e) => assert_eq!(e, corrupt),
        Ok(_) => panic!("garbage was staged"),
    }
    let good = xz(&tar_bytes(&[(b"a", KIND_FILE, 0o644, &[7u8; 4000])]));
    match StagingArea::extract(&good[..good.len() / 2]) {
        Err(e) => assert_eq!(e, corrupt),
        Ok(_) => panic!("a truncated stream was staged"),
    }
    let mut tar = tar_bytes(&[(b"a", KIND_FILE, 0o644, &[7u8; 4000])]);
    tar.truncate(1000);
    match StagingArea::extract(&xz(&tar)) {
        Err(e) => assert_eq!(e, corrupt),
        Ok(_) => panic!("a truncated archive was staged"),
    }
}

#[test]
fn sparse_headers_are_found_at_block_boundaries() {
    let plain = tar_bytes(&[(b"a", KIND_FILE, 0o644, b"S"), (b"b", b'2', 0o777, b"")]);
    assert!(!find_sparse_header(&plain));
    assert!(StagingArea::unpack(&plain).is_ok());
    let sparse = tar_bytes(&[(b"a", KIND_FILE, 0o644, b"x"), (b"s", b'S', 0o644, b"")]);
    assert!(find_sparse_header(&sparse));
    match StagingArea::unpack(&sparse) {
        Err(e) => assert_eq!(e, ArchiveError { kind: ArchiveErrorKind::Unsupported, path: vec![] }),
        Ok(_) => panic!("a sparse member was staged"),
    }
    // off a block boundary the same bytes are content
    let mut shifted = vec![0u8; 100];
    shifted.extend_from_slice(&sparse[1024..1536]);
    shifted.resize(1024, 0);
    assert!(!find_sparse_header(&shifted));
    assert!(!find_sparse_header(&[]));
    assert!(!find_sparse_header(&sparse[1024..1535]));
    assert!(find_sparse_header(&sparse[1024..1536]));
    // long names are read as before
    let long = "d/".repeat(80) + "file";
    let mut builder = tar::Builder::new(Vec::new());
    let mut header = tar::Header::new_gnu();
    header.set_size(2);
    header.set_mode(0o644);
    header.set_entry_type(tar::EntryType::new(KIND_FILE));
    builder.append_data(&mut header, &long, &b"ok"[..]).unwrap();
    let staging = StagingArea::unpack(&builder.into_inner().unwrap()).unwrap();
    assert_eq!(
        staging.get(long.as_bytes()),
        Some(&member(long.as_bytes(), KIND_FILE, b"ok"))
    );
}

#[test]
fn traversal_guard() {
    assert!(check_path(b"a"));
    assert!(check_path(b"a/b/c.txt"));
    assert!(check_path(b"..a"));
    assert!(check_path(b"a.."));
    assert!(check_path(b"a/..b/c"));
    assert!(check_path(b"a/b../c"));
    assert!(check_path(b"./a"));
    assert!(check_path(b"..."));
    assert!(!check_path(b""));
    assert!(!check_path(b"/"));
    assert!(!check_path(b"/etc/passwd"));
    assert!(!check_path(b".."));
    assert!(!check_path(b"../a"));
    assert!(!check_path(b"a/.."));
    assert!(!check_path(b"a/../b"));
    assert!(!check_path(b"../../etc/passwd"));
}

#[test]
fn member_with_a_malformed_mode_field_is_read() {
    let mut header = tar::Header::new_gnu();
    header.set_size(2);
    header.set_entry_type(tar::EntryType::new(KIND_FILE));
    header.as_old_mut().name[..1].copy_from_slice(b"a");
    header.as_old_mut().mode = *b"rwxrwxrw";
    header.set_cksum();
    let mut builder = tar::Builder::new(Vec::new());
    builder.append(&header, &b"ok"[..]).unwrap();
    let staging = StagingArea::unpack(&builder.into_inner().unwrap()).unwrap();
    assert_eq!(staging.get(b"a"), Some(&member(b"a", KIND_FILE, b"ok")));
}
