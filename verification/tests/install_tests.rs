use eopkginst::archive::{ArchiveError, ArchiveErrorKind, KIND_DIRECTORY, KIND_FILE};
use eopkginst::digest::to_hex;
use eopkginst::error::{ParseError, ParseErrorKind};
use eopkginst::installer::{
    install_package, InstallError, InstallOptions, Installation, Stage,
};
use eopkginst::integrity::{Policy, UnreadableCause, VerificationResult};
use eopkginst::plan::PlanTag;
use eopkginst::target::{IoCause, Node, Outcome, Step, TargetFs, NEW_DIR_MODE, NEW_FILE_MODE};
use sha1::{Digest, Sha1};
use std::io::Write;

const APP: &[u8] = b"#!/bin/sh\necho app\n";
const CONF: &[u8] = b"key=value\n";
const LIB: &[u8] = b"\x7fELF shared object";

fn digest_of(content: &[u8]) -> String {
    to_hex(Sha1::digest(content).as_slice())
}

fn archive_of(members: &[(&[u8], u8, u32, &[u8])]) -> Vec<u8> {
    let mut builder = tar::Builder::new(xz2::write::XzEncoder::new(Vec::new(), 6));
    for (path, kind, mode, content) in members {
        let mut header = tar::Header::new_gnu();
        header.set_size(content.len() as u64);
        header.set_mode(*mode);
        header.set_entry_type(tar::EntryType::new(*kind));
        header.as_old_mut().name[..path.len()].copy_from_slice(path);
        header.set_cksum();
        builder.append(&header, *content).unwrap();
    }
    let mut encoder = builder.into_inner().unwrap();
    encoder.flush().unwrap();
    encoder.finish().unwrap()
}

fn listing(entries: &[(&str, &str, u32, u32, &str, &str)]) -> String {
    let mut doc = String::from("<Files>\n");
    for (path, kind, uid, gid, mode, hash) in entries {
        doc.push_str(&format!(
            "  <File><Path>{}</Path><Type>{}</Type><Size>0</Size><Uid>{}</Uid><Gid>{}</Gid><Mode>{}</Mode><Hash>{}</Hash></File>\n",
            path, kind, uid, gid, mode, hash
        ));
    }
    doc.push_str("</Files>\n");
    doc
}

const METADATA: &str = "<PISI><Name>app</Name><Summary>An app</Summary><Description>Does things</Description><Architecture>x86_64</Architecture></PISI>";

fn three_files() -> String {
    listing(&[
        ("bin/app", "executable", 0, 0, "755", &digest_of(APP)),
        ("etc/app.conf", "config", 0, 0, "644", &digest_of(CONF).to_uppercase()),
        ("lib/app.so", "library", 0, 0, "755", &digest_of(LIB)),
    ])
}

fn three_members() -> Vec<u8> {
    archive_of(&[
        (b"bin/app", KIND_FILE, 0o755, APP),
        (b"etc/app.conf", KIND_FILE, 0o644, CONF),
        (b"lib/app.so", KIND_FILE, 0o755, LIB),
        (b"secret/hidden", KIND_FILE, 0o600, b"not in the manifest"),
    ])
}

fn strict() -> InstallOptions {
    InstallOptions { force: false, policy: Policy::Strict }
}

fn file(content: &[u8], mode: u32, uid: u32, gid: u32) -> Node {
    Node { is_dir: false, content: content.to_vec(), mode, uid, gid }
}

fn dir(mode: u32, uid: u32, gid: u32) -> Node {
    Node { is_dir: true, content: vec![], mode, uid, gid }
}

fn snapshot(target: &TargetFs, paths: &[&[u8]]) -> Vec<Option<Node>> {
    paths.iter().map(|p| target.get(p).cloned()).collect()
}

const ALL_PATHS: [&[u8]; 8] =
    [b"bin", b"bin/app", b"etc", b"etc/app.conf", b"lib", b"lib/app.so", b"secret", b"secret/hidden"];

#[test]
fn default_options_are_strict_without_force() {
    assert_eq!(InstallOptions::default(), InstallOptions { force: false, policy: Policy::Strict });
}

#[test]
fn three_declared_files_install_into_an_empty_target() {
    let mut target = TargetFs::new(u64::MAX);
    let report = install_package(METADATA, &three_files(), three_members(), &mut target, strict()).unwrap();
    assert_eq!(report.package.Name, "app");
    assert_eq!(report.package.Architecture, "x86_64");
    assert_eq!(report.plan.tags, vec![PlanTag::Create, PlanTag::Create, PlanTag::Create]);
    assert_eq!(
        report.verdicts,
        vec![VerificationResult::Match, VerificationResult::Match, VerificationResult::Match]
    );
    assert!(report.unapplied.is_empty());
    assert_eq!(target.get(b"bin/app"), Some(&file(APP, 0o755, 0, 0)));
    assert_eq!(target.get(b"etc/app.conf"), Some(&file(CONF, 0o644, 0, 0)));
    assert_eq!(target.get(b"lib/app.so"), Some(&file(LIB, 0o755, 0, 0)));
    assert_eq!(target.get(b"bin"), Some(&dir(NEW_DIR_MODE, 0, 0)));
    assert_eq!(target.get(b"etc"), Some(&dir(NEW_DIR_MODE, 0, 0)));
    assert_eq!(target.get(b"lib"), Some(&dir(NEW_DIR_MODE, 0, 0)));
    // the three files and the directories above them, and nothing else
    assert_eq!(target.len(), 6);
    assert!(!target.contains(b"secret/hidden"));
    assert!(!target.contains(b"secret"));
}

#[test]
fn installed_content_has_the_declared_digest() {
    let mut target = TargetFs::new(u64::MAX);
    install_package(METADATA, &three_files(), three_members(), &mut target, strict()).unwrap();
    let declared = [("bin/app", APP), ("etc/app.conf", CONF), ("lib/app.so", LIB)];
    for (path, content) in declared.iter() {
        let node = target.get(path.as_bytes()).unwrap();
        assert_eq!(digest_of(&node.content), digest_of(content));
    }
}

#[test]
fn space_is_taken_by_what_is_written() {
    let mut target = TargetFs::new(1000);
    install_package(METADATA, &three_files(), three_members(), &mut target, strict()).unwrap();
    assert_eq!(target.free(), 1000 - (APP.len() + CONF.len() + LIB.len()) as u64);
}

#[test]
fn reinstall_without_force_conflicts_and_writes_nothing() {
    let mut target = TargetFs::new(1000);
    install_package(METADATA, &three_files(), three_members(), &mut target, strict()).unwrap();
    let before = snapshot(&target, &ALL_PATHS);
    let free = target.free();
    let again = install_package(METADATA, &three_files(), three_members(), &mut target, strict());
    assert_eq!(again, Err(InstallError::ConflictError { index: 0, path: "bin/app".to_string() }));
    assert_eq!(snapshot(&target, &ALL_PATHS), before);
    assert_eq!(target.len(), 6);
    assert_eq!(target.free(), free);
}

#[test]
fn reinstall_with_force_changes_nothing() {
    let mut target = TargetFs::new(1000);
    install_package(METADATA, &three_files(), three_members(), &mut target, strict()).unwrap();
    let before = snapshot(&target, &ALL_PATHS);
    let free = target.free();
    let forced = InstallOptions { force: true, policy: Policy::Strict };
    let report = install_package(METADATA, &three_files(), three_members(), &mut target, forced).unwrap();
    assert_eq!(report.plan.tags, vec![PlanTag::Create, PlanTag::Create, PlanTag::Create]);
    assert_eq!(snapshot(&target, &ALL_PATHS), before);
    assert_eq!(target.len(), 6);
    assert_eq!(target.free(), free);
}

#[test]
fn force_overwrites_what_is_there() {
    let mut target = TargetFs::new(1000);
    target.put(b"etc".to_vec(), dir(0o700, 5, 6));
    target.put(b"etc/app.conf".to_vec(), file(b"old", 0o600, 7, 8));
    target.put(b"etc/other".to_vec(), file(b"stays", 0o600, 7, 8));
    let plain = install_package(METADATA, &three_files(), three_members(), &mut target, strict());
    assert_eq!(plain, Err(InstallError::ConflictError { index: 1, path: "etc/app.conf".to_string() }));
    assert_eq!(target.get(b"etc/app.conf"), Some(&file(b"old", 0o600, 7, 8)));
    assert_eq!(target.len(), 3);
    let forced = InstallOptions { force: true, policy: Policy::Strict };
    install_package(METADATA, &three_files(), three_members(), &mut target, forced).unwrap();
    assert_eq!(target.get(b"etc/app.conf"), Some(&file(CONF, 0o644, 0, 0)));
    assert_eq!(target.get(b"etc"), Some(&dir(0o700, 5, 6)));
    assert_eq!(target.get(b"etc/other"), Some(&file(b"stays", 0o600, 7, 8)));
    assert_eq!(target.len(), 7);
}

#[test]
fn corrupted_content_fails_a_strict_install() {
    let archive = archive_of(&[
        (b"bin/app", KIND_FILE, 0o755, APP),
        (b"etc/app.conf", KIND_FILE, 0o644, b"key=VALUE\n"),
        (b"lib/app.so", KIND_FILE, 0o755, LIB),
    ]);
    let mut target = TargetFs::new(1000);
    let r = install_package(METADATA, &three_files(), archive, &mut target, strict());
    assert_eq!(
        r,
        Err(InstallError::IntegrityError {
            index: 1,
            path: "etc/app.conf".to_string(),
            verdict: VerificationResult::Mismatch {
                expected: digest_of(CONF).to_uppercase(),
                actual: digest_of(b"key=VALUE\n"),
            },
        })
    );
    assert_eq!(target.len(), 0);
    assert_eq!(target.free(), 1000);
}

#[test]
fn corrupted_content_is_left_out_of_a_permissive_install() {
    let archive = archive_of(&[
        (b"bin/app", KIND_FILE, 0o755, APP),
        (b"etc/app.conf", KIND_FILE, 0o644, b"key=VALUE\n"),
        (b"lib/app.so", KIND_FILE, 0o755, LIB),
    ]);
    let mut target = TargetFs::new(1000);
    let options = InstallOptions { force: false, policy: Policy::Permissive };
    let report = install_package(METADATA, &three_files(), archive, &mut target, options).unwrap();
    assert_eq!(report.plan.tags, vec![PlanTag::Create, PlanTag::Skip, PlanTag::Create]);
    assert_eq!(
        report.verdicts[1],
        VerificationResult::Mismatch {
            expected: digest_of(CONF).to_uppercase(),
            actual: digest_of(b"key=VALUE\n"),
        }
    );
    assert!(report.verdicts[0].is_match());
    assert_eq!(target.get(b"bin/app"), Some(&file(APP, 0o755, 0, 0)));
    assert_eq!(target.get(b"lib/app.so"), Some(&file(LIB, 0o755, 0, 0)));
    assert!(!target.contains(b"etc/app.conf"));
    assert!(!target.contains(b"etc"));
    assert_eq!(target.len(), 4);
}

#[test]
fn item_missing_from_the_archive_is_unreadable() {
    let archive = archive_of(&[(b"bin/app", KIND_FILE, 0o755, APP), (b"etc/app.conf", KIND_DIRECTORY, 0o755, b"")]);
    let mut target = TargetFs::new(1000);
    let listed = listing(&[
        ("bin/app", "executable", 0, 0, "755", &digest_of(APP)),
        ("etc/app.conf", "config", 0, 0, "644", &digest_of(CONF)),
        ("lib/app.so", "library", 0, 0, "755", &digest_of(LIB)),
    ]);
    let r = install_package(METADATA, &listed, archive.clone(), &mut target, strict());
    assert_eq!(
        r,
        Err(InstallError::IntegrityError {
            index: 1,
            path: "etc/app.conf".to_string(),
            verdict: VerificationResult::Unreadable { cause: UnreadableCause::WrongKind },
        })
    );
    let options = InstallOptions { force: false, policy: Policy::Permissive };
    let report = install_package(METADATA, &listed, archive, &mut target, options).unwrap();
    assert_eq!(
        report.verdicts[2],
        VerificationResult::Unreadable { cause: UnreadableCause::Missing }
    );
    assert_eq!(report.plan.tags, vec![PlanTag::Create, PlanTag::Skip, PlanTag::Skip]);
    assert_eq!(target.len(), 2);
}

#[test]
fn traversal_member_never_reaches_the_target() {
    let archive = archive_of(&[
        (b"bin/app", KIND_FILE, 0o755, APP),
        (b"../../etc/passwd", KIND_FILE, 0o644, b"root::0:0::/:/bin/sh\n"),
    ]);
    let listed = listing(&[("bin/app", "executable", 0, 0, "755", &digest_of(APP))]);
    let mut target = TargetFs::new(1000);
    let r = install_package(METADATA, &listed, archive, &mut target, InstallOptions { force: true, policy: Policy::Permissive });
    assert_eq!(
        r,
        Err(InstallError::ArchiveError(ArchiveError {
            kind: ArchiveErrorKind::PathTraversal,
            path: b"../../etc/passwd".to_vec(),
        }))
    );
    assert_eq!(target.len(), 0);
}

#[test]
fn malformed_documents_fail_before_anything_else() {
    let mut target = TargetFs::new(1000);
    let r = install_package("<PISI></PISI>", &three_files(), three_members(), &mut target, strict());
    assert_eq!(
        r,
        Err(InstallError::ParseError(ParseError {
            kind: ParseErrorKind::MissingField,
            subject: "Name".to_string(),
        }))
    );
    let r = install_package(METADATA, "<Files><File/></Files>", three_members(), &mut target, strict());
    assert_eq!(
        r,
        Err(InstallError::ParseError(ParseError {
            kind: ParseErrorKind::MissingField,
            subject: "Path".to_string(),
        }))
    );
    let r = install_package(METADATA, &three_files(), b"garbage".to_vec(), &mut target, strict());
    assert_eq!(
        r,
        Err(InstallError::ArchiveError(ArchiveError { kind: ArchiveErrorKind::Corrupt, path: vec![] }))
    );
    assert_eq!(target.len(), 0);
}

#[test]
fn full_target_rolls_the_install_back() {
    // room for the first two files only
    let room = (APP.len() + CONF.len() + 3) as u64;
    let mut target = TargetFs::new(room);
    target.put(b"etc".to_vec(), dir(0o700, 5, 6));
    target.put(b"var/log".to_vec(), file(b"", 0o600, 0, 0));
    let r = install_package(METADATA, &three_files(), three_members(), &mut target, strict());
    assert_eq!(
        r,
        Err(InstallError::IOError { path: b"lib/app.so".to_vec(), cause: IoCause::NoSpace, unremoved: vec![] })
    );
    // nothing that the install wrote or made is left, and what was there is there
    assert_eq!(target.len(), 2);
    assert_eq!(target.get(b"etc"), Some(&dir(0o700, 5, 6)));
    assert_eq!(target.get(b"var/log"), Some(&file(b"", 0o600, 0, 0)));
    assert_eq!(target.free(), room);
}

#[test]
fn file_in_the_way_of_a_directory_rolls_the_install_back() {
    let mut target = TargetFs::new(1000);
    target.put(b"etc".to_vec(), file(b"a file", 0o600, 1, 1));
    let r = install_package(METADATA, &three_files(), three_members(), &mut target, strict());
    assert_eq!(
        r,
        Err(InstallError::IOError { path: b"etc".to_vec(), cause: IoCause::NotADirectory, unremoved: vec![] })
    );
    assert_eq!(target.len(), 1);
    assert_eq!(target.get(b"etc"), Some(&file(b"a file", 0o600, 1, 1)));
    assert!(!target.contains(b"bin"));
    assert!(!target.contains(b"bin/app"));
}

#[test]
fn directory_in_the_way_of_a_file_fails_a_forced_install() {
    let mut target = TargetFs::new(1000);
    target.put(b"bin/app".to_vec(), dir(0o755, 0, 0));
    let forced = InstallOptions { force: true, policy: Policy::Strict };
    let r = install_package(METADATA, &three_files(), three_members(), &mut target, forced);
    assert_eq!(
        r,
        Err(InstallError::IOError { path: b"bin/app".to_vec(), cause: IoCause::IsADirectory, unremoved: vec![] })
    );
    assert_eq!(target.len(), 1);
    assert_eq!(target.get(b"bin/app"), Some(&dir(0o755, 0, 0)));
}

#[test]
fn declared_directories_come_first() {
    let listed = listing(&[
        ("share/app/data.bin", "data", 3, 4, "640", &digest_of(LIB)),
        ("share/app", "directory", 1, 2, "750", "-"),
    ]);
    let archive = archive_of(&[
        (b"share/app", KIND_DIRECTORY, 0o750, b""),
        (b"share/app/data.bin", KIND_FILE, 0o640, LIB),
    ]);
    let installation = Installation::load(METADATA.to_string(), listed.clone(), archive.clone(), strict());
    let installation = installation.advance().advance().advance();
    assert_eq!(installation.stage(), Stage::Verified);
    let mut installation = installation.plan(&[false, false]);
    let mut steps = Vec::new();
    while let Some(step) = installation.next_step() {
        steps.push(step);
        installation = installation.record(Outcome::Done);
    }
    assert_eq!(
        steps,
        vec![
            Step::EnsureDir { path: b"share".to_vec() },
            Step::EnsureDir { path: b"share/app".to_vec() },
            Step::SetMeta { path: b"share/app".to_vec(), mode: 0o750, uid: 1, gid: 2 },
            Step::EnsureDir { path: b"share".to_vec() },
            Step::EnsureDir { path: b"share/app".to_vec() },
            Step::WriteFile { path: b"share/app/data.bin".to_vec() },
            Step::SetMeta { path: b"share/app/data.bin".to_vec(), mode: 0o640, uid: 3, gid: 4 },
        ]
    );
    assert_eq!(installation.stage(), Stage::Installed);
    let mut target = TargetFs::new(1000);
    install_package(METADATA, &listed, archive, &mut target, strict()).unwrap();
    assert_eq!(target.get(b"share"), Some(&dir(NEW_DIR_MODE, 0, 0)));
    assert_eq!(target.get(b"share/app"), Some(&dir(0o750, 1, 2)));
    assert_eq!(target.get(b"share/app/data.bin"), Some(&file(LIB, 0o640, 3, 4)));
    assert_eq!(target.len(), 3);
}

#[test]
fn stages_follow_one_another() {
    let installation = Installation::load(METADATA.to_string(), three_files(), three_members(), strict());
    assert_eq!(installation.stage(), Stage::Loaded);
    assert!(installation.files_to_probe().is_none());
    let installation = installation.advance();
    assert_eq!(installation.stage(), Stage::ManifestParsed);
    // planning is not due yet: nothing changes
    let installation = installation.plan(&[false, false, false]);
    assert_eq!(installation.stage(), Stage::ManifestParsed);
    let installation = installation.advance();
    assert_eq!(installation.stage(), Stage::Extracted);
    assert_eq!(installation.staged_content(b"etc/app.conf"), Some(&CONF.to_vec()));
    assert_eq!(installation.staged_content(b"etc/missing"), None);
    let installation = installation.record(Outcome::Done);
    assert_eq!(installation.stage(), Stage::Extracted);
    let installation = installation.advance();
    assert_eq!(installation.stage(), Stage::Verified);
    assert_eq!(installation.files_to_probe().unwrap().File.len(), 3);
    let installation = installation.advance();
    assert_eq!(installation.stage(), Stage::Verified);
    assert!(!installation.is_running());
    let installation = installation.plan(&[false, false, false]);
    assert_eq!(installation.stage(), Stage::Planned);
    assert!(installation.is_running());
    assert_eq!(installation.next_step(), Some(Step::EnsureDir { path: b"bin".to_vec() }));
    assert!(installation.into_result().is_none());
}

#[test]
fn empty_listing_installs_at_once() {
    let installation = Installation::load(METADATA.to_string(), "<Files/>".to_string(), three_members(), strict());
    let installation = installation.advance().advance().advance().plan(&[]);
    assert_eq!(installation.stage(), Stage::Installed);
    assert_eq!(installation.next_step(), None);
    let report = installation.into_result().unwrap().unwrap();
    assert!(report.plan.tags.is_empty());
    // with nothing declared, installing again conflicts with nothing
    let mut target = TargetFs::new(10);
    assert!(install_package(METADATA, "<Files/>", three_members(), &mut target, strict()).is_ok());
    assert!(install_package(METADATA, "<Files/>", three_members(), &mut target, strict()).is_ok());
    assert_eq!(target.len(), 0);
}

#[test]
fn metadata_that_cannot_be_applied_is_reported_not_fatal() {
    let installation = Installation::load(METADATA.to_string(), three_files(), three_members(), strict());
    let mut installation = installation.advance().advance().advance().plan(&[false, false, false]);
    while let Some(step) = installation.next_step() {
        let outcome = match step {
            Step::SetMeta { .. } => Outcome::Failed(IoCause::Denied),
            Step::EnsureDir { .. } => Outcome::Present,
            _ => Outcome::Done,
        };
        installation = installation.record(outcome);
    }
    let report = installation.into_result().unwrap().unwrap();
    assert_eq!(
        report.unapplied,
        vec![b"bin/app".to_vec(), b"etc/app.conf".to_vec(), b"lib/app.so".to_vec()]
    );
}

#[test]
fn rollback_removes_what_was_created_last_first() {
    let installation = Installation::load(METADATA.to_string(), three_files(), three_members(), strict());
    let mut installation = installation.advance().advance().advance().plan(&[false, false, false]);
    let mut asked = Vec::new();
    while let Some(step) = installation.next_step() {
        let outcome = match &step {
            // `bin` is there already, `etc` is made; the second file cannot be written
            Step::EnsureDir { path } if path == b"bin" => Outcome::Present,
            Step::WriteFile { path } if path == b"etc/app.conf" => Outcome::Failed(IoCause::Denied),
            // the removal of the first file fails
            Step::Remove { path } if path == b"bin/app" => Outcome::Failed(IoCause::Other),
            _ => Outcome::Done,
        };
        asked.push(step);
        installation = installation.record(outcome);
    }
    assert_eq!(
        asked,
        vec![
            Step::EnsureDir { path: b"bin".to_vec() },
            Step::WriteFile { path: b"bin/app".to_vec() },
            Step::SetMeta { path: b"bin/app".to_vec(), mode: 0o755, uid: 0, gid: 0 },
            Step::EnsureDir { path: b"etc".to_vec() },
            Step::WriteFile { path: b"etc/app.conf".to_vec() },
            Step::Remove { path: b"etc".to_vec() },
            Step::Remove { path: b"bin/app".to_vec() },
        ]
    );
    assert_eq!(installation.stage(), Stage::Failed);
    assert_eq!(
        installation.into_result(),
        Some(Err(InstallError::IOError {
            path: b"etc/app.conf".to_vec(),
            cause: IoCause::Denied,
            unremoved: vec![b"bin/app".to_vec()],
        }))
    );
}

#[test]
fn failure_of_the_first_step_needs_no_rollback() {
    let installation = Installation::load(METADATA.to_string(), three_files(), three_members(), strict());
    let installation = installation.advance().advance().advance().plan(&[false, false, false]);
    let installation = installation.record(Outcome::Failed(IoCause::Denied));
    assert_eq!(installation.next_step(), None);
    assert_eq!(
        installation.into_result(),
        Some(Err(InstallError::IOError { path: b"bin".to_vec(), cause: IoCause::Denied, unremoved: vec![] }))
    );
}

#[test]
fn findings_must_be_as_many_as_the_items() {
    let installation = Installation::load(METADATA.to_string(), three_files(), three_members(), strict());
    let installation = installation.advance().advance().advance().plan(&[false, true]);
    assert_eq!(installation.stage(), Stage::Verified);
    let installation = installation.plan(&[false, true, false, false]);
    assert_eq!(installation.stage(), Stage::Verified);
    let installation = installation.plan(&[false, true, false]);
    assert_eq!(
        installation.into_result(),
        Some(Err(InstallError::ConflictError { index: 1, path: "etc/app.conf".to_string() }))
    );
}

#[test]
fn repeated_path_is_installed_as_often_as_declared() {
    let listed = listing(&[
        ("etc/app.conf", "config", 1, 2, "600", &digest_of(CONF)),
        ("bin/app", "executable", 0, 0, "755", &digest_of(APP)),
        ("etc/app.conf", "config", 3, 4, "644", &digest_of(CONF)),
    ]);
    let mut target = TargetFs::new(1000);
    let report = install_package(METADATA, &listed, three_members(), &mut target, strict()).unwrap();
    assert_eq!(report.plan.tags, vec![PlanTag::Create, PlanTag::Create, PlanTag::Create]);
    // the item that is declared last sets the metadata
    assert_eq!(target.get(b"etc/app.conf"), Some(&file(CONF, 0o644, 3, 4)));
    assert_eq!(target.get(b"bin/app"), Some(&file(APP, 0o755, 0, 0)));
    assert_eq!(target.len(), 4);
    assert_eq!(target.free(), 1000 - (APP.len() + CONF.len()) as u64);
    let before = snapshot(&target, &ALL_PATHS);
    let forced = InstallOptions { force: true, policy: Policy::Strict };
    install_package(METADATA, &listed, three_members(), &mut target, forced).unwrap();
    assert_eq!(snapshot(&target, &ALL_PATHS), before);
    assert_eq!(target.free(), 1000 - (APP.len() + CONF.len()) as u64);
}

#[test]
fn item_without_an_octal_mode_keeps_the_metadata_it_gets() {
    let listed = listing(&[
        ("bin/app", "executable", 7, 8, "rwxr-xr-x", &digest_of(APP)),
        ("etc/app.conf", "config", 7, 8, "", &digest_of(CONF)),
    ]);
    let mut target = TargetFs::new(1000);
    let report = install_package(METADATA, &listed, three_members(), &mut target, strict()).unwrap();
    assert!(report.unapplied.is_empty());
    assert_eq!(target.get(b"bin/app"), Some(&file(APP, NEW_FILE_MODE, 0, 0)));
    assert_eq!(target.get(b"etc/app.conf"), Some(&file(CONF, NEW_FILE_MODE, 0, 0)));
}

#[test]
fn empty_path_does_not_verify() {
    let listed = listing(&[("", "data", 0, 0, "644", &digest_of(APP))]);
    let mut target = TargetFs::new(1000);
    let r = install_package(METADATA, &listed, three_members(), &mut target, strict());
    assert_eq!(
        r,
        Err(InstallError::IntegrityError {
            index: 0,
            path: "".to_string(),
            verdict: VerificationResult::Unreadable { cause: UnreadableCause::Missing },
        })
    );
}

#[test]
fn sparse_member_is_refused_before_the_archive_is_read() {
    let mut header = tar::Header::new_gnu();
    header.set_entry_type(tar::EntryType::new(b'S'));
    header.as_old_mut().name[..1].copy_from_slice(b"a");
    // the size in its binary form, 2^64 - 1024, and the flag that more sparse headers follow
    header.as_old_mut().size = [0x80, 0, 0, 0, 0xff, 0xff, 0xff, 0xff, 0xff, 0xff, 0xfc, 0x00];
    header.as_gnu_mut().unwrap().isextended = [1];
    header.set_cksum();
    let mut tar = header.as_bytes().to_vec();
    tar.extend_from_slice(&[0u8; 512]);
    let mut encoder = xz2::write::XzEncoder::new(Vec::new(), 6);
    encoder.write_all(&tar).unwrap();
    let archive = encoder.finish().unwrap();
    let mut target = TargetFs::new(1000);
    let r = install_package(METADATA, &three_files(), archive, &mut target, strict());
    assert_eq!(
        r,
        Err(InstallError::ArchiveError(ArchiveError { kind: ArchiveErrorKind::Unsupported, path: vec![] }))
    );
    assert_eq!(target.len(), 0);
}

#[test]
fn new_files_get_the_default_metadata_until_it_is_set() {
    let mut target = TargetFs::new(100);
    let staging = eopkginst::archive::StagingArea::stage(vec![eopkginst::archive::ArchiveMember {
        path: b"a".to_vec(),
        kind: KIND_FILE,
        content: b"abc".to_vec(),
    }])
    .unwrap();
    assert_eq!(target.perform(&Step::WriteFile { path: b"a".to_vec() }, &staging), Outcome::Done);
    assert_eq!(target.get(b"a"), Some(&file(b"abc", NEW_FILE_MODE, 0, 0)));
    assert_eq!(target.free(), 97);
    assert_eq!(
        target.perform(&Step::SetMeta { path: b"a".to_vec(), mode: 0o600, uid: 1, gid: 2 }, &staging),
        Outcome::Done
    );
    assert_eq!(target.get(b"a"), Some(&file(b"abc", 0o600, 1, 2)));
    // writing again keeps the metadata and the count of free bytes
    assert_eq!(target.perform(&Step::WriteFile { path: b"a".to_vec() }, &staging), Outcome::Done);
    assert_eq!(target.get(b"a"), Some(&file(b"abc", 0o600, 1, 2)));
    assert_eq!(target.free(), 97);
    assert_eq!(
        target.perform(&Step::WriteFile { path: b"b".to_vec() }, &staging),
        Outcome::Failed(IoCause::NotFound)
    );
    assert_eq!(
        target.perform(&Step::SetMeta { path: b"b".to_vec(), mode: 0, uid: 0, gid: 0 }, &staging),
        Outcome::Failed(IoCause::NotFound)
    );
    assert_eq!(target.perform(&Step::EnsureDir { path: b"a".to_vec() }, &staging), Outcome::Failed(IoCause::NotADirectory));
    assert_eq!(target.perform(&Step::EnsureDir { path: b"d".to_vec() }, &staging), Outcome::Done);
    assert_eq!(target.perform(&Step::EnsureDir { path: b"d".to_vec() }, &staging), Outcome::Present);
    assert_eq!(target.perform(&Step::Remove { path: b"a".to_vec() }, &staging), Outcome::Done);
    assert_eq!(target.perform(&Step::Remove { path: b"a".to_vec() }, &staging), Outcome::Present);
    assert_eq!(target.free(), 100);
    assert_eq!(target.len(), 1);
}

#[test]
fn forced_install_that_fails_removes_what_it_overwrote() {
    let room = (CONF.len() + 2) as u64;
    let mut target = TargetFs::new(room);
    target.put(b"bin".to_vec(), dir(0o700, 5, 6));
    target.put(b"bin/app".to_vec(), file(APP, 0o700, 5, 6));
    let forced = InstallOptions { force: true, policy: Policy::Strict };
    let r = install_package(METADATA, &three_files(), three_members(), &mut target, forced);
    // the error names the path of the step that failed
    assert_eq!(
        r,
        Err(InstallError::IOError { path: b"lib/app.so".to_vec(), cause: IoCause::NoSpace, unremoved: vec![] })
    );
    // what was written or made before it is gone, the overwritten file included
    assert!(!target.contains(b"bin/app"));
    assert!(!target.contains(b"etc"));
    assert!(!target.contains(b"etc/app.conf"));
    assert!(!target.contains(b"lib"));
    assert_eq!(target.get(b"bin"), Some(&dir(0o700, 5, 6)));
    assert_eq!(target.len(), 1);
}
