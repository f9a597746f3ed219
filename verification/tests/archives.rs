use octosync::archive_walk::{EntryKind, EntryPath, Walk, WalkReply, WalkStep};
use octosync::archiver::{
    archive_file_name, archive_owner, archives_to_prune, is_archive, is_archive_timestamp,
    ArchiveFailure, ArchiveStep, Archiving, HomeEntry, PathPart, Refusal, ARCHIVE_DIR_PERMISSIONS,
    ARCHIVE_FILE_PERMISSIONS, MAX_ARCHIVES_PER_USER,
};
use octosync::calendar::{days_before, not_after, stamp, Timestamp, EARLIEST, LATEST};
use std::path::PathBuf;

fn time(secs: i64) -> Timestamp {
    Timestamp { secs, nanos: 0 }
}

fn parts(path: &str) -> Vec<PathPart> {
    let mut r = Vec::new();
    if path.starts_with('/') {
        r.push(PathPart::Root);
    }
    for name in path.split('/') {
        match name {
            "" => {}
            "." => r.push(PathPart::Current),
            ".." => r.push(PathPart::Parent),
            _ => r.push(PathPart::Name(name.as_bytes().to_vec())),
        }
    }
    r
}

fn archiving(entry: HomeEntry, home: &str, archive_dir: &str) -> Archiving {
    Archiving::start(
        entry,
        &parts(home),
        &parts(archive_dir),
        &PathBuf::from(archive_dir),
        "testuser",
        1000,
        time(1705276800),
    )
}

#[test]
fn permissions_keep_others_out() {
    assert_eq!(ARCHIVE_DIR_PERMISSIONS, 0o700);
    assert_eq!(ARCHIVE_FILE_PERMISSIONS, 0o600);
    assert_eq!(MAX_ARCHIVES_PER_USER, 3);
    assert_eq!(archive_owner(0), Some((0, 0)));
    assert_eq!(archive_owner(1000), None);
}

#[test]
fn missing_home_dir_returns_none() {
    let run = archiving(HomeEntry::Missing, "/home/testuser", "/archive");
    assert_eq!(run.step(), ArchiveStep::NothingToArchive);
    let receipt = run.receipt().expect("Archiving failed");
    assert!(receipt.archive_path().is_none());
}

#[test]
fn symlinked_home_dir_is_refused() {
    let run = archiving(HomeEntry::Symlink, "/home/testuser", "/archive");
    assert_eq!(run.step(), ArchiveStep::Refused(Refusal::Symlink));
    assert!(run.receipt().is_none());
}

#[test]
fn home_dir_containing_archive_dir_is_refused() {
    let run = archiving(HomeEntry::Directory, "/home/testuser", "/home/testuser/archive");
    assert_eq!(
        run.step(),
        ArchiveStep::Refused(Refusal::ContainsArchiveDirectory)
    );
    assert!(run.receipt().is_none());
    // Components count, not characters
    let run = archiving(HomeEntry::Directory, "/home/test", "/home/testuser/archive");
    assert_eq!(run.step(), ArchiveStep::CreateDirectory);
}

#[test]
fn other_homes_are_refused() {
    assert_eq!(
        archiving(HomeEntry::Other, "/home/a", "/archive").step(),
        ArchiveStep::Refused(Refusal::NotADirectory)
    );
    assert_eq!(
        archiving(HomeEntry::Unreadable, "/home/a", "/archive").step(),
        ArchiveStep::Refused(Refusal::Unreadable)
    );
    assert_eq!(
        archiving(HomeEntry::Directory, "/home/..", "/archive").step(),
        ArchiveStep::Refused(Refusal::NoName)
    );
    assert_eq!(
        archiving(HomeEntry::Directory, "/", "archive").step(),
        ArchiveStep::Refused(Refusal::NoName)
    );
}

#[test]
fn archiving_takes_every_step() {
    let mut run = archiving(HomeEntry::Directory, "/home/testuser", "/archive");
    let mut steps = Vec::new();
    while run.step() != ArchiveStep::Archived {
        steps.push(run.step());
        run.advance(true);
    }
    assert_eq!(
        steps,
        vec![
            ArchiveStep::CreateDirectory,
            ArchiveStep::SetDirectoryMode,
            ArchiveStep::SetDirectoryOwner,
            ArchiveStep::CreateFile,
            ArchiveStep::Write,
            ArchiveStep::SetFileOwner,
            ArchiveStep::FlushDirectory,
            ArchiveStep::Prune,
        ]
    );
    let receipt = run.receipt().unwrap();
    assert_eq!(
        receipt.archive_path(),
        Some(&PathBuf::from("/archive/testuser-1000-20240115T000000Z.tar.gz"))
    );
}

#[test]
fn failed_archive_is_removed() {
    let failures = [
        (ArchiveFailure::CreateDirectory, false),
        (ArchiveFailure::SetDirectoryMode, false),
        (ArchiveFailure::SetDirectoryOwner, false),
        (ArchiveFailure::CreateFile, false),
        (ArchiveFailure::Write, true),
        (ArchiveFailure::SetFileOwner, true),
        (ArchiveFailure::FlushDirectory, true),
    ];
    for (i, (failure, dropped)) in failures.iter().enumerate() {
        let mut run = archiving(HomeEntry::Directory, "/home/testuser", "/archive");
        for _ in 0..i {
            run.advance(true);
        }
        run.advance(false);
        if *dropped {
            assert_eq!(run.step(), ArchiveStep::DropPartial(*failure));
            run.advance(false);
        }
        assert_eq!(run.step(), ArchiveStep::Failed(*failure));
        assert!(run.receipt().is_none());
    }
}

#[test]
fn failed_pruning_does_not_fail_the_archive() {
    let mut run = archiving(HomeEntry::Directory, "/home/testuser", "/archive");
    for _ in 0..7 {
        run.advance(true);
    }
    assert_eq!(run.step(), ArchiveStep::Prune);
    run.advance(false);
    assert_eq!(run.step(), ArchiveStep::Archived);
}

#[test]
fn old_archives_are_pruned() {
    let new = archive_file_name("testuser", 1000, time(1_800_000_000));
    let mut files = vec![
        "testuser-1000-20200103T000000Z.tar.gz".to_string(),
        "testuser-1000-20200101T000000Z.tar.gz".to_string(),
        "testuser-1000-20200102T000000Z.tar.gz".to_string(),
        // Not a timestamp suffix, never pruned
        "testuser-1000-keepme.tar.gz".to_string(),
        // Different user whose name and uid merely extend the prefix, never pruned
        "testuser-1000-2-20200101T000000Z.tar.gz".to_string(),
    ];
    assert!(archives_to_prune(&files, "testuser", 1000).is_empty());
    files.push(new);
    assert_eq!(
        archives_to_prune(&files, "testuser", 1000),
        vec!["testuser-1000-20200101T000000Z.tar.gz"]
    );
    files.push("testuser-1000-19991231T235959Z.tar.gz".to_string());
    assert_eq!(
        archives_to_prune(&files, "testuser", 1000),
        vec![
            "testuser-1000-19991231T235959Z.tar.gz",
            "testuser-1000-20200101T000000Z.tar.gz"
        ]
    );
}

#[test]
fn archives_belong_to_one_user() {
    let file = "testuser-1000-2-20200101T000000Z.tar.gz";
    assert!(!is_archive(file, "testuser", 1000));
    assert!(is_archive(file, "testuser-1000", 2));
    assert!(!is_archive(file, "testuser-1000", 22));
    assert!(!is_archive("testuser-1000-20200101T000000Z.tar", "testuser", 1000));
    assert!(!is_archive("testuser-1000-.tar.gz", "testuser", 1000));
    assert!(!is_archive("", "", 0));
    assert!(is_archive("-0-20200101T000000Z.tar.gz", "", 0));
}

#[test]
fn archive_timestamps() {
    assert!(is_archive_timestamp("20200101T000000Z"));
    assert!(is_archive_timestamp("99999999T999999Z"));
    for other in [
        "",
        "20200101T000000",
        "20200101t000000Z",
        "20200101T000000z",
        "2020010aT000000Z",
        "20200101T00000 Z",
        "+20200101T00000Z",
        "2020010\u{0661}T00000Z",
        "020200101T000000Z",
    ] {
        assert!(!is_archive_timestamp(other), "{other}");
    }
}

#[test]
fn archive_names_hold_the_time() {
    assert_eq!(
        archive_file_name("testuser", 1000, time(1_577_836_800)),
        "testuser-1000-20200101T000000Z.tar.gz"
    );
    assert_eq!(
        archive_file_name("a-b", 0, time(1_800_000_000)),
        "a-b-0-20270115T080000Z.tar.gz"
    );
}

#[test]
fn stamps_are_gregorian() {
    for (secs, text) in [
        (0, "19700101T000000Z"),
        (-1, "19691231T235959Z"),
        (951_782_400, "20000229T000000Z"),
        (4_107_542_400, "21000301T000000Z"),
        (1_709_251_199, "20240229T235959Z"),
        (-62_167_219_200, "00000101T000000Z"),
        (253_402_300_799, "99991231T235959Z"),
        (253_402_300_800, "+100000101T000000Z"),
        (-62_167_219_201, "-00011231T235959Z"),
        (LATEST, "+2621421231T235959Z"),
        (EARLIEST, "-2621430101T000000Z"),
    ] {
        assert_eq!(stamp(time(secs)), text);
    }
}

#[test]
fn stamps_sort_like_times() {
    let mut last = String::new();
    for k in 0..2000i64 {
        let text = stamp(time(-62_167_219_200 + k * 157_000_003));
        assert!(is_archive_timestamp(&text));
        assert!(last < text);
        last = text;
    }
}

#[test]
fn days_are_subtracted_to_the_nanosecond() {
    let t = Timestamp {
        secs: 1_800_000_000,
        nanos: 999_999_999,
    };
    assert_eq!(
        days_before(t, 180),
        Timestamp {
            secs: 1_800_000_000 - 180 * 86400,
            nanos: 999_999_999
        }
    );
    assert_eq!(days_before(t, 0), t);
    assert_eq!(
        days_before(time(-1), 1),
        Timestamp {
            secs: -86401,
            nanos: 0
        }
    );
    let far = days_before(t, 96_000_000);
    assert_eq!(far.secs, 1_800_000_000 - 96_000_000 * 86400);
}

#[test]
fn times_are_ordered_by_second_and_nanosecond() {
    let t = |secs: i64, nanos: u32| Timestamp { secs, nanos };
    assert!(not_after(t(1, 5), t(1, 5)));
    assert!(not_after(t(1, 5), t(2, 0)));
    assert!(!not_after(t(1, 6), t(1, 5)));
    assert!(!not_after(t(2, 0), t(1, 5)));
}

/// A tree to walk: directories with their entries, in order
fn walk(tree: &[(&str, &[(&str, EntryKind)])], missing: &[&str]) -> (Vec<String>, WalkStep) {
    let show = |path: &EntryPath| {
        path.names()
            .iter()
            .map(|n| String::from_utf8(n.clone()).unwrap())
            .collect::<Vec<_>>()
            .join("/")
    };
    let mut walk = Walk::start();
    let mut archived = Vec::new();
    let mut position = 0;
    loop {
        let directory = show(walk.directory());
        let entry = show(walk.entry());
        let entries = tree
            .iter()
            .find(|(name, _)| *name == directory)
            .map(|(_, entries)| *entries)
            .unwrap_or(&[]);
        let reply = match walk.step() {
            WalkStep::AppendHome => {
                archived.push(show(&walk.directory().archived_under(&b"home".to_vec())));
                WalkReply::Done
            }
            WalkStep::ReadDirectory => {
                position = 0;
                if missing.contains(&directory.as_str()) {
                    WalkReply::Missing
                } else {
                    WalkReply::Done
                }
            }
            WalkStep::NextEntry => match entries.get(position) {
                Some((name, _)) => {
                    position += 1;
                    WalkReply::Entry(name.as_bytes().to_vec())
                }
                None => WalkReply::End,
            },
            WalkStep::InspectEntry => WalkReply::Kind(entries[position - 1].1),
            WalkStep::AppendEntry => {
                if missing.contains(&entry.as_str()) {
                    WalkReply::Missing
                } else {
                    archived.push(show(&walk.entry().archived_under(&b"home".to_vec())));
                    WalkReply::Done
                }
            }
            end => return (archived, end),
        };
        walk.advance(reply);
    }
}

#[test]
fn walk_visits_every_directory() {
    let (archived, end) = walk(
        &[
            (
                "",
                &[
                    ("file.txt", EntryKind::File),
                    (".ssh", EntryKind::Directory),
                    ("link", EntryKind::Symlink),
                    ("docs", EntryKind::Directory),
                ],
            ),
            (".ssh", &[("authorized_keys", EntryKind::File)]),
            ("docs", &[("old", EntryKind::Directory)]),
            ("docs/old", &[("a", EntryKind::File)]),
        ],
        &[],
    );
    assert_eq!(end, WalkStep::Finished);
    assert_eq!(
        archived,
        vec![
            "home",
            "home/file.txt",
            "home/.ssh",
            "home/link",
            "home/docs",
            "home/docs/old",
            "home/docs/old/a",
            "home/.ssh/authorized_keys",
        ]
    );
}

#[test]
fn sockets_are_skipped() {
    let (archived, end) = walk(
        &[(
            "",
            &[
                ("agent.sock", EntryKind::Special),
                ("file.txt", EntryKind::File),
            ],
        )],
        &[],
    );
    assert_eq!(end, WalkStep::Finished);
    assert!(!archived.contains(&"home/agent.sock".to_string()));
    assert!(archived.contains(&"home/file.txt".to_string()));
}

#[test]
fn removed_entries_are_skipped() {
    let (archived, end) = walk(
        &[
            (
                "",
                &[
                    ("gone", EntryKind::File),
                    ("dir", EntryKind::Directory),
                    ("kept", EntryKind::File),
                ],
            ),
            ("dir", &[("x", EntryKind::File)]),
        ],
        &["gone", "dir"],
    );
    assert_eq!(end, WalkStep::Finished);
    assert_eq!(archived, vec!["home", "home/kept"]);
}

#[test]
fn other_trouble_ends_the_walk() {
    let mut home = Walk::start();
    home.advance(WalkReply::Missing);
    assert_eq!(home.step(), WalkStep::HomeFailed);

    let mut read = Walk::start();
    read.advance(WalkReply::Done);
    read.advance(WalkReply::Failed);
    assert_eq!(read.step(), WalkStep::ReadFailed);

    let mut list = Walk::start();
    list.advance(WalkReply::Done);
    list.advance(WalkReply::Done);
    list.advance(WalkReply::Failed);
    assert_eq!(list.step(), WalkStep::ReadFailed);

    let mut inspect = Walk::start();
    inspect.advance(WalkReply::Done);
    inspect.advance(WalkReply::Done);
    inspect.advance(WalkReply::Entry(b"x".to_vec()));
    inspect.advance(WalkReply::Failed);
    assert_eq!(inspect.step(), WalkStep::InspectFailed);

    let mut append = Walk::start();
    append.advance(WalkReply::Done);
    append.advance(WalkReply::Done);
    append.advance(WalkReply::Entry(b"x".to_vec()));
    append.advance(WalkReply::Kind(EntryKind::File));
    append.advance(WalkReply::Failed);
    assert_eq!(append.step(), WalkStep::AppendFailed);
}
