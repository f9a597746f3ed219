use octosync::authorized_keys::{
    split_around_managed_block, updated_content, MANAGED_BLOCK_END, MANAGED_BLOCK_START,
};
use octosync::public_keys::PublicKeys;
use octosync::ssh_directory::{
    next_open_step, next_read_step, next_remove_step, next_replace_step, OpenStep, ReadStep,
    RemoveStep, ReplaceFailure, ReplaceStep, Reply, AUTHORIZED_KEYS_MODE, SSH_DIR_MODE,
};

const KEY1: &str = "ssh-ed25519 AAAAC3NzaC1lZDI1NTE5AAAAIBV7RbtHsMgxdZoHYjAxh4myaRJ0ujTrHkww1YmbpY67 key1@host";
const KEY2: &str = "ssh-ed25519 AAAAC3NzaC1lZDI1NTE5AAAAIF39Jis8OSS4JRN+T/Putk9u5ym85EMfRPKM8mFTlcsH key2@host";

fn keys(lines: &[&str]) -> PublicKeys {
    PublicKeys::from_str(&lines.join("\n"))
}

/// The managed block wrapping the given key lines, as it appears in the file
fn block(lines: &[&str]) -> String {
    let mut s = format!("{MANAGED_BLOCK_START}\n");
    for line in lines {
        s.push_str(line);
        s.push('\n');
    }
    s.push_str(MANAGED_BLOCK_END);
    s.push('\n');
    s
}

/// The steps of opening the directory when every one of them has the given reply
fn open_steps(create: bool, replies: &[Reply]) -> Vec<OpenStep> {
    let mut step = OpenStep::OpenHome;
    let mut steps = vec![step];
    for reply in replies {
        step = next_open_step(step, create, *reply);
        steps.push(step);
    }
    steps
}

fn replace_steps(replies: &[Reply]) -> Vec<ReplaceStep> {
    let mut step = ReplaceStep::DropStale;
    let mut steps = vec![step];
    for reply in replies {
        step = next_replace_step(step, *reply);
        steps.push(step);
    }
    steps
}

#[test]
fn missing_directory_is_created_and_secured() {
    assert_eq!(
        open_steps(true, &[Reply::Done; 5]),
        vec![
            OpenStep::OpenHome,
            OpenStep::CreateDirectory,
            OpenStep::OpenDirectory,
            OpenStep::SetMode,
            OpenStep::SetOwner,
            OpenStep::Ready,
        ]
    );
    assert_eq!(SSH_DIR_MODE, 0o700);
    assert_eq!(AUTHORIZED_KEYS_MODE, 0o600);
    assert_eq!(updated_content("", &keys(&[KEY1])), block(&[KEY1]));
}

#[test]
fn preserves_manual_lines_outside_managed_block() {
    // Manual content the key parser could not round-trip: a comment and a restricted key with an
    // options prefix
    let manual = "# added by ops\ncommand=\"/usr/bin/backup\" ssh-rsa MANUAL backup@host\n";
    let content = updated_content(manual, &keys(&[KEY1]));
    assert_eq!(content, format!("{manual}{}", block(&[KEY1])));
}

#[test]
fn revoked_key_is_removed_from_managed_block() {
    let first = updated_content("", &keys(&[KEY1, KEY2]));
    assert_eq!(first, block(&[KEY1, KEY2]));
    let content = updated_content(&first, &keys(&[KEY1]));
    assert_eq!(content, block(&[KEY1]));
}

#[test]
fn syncing_is_idempotent() {
    let fetched = keys(&[KEY1, KEY2]);
    let first = updated_content("", &fetched);
    let second = updated_content(&first, &fetched);

    assert_eq!(first, second);
    assert_eq!(first.matches(KEY1).count(), 1);
}

#[test]
fn empty_fetched_keys_keep_manual_lines_and_empty_the_block() {
    let current = format!("ssh-rsa MANUAL manually@added\n{}", block(&[KEY1]));
    let content = updated_content(&current, &PublicKeys::default());
    assert_eq!(
        content,
        format!("ssh-rsa MANUAL manually@added\n{}", block(&[]))
    );
}

#[test]
fn unchanged_content_is_replaced_all_the_same() {
    // Content already matches, but the replacement still corrects its metadata.
    let up_to_date = format!("ssh-rsa MANUAL manually@added\n{}", block(&[KEY1]));
    assert_eq!(updated_content(&up_to_date, &keys(&[KEY1])), up_to_date);
    let steps = replace_steps(&[Reply::Done; 8]);
    assert!(steps.contains(&ReplaceStep::SetMode));
    assert!(steps.contains(&ReplaceStep::SetOwner));
    assert_eq!(steps.last(), Some(&ReplaceStep::Replaced));
}

#[test]
fn unterminated_block_is_treated_as_managed_to_end_of_file() {
    let current = format!(
        "ssh-rsa MANUAL manually@added\n{MANAGED_BLOCK_START}\nssh-ed25519 STALE gone@host\n"
    );
    assert_eq!(
        updated_content(&current, &keys(&[KEY1])),
        format!("ssh-rsa MANUAL manually@added\n{}", block(&[KEY1]))
    );
}

#[test]
fn duplicate_managed_blocks_are_collapsed_into_one() {
    let current = format!(
        "{}ssh-rsa MANUAL manually@added\n{}",
        block(&["ssh-ed25519 STALE1 gone@host"]),
        block(&["ssh-ed25519 STALE2 gone@host"])
    );
    // The block is rendered at the position of the first one. The manual line that followed it
    // keeps its place after the block.
    assert_eq!(
        updated_content(&current, &keys(&[KEY1])),
        format!("{}ssh-rsa MANUAL manually@added\n", block(&[KEY1]))
    );
}

#[test]
fn manual_lines_after_the_block_stay_in_place() {
    let current = format!(
        "# preamble\n{}# trailer\ncommand=\"/usr/bin/backup\" ssh-rsa MANUAL backup@host\n",
        block(&["ssh-ed25519 STALE gone@host"])
    );
    assert_eq!(
        updated_content(&current, &keys(&[KEY1])),
        format!(
            "# preamble\n{}# trailer\ncommand=\"/usr/bin/backup\" ssh-rsa MANUAL backup@host\n",
            block(&[KEY1])
        )
    );
}

#[test]
fn only_the_last_update_counts() {
    let current = format!("# a\n{}# b\n", block(&["stale"]));
    let twice = updated_content(&updated_content(&current, &keys(&[KEY1])), &keys(&[KEY2]));
    assert_eq!(twice, updated_content(&current, &keys(&[KEY2])));
}

#[test]
fn markers_may_be_indented_and_lines_may_end_in_crlf() {
    let current = format!("# a\r\n  {MANAGED_BLOCK_START}\t\r\nstale\r\n{MANAGED_BLOCK_END}\r\n# b");
    assert_eq!(
        updated_content(&current, &keys(&[KEY1])),
        format!("# a\n{}# b\n", block(&[KEY1]))
    );
}

/// A carriage return beyond the line ending belongs to the line at first, and to the line ending
/// once the file is written
#[test]
fn surplus_carriage_return_is_lost_on_the_second_update() {
    let first = updated_content("x\r\r\n", &keys(&[]));
    assert!(first.starts_with("x\r\n"));
    let second = updated_content(&first, &keys(&[]));
    assert!(second.starts_with("x\n"));
}

#[test]
fn stray_end_marker_is_dropped() {
    let (before, after) = split_around_managed_block(&format!(
        "# a\n{MANAGED_BLOCK_END}\n# b\n{MANAGED_BLOCK_START}\n# c\n{MANAGED_BLOCK_END}\n# d\n"
    ));
    assert_eq!(before, vec!["# a", "# b"]);
    assert_eq!(after, vec!["# d"]);
}

#[test]
fn failed_open_of_the_file_ends_reading() {
    // Opening a symlink without following it fails
    assert_eq!(
        next_read_step(ReadStep::Open, Reply::Failed, 0),
        ReadStep::OpenFailed
    );
}

#[test]
fn failed_open_of_the_directory_ends_opening() {
    assert_eq!(
        open_steps(true, &[Reply::Done, Reply::Exists, Reply::Failed]).last(),
        Some(&OpenStep::OpenFailed)
    );
}

#[test]
fn failed_open_of_the_home_ends_opening() {
    assert_eq!(
        open_steps(true, &[Reply::Failed]),
        vec![OpenStep::OpenHome, OpenStep::HomeFailed]
    );
}

#[test]
fn every_failure_of_opening_has_its_end() {
    assert_eq!(
        open_steps(true, &[Reply::Done, Reply::Failed]).last(),
        Some(&OpenStep::CreateFailed)
    );
    assert_eq!(
        open_steps(true, &[Reply::Done, Reply::Done, Reply::Missing]).last(),
        Some(&OpenStep::Disappeared)
    );
    assert_eq!(
        open_steps(true, &[Reply::Done, Reply::Done, Reply::Done, Reply::Failed]).last(),
        Some(&OpenStep::ModeFailed)
    );
    assert_eq!(
        open_steps(
            true,
            &[Reply::Done, Reply::Done, Reply::Done, Reply::Done, Reply::Failed]
        )
        .last(),
        Some(&OpenStep::OwnerFailed)
    );
}

#[test]
fn only_regular_files_are_read() {
    // Permission bits do not matter, the bit of regular files does
    for regular in [0o100644, 0o100000, 0o104777] {
        assert_eq!(
            next_read_step(ReadStep::Inspect, Reply::Done, regular),
            ReadStep::Read
        );
    }
    for other in [0o040755, 0o010644, 0o020644, 0o060644] {
        assert_eq!(
            next_read_step(ReadStep::Inspect, Reply::Done, other),
            ReadStep::NotRegular
        );
    }
    assert_eq!(
        next_read_step(ReadStep::Inspect, Reply::Failed, 0o100644),
        ReadStep::InspectFailed
    );
    assert_eq!(
        next_read_step(ReadStep::Read, Reply::Done, 0o100644),
        ReadStep::Complete
    );
    assert_eq!(
        next_read_step(ReadStep::Read, Reply::Failed, 0o100644),
        ReadStep::ReadFailed
    );
    assert_eq!(
        next_read_step(ReadStep::Open, Reply::Missing, 0),
        ReadStep::Absent
    );
}

#[test]
fn missing_directory_fails_the_replacement() {
    // The staging file cannot be created in a directory that is gone
    assert_eq!(
        replace_steps(&[Reply::Missing, Reply::Missing, Reply::Missing]),
        vec![
            ReplaceStep::DropStale,
            ReplaceStep::Create,
            ReplaceStep::DropStaging(ReplaceFailure::Create),
            ReplaceStep::Failed(ReplaceFailure::Create),
        ]
    );
}

#[test]
fn every_failure_of_replacing_drops_the_staging_file() {
    let failures = [
        ReplaceFailure::Create,
        ReplaceFailure::Write,
        ReplaceFailure::SetMode,
        ReplaceFailure::SetOwner,
        ReplaceFailure::Flush,
        ReplaceFailure::Rename,
        ReplaceFailure::FlushDirectory,
    ];
    for (i, failure) in failures.iter().enumerate() {
        let mut replies = vec![Reply::Done; i + 1];
        replies.push(Reply::Failed);
        replies.push(Reply::Done);
        let steps = replace_steps(&replies);
        assert_eq!(steps[i + 2], ReplaceStep::DropStaging(*failure));
        assert_eq!(steps[i + 3], ReplaceStep::Failed(*failure));
        assert_eq!(
            steps.contains(&ReplaceStep::Rename),
            i >= 5,
            "the rename comes after everything but the last flush"
        );
    }
}

/// A staging file left behind by an interrupted run must not block the next write.
#[test]
fn stale_staging_file_is_dropped_first() {
    assert_eq!(
        replace_steps(&[Reply::Done])[1],
        ReplaceStep::Create
    );
    assert_eq!(
        replace_steps(&[Reply::Failed])[1],
        ReplaceStep::Create
    );
    assert_eq!(
        replace_steps(&[Reply::Done; 8]).last(),
        Some(&ReplaceStep::Replaced)
    );
}

/// Disabling an account removes the complete file, including manual entries.
#[test]
fn removal_unlinks_and_flushes() {
    let step = next_remove_step(RemoveStep::Unlink, Reply::Done);
    assert_eq!(step, RemoveStep::FlushDirectory);
    assert_eq!(next_remove_step(step, Reply::Done), RemoveStep::Removed);
    assert_eq!(next_remove_step(step, Reply::Failed), RemoveStep::FlushFailed);
    assert_eq!(
        next_remove_step(RemoveStep::Unlink, Reply::Failed),
        RemoveStep::UnlinkFailed
    );
}

/// A departed user without a `.ssh` directory or authorized_keys file must not have either
/// created for them by the reset.
#[test]
fn absent_directory_or_file_needs_no_removal() {
    assert_eq!(
        open_steps(false, &[Reply::Done, Reply::Missing]),
        vec![OpenStep::OpenHome, OpenStep::OpenDirectory, OpenStep::Absent]
    );
    assert_eq!(
        open_steps(false, &[Reply::Done, Reply::Done]).last(),
        Some(&OpenStep::Ready)
    );
    assert_eq!(
        next_remove_step(RemoveStep::Unlink, Reply::Missing),
        RemoveStep::Absent
    );
}
