//! The steps by which a user's `.ssh` directory is opened and the file in it read, replaced or
//! removed.
//!
//! The user owns the directory and can replace it at any moment. So it is resolved once, and
//! every later step is taken relative to the descriptors that were opened then. Each function
//! here takes the step that was just taken and what came of it, and says what to do next.
use vstd::prelude::*;

verus! {

/// Name of the directory in the home directory.
pub const SSH_DIR_NAME: &'static str = ".ssh";

/// Permissions of the directory.
pub const SSH_DIR_MODE: u32 = 0o700;

/// Name of the file in the directory.
pub const AUTHORIZED_KEYS_FILE_NAME: &'static str = "authorized_keys";

/// Permissions of the file.
pub const AUTHORIZED_KEYS_MODE: u32 = 0o600;

/// Name that the new content is staged under before it is renamed into place.
pub const STAGING_FILE_NAME: &'static str = ".authorized_keys.octosync";

/// What came of a file operation.
#[derive(Debug, Clone, Copy, PartialEq, Eq, Structural)]
pub enum Reply {
    /// It succeeded.
    Done,
    /// What it was to act on does not exist.
    Missing,
    /// What it was to create exists already.
    Exists,
    /// It failed in another way.
    Failed,
}

/// A step on the way to an open `.ssh` directory, or where that way ends.
#[derive(Debug, Clone, Copy, PartialEq, Eq, Structural)]
pub enum OpenStep {
    /// Open the home directory without following symlinks.
    OpenHome,
    /// Create `.ssh` in the home directory.
    CreateDirectory,
    /// Open `.ssh` in the home directory without following symlinks.
    OpenDirectory,
    /// Set the permissions of the directory.
    SetMode,
    /// Set the owner of the directory.
    SetOwner,
    /// The directory is open.
    Ready,
    /// The user has no such directory.
    Absent,
    /// The home directory could not be opened.
    HomeFailed,
    /// The directory could not be created.
    CreateFailed,
    /// The directory could not be opened.
    OpenFailed,
    /// The directory disappeared right after it was created.
    Disappeared,
    /// The permissions could not be set.
    ModeFailed,
    /// The owner could not be set.
    OwnerFailed,
}

/// Whether a step is still to be taken, and not an end.
pub open spec fn opening(step: OpenStep) -> bool {
    step is OpenHome || step is CreateDirectory || step is OpenDirectory || step is SetMode
        || step is SetOwner
}

/// What follows a step towards an open directory.
pub open spec fn opened_next(step: OpenStep, create: bool, reply: Reply) -> OpenStep {
    match (step, reply) {
        (OpenStep::OpenHome, Reply::Done) => if create {
            OpenStep::CreateDirectory
        } else {
            OpenStep::OpenDirectory
        },
        (OpenStep::OpenHome, _) => OpenStep::HomeFailed,
        (OpenStep::CreateDirectory, Reply::Done | Reply::Exists) => OpenStep::OpenDirectory,
        (OpenStep::CreateDirectory, _) => OpenStep::CreateFailed,
        (OpenStep::OpenDirectory, Reply::Done) => if create {
            OpenStep::SetMode
        } else {
            OpenStep::Ready
        },
        (OpenStep::OpenDirectory, Reply::Missing) => if create {
            OpenStep::Disappeared
        } else {
            OpenStep::Absent
        },
        (OpenStep::OpenDirectory, _) => OpenStep::OpenFailed,
        (OpenStep::SetMode, Reply::Done) => OpenStep::SetOwner,
        (OpenStep::SetMode, _) => OpenStep::ModeFailed,
        (OpenStep::SetOwner, Reply::Done) => OpenStep::Ready,
        (OpenStep::SetOwner, _) => OpenStep::OwnerFailed,
        (end, _) => end,
    }
}

/// What to do after a step towards an open directory. With `create`, the directory is created
/// where it does not exist, and its permissions and owner are set.
pub fn next_open_step(step: OpenStep, create: bool, reply: Reply) -> (r: OpenStep)
    requires
        opening(step),
    ensures
        r == opened_next(step, create, reply),
{
    match step {
        OpenStep::OpenHome => match reply {
            Reply::Done => if create {
                OpenStep::CreateDirectory
            } else {
                OpenStep::OpenDirectory
            },
            _ => OpenStep::HomeFailed,
        },
        OpenStep::CreateDirectory => match reply {
            Reply::Done | Reply::Exists => OpenStep::OpenDirectory,
            _ => OpenStep::CreateFailed,
        },
        OpenStep::OpenDirectory => match reply {
            Reply::Done => if create {
                OpenStep::SetMode
            } else {
                OpenStep::Ready
            },
            Reply::Missing => if create {
                OpenStep::Disappeared
            } else {
                OpenStep::Absent
            },
            _ => OpenStep::OpenFailed,
        },
        OpenStep::SetMode => match reply {
            Reply::Done => OpenStep::SetOwner,
            _ => OpenStep::ModeFailed,
        },
        OpenStep::SetOwner => match reply {
            Reply::Done => OpenStep::Ready,
            _ => OpenStep::OwnerFailed,
        },
        end => end,
    }
}

/// Steps towards an open directory, each with what came of it, up to where they have led.
pub open spec fn open_run(run: Seq<(OpenStep, Reply)>, create: bool, last: OpenStep) -> bool {
    &&& run.len() == 0 ==> last == OpenStep::OpenHome
    &&& run.len() > 0 ==> run[0].0 == OpenStep::OpenHome
    &&& run.len() > 0 ==> last == opened_next(run.last().0, create, run.last().1)
    &&& forall|i: int| 0 <= i < run.len() ==> opening((#[trigger] run[i]).0)
    &&& forall|i: int, j: int|
        0 <= i && j == i + 1 && j < run.len() ==> (#[trigger] run[j]).0 == opened_next(
            (#[trigger] run[i]).0,
            create,
            run[i].1,
        )
}

/// A user without a `.ssh` directory gets none unless it is asked for: the step that creates it
/// is taken only with `create`. And then the directory that is handed out is one whose
/// permissions and owner were set.
pub proof fn directory_is_created_on_request_only(
    run: Seq<(OpenStep, Reply)>,
    create: bool,
    last: OpenStep,
)
    requires
        open_run(run, create, last),
    ensures
        !create ==> last != OpenStep::CreateDirectory,
        !create ==> forall|i: int|
            0 <= i < run.len() ==> (#[trigger] run[i]).0 != OpenStep::CreateDirectory,
        create && last == OpenStep::Ready ==> run.contains((OpenStep::SetMode, Reply::Done))
            && run.contains((OpenStep::SetOwner, Reply::Done)),
    decreases run.len(),
{
    if run.len() > 0 {
        let n = run.len() - 1;
        let rest = run.take(n);
        assert(rest.len() > 0 ==> rest.last() == run[n - 1]);
        assert forall|i: int, j: int|
            0 <= i && j == i + 1 && j < rest.len() implies (#[trigger] rest[j]).0 == opened_next(
            (#[trigger] rest[i]).0,
            create,
            rest[i].1,
        ) by {
            assert(rest[i] == run[i] && rest[j] == run[j]);
        }
        directory_is_created_on_request_only(rest, create, run[n].0);
        assert forall|i: int| !create && 0 <= i < run.len() implies (#[trigger] run[i]).0
            != OpenStep::CreateDirectory by {
            if i < n {
                assert(rest[i] == run[i]);
            }
        }
        if create && last == OpenStep::Ready {
            assert(run[n] == (OpenStep::SetOwner, Reply::Done));
            assert(n > 0);
            assert(run[n - 1] == (OpenStep::SetMode, Reply::Done)) by {
                assert(run[n].0 == opened_next(run[n - 1].0, create, run[n - 1].1));
                assert(opening(run[n - 1].0));
            }
        }
    }
}

/// A step of reading the file, or where reading ends.
#[derive(Debug, Clone, Copy, PartialEq, Eq, Structural)]
pub enum ReadStep {
    /// Open the file without following symlinks and without blocking.
    Open,
    /// Ask for the file's type.
    Inspect,
    /// Read the content.
    Read,
    /// There is no file.
    Absent,
    /// The content was read.
    Complete,
    /// The file could not be opened. It may be a symlink.
    OpenFailed,
    /// The file's type could not be found out.
    InspectFailed,
    /// The file is not a regular file.
    NotRegular,
    /// The content could not be read.
    ReadFailed,
}

/// Whether a mode has the bit that marks regular files. Sockets and symlinks have it too, but
/// opening a file in the way asked for fails on them.
pub open spec fn regular_bit(st_mode: u32) -> bool {
    st_mode & 0o100000 == 0o100000
}

/// What follows a step of reading.
pub open spec fn read_next(step: ReadStep, reply: Reply, st_mode: u32) -> ReadStep {
    match (step, reply) {
        (ReadStep::Open, Reply::Done) => ReadStep::Inspect,
        (ReadStep::Open, Reply::Missing) => ReadStep::Absent,
        (ReadStep::Open, _) => ReadStep::OpenFailed,
        (ReadStep::Inspect, Reply::Done) => if regular_bit(st_mode) {
            ReadStep::Read
        } else {
            ReadStep::NotRegular
        },
        (ReadStep::Inspect, _) => ReadStep::InspectFailed,
        (ReadStep::Read, Reply::Done) => ReadStep::Complete,
        (ReadStep::Read, _) => ReadStep::ReadFailed,
        (end, _) => end,
    }
}

/// Calls `contains` on the `nix::sys::stat::SFlag` that `from_bits_truncate` makes of the mode.
///
/// Claimed: the answer is whether the mode has the bit of `S_IFREG`, which is `0o100000`.
#[verifier::external_body]
fn has_regular_flag(st_mode: u32) -> (r: bool)
    ensures
        r == regular_bit(st_mode),
{
    nix::sys::stat::SFlag::from_bits_truncate(st_mode).contains(nix::sys::stat::SFlag::S_IFREG)
}

/// What to do after a step of reading. The mode is that of the opened file, and counts only after
/// it was asked for.
pub fn next_read_step(step: ReadStep, reply: Reply, st_mode: u32) -> (r: ReadStep)
    requires
        step is Open || step is Inspect || step is Read,
    ensures
        r == read_next(step, reply, st_mode),
{
    match step {
        ReadStep::Open => match reply {
            Reply::Done => ReadStep::Inspect,
            Reply::Missing => ReadStep::Absent,
            _ => ReadStep::OpenFailed,
        },
        ReadStep::Inspect => match reply {
            Reply::Done => if has_regular_flag(st_mode) {
                ReadStep::Read
            } else {
                ReadStep::NotRegular
            },
            _ => ReadStep::InspectFailed,
        },
        ReadStep::Read => match reply {
            Reply::Done => ReadStep::Complete,
            _ => ReadStep::ReadFailed,
        },
        end => end,
    }
}

/// A step of replacing the file, or where replacing ends.
#[derive(Debug, Clone, Copy, PartialEq, Eq, Structural)]
pub enum ReplaceStep {
    /// Remove a staging file that an interrupted run left behind.
    DropStale,
    /// Create the staging file. It must not exist.
    Create,
    /// Write the content.
    Write,
    /// Set the permissions of the staging file.
    SetMode,
    /// Set the owner of the staging file.
    SetOwner,
    /// Flush the staging file to disk.
    Flush,
    /// Rename the staging file to its final name.
    Rename,
    /// Flush the directory to disk.
    FlushDirectory,
    /// Remove the staging file after a step failed.
    DropStaging(ReplaceFailure),
    /// The file is replaced.
    Replaced,
    /// A step failed.
    Failed(ReplaceFailure),
}

/// The step of replacing the file that failed.
#[derive(Debug, Clone, Copy, PartialEq, Eq, Structural)]
pub enum ReplaceFailure {
    /// The staging file could not be created.
    Create,
    /// The content could not be written.
    Write,
    /// The permissions could not be set.
    SetMode,
    /// The owner could not be set.
    SetOwner,
    /// The staging file could not be flushed.
    Flush,
    /// The staging file could not be renamed.
    Rename,
    /// The directory could not be flushed.
    FlushDirectory,
}

/// What follows a step of replacing.
pub open spec fn replace_next(step: ReplaceStep, reply: Reply) -> ReplaceStep {
    let done = reply is Done;
    match step {
        ReplaceStep::DropStale => ReplaceStep::Create,
        ReplaceStep::Create => if done {
            ReplaceStep::Write
        } else {
            ReplaceStep::DropStaging(ReplaceFailure::Create)
        },
        ReplaceStep::Write => if done {
            ReplaceStep::SetMode
        } else {
            ReplaceStep::DropStaging(ReplaceFailure::Write)
        },
        ReplaceStep::SetMode => if done {
            ReplaceStep::SetOwner
        } else {
            ReplaceStep::DropStaging(ReplaceFailure::SetMode)
        },
        ReplaceStep::SetOwner => if done {
            ReplaceStep::Flush
        } else {
            ReplaceStep::DropStaging(ReplaceFailure::SetOwner)
        },
        ReplaceStep::Flush => if done {
            ReplaceStep::Rename
        } else {
            ReplaceStep::DropStaging(ReplaceFailure::Flush)
        },
        ReplaceStep::Rename => if done {
            ReplaceStep::FlushDirectory
        } else {
            ReplaceStep::DropStaging(ReplaceFailure::Rename)
        },
        ReplaceStep::FlushDirectory => if done {
            ReplaceStep::Replaced
        } else {
            ReplaceStep::DropStaging(ReplaceFailure::FlushDirectory)
        },
        ReplaceStep::DropStaging(failure) => ReplaceStep::Failed(failure),
        end => end,
    }
}

/// Whether replacing has come to an end.
pub open spec fn replace_ended(step: ReplaceStep) -> bool {
    step is Replaced || step is Failed
}

/// What to do after a step of replacing.
pub fn next_replace_step(step: ReplaceStep, reply: Reply) -> (r: ReplaceStep)
    requires
        !replace_ended(step),
    ensures
        r == replace_next(step, reply),
{
    let done = match reply {
        Reply::Done => true,
        _ => false,
    };
    let failure = match step {
        ReplaceStep::DropStale => return ReplaceStep::Create,
        ReplaceStep::Create => if done {
            return ReplaceStep::Write;
        } else {
            ReplaceFailure::Create
        },
        ReplaceStep::Write => if done {
            return ReplaceStep::SetMode;
        } else {
            ReplaceFailure::Write
        },
        ReplaceStep::SetMode => if done {
            return ReplaceStep::SetOwner;
        } else {
            ReplaceFailure::SetMode
        },
        ReplaceStep::SetOwner => if done {
            return ReplaceStep::Flush;
        } else {
            ReplaceFailure::SetOwner
        },
        ReplaceStep::Flush => if done {
            return ReplaceStep::Rename;
        } else {
            ReplaceFailure::Flush
        },
        ReplaceStep::Rename => if done {
            return ReplaceStep::FlushDirectory;
        } else {
            ReplaceFailure::Rename
        },
        ReplaceStep::FlushDirectory => if done {
            return ReplaceStep::Replaced;
        } else {
            ReplaceFailure::FlushDirectory
        },
        ReplaceStep::DropStaging(failure) => return ReplaceStep::Failed(failure),
        end => return end,
    };
    ReplaceStep::DropStaging(failure)
}

/// Steps of replacing, each with what came of it, up to where they have led.
pub open spec fn replace_run(run: Seq<(ReplaceStep, Reply)>, last: ReplaceStep) -> bool {
    &&& run.len() == 0 ==> last == ReplaceStep::DropStale
    &&& run.len() > 0 ==> run[0].0 == ReplaceStep::DropStale
    &&& run.len() > 0 ==> last == replace_next(run.last().0, run.last().1)
    &&& forall|i: int| 0 <= i < run.len() ==> !replace_ended((#[trigger] run[i]).0)
    &&& forall|i: int, j: int|
        0 <= i && j == i + 1 && j < run.len() ==> (#[trigger] run[j]).0 == replace_next(
            (#[trigger] run[i]).0,
            run[i].1,
        )
}

/// The steps that lead to the rename, all of which succeeded.
pub open spec fn staged(run: Seq<(ReplaceStep, Reply)>) -> bool {
    &&& run.contains((ReplaceStep::Create, Reply::Done))
    &&& run.contains((ReplaceStep::Write, Reply::Done))
    &&& run.contains((ReplaceStep::SetMode, Reply::Done))
    &&& run.contains((ReplaceStep::SetOwner, Reply::Done))
    &&& run.contains((ReplaceStep::Flush, Reply::Done))
}

/// How many steps precede one of the steps that are taken while nothing has failed.
spec fn place(step: ReplaceStep) -> int {
    match step {
        ReplaceStep::DropStale => 0,
        ReplaceStep::Create => 1,
        ReplaceStep::Write => 2,
        ReplaceStep::SetMode => 3,
        ReplaceStep::SetOwner => 4,
        ReplaceStep::Flush => 5,
        ReplaceStep::Rename => 6,
        ReplaceStep::FlushDirectory => 7,
        ReplaceStep::Replaced => 8,
        _ => -1,
    }
}

/// While nothing has failed, every step so far has led to the next one.
proof fn lemma_place(run: Seq<(ReplaceStep, Reply)>, last: ReplaceStep)
    requires
        replace_run(run, last),
        place(last) >= 0,
    ensures
        run.len() == place(last),
        forall|i: int| 0 <= i < run.len() ==> place((#[trigger] run[i]).0) == i,
        forall|i: int| 1 <= i < run.len() ==> (#[trigger] run[i]).1 == Reply::Done,
    decreases run.len(),
{
    if run.len() > 0 {
        let n = run.len() - 1;
        let rest = run.take(n);
        assert(rest.len() > 0 ==> rest.last() == run[n - 1]);
        assert forall|i: int, j: int|
            0 <= i && j == i + 1 && j < rest.len() implies (#[trigger] rest[j]).0 == replace_next(
            (#[trigger] rest[i]).0,
            rest[i].1,
        ) by {
            assert(rest[i] == run[i] && rest[j] == run[j]);
        }
        assert(!replace_ended(run[n].0));
        lemma_place(rest, run[n].0);
        assert forall|i: int| 0 <= i < run.len() implies place((#[trigger] run[i]).0) == i by {
            if i < n {
                assert(rest[i] == run[i]);
            }
        }
        assert forall|i: int| 1 <= i < run.len() implies (#[trigger] run[i]).1 == Reply::Done by {
            if i < n {
                assert(rest[i] == run[i]);
            }
        }
    }
}

/// The file appears at its final name only when its content is written and flushed and its
/// permissions and owner are set.
pub proof fn rename_comes_last(run: Seq<(ReplaceStep, Reply)>)
    requires
        replace_run(run, ReplaceStep::Rename),
    ensures
        staged(run),
{
    lemma_place(run, ReplaceStep::Rename);
    assert(run[1] == (ReplaceStep::Create, Reply::Done));
    assert(run[2] == (ReplaceStep::Write, Reply::Done));
    assert(run[3] == (ReplaceStep::SetMode, Reply::Done));
    assert(run[4] == (ReplaceStep::SetOwner, Reply::Done));
    assert(run[5] == (ReplaceStep::Flush, Reply::Done));
}

/// A failed replacement ends with an attempt to remove the staging file.
pub proof fn failure_drops_the_staging_file(
    run: Seq<(ReplaceStep, Reply)>,
    failure: ReplaceFailure,
)
    requires
        replace_run(run, ReplaceStep::Failed(failure)),
    ensures
        run.len() > 0,
        run.last().0 == ReplaceStep::DropStaging(failure),
{
    assert(!replace_ended(run[run.len() - 1].0));
}

/// A step of removing the file, or where removing ends.
#[derive(Debug, Clone, Copy, PartialEq, Eq, Structural)]
pub enum RemoveStep {
    /// Unlink the file, not what it may point to.
    Unlink,
    /// Flush the directory to disk.
    FlushDirectory,
    /// There was no file.
    Absent,
    /// The file is removed.
    Removed,
    /// The file could not be unlinked.
    UnlinkFailed,
    /// The removal could not be made persistent.
    FlushFailed,
}

/// What to do after a step of removing.
pub fn next_remove_step(step: RemoveStep, reply: Reply) -> (r: RemoveStep)
    requires
        step is Unlink || step is FlushDirectory,
    ensures
        step is Unlink ==> r == match reply {
            Reply::Done => RemoveStep::FlushDirectory,
            Reply::Missing => RemoveStep::Absent,
            _ => RemoveStep::UnlinkFailed,
        },
        step is FlushDirectory ==> r == match reply {
            Reply::Done => RemoveStep::Removed,
            _ => RemoveStep::FlushFailed,
        },
{
    match step {
        RemoveStep::Unlink => match reply {
            Reply::Done => RemoveStep::FlushDirectory,
            Reply::Missing => RemoveStep::Absent,
            _ => RemoveStep::UnlinkFailed,
        },
        _ => match reply {
            Reply::Done => RemoveStep::Removed,
            _ => RemoveStep::FlushFailed,
        },
    }
}

/// The home directory is opened first. With `create`, the directory is created where it is missing,
/// opened, and its permissions and owner are set. Without, it is only opened, and a missing one is
/// no failure. Any other reply ends in the failure of its step.
pub proof fn directory_is_opened_step_by_step(
    step: OpenStep,
    create: bool,
    reply: Reply,
    next: OpenStep,
)
    requires
        call_ensures(next_open_step, (step, create, reply), next),
    ensures
        step is OpenHome && reply is Done && create ==> next is CreateDirectory,
        step is OpenHome && reply is Done && !create ==> next is OpenDirectory,
        step is OpenHome && !(reply is Done) ==> next is HomeFailed,
        step is CreateDirectory && (reply is Done || reply is Exists) ==> next is OpenDirectory,
        step is CreateDirectory && (reply is Missing || reply is Failed) ==> next is CreateFailed,
        step is OpenDirectory && reply is Done && create ==> next is SetMode,
        step is OpenDirectory && reply is Done && !create ==> next is Ready,
        step is OpenDirectory && reply is Missing && create ==> next is Disappeared,
        step is OpenDirectory && reply is Missing && !create ==> next is Absent,
        step is OpenDirectory && (reply is Exists || reply is Failed) ==> next is OpenFailed,
        step is SetMode && reply is Done ==> next is SetOwner,
        step is SetMode && !(reply is Done) ==> next is ModeFailed,
        step is SetOwner && reply is Done ==> next is Ready,
        step is SetOwner && !(reply is Done) ==> next is OwnerFailed,
{
}

/// A file is read only once it is open and has the bit of regular files. A missing file is no
/// failure, and everything else ends in the failure of its step.
pub proof fn only_regular_files_are_read(step: ReadStep, reply: Reply, st_mode: u32, next: ReadStep)
    requires
        call_ensures(next_read_step, (step, reply, st_mode), next),
    ensures
        step is Open && reply is Done ==> next is Inspect,
        step is Open && reply is Missing ==> next is Absent,
        step is Open && (reply is Exists || reply is Failed) ==> next is OpenFailed,
        step is Inspect && reply is Done && st_mode & 0o100000 == 0o100000 ==> next is Read,
        step is Inspect && reply is Done && st_mode & 0o100000 != 0o100000 ==> next is NotRegular,
        step is Inspect && !(reply is Done) ==> next is InspectFailed,
        step is Read && reply is Done ==> next is Complete,
        step is Read && !(reply is Done) ==> next is ReadFailed,
{
}

/// A file is replaced by staging it: each step that succeeds leads to the next one, up to the
/// rename and the flush of the directory. A failed step leads to the removal of the staging file,
/// and then to its failure. That there was nothing stale to remove is no failure.
pub proof fn file_is_staged_step_by_step(step: ReplaceStep, reply: Reply, next: ReplaceStep)
    requires
        call_ensures(next_replace_step, (step, reply), next),
    ensures
        step is DropStale ==> next is Create,
        step is Create && reply is Done ==> next is Write,
        step is Write && reply is Done ==> next is SetMode,
        step is SetMode && reply is Done ==> next is SetOwner,
        step is SetOwner && reply is Done ==> next is Flush,
        step is Flush && reply is Done ==> next is Rename,
        step is Rename && reply is Done ==> next is FlushDirectory,
        step is FlushDirectory && reply is Done ==> next is Replaced,
        step is Create && !(reply is Done) ==> next == ReplaceStep::DropStaging(
            ReplaceFailure::Create,
        ),
        step is Write && !(reply is Done) ==> next == ReplaceStep::DropStaging(
            ReplaceFailure::Write,
        ),
        step is SetMode && !(reply is Done) ==> next == ReplaceStep::DropStaging(
            ReplaceFailure::SetMode,
        ),
        step is SetOwner && !(reply is Done) ==> next == ReplaceStep::DropStaging(
            ReplaceFailure::SetOwner,
        ),
        step is Flush && !(reply is Done) ==> next == ReplaceStep::DropStaging(
            ReplaceFailure::Flush,
        ),
        step is Rename && !(reply is Done) ==> next == ReplaceStep::DropStaging(
            ReplaceFailure::Rename,
        ),
        step is FlushDirectory && !(reply is Done) ==> next == ReplaceStep::DropStaging(
            ReplaceFailure::FlushDirectory,
        ),
        step is DropStaging ==> next == ReplaceStep::Failed(step->DropStaging_0),
{
}

/// A file counts as removed only when it was unlinked and the directory was flushed. A missing file
/// is no failure.
pub proof fn removal_is_made_persistent(step: RemoveStep, reply: Reply, next: RemoveStep)
    requires
        call_ensures(next_remove_step, (step, reply), next),
    ensures
        step is Unlink && reply is Done ==> next is FlushDirectory,
        step is Unlink && reply is Missing ==> next is Absent,
        step is Unlink && (reply is Exists || reply is Failed) ==> next is UnlinkFailed,
        step is FlushDirectory && reply is Done ==> next is Removed,
        step is FlushDirectory && !(reply is Done) ==> next is FlushFailed,
{
}

} // verus!
