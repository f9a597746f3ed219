//! The walk over a home directory that decides what goes into its archive.
//!
//! Entries that cannot be archived, or that disappear while the archive is written, are skipped.
//! Any other trouble ends the walk.
use vstd::multiset::Multiset;
use vstd::prelude::*;

verus! {

/// The names of the directories below the home directory that lead to an entry, and its own.
pub open spec fn names_of(names: Seq<Vec<u8>>) -> Seq<Seq<u8>> {
    names.map_values(|n: Vec<u8>| n@)
}

/// Where an entry stands below the home directory, which itself has no names.
pub struct EntryPath {
    names: Vec<Vec<u8>>,
}

impl View for EntryPath {
    type V = Seq<Seq<u8>>;

    closed spec fn view(&self) -> Seq<Seq<u8>> {
        names_of(self.names@)
    }
}

/// A list of the same bytes.
fn copied_bytes(bytes: &Vec<u8>) -> (r: Vec<u8>)
    ensures
        r@ == bytes@,
{
    let mut r: Vec<u8> = Vec::new();
    let mut i: usize = 0;
    while i < bytes.len()
        invariant
            i <= bytes@.len(),
            r@ == bytes@.take(i as int),
        decreases bytes@.len() - i,
    {
        r.push(bytes[i]);
        i = i + 1;
    }
    assert(bytes@.take(bytes@.len() as int) == bytes@);
    r
}

impl EntryPath {
    /// The home directory itself.
    pub fn home() -> (r: Self)
        ensures
            r@ == Seq::<Seq<u8>>::empty(),
    {
        let r = EntryPath { names: Vec::new() };
        assert(r@ == Seq::<Seq<u8>>::empty());
        r
    }

    /// The names that lead to the entry.
    pub fn names(&self) -> (r: &Vec<Vec<u8>>)
        ensures
            names_of(r@) == self@,
    {
        &self.names
    }

    /// An entry of the directory that stands here.
    pub fn child(&self, name: &Vec<u8>) -> (r: Self)
        ensures
            r@ == self@.push(name@),
    {
        let mut r = self.copied();
        let ghost before = r.names@;
        r.names.push(copied_bytes(name));
        assert(names_of(r.names@) == names_of(before).push(name@));
        r
    }

    /// The same place.
    pub fn copied(&self) -> (r: Self)
        ensures
            r@ == self@,
    {
        let mut names: Vec<Vec<u8>> = Vec::new();
        let mut i: usize = 0;
        while i < self.names.len()
            invariant
                i <= self.names@.len(),
                names_of(names@) == names_of(self.names@.take(i as int)),
            decreases self.names@.len() - i,
        {
            let ghost before = names@;
            names.push(copied_bytes(&self.names[i]));
            proof {
                assert(names_of(names@) == names_of(before).push(self.names@[i as int]@));
                assert(names_of(self.names@.take(i + 1)) == names_of(
                    self.names@.take(i as int),
                ).push(self.names@[i as int]@));
            }
            i = i + 1;
        }
        assert(self.names@.take(self.names@.len() as int) == self.names@);
        EntryPath { names }
    }

    /// Where the entry stands in the archive, which holds everything below the home directory's
    /// own name.
    pub fn archived_under(&self, home_name: &Vec<u8>) -> (r: EntryPath)
        ensures
            r@ == seq![home_name@] + self@,
    {
        let mut r = EntryPath::home().child(home_name);
        let mut i: usize = 0;
        assert(r@ == seq![home_name@] + self@.take(0));
        while i < self.names.len()
            invariant
                i <= self.names@.len(),
                self.names@.len() == self@.len(),
                r@ == seq![home_name@] + self@.take(i as int),
            decreases self.names@.len() - i,
        {
            r = r.child(&self.names[i]);
            proof {
                assert(self@[i as int] == self.names@[i as int]@);
                assert(self@.take(i + 1) == self@.take(i as int).push(self@[i as int]));
            }
            i = i + 1;
        }
        assert(self@.take(self@.len() as int) == self@);
        r
    }
}

/// What an entry is.
#[derive(Debug, Clone, Copy, PartialEq, Eq, Structural)]
pub enum EntryKind {
    /// A regular file.
    File,
    /// A directory.
    Directory,
    /// A symlink, which is stored as one.
    Symlink,
    /// A socket or another special file.
    Special,
}

/// What came of a step of the walk.
pub enum WalkReply {
    /// It succeeded.
    Done,
    /// What it was to act on was removed meanwhile.
    Missing,
    /// It failed in another way.
    Failed,
    /// The directory has another entry, of this name.
    Entry(Vec<u8>),
    /// The directory has no more entries.
    End,
    /// The entry is of this kind.
    Kind(EntryKind),
}

/// A reply as contracts see it.
pub enum ReplyView {
    Done,
    Missing,
    Failed,
    Entry(Seq<u8>),
    End,
    Kind(EntryKind),
}

impl View for WalkReply {
    type V = ReplyView;

    open spec fn view(&self) -> ReplyView {
        match self {
            WalkReply::Done => ReplyView::Done,
            WalkReply::Missing => ReplyView::Missing,
            WalkReply::Failed => ReplyView::Failed,
            WalkReply::Entry(name) => ReplyView::Entry(name@),
            WalkReply::End => ReplyView::End,
            WalkReply::Kind(kind) => ReplyView::Kind(*kind),
        }
    }
}

/// A step of the walk, or where it ends.
#[derive(Debug, Clone, Copy, PartialEq, Eq, Structural)]
pub enum WalkStep {
    /// Append the home directory.
    AppendHome,
    /// Begin to read the directory.
    ReadDirectory,
    /// Ask for the next entry of the directory.
    NextEntry,
    /// Ask what the entry is.
    InspectEntry,
    /// Append the entry.
    AppendEntry,
    /// Everything was visited.
    Finished,
    /// The home directory could not be appended.
    HomeFailed,
    /// The directory could not be read.
    ReadFailed,
    /// It could not be found out what the entry is.
    InspectFailed,
    /// The entry could not be appended.
    AppendFailed,
}

/// The state of a walk as contracts see it.
pub struct WalkView {
    /// The step to take, or where the walk ended.
    pub step: WalkStep,
    /// The directory that is read.
    pub directory: Seq<Seq<u8>>,
    /// The entry that is looked at.
    pub entry: Seq<Seq<u8>>,
    /// Whether that entry is a directory.
    pub entry_is_directory: bool,
    /// The directories that are still to be read, the next one last.
    pub stack: Seq<Seq<Seq<u8>>>,
}

/// A walk over a home directory.
pub struct Walk {
    step: WalkStep,
    directory: EntryPath,
    entry: EntryPath,
    entry_is_directory: bool,
    stack: Vec<EntryPath>,
}

impl View for Walk {
    type V = WalkView;

    closed spec fn view(&self) -> WalkView {
        WalkView {
            step: self.step,
            directory: self.directory@,
            entry: self.entry@,
            entry_is_directory: self.entry_is_directory,
            stack: self.stack@.map_values(|p: EntryPath| p@),
        }
    }
}

/// The walk that has not begun.
pub open spec fn walk_start() -> WalkView {
    WalkView {
        step: WalkStep::AppendHome,
        directory: Seq::empty(),
        entry: Seq::empty(),
        entry_is_directory: false,
        stack: Seq::empty(),
    }
}

/// The walk at another step.
pub open spec fn at_step(w: WalkView, step: WalkStep) -> WalkView {
    WalkView { step, ..w }
}

/// The walk that turns to the next directory.
pub open spec fn next_directory(w: WalkView) -> WalkView {
    if w.stack.len() == 0 {
        at_step(w, WalkStep::Finished)
    } else {
        WalkView {
            step: WalkStep::ReadDirectory,
            directory: w.stack.last(),
            stack: w.stack.drop_last(),
            ..w
        }
    }
}

/// Whether a step is still to be taken, and not an end.
pub open spec fn walking(step: WalkStep) -> bool {
    step is AppendHome || step is ReadDirectory || step is NextEntry || step is InspectEntry
        || step is AppendEntry
}

/// How the walk goes on after a step.
pub open spec fn walk_next(w: WalkView, reply: ReplyView) -> WalkView {
    match (w.step, reply) {
        (WalkStep::AppendHome, ReplyView::Done) => WalkView {
            step: WalkStep::ReadDirectory,
            directory: Seq::empty(),
            ..w
        },
        (WalkStep::AppendHome, _) => at_step(w, WalkStep::HomeFailed),
        (WalkStep::ReadDirectory, ReplyView::Done) => at_step(w, WalkStep::NextEntry),
        (WalkStep::ReadDirectory, ReplyView::Missing) => next_directory(w),
        (WalkStep::ReadDirectory, _) => at_step(w, WalkStep::ReadFailed),
        (WalkStep::NextEntry, ReplyView::Entry(name)) => WalkView {
            step: WalkStep::InspectEntry,
            entry: w.directory.push(name),
            ..w
        },
        (WalkStep::NextEntry, ReplyView::End) => next_directory(w),
        (WalkStep::NextEntry, _) => at_step(w, WalkStep::ReadFailed),
        (WalkStep::InspectEntry, ReplyView::Kind(EntryKind::Special) | ReplyView::Missing) =>
            at_step(w, WalkStep::NextEntry),
        (WalkStep::InspectEntry, ReplyView::Kind(kind)) => WalkView {
            step: WalkStep::AppendEntry,
            entry_is_directory: kind is Directory,
            ..w
        },
        (WalkStep::InspectEntry, _) => at_step(w, WalkStep::InspectFailed),
        (WalkStep::AppendEntry, ReplyView::Done) => WalkView {
            step: WalkStep::NextEntry,
            stack: if w.entry_is_directory {
                w.stack.push(w.entry)
            } else {
                w.stack
            },
            ..w
        },
        (WalkStep::AppendEntry, ReplyView::Missing) => at_step(w, WalkStep::NextEntry),
        (WalkStep::AppendEntry, _) => at_step(w, WalkStep::AppendFailed),
        _ => w,
    }
}

impl Walk {
    /// A walk that has not begun.
    pub fn start() -> (r: Self)
        ensures
            r@ == walk_start(),
    {
        let r = Walk {
            step: WalkStep::AppendHome,
            directory: EntryPath::home(),
            entry: EntryPath::home(),
            entry_is_directory: false,
            stack: Vec::new(),
        };
        assert(r@.stack == walk_start().stack);
        r
    }

    /// The step to take, or where the walk ended.
    pub fn step(&self) -> (r: WalkStep)
        ensures
            r == self@.step,
    {
        self.step
    }

    /// The directory that is read.
    pub fn directory(&self) -> (r: &EntryPath)
        ensures
            r@ == self@.directory,
    {
        &self.directory
    }

    /// The entry that is looked at.
    pub fn entry(&self) -> (r: &EntryPath)
        ensures
            r@ == self@.entry,
    {
        &self.entry
    }

    /// Turns to the next directory, if there is one.
    fn turn(&mut self)
        ensures
            final(self)@ == next_directory(old(self)@),
    {
        let ghost before = self@;
        match self.stack.pop() {
            Some(directory) => {
                self.directory = directory;
                self.step = WalkStep::ReadDirectory;
                assert(self@.stack == before.stack.drop_last());
            },
            None => {
                self.step = WalkStep::Finished;
                assert(self@.stack == before.stack);
            },
        }
    }

    /// Goes on after a step.
    pub fn advance(&mut self, reply: WalkReply)
        requires
            walking(old(self)@.step),
        ensures
            final(self)@ == walk_next(old(self)@, reply@),
    {
        match self.step {
            WalkStep::AppendHome => match reply {
                WalkReply::Done => {
                    self.directory = EntryPath::home();
                    self.step = WalkStep::ReadDirectory;
                },
                _ => {
                    self.step = WalkStep::HomeFailed;
                },
            },
            WalkStep::ReadDirectory => match reply {
                WalkReply::Done => {
                    self.step = WalkStep::NextEntry;
                },
                WalkReply::Missing => self.turn(),
                _ => {
                    self.step = WalkStep::ReadFailed;
                },
            },
            WalkStep::NextEntry => match reply {
                WalkReply::Entry(name) => {
                    self.entry = self.directory.child(&name);
                    self.step = WalkStep::InspectEntry;
                },
                WalkReply::End => self.turn(),
                _ => {
                    self.step = WalkStep::ReadFailed;
                },
            },
            WalkStep::InspectEntry => match reply {
                WalkReply::Missing => {
                    self.step = WalkStep::NextEntry;
                },
                WalkReply::Kind(kind) => match kind {
                    EntryKind::Special => {
                        self.step = WalkStep::NextEntry;
                    },
                    EntryKind::Directory => {
                        self.entry_is_directory = true;
                        self.step = WalkStep::AppendEntry;
                    },
                    _ => {
                        self.entry_is_directory = false;
                        self.step = WalkStep::AppendEntry;
                    },
                },
                _ => {
                    self.step = WalkStep::InspectFailed;
                },
            },
            WalkStep::AppendEntry => match reply {
                WalkReply::Done => {
                    if self.entry_is_directory {
                        let ghost before = self@;
                        let entry = self.entry.copied();
                        self.stack.push(entry);
                        assert(self@.stack == before.stack.push(before.entry));
                    }
                    self.step = WalkStep::NextEntry;
                },
                WalkReply::Missing => {
                    self.step = WalkStep::NextEntry;
                },
                _ => {
                    self.step = WalkStep::AppendFailed;
                },
            },
            _ => {},
        }
    }
}

/// Steps of a walk, each with what came of it, up to where they have led.
pub open spec fn walk_run(run: Seq<(WalkView, ReplyView)>, last: WalkView) -> bool {
    &&& run.len() == 0 ==> last == walk_start()
    &&& run.len() > 0 ==> run[0].0 == walk_start()
    &&& run.len() > 0 ==> last == walk_next(run.last().0, run.last().1)
    &&& forall|i: int| 0 <= i < run.len() ==> walking((#[trigger] run[i]).0.step)
    &&& forall|i: int, j: int|
        0 <= i && j == i + 1 && j < run.len() ==> (#[trigger] run[j]).0 == walk_next(
            (#[trigger] run[i]).0,
            run[i].1,
        )
}

/// A run without its last step.
proof fn lemma_shorter_run(run: Seq<(WalkView, ReplyView)>, last: WalkView)
    requires
        walk_run(run, last),
        run.len() > 0,
    ensures
        walk_run(run.drop_last(), run.last().0),
        walking(run.last().0.step),
{
    let n = run.len() - 1;
    let rest = run.drop_last();
    assert(rest.len() > 0 ==> rest.last() == run[n - 1]);
    assert(run.last() == run[n]);
    assert forall|i: int, j: int|
        0 <= i && j == i + 1 && j < rest.len() implies (#[trigger] rest[j]).0 == walk_next(
        (#[trigger] rest[i]).0,
        rest[i].1,
    ) by {
        assert(rest[i] == run[i] && rest[j] == run[j]);
    }
    assert forall|i: int| 0 <= i < rest.len() implies walking((#[trigger] rest[i]).0.step) by {
        assert(rest[i] == run[i]);
    }
}

/// The directories that were appended to the archive, the home directory among them.
pub open spec fn archived_directories(run: Seq<(WalkView, ReplyView)>) -> Multiset<Seq<Seq<u8>>>
    decreases run.len(),
{
    if run.len() == 0 {
        Multiset::empty()
    } else {
        let rest = archived_directories(run.drop_last());
        let (w, reply) = run.last();
        if w.step is AppendHome && reply is Done {
            rest.insert(Seq::empty())
        } else if w.step is AppendEntry && reply is Done && w.entry_is_directory {
            rest.insert(w.entry)
        } else {
            rest
        }
    }
}

/// The directories that the walk turned to in order to read them.
pub open spec fn read_directories(run: Seq<(WalkView, ReplyView)>) -> Multiset<Seq<Seq<u8>>>
    decreases run.len(),
{
    if run.len() == 0 {
        Multiset::empty()
    } else {
        let rest = read_directories(run.drop_last());
        let w = run.last().0;
        if w.step is ReadDirectory {
            rest.insert(w.directory)
        } else {
            rest
        }
    }
}

/// The directories that the walk is going to read.
spec fn pending(w: WalkView) -> Multiset<Seq<Seq<u8>>> {
    if w.step is ReadDirectory {
        w.stack.to_multiset().insert(w.directory)
    } else {
        w.stack.to_multiset()
    }
}

/// Every directory in the archive was read once or is going to be, and no other one.
proof fn lemma_read_or_pending(run: Seq<(WalkView, ReplyView)>, last: WalkView)
    requires
        walk_run(run, last),
        walking(last.step) || last.step is Finished,
    ensures
        read_directories(run).add(pending(last)) == archived_directories(run),
    decreases run.len(),
{
    broadcast use vstd::seq_lib::group_to_multiset_ensures;
    broadcast use vstd::multiset::group_multiset_axioms;

    if run.len() == 0 {
        assert(last.stack == Seq::<Seq<Seq<u8>>>::empty());
        assert(last.stack.to_multiset() =~= Multiset::empty());
        assert(read_directories(run).add(pending(last)) =~= archived_directories(run));
    } else {
        lemma_shorter_run(run, last);
        let w = run.last().0;
        lemma_read_or_pending(run.drop_last(), w);
        assert(last == walk_next(w, run.last().1));
        if last.step is ReadDirectory && !(w.step is AppendHome) {
            assert(w.stack.drop_last().push(w.stack.last()) == w.stack);
            assert(w.stack.to_multiset() =~= last.stack.to_multiset().insert(last.directory));
        }
        assert(read_directories(run).add(pending(last)) =~= archived_directories(run));
    }
}

/// A finished walk has turned to every directory in the archive exactly once, so that nothing in
/// it was passed over or taken twice. The home directory is one of them.
pub proof fn walk_reads_each_archived_directory_once(
    run: Seq<(WalkView, ReplyView)>,
    last: WalkView,
)
    requires
        walk_run(run, last),
        last.step is Finished,
    ensures
        read_directories(run) == archived_directories(run),
        archived_directories(run).contains(Seq::empty()),
{
    lemma_read_or_pending(run, last);
    lemma_shorter_run(run, last);
    assert(last.stack =~= Seq::<Seq<Seq<u8>>>::empty());
    broadcast use vstd::seq_lib::group_to_multiset_ensures;
    broadcast use vstd::multiset::group_multiset_axioms;

    assert(last.stack.to_multiset() =~= Multiset::empty());
    assert(read_directories(run).add(pending(last)) =~= read_directories(run));
    lemma_home_is_archived(run, last);
}

/// The home directory is in the archive once the walk goes on from it.
proof fn lemma_home_is_archived(run: Seq<(WalkView, ReplyView)>, last: WalkView)
    requires
        walk_run(run, last),
        walking(last.step) || last.step is Finished,
        !(last.step is AppendHome),
    ensures
        archived_directories(run).contains(Seq::empty()),
    decreases run.len(),
{
    broadcast use vstd::multiset::group_multiset_axioms;

    lemma_shorter_run(run, last);
    let w = run.last().0;
    if !(w.step is AppendHome) {
        lemma_home_is_archived(run.drop_last(), w);
    }
}

/// The entries that the directories listed, in order.
pub open spec fn listed_entries(run: Seq<(WalkView, ReplyView)>) -> Seq<Seq<Seq<u8>>>
    decreases run.len(),
{
    if run.len() == 0 {
        Seq::empty()
    } else {
        let rest = listed_entries(run.drop_last());
        match (run.last().0.step, run.last().1) {
            (WalkStep::NextEntry, ReplyView::Entry(name)) => rest.push(
                run.last().0.directory.push(name),
            ),
            _ => rest,
        }
    }
}

/// The entries that were inspected, in order.
pub open spec fn inspected_entries(run: Seq<(WalkView, ReplyView)>) -> Seq<Seq<Seq<u8>>>
    decreases run.len(),
{
    if run.len() == 0 {
        Seq::empty()
    } else {
        let rest = inspected_entries(run.drop_last());
        if run.last().0.step is InspectEntry {
            rest.push(run.last().0.entry)
        } else {
            rest
        }
    }
}

/// The entries that turned out to be files, directories or symlinks, in order.
pub open spec fn archivable_entries(run: Seq<(WalkView, ReplyView)>) -> Seq<Seq<Seq<u8>>>
    decreases run.len(),
{
    if run.len() == 0 {
        Seq::empty()
    } else {
        let rest = archivable_entries(run.drop_last());
        match (run.last().0.step, run.last().1) {
            (
                WalkStep::InspectEntry,
                ReplyView::Kind(EntryKind::File | EntryKind::Directory | EntryKind::Symlink),
            ) => rest.push(run.last().0.entry),
            _ => rest,
        }
    }
}

/// The entries that were appended, or were to be and turned out to be removed meanwhile, in order.
pub open spec fn appended_or_removed(run: Seq<(WalkView, ReplyView)>) -> Seq<Seq<Seq<u8>>>
    decreases run.len(),
{
    if run.len() == 0 {
        Seq::empty()
    } else {
        let rest = appended_or_removed(run.drop_last());
        match (run.last().0.step, run.last().1) {
            (WalkStep::AppendEntry, ReplyView::Done | ReplyView::Missing) => rest.push(
                run.last().0.entry,
            ),
            _ => rest,
        }
    }
}

/// A finished walk has inspected every entry that a directory listed exactly once, and has
/// appended every one that is a file, a directory or a symlink exactly once, unless it was removed
/// meanwhile. Nothing else was appended below the home directory.
pub proof fn walk_appends_each_archivable_entry_once(
    run: Seq<(WalkView, ReplyView)>,
    last: WalkView,
)
    requires
        walk_run(run, last),
        last.step is Finished,
    ensures
        inspected_entries(run) == listed_entries(run),
        appended_or_removed(run) == archivable_entries(run),
        forall|i: int|
            0 <= i < run.len() && (#[trigger] run[i]).0.step is AppendEntry ==> run[i].1 is Done
                || run[i].1 is Missing,
{
    lemma_entries(run, last);
}

/// How the entries of a walk relate at each of its states: the current one is listed before it is
/// inspected, and inspected before it is appended.
proof fn lemma_entries(run: Seq<(WalkView, ReplyView)>, last: WalkView)
    requires
        walk_run(run, last),
        walking(last.step) || last.step is Finished,
    ensures
        listed_entries(run) == if last.step is InspectEntry {
            inspected_entries(run).push(last.entry)
        } else {
            inspected_entries(run)
        },
        archivable_entries(run) == if last.step is AppendEntry {
            appended_or_removed(run).push(last.entry)
        } else {
            appended_or_removed(run)
        },
        forall|i: int|
            0 <= i < run.len() && (#[trigger] run[i]).0.step is AppendEntry ==> run[i].1 is Done
                || run[i].1 is Missing,
    decreases run.len(),
{
    if run.len() > 0 {
        lemma_shorter_run(run, last);
        lemma_entries(run.drop_last(), run.last().0);
        assert forall|i: int|
            0 <= i < run.len() && (#[trigger] run[i]).0.step is AppendEntry implies run[i].1 is Done
            || run[i].1 is Missing by {
            if i < run.len() - 1 {
                assert(run.drop_last()[i] == run[i]);
            }
        }
    }
}

/// What was listed is left out of the archive only if it is a special file or was removed
/// meanwhile: with any other answer, the walk ends in failure.
pub proof fn only_special_and_missing_entries_are_skipped(w: WalkView, reply: ReplyView)
    requires
        w.step is InspectEntry,
        walk_next(w, reply).step is NextEntry,
    ensures
        reply == ReplyView::Kind(EntryKind::Special) || reply is Missing,
{
}

/// A walk goes through the home directory and everything below it. An entry is inspected before it
/// is appended. It is passed over only if it is special or was removed meanwhile. A directory is
/// read after it was appended, and only then. Any other reply ends the walk.
pub proof fn walk_goes_step_by_step(walk: &mut Walk, reply: WalkReply)
    requires
        call_ensures(Walk::advance, (walk, reply), ()),
    ensures
        old(walk)@.step is AppendHome && reply is Done ==> final(walk)@.step is ReadDirectory
            && final(walk)@.directory.len() == 0 && final(walk)@.stack == old(walk)@.stack,
        old(walk)@.step is AppendHome && !(reply is Done) ==> final(walk)@.step is HomeFailed,
        old(walk)@.step is ReadDirectory && reply is Done ==> final(walk)@.step is NextEntry
            && final(walk)@.directory == old(walk)@.directory && final(walk)@.stack == old(walk)@.stack,
        old(walk)@.step is ReadDirectory && reply is Missing || old(walk)@.step is NextEntry && reply
            is End ==> {
            &&& old(walk)@.stack.len() == 0 ==> final(walk)@.step is Finished
            &&& old(walk)@.stack.len() > 0 ==> final(walk)@.step is ReadDirectory && final(walk)@.directory == old(walk)@.stack.last() && final(walk)@.stack == old(walk)@.stack.drop_last()
        },
        old(walk)@.step is ReadDirectory && !(reply is Done || reply is Missing) ==> final(walk)@.step is ReadFailed,
        old(walk)@.step is NextEntry && reply is Entry ==> final(walk)@.step is InspectEntry && final(walk)@.entry == old(walk)@.directory.push(reply->Entry_0@) && final(walk)@.directory == old(walk)@.directory && final(walk)@.stack == old(walk)@.stack,
        old(walk)@.step is NextEntry && !(reply is Entry || reply is End) ==> final(walk)@.step
            is ReadFailed,
        old(walk)@.step is InspectEntry && (reply is Missing || reply is Kind && reply->Kind_0
            is Special) ==> final(walk)@.step is NextEntry && final(walk)@.stack == old(walk)@.stack && final(walk)@.directory == old(walk)@.directory,
        old(walk)@.step is InspectEntry && reply is Kind && !(reply->Kind_0 is Special) ==> final(walk)@.step is AppendEntry && final(walk)@.entry == old(walk)@.entry && final(walk)@.entry_is_directory == (reply->Kind_0 is Directory) && final(walk)@.stack == old(walk)@.stack && final(walk)@.directory == old(walk)@.directory,
        old(walk)@.step is InspectEntry && !(reply is Missing || reply is Kind) ==> final(walk)@.step
            is InspectFailed,
        old(walk)@.step is AppendEntry && (reply is Done || reply is Missing) ==> final(walk)@.step
            is NextEntry && final(walk)@.directory == old(walk)@.directory,
        old(walk)@.step is AppendEntry && reply is Done && old(walk)@.entry_is_directory ==> final(walk)@.stack == old(walk)@.stack.push(old(walk)@.entry),
        old(walk)@.step is AppendEntry && (reply is Missing || reply is Done && !old(walk)@.entry_is_directory) ==> final(walk)@.stack == old(walk)@.stack,
        old(walk)@.step is AppendEntry && !(reply is Done || reply is Missing) ==> final(walk)@.step
            is AppendFailed,
{
}

/// A walk begins with appending the home directory. Entries stand in the archive below the home
/// directory's own name.
pub proof fn archive_holds_the_home_by_its_name(
    start: Walk,
    path: &EntryPath,
    name: &Vec<u8>,
    child: EntryPath,
    archived: EntryPath,
)
    requires
        call_ensures(Walk::start, (), start),
        call_ensures(EntryPath::child, (path, name), child),
        call_ensures(EntryPath::archived_under, (path, name), archived),
    ensures
        start@.step is AppendHome,
        start@.stack.len() == 0,
        child@.len() == path@.len() + 1,
        child@.drop_last() == path@,
        child@.last() == name@,
        archived@.len() == path@.len() + 1,
        archived@[0] == name@,
        archived@.skip(1) == path@,
{
    assert(child@.drop_last() == path@);
    assert(archived@.skip(1) == path@);
}

/// A walk shows its step, and the directory and entry that it is at.
pub proof fn walk_shows_where_it_is(
    walk: &Walk,
    step: WalkStep,
    directory: &EntryPath,
    entry: &EntryPath,
    copy: EntryPath,
    names: &Vec<Vec<u8>>,
    i: int,
)
    requires
        call_ensures(Walk::step, (walk,), step),
        call_ensures(Walk::directory, (walk,), directory),
        call_ensures(Walk::entry, (walk,), entry),
        call_ensures(EntryPath::copied, (entry,), copy),
        call_ensures(EntryPath::names, (entry,), names),
    ensures
        step == walk@.step,
        directory@ == walk@.directory,
        entry@ == walk@.entry,
        copy@ == entry@,
        names@.len() == entry@.len(),
        0 <= i < names@.len() ==> names@[i]@ == entry@[i],
{
    assert(names_of(names@).len() == names@.len());
    if 0 <= i < names@.len() {
        assert(names_of(names@)[i] == names@[i]@);
    }
}

} // verus!
