//! Archives of home directories: whether and how one is made, what it is called, and which old
//! ones are pruned.
use crate::calendar::{has_four_digit_year, has_stamp_form, in_range, is_stamp, stamp, Timestamp};
use crate::calendar::{stamps_have_stamp_form, stamps_sort_by_time};
use crate::text::{
    chars_of, compare_texts, decimal, decimal_of, is_digit, string_of, text_le, text_lt, texts,
};
use crate::text::{
    decimal_is_digits, decimal_is_injective, first_part_decides, second_part_decides,
    text_le_total, text_le_transitive,
};
use crate::text::same_bytes;
use vstd::prelude::*;
use vstd::seq_lib::{to_multiset_build, to_multiset_insert, to_multiset_len};

verus! {

/// Permissions of the archive directory.
pub const ARCHIVE_DIR_PERMISSIONS: u32 = 0o700;

/// Permissions of an archive.
pub const ARCHIVE_FILE_PERMISSIONS: u32 = 0o600;

/// Number of archives kept per user. Older archives are pruned after a successful archive.
pub const MAX_ARCHIVES_PER_USER: usize = 3;

/// What every archive's name ends with.
pub const ARCHIVE_SUFFIX: &'static str = ".tar.gz";

/// What the names of a user's archives begin with.
pub open spec fn archive_prefix(name: Seq<char>, uid: nat) -> Seq<char> {
    name + seq!['-'] + decimal(uid) + seq!['-']
}

/// The name of a user's archive with the given timestamp.
pub open spec fn archive_name(name: Seq<char>, uid: nat, stamp: Seq<char>) -> Seq<char> {
    archive_prefix(name, uid) + stamp + ARCHIVE_SUFFIX@
}

/// Whether a file is an archive of the user, going by its name.
pub open spec fn is_archive_of(file: Seq<char>, name: Seq<char>, uid: nat) -> bool {
    exists|stamp: Seq<char>|
        #[trigger] has_stamp_form(stamp) && file == archive_name(name, uid, stamp)
}

/// Whether the suffix of an archive name is a timestamp, so archives of a user whose name merely
/// starts with another user's name and uid are never pruned by that user.
pub fn is_archive_timestamp(suffix: &str) -> (r: bool)
    ensures
        r == has_stamp_form(suffix@),
{
    let chars = chars_of(suffix);
    if chars.len() != 16 || chars[8] != 'T' || chars[15] != 'Z' {
        return false;
    }
    all_digits(&chars, 0, 8) && all_digits(&chars, 9, 15)
}

/// Whether all characters from `from` up to, not including, `to` are ASCII digits.
fn all_digits(chars: &Vec<char>, from: usize, to: usize) -> (r: bool)
    requires
        from <= to <= chars@.len(),
    ensures
        r == forall|i: int| from <= i < to ==> is_digit(#[trigger] chars@[i]),
{
    let mut i: usize = from;
    while i < to
        invariant
            from <= i <= to <= chars@.len(),
            forall|j: int| from <= j < i ==> is_digit(#[trigger] chars@[j]),
        decreases to - i,
    {
        let c = chars[i];
        if !('0' <= c && c <= '9') {
            assert(!is_digit(chars@[i as int]));
            return false;
        }
        i = i + 1;
    }
    true
}

/// The name of the archive of a user's home directory that is made at the given time.
pub fn archive_file_name(name: &str, uid: u32, now: Timestamp) -> (r: String)
    requires
        in_range(now),
    ensures
        exists|s: Seq<char>|
            #[trigger] is_stamp(s, now.secs as int) && r@ == archive_name(name@, uid as nat, s),
{
    let s = stamp(now);
    let mut r = prefix_of(name, uid);
    r.append(s.as_str());
    r.append(ARCHIVE_SUFFIX);
    assert(is_stamp(s@, now.secs as int));
    r
}

/// What the names of a user's archives begin with.
fn prefix_of(name: &str, uid: u32) -> (r: String)
    ensures
        r@ == archive_prefix(name@, uid as nat),
{
    let mut r = name.to_owned();
    r.push('-');
    r.append(decimal_of(uid as u64).as_str());
    r.push('-');
    assert(r@ == archive_prefix(name@, uid as nat));
    r
}

/// Whether a file is an archive of the user, going by its name.
pub fn is_archive(file: &str, name: &str, uid: u32) -> (r: bool)
    ensures
        r == is_archive_of(file@, name@, uid as nat),
{
    let prefix = chars_of(prefix_of(name, uid).as_str());
    let suffix = chars_of(ARCHIVE_SUFFIX);
    let chars = chars_of(file);
    let ghost p = archive_prefix(name@, uid as nat);
    proof {
        if is_archive_of(file@, name@, uid as nat) {
            let s = choose|s: Seq<char>|
                #[trigger] has_stamp_form(s) && file@ == archive_name(name@, uid as nat, s);
            lemma_name_parts(name@, uid as nat, s);
        }
    }
    if chars.len() < suffix.len() || chars.len() - suffix.len() < 16 || chars.len() - suffix.len()
        - 16 != prefix.len() {
        return false;
    }
    let n: usize = prefix.len();
    if !same_part(&chars, 0, &prefix) || !same_part(&chars, n + 16, &suffix) {
        return false;
    }
    let middle = string_of(&chars, n, n + 16);
    let r = is_archive_timestamp(middle.as_str());
    proof {
        assert(file@ == p + middle@ + suffix@);
    }
    r
}

/// The parts of an archive's name.
proof fn lemma_name_parts(name: Seq<char>, uid: nat, stamp: Seq<char>)
    ensures
        ({
            let file = archive_name(name, uid, stamp);
            let p = archive_prefix(name, uid);
            let n = p.len() as int;
            let m = n + stamp.len();
            &&& file.len() == m + ARCHIVE_SUFFIX@.len()
            &&& file.subrange(0, n) == p
            &&& file.subrange(n, m) == stamp
            &&& file.subrange(m, file.len() as int) == ARCHIVE_SUFFIX@
        }),
{
    let file = archive_name(name, uid, stamp);
    let p = archive_prefix(name, uid);
    let n = p.len() as int;
    let m = n + stamp.len();
    assert(file.subrange(0, n) == p);
    assert(file.subrange(n, m) == stamp);
    assert(file.subrange(m, file.len() as int) == ARCHIVE_SUFFIX@);
}

/// Whether the characters from `from` on begin with those of `part`.
fn same_part(chars: &Vec<char>, from: usize, part: &Vec<char>) -> (r: bool)
    requires
        from + part@.len() <= chars@.len(),
    ensures
        r == (chars@.subrange(from as int, from + part@.len()) == part@),
{
    let total: usize = chars.len();
    let mut i: usize = 0;
    while i < part.len()
        invariant
            i <= part@.len(),
            from + part@.len() <= chars@.len(),
            total == chars@.len(),
            forall|j: int| 0 <= j < i ==> chars@[from + j] == #[trigger] part@[j],
        decreases part@.len() - i,
    {
        if chars[from + i] != part[i] {
            assert(chars@.subrange(from as int, from + part@.len())[i as int] != part@[i as int]);
            return false;
        }
        i = i + 1;
    }
    assert(chars@.subrange(from as int, from + part@.len()) == part@);
    true
}

/// The names among the files that are archives of the user, in the order of the files.
pub open spec fn archives_of(files: Seq<Seq<char>>, name: Seq<char>, uid: nat) -> Seq<Seq<char>>
    decreases files.len(),
{
    if files.len() == 0 {
        Seq::empty()
    } else {
        let rest = archives_of(files.drop_last(), name, uid);
        if is_archive_of(files.last(), name, uid) {
            rest.push(files.last())
        } else {
            rest
        }
    }
}

/// Whether each text of the list comes before the ones behind it or equals them.
pub open spec fn sorted(list: Seq<Seq<char>>) -> bool {
    forall|i: int, j: int| 0 <= i < j < list.len() ==> text_le(#[trigger] list[i], #[trigger] list[j])
}

/// Whether the files are the ones to prune: all archives of the user but the newest ones, oldest
/// first.
pub open spec fn are_pruned(
    pruned: Seq<Seq<char>>,
    files: Seq<Seq<char>>,
    name: Seq<char>,
    uid: nat,
) -> bool {
    exists|all: Seq<Seq<char>>|
        #![trigger sorted(all)]
        {
            &&& sorted(all)
            &&& all.to_multiset() == archives_of(files, name, uid).to_multiset()
            &&& pruned == if all.len() <= MAX_ARCHIVES_PER_USER {
                Seq::empty()
            } else {
                all.take(all.len() - MAX_ARCHIVES_PER_USER)
            }
        }
}

/// Inserts a text where it keeps the list sorted.
fn insert_sorted(list: &mut Vec<String>, item: String)
    requires
        sorted(texts(old(list)@)),
    ensures
        sorted(texts(final(list)@)),
        texts(final(list)@).to_multiset() == texts(old(list)@).to_multiset().insert(item@),
{
    let ghost before = texts(list@);
    let mut at: usize = 0;
    while at < list.len() && compare_texts(list[at].as_str(), item.as_str())
        invariant
            at <= list@.len(),
            before == texts(list@),
            forall|i: int| 0 <= i < at ==> text_le(#[trigger] before[i], item@),
        decreases list@.len() - at,
    {
        assert(before[at as int] == list@[at as int]@);
        at = at + 1;
    }
    proof {
        if at < list@.len() {
            assert(before[at as int] == list@[at as int]@);
            text_le_total(before[at as int], item@);
        }
    }
    let ghost new = item@;
    list.insert(at, item);
    proof {
        let after = texts(list@);
        assert(after == before.insert(at as int, new));
        to_multiset_insert(before, at as int, new);
        assert forall|i: int, j: int| 0 <= i < j < after.len() implies text_le(
            #[trigger] after[i],
            #[trigger] after[j],
        ) by {
            if j < at {
                assert(text_le(before[i], before[j]));
            } else if i < at && j == at {
                assert(text_le(before[i], new));
            } else if i < at {
                assert(text_le(before[i], before[j - 1]));
            } else if i == at {
                if j - 1 > at {
                    assert(text_le(before[at as int], before[j - 1]));
                    text_le_transitive(new, before[at as int], before[j - 1]);
                }
            } else {
                assert(text_le(before[i - 1], before[j - 1]));
            }
        }
    }
}

/// The archives of the user to remove, given the names of all files in the archive directory. The
/// newest [`MAX_ARCHIVES_PER_USER`] archives are kept.
pub fn archives_to_prune(files: &Vec<String>, name: &str, uid: u32) -> (r: Vec<String>)
    ensures
        are_pruned(texts(r@), texts(files@), name@, uid as nat),
{
    let mut archives: Vec<String> = Vec::new();
    let mut i: usize = 0;
    assert(texts(archives@) == Seq::<Seq<char>>::empty());
    while i < files.len()
        invariant
            i <= files@.len(),
            sorted(texts(archives@)),
            texts(archives@).to_multiset() == archives_of(
                texts(files@.take(i as int)),
                name@,
                uid as nat,
            ).to_multiset(),
        decreases files@.len() - i,
    {
        proof {
            let next = texts(files@.take(i + 1));
            let rest = texts(files@.take(i as int));
            assert(next.drop_last() == rest);
            assert(next.last() == files@[i as int]@);
            to_multiset_build(archives_of(rest, name@, uid as nat), files@[i as int]@);
        }
        if is_archive(files[i].as_str(), name, uid) {
            insert_sorted(&mut archives, files[i].clone());
        }
        i = i + 1;
    }
    assert(files@.take(files@.len() as int) == files@);
    let ghost all = texts(archives@);
    let mut r: Vec<String> = Vec::new();
    if archives.len() > MAX_ARCHIVES_PER_USER {
        let n: usize = archives.len() - MAX_ARCHIVES_PER_USER;
        let mut k: usize = 0;
        while k < n
            invariant
                k <= n <= archives@.len(),
                r@ == archives@.take(k as int),
            decreases n - k,
        {
            r.push(archives[k].clone());
            k = k + 1;
        }
        assert(texts(r@) == all.take(n as int));
    } else {
        assert(texts(r@) == Seq::<Seq<char>>::empty());
    }
    assert(sorted(all));
    r
}

/// A file is the archive of one user at most: neither a longer name nor a longer uid can make the
/// archive of one user pass for that of another.
pub proof fn archive_belongs_to_one_user(
    file: Seq<char>,
    name: Seq<char>,
    uid: nat,
    other_name: Seq<char>,
    other_uid: nat,
)
    requires
        is_archive_of(file, name, uid),
        is_archive_of(file, other_name, other_uid),
    ensures
        name == other_name,
        uid == other_uid,
{
    let s = choose|s: Seq<char>| #[trigger] has_stamp_form(s) && file == archive_name(name, uid, s);
    let t = choose|t: Seq<char>|
        #[trigger] has_stamp_form(t) && file == archive_name(other_name, other_uid, t);
    lemma_name_parts(name, uid, s);
    lemma_name_parts(other_name, other_uid, t);
    let p = archive_prefix(name, uid);
    let q = archive_prefix(other_name, other_uid);
    assert(p == q);
    let d = decimal(uid);
    let e = decimal(other_uid);
    decimal_is_digits(uid);
    decimal_is_digits(other_uid);
    if d.len() < e.len() {
        assert(p[p.len() - 2 - d.len()] == '-');
        assert(q[q.len() - 2 - d.len()] == e[e.len() - 1 - d.len()]);
    } else if e.len() < d.len() {
        assert(q[q.len() - 2 - e.len()] == '-');
        assert(p[p.len() - 2 - e.len()] == d[d.len() - 1 - e.len()]);
    }
    let n = name.len() as int;
    assert(p.subrange(0, n) == name);
    assert(q.subrange(0, n) == other_name);
    assert(p.subrange(n + 1, n + 1 + d.len()) == d);
    assert(q.subrange(n + 1, n + 1 + d.len()) == e);
    decimal_is_injective(uid, other_uid);
}

/// A new archive counts as an archive of its user, in years of four digits.
pub proof fn new_archive_counts(name: Seq<char>, uid: nat, stamp: Seq<char>, secs: int)
    requires
        is_stamp(stamp, secs),
        has_four_digit_year(secs),
    ensures
        is_archive_of(archive_name(name, uid, stamp), name, uid),
{
    stamps_have_stamp_form(stamp, secs);
}

/// The archives of one user sort by the time they were made, in years of four digits.
pub proof fn archives_sort_by_time(
    name: Seq<char>,
    uid: nat,
    a: Seq<char>,
    s: int,
    b: Seq<char>,
    t: int,
)
    requires
        is_stamp(a, s),
        is_stamp(b, t),
        has_four_digit_year(s),
        has_four_digit_year(t),
        s < t,
    ensures
        text_lt(archive_name(name, uid, a), archive_name(name, uid, b)),
{
    let p = archive_prefix(name, uid);
    let z = ARCHIVE_SUFFIX@;
    stamps_sort_by_time(a, s, b, t);
    stamps_have_stamp_form(a, s);
    stamps_have_stamp_form(b, t);
    first_part_decides(a, z, b, z);
    second_part_decides(p, a + z, b + z);
    assert(p + a + z == p + (a + z));
    assert(p + b + z == p + (b + z));
}

/// Pruning splits the archives of the user in two: what is pruned, and what is kept. The newest
/// archives are kept, as many as there may be. No other file is pruned.
pub proof fn pruning_keeps_the_newest(
    pruned: Seq<Seq<char>>,
    files: Seq<Seq<char>>,
    name: Seq<char>,
    uid: nat,
) -> (kept: Seq<Seq<char>>)
    requires
        are_pruned(pruned, files, name, uid),
    ensures
        archives_of(files, name, uid).to_multiset() == pruned.to_multiset().add(
            kept.to_multiset(),
        ),
        kept.len() == if archives_of(files, name, uid).len() < MAX_ARCHIVES_PER_USER {
            archives_of(files, name, uid).len() as int
        } else {
            MAX_ARCHIVES_PER_USER as int
        },
        forall|i: int, j: int|
            0 <= i < pruned.len() && 0 <= j < kept.len() ==> text_le(
                #[trigger] pruned[i],
                #[trigger] kept[j],
            ),
        forall|i: int|
            0 <= i < pruned.len() ==> is_archive_of(#[trigger] pruned[i], name, uid)
                && files.contains(pruned[i]),
{
    let found = archives_of(files, name, uid);
    let all = choose|all: Seq<Seq<char>>|
        #![trigger sorted(all)]
        {
            &&& sorted(all)
            &&& all.to_multiset() == found.to_multiset()
            &&& pruned == if all.len() <= MAX_ARCHIVES_PER_USER {
                Seq::empty()
            } else {
                all.take(all.len() - MAX_ARCHIVES_PER_USER)
            }
        };
    to_multiset_len(all);
    to_multiset_len(found);
    let n = pruned.len() as int;
    let kept = all.skip(n);
    assert(all == pruned + kept);
    vstd::seq_lib::lemma_multiset_commutative(pruned, kept);
    assert forall|i: int, j: int| 0 <= i < pruned.len() && 0 <= j < kept.len() implies text_le(
        #[trigger] pruned[i],
        #[trigger] kept[j],
    ) by {
        assert(pruned[i] == all[i]);
        assert(kept[j] == all[n + j]);
    }
    assert forall|i: int| 0 <= i < pruned.len() implies is_archive_of(
        #[trigger] pruned[i],
        name,
        uid,
    ) && files.contains(pruned[i]) by {
        assert(pruned[i] == all[i]);
        vstd::seq_lib::to_multiset_contains(all, all[i]);
        vstd::seq_lib::to_multiset_contains(found, all[i]);
        assert(all.contains(all[i]));
        lemma_archives_are_files(files, name, uid, all[i]);
    }
    kept
}

/// The archives of a user are files with such names.
proof fn lemma_archives_are_files(files: Seq<Seq<char>>, name: Seq<char>, uid: nat, file: Seq<char>)
    requires
        archives_of(files, name, uid).contains(file),
    ensures
        files.contains(file),
        is_archive_of(file, name, uid),
    decreases files.len(),
{
    let rest = files.drop_last();
    let found = archives_of(rest, name, uid);
    if found.contains(file) {
        lemma_archives_are_files(rest, name, uid, file);
        let i = rest.index_of(file);
        assert(files[i] == file);
    } else {
        let all = archives_of(files, name, uid);
        let i = all.index_of(file);
        if is_archive_of(files.last(), name, uid) {
            if i < found.len() {
                assert(found[i] == file);
            }
            assert(file == files.last());
            assert(files[files.len() - 1] == file);
        } else {
            assert(found[i] == file);
        }
    }
}

/// What stands at the path of a home directory.
#[derive(Debug, Clone, Copy, PartialEq, Eq, Structural)]
pub enum HomeEntry {
    /// Nothing.
    Missing,
    /// It could not be found out.
    Unreadable,
    /// A symlink.
    Symlink,
    /// A directory.
    Directory,
    /// Something else.
    Other,
}

/// A component of a path.
pub enum PathPart {
    /// The root directory.
    Root,
    /// The directory itself.
    Current,
    /// The directory above.
    Parent,
    /// A name.
    Name(Vec<u8>),
}

/// A component of a path as contracts see it.
pub enum PartView {
    Root,
    Current,
    Parent,
    Name(Seq<u8>),
}

impl View for PathPart {
    type V = PartView;

    open spec fn view(&self) -> PartView {
        match self {
            PathPart::Root => PartView::Root,
            PathPart::Current => PartView::Current,
            PathPart::Parent => PartView::Parent,
            PathPart::Name(name) => PartView::Name(name@),
        }
    }
}

/// The components of a path.
pub open spec fn parts_of(path: Seq<PathPart>) -> Seq<PartView> {
    path.map_values(|p: PathPart| p@)
}

/// Whether a path starts with all the components of another.
pub open spec fn path_starts_with(path: Seq<PartView>, base: Seq<PartView>) -> bool {
    base.len() <= path.len() && path.take(base.len() as int) == base
}

/// Whether both are the same component.
fn same_path_part(a: &PathPart, b: &PathPart) -> (r: bool)
    ensures
        r == (a@ == b@),
{
    match (a, b) {
        (PathPart::Root, PathPart::Root) => true,
        (PathPart::Current, PathPart::Current) => true,
        (PathPart::Parent, PathPart::Parent) => true,
        (PathPart::Name(x), PathPart::Name(y)) => same_bytes(x, y),
        _ => false,
    }
}

/// Whether a path starts with all the components of another.
fn starts_with(path: &Vec<PathPart>, base: &Vec<PathPart>) -> (r: bool)
    ensures
        r == path_starts_with(parts_of(path@), parts_of(base@)),
{
    if base.len() > path.len() {
        return false;
    }
    let ghost p = parts_of(path@);
    let ghost b = parts_of(base@);
    let mut i: usize = 0;
    while i < base.len()
        invariant
            i <= base@.len() <= path@.len(),
            p == parts_of(path@),
            b == parts_of(base@),
            forall|j: int| 0 <= j < i ==> #[trigger] p[j] == b[j],
        decreases base@.len() - i,
    {
        assert(p[i as int] == path@[i as int]@ && b[i as int] == base@[i as int]@);
        if !same_path_part(&path[i], &base[i]) {
            assert(p.take(b.len() as int)[i as int] != b[i as int]);
            return false;
        }
        i = i + 1;
    }
    assert(p.take(b.len() as int) == b);
    true
}

/// Why a home directory is not archived.
#[derive(Debug, Clone, Copy, PartialEq, Eq, Structural)]
pub enum Refusal {
    /// It could not be read.
    Unreadable,
    /// It is a symlink, and what it points to may be anything.
    Symlink,
    /// It is not a directory.
    NotADirectory,
    /// It contains the archive directory.
    ContainsArchiveDirectory,
    /// Its path does not end in a name.
    NoName,
}

/// The step at which making an archive failed.
#[derive(Debug, Clone, Copy, PartialEq, Eq, Structural)]
pub enum ArchiveFailure {
    /// Creating the archive directory.
    CreateDirectory,
    /// Setting its permissions.
    SetDirectoryMode,
    /// Setting its owner.
    SetDirectoryOwner,
    /// Creating the archive file.
    CreateFile,
    /// Writing the archive.
    Write,
    /// Setting the archive's owner.
    SetFileOwner,
    /// Flushing the archive directory.
    FlushDirectory,
}

/// A step of making an archive, or where that ends.
#[derive(Debug, Clone, Copy, PartialEq, Eq, Structural)]
pub enum ArchiveStep {
    /// Create the archive directory where it does not exist.
    CreateDirectory,
    /// Set the permissions of the archive directory.
    SetDirectoryMode,
    /// Set the owner of the archive directory.
    SetDirectoryOwner,
    /// Create the archive file. It must not exist.
    CreateFile,
    /// Write the archive and flush it to disk.
    Write,
    /// Set the owner of the archive.
    SetFileOwner,
    /// Flush the archive directory to disk.
    FlushDirectory,
    /// Remove the archive after a step failed.
    DropPartial(ArchiveFailure),
    /// Prune old archives, which may fail.
    Prune,
    /// The archive is made.
    Archived,
    /// There is no home directory.
    NothingToArchive,
    /// The home directory is not to be archived.
    Refused(Refusal),
    /// A step failed.
    Failed(ArchiveFailure),
}

/// The first step for a home directory.
pub open spec fn first_step(
    entry: HomeEntry,
    home: Seq<PartView>,
    archive_dir: Seq<PartView>,
) -> ArchiveStep {
    match entry {
        HomeEntry::Missing => ArchiveStep::NothingToArchive,
        HomeEntry::Unreadable => ArchiveStep::Refused(Refusal::Unreadable),
        HomeEntry::Symlink => ArchiveStep::Refused(Refusal::Symlink),
        HomeEntry::Other => ArchiveStep::Refused(Refusal::NotADirectory),
        HomeEntry::Directory => if path_starts_with(archive_dir, home) {
            ArchiveStep::Refused(Refusal::ContainsArchiveDirectory)
        } else if home.len() == 0 || !(home.last() is Name) {
            ArchiveStep::Refused(Refusal::NoName)
        } else {
            ArchiveStep::CreateDirectory
        },
    }
}

/// Whether making an archive has come to an end.
pub open spec fn archiving_ended(step: ArchiveStep) -> bool {
    step is Archived || step is NothingToArchive || step is Refused || step is Failed
}

/// What follows a step of making an archive.
pub open spec fn archive_next(step: ArchiveStep, done: bool) -> ArchiveStep {
    match step {
        ArchiveStep::CreateDirectory => if done {
            ArchiveStep::SetDirectoryMode
        } else {
            ArchiveStep::Failed(ArchiveFailure::CreateDirectory)
        },
        ArchiveStep::SetDirectoryMode => if done {
            ArchiveStep::SetDirectoryOwner
        } else {
            ArchiveStep::Failed(ArchiveFailure::SetDirectoryMode)
        },
        ArchiveStep::SetDirectoryOwner => if done {
            ArchiveStep::CreateFile
        } else {
            ArchiveStep::Failed(ArchiveFailure::SetDirectoryOwner)
        },
        ArchiveStep::CreateFile => if done {
            ArchiveStep::Write
        } else {
            ArchiveStep::Failed(ArchiveFailure::CreateFile)
        },
        ArchiveStep::Write => if done {
            ArchiveStep::SetFileOwner
        } else {
            ArchiveStep::DropPartial(ArchiveFailure::Write)
        },
        ArchiveStep::SetFileOwner => if done {
            ArchiveStep::FlushDirectory
        } else {
            ArchiveStep::DropPartial(ArchiveFailure::SetFileOwner)
        },
        ArchiveStep::FlushDirectory => if done {
            ArchiveStep::Prune
        } else {
            ArchiveStep::DropPartial(ArchiveFailure::FlushDirectory)
        },
        ArchiveStep::DropPartial(failure) => ArchiveStep::Failed(failure),
        ArchiveStep::Prune => ArchiveStep::Archived,
        end => end,
    }
}

/// Who is to own the archives: root, if the process runs as root. Otherwise they stay with the
/// user it runs as.
pub fn archive_owner(euid: u32) -> (r: Option<(u32, u32)>)
    ensures
        r == if euid == 0 {
            Some((0u32, 0u32))
        } else {
            None
        },
{
    if euid == 0 {
        Some((0, 0))
    } else {
        None
    }
}

/// Paths of the file system.
#[verifier::external_type_specification]
#[verifier::external_body]
pub struct ExPathBuf(std::path::PathBuf);

/// What `PathBuf::join` makes of a directory and the name of a file.
pub uninterp spec fn joined_path(directory: std::path::PathBuf, file: Seq<char>) -> std::path::PathBuf;

/// Calls `join` on the directory.
///
/// Claimed: the outcome depends on the directory and the name alone.
#[verifier::external_body]
fn join_path(directory: &std::path::PathBuf, file: &str) -> (r: std::path::PathBuf)
    ensures
        r == joined_path(*directory, file@),
{
    directory.join(file)
}

/// Whether a path is that of the archive of a user's home directory that is made at the given
/// time.
pub open spec fn is_archive_path(
    path: std::path::PathBuf,
    directory: std::path::PathBuf,
    name: Seq<char>,
    uid: u32,
    now: Timestamp,
) -> bool {
    exists|s: Seq<char>| #[trigger]
        is_stamp(s, now.secs as int) && path == joined_path(
            directory,
            archive_name(name, uid as nat, s),
        )
}

/// Proof that a user's home directory was archived, or that there was nothing to archive. It can
/// only be obtained from an [`Archiving`] that has come to such an end.
#[must_use]
pub struct ArchiveReceipt {
    archive_path: Option<std::path::PathBuf>,
}

impl View for ArchiveReceipt {
    type V = Option<std::path::PathBuf>;

    closed spec fn view(&self) -> Option<std::path::PathBuf> {
        self.archive_path
    }
}

impl ArchiveReceipt {
    /// Path of the created archive, `None` if the home directory did not exist.
    pub fn archive_path(&self) -> (r: Option<&std::path::PathBuf>)
        ensures
            match r {
                Some(path) => self@ == Some(*path),
                None => self@ is None,
            },
    {
        match &self.archive_path {
            Some(path) => Some(path),
            None => None,
        }
    }
}

/// The making of an archive.
pub struct Archiving {
    step: ArchiveStep,
    archive_path: std::path::PathBuf,
}

impl Archiving {
    /// The step to take, or where the archive ended.
    pub closed spec fn at(&self) -> ArchiveStep {
        self.step
    }

    /// Where the archive is to be.
    pub closed spec fn path(&self) -> std::path::PathBuf {
        self.archive_path
    }

    /// Begins with what stands at the path of the home directory of the user with the given name
    /// and UID. The parts are those of the home directory and of the archive directory.
    pub fn start(
        entry: HomeEntry,
        home: &Vec<PathPart>,
        archive_dir: &Vec<PathPart>,
        directory: &std::path::PathBuf,
        name: &str,
        uid: u32,
        now: Timestamp,
    ) -> (r: Self)
        requires
            in_range(now),
        ensures
            r.at() == first_step(entry, parts_of(home@), parts_of(archive_dir@)),
            is_archive_path(r.path(), *directory, name@, uid, now),
    {
        let step = match entry {
            HomeEntry::Missing => ArchiveStep::NothingToArchive,
            HomeEntry::Unreadable => ArchiveStep::Refused(Refusal::Unreadable),
            HomeEntry::Symlink => ArchiveStep::Refused(Refusal::Symlink),
            HomeEntry::Other => ArchiveStep::Refused(Refusal::NotADirectory),
            HomeEntry::Directory => if starts_with(archive_dir, home) {
                ArchiveStep::Refused(Refusal::ContainsArchiveDirectory)
            } else if home.len() == 0 {
                ArchiveStep::Refused(Refusal::NoName)
            } else {
                assert(parts_of(home@).last() == home@[home@.len() - 1]@);
                match &home[home.len() - 1] {
                    PathPart::Name(_) => ArchiveStep::CreateDirectory,
                    _ => ArchiveStep::Refused(Refusal::NoName),
                }
            },
        };
        let file = archive_file_name(name, uid, now);
        let archive_path = join_path(directory, file.as_str());
        Archiving { step, archive_path }
    }

    /// Where the archive is to be.
    pub fn archive_path(&self) -> (r: &std::path::PathBuf)
        ensures
            *r == self.path(),
    {
        &self.archive_path
    }

    /// The step to take, or where the archive ended.
    pub fn step(&self) -> (r: ArchiveStep)
        ensures
            r == self.at(),
    {
        self.step
    }

    /// Goes on after a step.
    pub fn advance(&mut self, done: bool)
        requires
            !archiving_ended(old(self).at()),
        ensures
            final(self).at() == archive_next(old(self).at(), done),
            final(self).path() == old(self).path(),
    {
        self.step = match self.step {
            ArchiveStep::CreateDirectory => if done {
                ArchiveStep::SetDirectoryMode
            } else {
                ArchiveStep::Failed(ArchiveFailure::CreateDirectory)
            },
            ArchiveStep::SetDirectoryMode => if done {
                ArchiveStep::SetDirectoryOwner
            } else {
                ArchiveStep::Failed(ArchiveFailure::SetDirectoryMode)
            },
            ArchiveStep::SetDirectoryOwner => if done {
                ArchiveStep::CreateFile
            } else {
                ArchiveStep::Failed(ArchiveFailure::SetDirectoryOwner)
            },
            ArchiveStep::CreateFile => if done {
                ArchiveStep::Write
            } else {
                ArchiveStep::Failed(ArchiveFailure::CreateFile)
            },
            ArchiveStep::Write => if done {
                ArchiveStep::SetFileOwner
            } else {
                ArchiveStep::DropPartial(ArchiveFailure::Write)
            },
            ArchiveStep::SetFileOwner => if done {
                ArchiveStep::FlushDirectory
            } else {
                ArchiveStep::DropPartial(ArchiveFailure::SetFileOwner)
            },
            ArchiveStep::FlushDirectory => if done {
                ArchiveStep::Prune
            } else {
                ArchiveStep::DropPartial(ArchiveFailure::FlushDirectory)
            },
            ArchiveStep::DropPartial(failure) => ArchiveStep::Failed(failure),
            ArchiveStep::Prune => ArchiveStep::Archived,
            end => end,
        };
    }

    /// The receipt of a home directory that was archived or did not exist.
    pub fn receipt(self) -> (r: Option<ArchiveReceipt>)
        ensures
            match self.at() {
                ArchiveStep::Archived => r is Some && r->0@ == Some(self.path()),
                ArchiveStep::NothingToArchive => r is Some && r->0@ is None,
                _ => r is None,
            },
    {
        match self.step {
            ArchiveStep::Archived => Some(ArchiveReceipt { archive_path: Some(self.archive_path) }),
            ArchiveStep::NothingToArchive => Some(ArchiveReceipt { archive_path: None }),
            _ => None,
        }
    }
}

/// Steps of making an archive, each with whether it succeeded, up to where they have led.
pub open spec fn archive_run(
    run: Seq<(ArchiveStep, bool)>,
    first: ArchiveStep,
    last: ArchiveStep,
) -> bool {
    &&& run.len() == 0 ==> last == first
    &&& run.len() > 0 ==> run[0].0 == first
    &&& run.len() > 0 ==> last == archive_next(run.last().0, run.last().1)
    &&& forall|i: int| 0 <= i < run.len() ==> !archiving_ended((#[trigger] run[i]).0)
    &&& forall|i: int, j: int|
        0 <= i && j == i + 1 && j < run.len() ==> (#[trigger] run[j]).0 == archive_next(
            (#[trigger] run[i]).0,
            run[i].1,
        )
}

/// How many steps precede one of the steps that are taken while nothing has failed.
spec fn place(step: ArchiveStep) -> int {
    match step {
        ArchiveStep::CreateDirectory => 0,
        ArchiveStep::SetDirectoryMode => 1,
        ArchiveStep::SetDirectoryOwner => 2,
        ArchiveStep::CreateFile => 3,
        ArchiveStep::Write => 4,
        ArchiveStep::SetFileOwner => 5,
        ArchiveStep::FlushDirectory => 6,
        ArchiveStep::Prune => 7,
        ArchiveStep::Archived => 8,
        _ => -1,
    }
}

/// While nothing has failed, every step so far has led to the next one.
proof fn lemma_place(run: Seq<(ArchiveStep, bool)>, first: ArchiveStep, last: ArchiveStep)
    requires
        archive_run(run, first, last),
        place(first) <= 0,
        place(last) >= 0,
    ensures
        run.len() == place(last),
        forall|i: int| 0 <= i < run.len() ==> place((#[trigger] run[i]).0) == i,
        forall|i: int| 0 <= i < run.len() && i < 7 ==> (#[trigger] run[i]).1,
    decreases run.len(),
{
    if run.len() > 0 {
        let n = run.len() - 1;
        let rest = run.take(n);
        assert(rest.len() > 0 ==> rest.last() == run[n - 1]);
        assert forall|i: int, j: int|
            0 <= i && j == i + 1 && j < rest.len() implies (#[trigger] rest[j]).0 == archive_next(
            (#[trigger] rest[i]).0,
            rest[i].1,
        ) by {
            assert(rest[i] == run[i] && rest[j] == run[j]);
        }
        assert(!archiving_ended(run[n].0));
        lemma_place(rest, first, run[n].0);
        assert forall|i: int| 0 <= i < run.len() implies place((#[trigger] run[i]).0) == i by {
            if i < n {
                assert(rest[i] == run[i]);
            }
        }
        assert forall|i: int| 0 <= i < run.len() && i < 7 implies (#[trigger] run[i]).1 by {
            if i < n {
                assert(rest[i] == run[i]);
            }
        }
    }
}

/// A receipt for an archive is given only when the directory was secured and the archive was
/// created, written, secured and made persistent. Old archives are pruned only then.
pub proof fn archived_means_every_step_succeeded(
    run: Seq<(ArchiveStep, bool)>,
    entry: HomeEntry,
    home: Seq<PartView>,
    archive_dir: Seq<PartView>,
)
    requires
        archive_run(run, first_step(entry, home, archive_dir), ArchiveStep::Archived),
    ensures
        entry is Directory,
        run.contains((ArchiveStep::SetDirectoryMode, true)),
        run.contains((ArchiveStep::SetDirectoryOwner, true)),
        run.contains((ArchiveStep::CreateFile, true)),
        run.contains((ArchiveStep::Write, true)),
        run.contains((ArchiveStep::SetFileOwner, true)),
        run.contains((ArchiveStep::FlushDirectory, true)),
{
    lemma_place(run, first_step(entry, home, archive_dir), ArchiveStep::Archived);
    assert(run[0].0 == first_step(entry, home, archive_dir));
    assert(run[1] == (ArchiveStep::SetDirectoryMode, true));
    assert(run[2] == (ArchiveStep::SetDirectoryOwner, true));
    assert(run[3] == (ArchiveStep::CreateFile, true));
    assert(run[4] == (ArchiveStep::Write, true));
    assert(run[5] == (ArchiveStep::SetFileOwner, true));
    assert(run[6] == (ArchiveStep::FlushDirectory, true));
}

/// Nothing is touched for a home directory that is refused or does not exist.
pub proof fn refusal_changes_nothing(
    run: Seq<(ArchiveStep, bool)>,
    entry: HomeEntry,
    home: Seq<PartView>,
    archive_dir: Seq<PartView>,
    last: ArchiveStep,
)
    requires
        archive_run(run, first_step(entry, home, archive_dir), last),
        archiving_ended(first_step(entry, home, archive_dir)),
    ensures
        run.len() == 0,
        last == first_step(entry, home, archive_dir),
{
    if run.len() > 0 {
        assert(!archiving_ended(run[0].0));
    }
}

/// An archive is removed after a failure only if it was created by the same run, so an existing
/// archive is never removed this way.
pub proof fn only_own_archive_is_dropped(
    run: Seq<(ArchiveStep, bool)>,
    entry: HomeEntry,
    home: Seq<PartView>,
    archive_dir: Seq<PartView>,
    failure: ArchiveFailure,
)
    requires
        archive_run(run, first_step(entry, home, archive_dir), ArchiveStep::DropPartial(failure)),
    ensures
        run.contains((ArchiveStep::CreateFile, true)),
{
    let first = first_step(entry, home, archive_dir);
    let n = run.len() - 1;
    let rest = run.take(n);
    assert(!archiving_ended(run[n].0));
    assert(rest.len() > 0 ==> rest.last() == run[n - 1]);
    assert forall|i: int, j: int|
        0 <= i && j == i + 1 && j < rest.len() implies (#[trigger] rest[j]).0 == archive_next(
        (#[trigger] rest[i]).0,
        rest[i].1,
    ) by {
        assert(rest[i] == run[i] && rest[j] == run[j]);
    }
    lemma_place(rest, first, run[n].0);
    assert(rest[3] == (ArchiveStep::CreateFile, true));
    assert(run[3] == rest[3]);
}

/// An archive is named after the user, their UID and the time, and read back as an archive of that
/// user.
pub proof fn archives_are_named_after_their_user(
    name: &str,
    uid: u32,
    now: Timestamp,
    file: String,
    text: &str,
    counts: bool,
)
    requires
        call_ensures(archive_file_name, (name, uid, now), file),
        text@ == file@,
        call_ensures(is_archive, (text, name, uid), counts),
    ensures
        exists|stamp: Seq<char>| #[trigger]
            is_stamp(stamp, now.secs as int) && file@ == name@ + seq!['-'] + decimal(uid as nat)
                + seq!['-'] + stamp + ".tar.gz"@,
        has_four_digit_year(now.secs as int) ==> counts,
{
    let stamp = choose|s: Seq<char>|
        #[trigger] is_stamp(s, now.secs as int) && file@ == archive_name(name@, uid as nat, s);
    assert(file@ == name@ + seq!['-'] + decimal(uid as nat) + seq!['-'] + stamp + ".tar.gz"@);
    if has_four_digit_year(now.secs as int) {
        new_archive_counts(name@, uid as nat, stamp, now.secs as int);
    }
}

/// A file is an archive of a user if and only if it is named after them, their UID and a timestamp.
pub proof fn archives_are_told_by_their_name(file: &str, name: &str, uid: u32, r: bool)
    requires
        call_ensures(is_archive, (file, name, uid), r),
    ensures
        r <==> exists|stamp: Seq<char>|
            {
                &&& file@ == #[trigger] (name@ + seq!['-'] + decimal(uid as nat) + seq!['-'] + stamp
                    + ".tar.gz"@)
                &&& stamp.len() == 16
                &&& forall|i: int| 0 <= i < 8 ==> '0' <= #[trigger] stamp[i] <= '9'
                &&& stamp[8] == 'T'
                &&& forall|i: int| 9 <= i < 15 ==> '0' <= #[trigger] stamp[i] <= '9'
                &&& stamp[15] == 'Z'
            },
{
    if r {
        let stamp = choose|stamp: Seq<char>|
            #[trigger] has_stamp_form(stamp) && file@ == archive_name(name@, uid as nat, stamp);
        assert(file@ == name@ + seq!['-'] + decimal(uid as nat) + seq!['-'] + stamp + ".tar.gz"@);
    }
    if exists|stamp: Seq<char>|
        {
            &&& file@ == #[trigger] (name@ + seq!['-'] + decimal(uid as nat) + seq!['-'] + stamp
                + ".tar.gz"@)
            &&& stamp.len() == 16
            &&& forall|i: int| 0 <= i < 8 ==> '0' <= #[trigger] stamp[i] <= '9'
            &&& stamp[8] == 'T'
            &&& forall|i: int| 9 <= i < 15 ==> '0' <= #[trigger] stamp[i] <= '9'
            &&& stamp[15] == 'Z'
        } {
        let stamp = choose|stamp: Seq<char>|
            {
                &&& file@ == #[trigger] (name@ + seq!['-'] + decimal(uid as nat) + seq!['-'] + stamp
                    + ".tar.gz"@)
                &&& stamp.len() == 16
                &&& forall|i: int| 0 <= i < 8 ==> '0' <= #[trigger] stamp[i] <= '9'
                &&& stamp[8] == 'T'
                &&& forall|i: int| 9 <= i < 15 ==> '0' <= #[trigger] stamp[i] <= '9'
                &&& stamp[15] == 'Z'
            };
        assert(has_stamp_form(stamp));
    }
}

/// Nothing is pruned of up to three archives of a user. Of more, all but three are, and each of the
/// three that stay is none of the older ones. Only archives of the user are pruned.
pub proof fn three_newest_archives_stay(
    files: &Vec<String>,
    name: &str,
    uid: u32,
    pruned: Vec<String>,
) -> (kept: Seq<Seq<char>>)
    requires
        call_ensures(archives_to_prune, (files, name, uid), pruned),
    ensures
        archives_of(texts(files@), name@, uid as nat).to_multiset() == texts(
            pruned@,
        ).to_multiset().add(kept.to_multiset()),
        kept.len() <= 3,
        pruned@.len() > 0 ==> kept.len() == 3,
        pruned@.len() + kept.len() == archives_of(texts(files@), name@, uid as nat).len(),
        forall|i: int, j: int|
            0 <= i < pruned@.len() && 0 <= j < kept.len() ==> text_le(
                (#[trigger] pruned@[i])@,
                #[trigger] kept[j],
            ),
        forall|i: int|
            0 <= i < pruned@.len() ==> is_archive_of((#[trigger] pruned@[i])@, name@, uid as nat)
                && texts(files@).contains(pruned@[i]@),
{
    let list = texts(pruned@);
    let all = archives_of(texts(files@), name@, uid as nat);
    let kept = pruning_keeps_the_newest(list, texts(files@), name@, uid as nat);
    assert(list.len() == pruned@.len());
    assert forall|i: int| 0 <= i < pruned@.len() implies (#[trigger] pruned@[i])@ == list[i] by {}
    to_multiset_len(all);
    to_multiset_len(list);
    to_multiset_len(kept);
    kept
}

/// Which files are archives of a user: those that are so by their name, in order and as often as
/// they are listed.
pub proof fn archives_are_those_named_so(
    files: Seq<Seq<char>>,
    file: Seq<char>,
    name: Seq<char>,
    uid: nat,
)
    ensures
        archives_of(Seq::empty(), name, uid).len() == 0,
        is_archive_of(file, name, uid) ==> archives_of(files.push(file), name, uid)
            == archives_of(files, name, uid).push(file),
        !is_archive_of(file, name, uid) ==> archives_of(files.push(file), name, uid)
            == archives_of(files, name, uid),
{
    assert(files.push(file).drop_last() == files);
}

/// A home directory is archived only if it is a directory with a name that does not contain the
/// archive directory. A missing one is nothing to archive, and everything else is refused.
pub proof fn only_proper_homes_are_archived(
    entry: HomeEntry,
    home: &Vec<PathPart>,
    archive_dir: &Vec<PathPart>,
    directory: &std::path::PathBuf,
    name: &str,
    uid: u32,
    now: Timestamp,
    r: Archiving,
)
    requires
        call_ensures(
            Archiving::start,
            (entry, home, archive_dir, directory, name, uid, now),
            r,
        ),
    ensures
        ({
            let inside = home@.len() <= archive_dir@.len() && forall|i: int|
                0 <= i < home@.len() ==> (#[trigger] home@[i])@ == archive_dir@[i]@;
            let named = home@.len() > 0 && home@.last() is Name;
            &&& r.at() is NothingToArchive <==> entry is Missing
            &&& r.at() is CreateDirectory <==> entry is Directory && !inside && named
            &&& r.at() == ArchiveStep::Refused(Refusal::Unreadable) <==> entry is Unreadable
            &&& r.at() == ArchiveStep::Refused(Refusal::Symlink) <==> entry is Symlink
            &&& r.at() == ArchiveStep::Refused(Refusal::NotADirectory) <==> entry is Other
            &&& r.at() == ArchiveStep::Refused(Refusal::ContainsArchiveDirectory) <==> entry
                is Directory && inside
            &&& r.at() == ArchiveStep::Refused(Refusal::NoName) <==> entry is Directory && !inside
                && !named
        }),
{
    let a = parts_of(home@);
    let b = parts_of(archive_dir@);
    assert(a.len() == home@.len() && b.len() == archive_dir@.len());
    if path_starts_with(b, a) {
        assert forall|i: int| 0 <= i < home@.len() implies (#[trigger] home@[i])@
            == archive_dir@[i]@ by {
            assert(b.take(a.len() as int)[i] == a[i]);
        }
    }
    if home@.len() <= archive_dir@.len() && forall|i: int|
        0 <= i < home@.len() ==> (#[trigger] home@[i])@ == archive_dir@[i]@ {
        assert forall|i: int| 0 <= i < a.len() implies b.take(a.len() as int)[i] == a[i] by {
            assert(home@[i]@ == archive_dir@[i]@);
        }
        assert(b.take(a.len() as int) == a);
    }
    if home@.len() > 0 {
        assert(a.last() == home@.last()@);
    }
}

/// Each step of making an archive that succeeds leads to the next one. A failure before the archive
/// exists is final, and one after that leads to its removal first. Pruning may fail.
pub proof fn archive_is_made_step_by_step(run: &mut Archiving, done: bool)
    requires
        call_ensures(Archiving::advance, (run, done), ()),
    ensures
        final(run).path() == old(run).path(),
        old(run).at() is CreateDirectory && done ==> final(run).at() is SetDirectoryMode,
        old(run).at() is SetDirectoryMode && done ==> final(run).at() is SetDirectoryOwner,
        old(run).at() is SetDirectoryOwner && done ==> final(run).at() is CreateFile,
        old(run).at() is CreateFile && done ==> final(run).at() is Write,
        old(run).at() is Write && done ==> final(run).at() is SetFileOwner,
        old(run).at() is SetFileOwner && done ==> final(run).at() is FlushDirectory,
        old(run).at() is FlushDirectory && done ==> final(run).at() is Prune,
        old(run).at() is Prune ==> final(run).at() is Archived,
        old(run).at() is CreateDirectory && !done ==> final(run).at() == ArchiveStep::Failed(
            ArchiveFailure::CreateDirectory,
        ),
        old(run).at() is SetDirectoryMode && !done ==> final(run).at() == ArchiveStep::Failed(
            ArchiveFailure::SetDirectoryMode,
        ),
        old(run).at() is SetDirectoryOwner && !done ==> final(run).at() == ArchiveStep::Failed(
            ArchiveFailure::SetDirectoryOwner,
        ),
        old(run).at() is CreateFile && !done ==> final(run).at() == ArchiveStep::Failed(
            ArchiveFailure::CreateFile,
        ),
        old(run).at() is Write && !done ==> final(run).at() == ArchiveStep::DropPartial(
            ArchiveFailure::Write,
        ),
        old(run).at() is SetFileOwner && !done ==> final(run).at() == ArchiveStep::DropPartial(
            ArchiveFailure::SetFileOwner,
        ),
        old(run).at() is FlushDirectory && !done ==> final(run).at() == ArchiveStep::DropPartial(
            ArchiveFailure::FlushDirectory,
        ),
        old(run).at() is DropPartial ==> final(run).at() == ArchiveStep::Failed(
            old(run).at()->DropPartial_0,
        ),
{
}

/// A receipt is given exactly for a home directory that was archived, with the archive's path, or
/// that did not exist. Root's archives belong to root.
pub proof fn receipts_are_earned(
    run: Archiving,
    receipt: Option<ArchiveReceipt>,
    euid: u32,
    owner: Option<(u32, u32)>,
)
    requires
        call_ensures(Archiving::receipt, (run,), receipt),
        call_ensures(archive_owner, (euid,), owner),
    ensures
        receipt is Some <==> run.at() is Archived || run.at() is NothingToArchive,
        run.at() is Archived ==> receipt->0@ == Some(run.path()),
        run.at() is NothingToArchive ==> receipt->0@ is None,
        owner is Some <==> euid == 0,
        owner is Some ==> owner->0 == (0u32, 0u32),
{
}

/// A text counts as a timestamp if and only if it has eight digits, a `T`, six digits and a `Z`.
pub proof fn timestamps_are_told_by_their_form(suffix: &str, r: bool)
    requires
        call_ensures(is_archive_timestamp, (suffix,), r),
    ensures
        r <==> {
            &&& suffix@.len() == 16
            &&& forall|i: int| 0 <= i < 8 ==> '0' <= #[trigger] suffix@[i] <= '9'
            &&& suffix@[8] == 'T'
            &&& forall|i: int| 9 <= i < 15 ==> '0' <= #[trigger] suffix@[i] <= '9'
            &&& suffix@[15] == 'Z'
        },
{
}

/// The making of an archive shows its step and path, and a receipt the path of its archive.
pub proof fn archiving_shows_where_it_is(
    run: &Archiving,
    step: ArchiveStep,
    path: &std::path::PathBuf,
    receipt: &ArchiveReceipt,
    archived: Option<&std::path::PathBuf>,
)
    requires
        call_ensures(Archiving::step, (run,), step),
        call_ensures(Archiving::archive_path, (run,), path),
        call_ensures(ArchiveReceipt::archive_path, (receipt,), archived),
    ensures
        step == run.at(),
        *path == run.path(),
        archived is Some <==> receipt@ is Some,
        archived is Some ==> *archived->0 == receipt@->0,
{
}

} // verus!
