//! Ordered sets of validated SSH public keys.
use crate::text::{is_line, join, joined, lines, lines_of, same_bytes, texts, trim, trimmed, white_space};
use crate::text::{
    joined_by_line_feeds, last_ending_is_optional, lines_are_read_back, lines_hold_no_line_feed,
    trimmed_already, trimmed_is_part,
};
use vstd::prelude::*;

verus! {

/// Maximum number of keys per page supported by the GitHub API.
pub const FETCH_KEYS_PER_PAGE: usize = 100;

/// What the parser of `ssh_key` makes of a line: the key's data in the binary SSH encoding and
/// the key in its canonical OpenSSH form, or nothing if the line is no public key.
pub uninterp spec fn openssh_key(line: Seq<char>) -> Option<(Seq<u8>, Seq<char>)>;

/// A public key as contracts see it.
pub struct KeyView {
    /// The key's data in the binary SSH encoding.
    pub data: Seq<u8>,
    /// The key in OpenSSH form, with its comment.
    pub text: Seq<char>,
}

/// What holds of every parsed key: its text parses to itself, and neither begins nor ends with
/// white space. It does not look like a comment.
pub open spec fn valid_key(key: KeyView) -> bool {
    &&& openssh_key(key.text) == Some((key.data, key.text))
    &&& key.text.len() > 0
    &&& !white_space(key.text[0])
    &&& key.text[0] != '#'
    &&& !white_space(key.text.last())
}

/// What holds of every set of keys: its keys are valid, and no two have the same data.
pub open spec fn valid_keys(keys: Seq<KeyView>) -> bool {
    &&& forall|i: int| 0 <= i < keys.len() ==> valid_key(#[trigger] keys[i])
    &&& forall|i: int, j: int|
        0 <= i < j < keys.len() ==> (#[trigger] keys[i]).data != (#[trigger] keys[j]).data
}

/// Whether one of the keys has the given data.
pub open spec fn holds_data(keys: Seq<KeyView>, data: Seq<u8>) -> bool {
    exists|i: int| 0 <= i < keys.len() && (#[trigger] keys[i]).data == data
}

/// The keys with one more behind them, unless one of them has its data already.
pub open spec fn with_key(keys: Seq<KeyView>, key: KeyView) -> Seq<KeyView> {
    if holds_data(keys, key.data) {
        keys
    } else {
        keys.push(key)
    }
}

/// The keys with what a line parses to.
pub open spec fn with_line(keys: Seq<KeyView>, line: Seq<char>) -> Seq<KeyView> {
    match openssh_key(line) {
        Some((data, text)) => with_key(keys, KeyView { data, text }),
        None => keys,
    }
}

/// The keys with what each of the lines parses to, in order.
pub open spec fn with_lines(keys: Seq<KeyView>, entries: Seq<Seq<char>>) -> Seq<KeyView>
    decreases entries.len(),
{
    if entries.len() == 0 {
        keys
    } else {
        with_line(with_lines(keys, entries.drop_last()), entries.last())
    }
}

/// The lines without surrounding white space, leaving out those that hold nothing else.
pub open spec fn entries_of(list: Seq<Seq<char>>) -> Seq<Seq<char>>
    decreases list.len(),
{
    if list.len() == 0 {
        Seq::empty()
    } else {
        let rest = entries_of(list.drop_last());
        let entry = trimmed(list.last());
        if entry.len() == 0 {
            rest
        } else {
            rest.push(entry)
        }
    }
}

/// The keys that a text lists, one per line.
pub open spec fn parsed_keys(s: Seq<char>) -> Seq<KeyView> {
    with_lines(Seq::empty(), entries_of(lines(s)))
}

/// The OpenSSH form of each key.
pub open spec fn key_texts(keys: Seq<KeyView>) -> Seq<Seq<char>> {
    keys.map_values(|k: KeyView| k.text)
}

/// Keys that are written one per line are read back, in the same order.
///
/// The comment of a key that was not read from a line may hold a line feed. Such a key is left
/// out.
pub proof fn keys_are_read_back(keys: Seq<KeyView>)
    requires
        valid_keys(keys),
        forall|i: int| 0 <= i < keys.len() ==> !(#[trigger] keys[i]).text.contains('\n'),
    ensures
        parsed_keys(joined(key_texts(keys), "\n"@)) == keys,
{
    let list = key_texts(keys);
    reveal_strlit("\n");
    assert("\n"@ == seq!['\n']);
    assert forall|i: int| 0 <= i < list.len() implies is_line(#[trigger] list[i]) && trimmed(
        list[i],
    ) == list[i] && list[i].len() > 0 by {
        assert(list[i] == keys[i].text);
        trimmed_already(list[i]);
    }
    let written = joined(list, "\n"@);
    if keys.len() > 0 {
        joined_by_line_feeds(list);
        lines_are_read_back(list);
        assert(list.last() == keys.last().text);
        assert(written.last() == list.last().last()) by {
            if list.len() > 1 {
                assert(written == joined(list.drop_last(), "\n"@) + "\n"@ + list.last());
            }
        }
        last_ending_is_optional(written);
    } else {
        assert(written == Seq::<char>::empty());
        assert(lines(written) == list);
    }
    lemma_entries_kept(list);
    lemma_keys_kept(keys);
}

/// Lines that need no trimming and are not empty are the entries.
proof fn lemma_entries_kept(list: Seq<Seq<char>>)
    requires
        forall|i: int|
            0 <= i < list.len() ==> trimmed(#[trigger] list[i]) == list[i] && list[i].len() > 0,
    ensures
        entries_of(list) == list,
    decreases list.len(),
{
    if list.len() == 0 {
        assert(entries_of(list) == list);
    } else {
        assert(list.last() == list[list.len() - 1]);
        lemma_entries_kept(list.drop_last());
        assert(list.drop_last().push(list.last()) == list);
    }
}

/// The texts of valid keys parse to those keys.
proof fn lemma_keys_kept(keys: Seq<KeyView>)
    requires
        valid_keys(keys),
    ensures
        with_lines(Seq::empty(), key_texts(keys)) == keys,
    decreases keys.len(),
{
    if keys.len() == 0 {
        assert(with_lines(Seq::empty(), key_texts(keys)) == keys);
    } else {
        let rest = keys.drop_last();
        lemma_keys_kept(rest);
        assert(key_texts(keys).drop_last() == key_texts(rest));
        assert(key_texts(keys).last() == keys.last().text);
        let key = keys[keys.len() - 1];
        assert(valid_key(key));
        assert(!holds_data(rest, key.data)) by {
            assert forall|i: int| 0 <= i < rest.len() implies rest[i].data != key.data by {
                assert(keys[i] == rest[i]);
            }
        }
        assert(rest.push(key) == keys);
        assert(KeyView { data: key.data, text: key.text } == key);
    }
}

/// A validated public key.
#[derive(Debug)]
pub struct PublicKey {
    data: Vec<u8>,
    text: String,
}

impl View for PublicKey {
    type V = KeyView;

    closed spec fn view(&self) -> KeyView {
        KeyView { data: self.data@, text: self.text@ }
    }
}

impl Clone for PublicKey {
    fn clone(&self) -> (r: Self)
        ensures
            r@ == self@,
    {
        proof {
            use_type_invariant(self);
        }
        PublicKey { data: self.data.clone(), text: self.text.clone() }
    }
}

impl PublicKey {
    #[verifier::type_invariant]
    spec fn valid(self) -> bool {
        valid_key(self@)
    }

    /// Parses one line of an OpenSSH public key file.
    pub fn parse(line: &str) -> (r: Option<PublicKey>)
        ensures
            match openssh_key(line@) {
                Some((data, text)) => r is Some && r->0@ == (KeyView { data, text }),
                None => r is None,
            },
            r is Some ==> valid_key(r->0@),
            r is Some && !line@.contains('\n') ==> !r->0@.text.contains('\n'),
    {
        match parse_openssh(line) {
            Some((data, text)) => Some(PublicKey { data, text }),
            None => None,
        }
    }

    /// The key's data in the binary SSH encoding.
    pub fn data(&self) -> (r: &Vec<u8>)
        ensures
            r@ == self@.data,
    {
        &self.data
    }

    /// The key in OpenSSH form, with its comment.
    pub fn text(&self) -> (r: &str)
        ensures
            r@ == self@.text,
    {
        self.text.as_str()
    }
}

/// Calls the `FromStr` impl of `ssh_key::PublicKey` on the line, and `to_bytes` and `to_openssh`
/// on the key that it gives.
///
/// Claimed: the outcome depends on the line alone. The OpenSSH form parses again, to the same
/// data and the same form. It begins with a character of the algorithm's name, so neither with
/// white space nor with `#`, and does not end with white space. It holds a line feed only if the
/// line does.
#[verifier::external_body]
fn parse_openssh(line: &str) -> (r: Option<(Vec<u8>, String)>)
    ensures
        match r {
            Some((data, text)) => openssh_key(line@) == Some((data@, text@)),
            None => openssh_key(line@) is None,
        },
        r matches Some((data, text)) ==> valid_key(KeyView { data: data@, text: text@ }),
        r matches Some((data, text)) ==> !line@.contains('\n') ==> !text@.contains('\n'),
{
    let key: ssh_key::PublicKey = line.parse().ok()?;
    Some((key.to_bytes().ok()?, key.to_openssh().ok()?))
}

/// An ordered set of validated SSH public keys. Keys with the same key data but different
/// comments count as the same key. The first one wins.
#[derive(Debug)]
pub struct PublicKeys {
    keys: Vec<PublicKey>,
}

impl View for PublicKeys {
    type V = Seq<KeyView>;

    closed spec fn view(&self) -> Seq<KeyView> {
        self.keys@.map_values(|k: PublicKey| k@)
    }
}

impl Default for PublicKeys {
    /// The empty set.
    fn default() -> (r: Self)
        ensures
            r@ == Seq::<KeyView>::empty(),
    {
        let r = PublicKeys { keys: Vec::new() };
        assert(r@ == Seq::<KeyView>::empty());
        r
    }
}

impl Clone for PublicKeys {
    fn clone(&self) -> (r: Self)
        ensures
            r@ == self@,
    {
        proof {
            use_type_invariant(self);
        }
        let mut keys: Vec<PublicKey> = Vec::new();
        let mut i: usize = 0;
        while i < self.keys.len()
            invariant
                i <= self.keys.len(),
                keys@.map_values(|k: PublicKey| k@) == self@.take(i as int),
            decreases self.keys.len() - i,
        {
            keys.push(self.keys[i].clone());
            assert(self@.take(i + 1) == self@.take(i as int).push(self@[i as int]));
            i = i + 1;
        }
        assert(self@.take(self@.len() as int) == self@);
        PublicKeys { keys }
    }
}

impl PublicKeys {
    #[verifier::type_invariant]
    spec fn valid(self) -> bool {
        valid_keys(self@)
    }

    /// Number of keys in the set.
    pub fn len(&self) -> (r: usize)
        ensures
            r == self@.len(),
    {
        self.keys.len()
    }

    /// Whether the set contains no keys.
    pub fn is_empty(&self) -> (r: bool)
        ensures
            r == (self@.len() == 0),
    {
        self.keys.len() == 0
    }

    /// The key at a position.
    pub fn key(&self, i: usize) -> (r: &PublicKey)
        requires
            i < self@.len(),
        ensures
            r@ == self@[i as int],
    {
        &self.keys[i]
    }

    /// Adds a key to the set, ignoring it if a key with the same key data is already present.
    pub fn insert(&mut self, key: PublicKey)
        ensures
            final(self)@ == with_key(old(self)@, key@),
    {
        proof {
            use_type_invariant(&*self);
            use_type_invariant(&key);
        }
        let ghost before = self@;
        let mut i: usize = 0;
        while i < self.keys.len()
            invariant
                i <= self.keys@.len(),
                self@ == before,
                self@ == old(self)@,
                self@.len() == self.keys@.len(),
                forall|j: int| 0 <= j < i ==> (#[trigger] self@[j]).data != key@.data,
            decreases self.keys@.len() - i,
        {
            assert(self@[i as int] == self.keys@[i as int]@);
            if same_bytes(self.keys[i].data(), key.data()) {
                assert(holds_data(before, key@.data));
                return ;
            }
            i = i + 1;
        }
        let mut keys: Vec<PublicKey> = Vec::new();
        std::mem::swap(&mut keys, &mut self.keys);
        keys.push(key);
        proof {
            let after = keys@.map_values(|k: PublicKey| k@);
            assert(after == before.push(key@));
            assert(valid_keys(after));
        }
        self.keys = keys;
        assert(!holds_data(before, key@.data));
    }

    /// Adds the keys of one page of fetched entries, skipping those that do not parse, and says
    /// whether there may be another page.
    pub fn add_page(&mut self, entries: &Vec<String>) -> (more: bool)
        ensures
            final(self)@ == with_lines(old(self)@, texts(entries@)),
            more == (entries@.len() >= FETCH_KEYS_PER_PAGE),
    {
        let mut i: usize = 0;
        while i < entries.len()
            invariant
                i <= entries@.len(),
                self@ == with_lines(old(self)@, texts(entries@.take(i as int))),
            decreases entries@.len() - i,
        {
            proof {
                let next = texts(entries@.take(i + 1));
                assert(next.drop_last() == texts(entries@.take(i as int)));
                assert(next.last() == entries@[i as int]@);
            }
            if let Some(key) = PublicKey::parse(entries[i].as_str()) {
                self.insert(key);
            }
            i = i + 1;
        }
        assert(entries@.take(entries@.len() as int) == entries@);
        entries.len() >= FETCH_KEYS_PER_PAGE
    }

    /// The keys that a text lists, one per line. Lines that are empty or do not parse are skipped.
    pub fn from_str(s: &str) -> (r: Self)
        ensures
            r@ == parsed_keys(s@),
            valid_keys(r@),
            forall|i: int| 0 <= i < r@.len() ==> !(#[trigger] r@[i]).text.contains('\n'),
    {
        let list = lines_of(s);
        let mut r: PublicKeys = PublicKeys::default();
        let mut i: usize = 0;
        while i < list.len()
            invariant
                i <= list@.len(),
                texts(list@) == lines(s@),
                r@ == with_lines(Seq::empty(), entries_of(texts(list@.take(i as int)))),
                forall|j: int| 0 <= j < r@.len() ==> !(#[trigger] r@[j]).text.contains('\n'),
            decreases list@.len() - i,
        {
            let ghost next = texts(list@.take(i + 1));
            assert(next.drop_last() == texts(list@.take(i as int)));
            assert(next.last() == list@[i as int]@);
            let line = trim(list[i].as_str());
            proof {
                lines_hold_no_line_feed(s@, i as int);
                assert(texts(list@)[i as int] == list@[i as int]@);
                if line@.contains('\n') {
                    trimmed_is_part(list@[i as int]@, '\n');
                }
            }
            if !line.as_str().is_empty() {
                proof {
                    let entries = entries_of(next);
                    assert(entries.drop_last() == entries_of(next.drop_last()));
                    assert(entries.last() == line@);
                }
                if let Some(key) = PublicKey::parse(line.as_str()) {
                    r.insert(key);
                }
            }
            i = i + 1;
        }
        assert(list@.take(list@.len() as int) == list@);
        proof {
            use_type_invariant(&r);
        }
        r
    }

    /// The keys in OpenSSH form.
    pub fn texts(&self) -> (r: Vec<String>)
        ensures
            texts(r@) == key_texts(self@),
            valid_keys(self@),
    {
        proof {
            use_type_invariant(self);
        }
        let mut r: Vec<String> = Vec::new();
        let mut i: usize = 0;
        while i < self.keys.len()
            invariant
                i <= self.keys@.len(),
                self@.len() == self.keys@.len(),
                texts(r@) == key_texts(self@.take(i as int)),
            decreases self.keys@.len() - i,
        {
            let ghost before = r@;
            r.push(self.keys[i].text.clone());
            proof {
                assert(self@[i as int] == self.keys@[i as int]@);
                assert(texts(r@) == texts(before).push(self@[i as int].text));
                assert(key_texts(self@.take(i + 1)) == key_texts(self@.take(i as int)).push(
                    self@[i as int].text,
                ));
            }
            i = i + 1;
        }
        assert(self@.take(self@.len() as int) == self@);
        r
    }

    /// The keys in OpenSSH form, one per line.
    pub fn to_text(&self) -> (r: String)
        ensures
            r@ == joined(key_texts(self@), "\n"@),
    {
        join(&self.texts(), "\n")
    }
}

/// A key is put behind the others, unless one of them has the same data. Then nothing changes, and
/// so the first one wins.
pub proof fn first_of_equal_keys_wins(keys: &mut PublicKeys, key: PublicKey)
    requires
        call_ensures(PublicKeys::insert, (keys, key), ()),
    ensures
        (exists|i: int| 0 <= i < old(keys)@.len() && (#[trigger] old(keys)@[i]).data == key@.data)
            ==> final(keys)@ == old(keys)@,
        (forall|i: int| 0 <= i < old(keys)@.len() ==> (#[trigger] old(keys)@[i]).data != key@.data)
            ==> final(keys)@ == old(keys)@.push(key@),
{
}

/// The keys of a page come behind those that were there, which stay. Every entry that parses is in
/// the set by its data, and nothing else comes in. There may be another page if and only if this
/// one has a hundred entries or more.
pub proof fn pages_add_their_keys(
    keys: &mut PublicKeys,
    entries: &Vec<String>,
    more: bool,
    i: int,
)
    requires
        call_ensures(PublicKeys::add_page, (keys, entries), more),
    ensures
        old(keys)@.len() <= final(keys)@.len(),
        final(keys)@.take(old(keys)@.len() as int) == old(keys)@,
        0 <= i < entries@.len() && openssh_key(entries@[i]@) is Some ==> exists|j: int|
            0 <= j < final(keys)@.len() && (#[trigger] final(keys)@[j]).data == (openssh_key(
                entries@[i]@,
            )->0).0,
        old(keys)@.len() <= i < final(keys)@.len() ==> exists|j: int|
            0 <= j < entries@.len() && openssh_key((#[trigger] entries@[j])@) == Some(
                (final(keys)@[i].data, final(keys)@[i].text),
            ),
        more <==> entries@.len() >= 100,
{
    let list = texts(entries@);
    lemma_lines_added(old(keys)@, list, i);
    if 0 <= i < entries@.len() {
        assert(list[i] == entries@[i]@);
    }
    if old(keys)@.len() <= i < final(keys)@.len() {
        let j = choose|j: int|
            0 <= j < list.len() && openssh_key(#[trigger] list[j]) == Some(
                (final(keys)@[i].data, final(keys)@[i].text),
            );
        assert(list[j] == entries@[j]@);
    }
}

/// What lines add to keys.
proof fn lemma_lines_added(keys: Seq<KeyView>, entries: Seq<Seq<char>>, i: int)
    ensures
        keys.len() <= with_lines(keys, entries).len(),
        with_lines(keys, entries).take(keys.len() as int) == keys,
        0 <= i < entries.len() && openssh_key(entries[i]) is Some ==> holds_data(
            with_lines(keys, entries),
            (openssh_key(entries[i])->0).0,
        ),
        keys.len() <= i < with_lines(keys, entries).len() ==> exists|j: int|
            0 <= j < entries.len() && openssh_key(#[trigger] entries[j]) == Some(
                (with_lines(keys, entries)[i].data, with_lines(keys, entries)[i].text),
            ),
    decreases entries.len(),
{
    if entries.len() == 0 {
        assert(keys.take(keys.len() as int) == keys);
    } else {
        let rest = entries.drop_last();
        let n = entries.len() - 1;
        let a = with_lines(keys, rest);
        let b = with_lines(keys, entries);
        lemma_lines_added(keys, rest, i);
        assert(entries[n] == entries.last());
        assert(b.take(keys.len() as int) == a.take(keys.len() as int));
        if 0 <= i < n && openssh_key(entries[i]) is Some {
            assert(rest[i] == entries[i]);
            let data = match openssh_key(entries[i]) {
                Some((data, _)) => data,
                None => Seq::empty(),
            };
            let j = choose|j: int| 0 <= j < a.len() && (#[trigger] a[j]).data == data;
            assert(b[j] == a[j]);
        }
        if i == n && openssh_key(entries[n]) is Some {
            let data = match openssh_key(entries[n]) {
                Some((data, _)) => data,
                None => Seq::empty(),
            };
            if !holds_data(a, data) {
                assert(b[a.len() as int].data == data);
            }
        }
        if keys.len() <= i < b.len() {
            if i < a.len() {
                assert(b[i] == a[i]);
                let j = choose|j: int|
                    0 <= j < rest.len() && openssh_key(#[trigger] rest[j]) == Some(
                        (a[i].data, a[i].text),
                    );
                assert(entries[j] == rest[j]);
            } else {
                assert(openssh_key(entries[n]) == Some((b[i].data, b[i].text)));
            }
        }
    }
}

/// Adding two pages one after the other is adding the entries of both, in this order.
pub proof fn pages_add_up(
    first: &mut PublicKeys,
    second: &mut PublicKeys,
    both: &mut PublicKeys,
    entries: &Vec<String>,
    more_entries: &Vec<String>,
    all_entries: &Vec<String>,
    a: bool,
    b: bool,
    c: bool,
)
    requires
        call_ensures(PublicKeys::add_page, (first, entries), a),
        call_ensures(PublicKeys::add_page, (second, more_entries), b),
        call_ensures(PublicKeys::add_page, (both, all_entries), c),
        old(second)@ == final(first)@,
        old(both)@ == old(first)@,
        all_entries@ == entries@ + more_entries@,
    ensures
        final(both)@ == final(second)@,
{
    assert(texts(all_entries@) == texts(entries@) + texts(more_entries@));
    lemma_lines_add_up(old(first)@, texts(entries@), texts(more_entries@));
}

/// Adding lines in two parts is adding them together.
proof fn lemma_lines_add_up(keys: Seq<KeyView>, a: Seq<Seq<char>>, b: Seq<Seq<char>>)
    ensures
        with_lines(keys, a + b) == with_lines(with_lines(keys, a), b),
    decreases b.len(),
{
    if b.len() == 0 {
        assert(a + b == a);
    } else {
        assert((a + b).drop_last() == a + b.drop_last());
        assert((a + b).last() == b.last());
        lemma_lines_add_up(keys, a, b.drop_last());
    }
}

/// Reading a text finds the key of every line that is one, white space around it aside, and no
/// other. No two keys have the same data.
pub proof fn every_line_is_read(s: &str, r: PublicKeys, i: int)
    requires
        call_ensures(PublicKeys::from_str, (s,), r),
    ensures
        0 <= i < lines(s@).len() && trimmed(lines(s@)[i]).len() > 0 && openssh_key(
            trimmed(lines(s@)[i]),
        ) is Some ==> exists|j: int|
            0 <= j < r@.len() && (#[trigger] r@[j]).data == (openssh_key(
                trimmed(lines(s@)[i]),
            )->0).0,
        0 <= i < r@.len() ==> exists|j: int|
            0 <= j < lines(s@).len() && openssh_key(trimmed(#[trigger] lines(s@)[j])) == Some(
                (r@[i].data, r@[i].text),
            ),
        forall|a: int, b: int|
            0 <= a < b < r@.len() ==> (#[trigger] r@[a]).data != (#[trigger] r@[b]).data,
{
    let list = lines(s@);
    let entries = entries_of(list);
    lemma_lines_added(Seq::empty(), entries, i);
    if 0 <= i < list.len() && trimmed(list[i]).len() > 0 && openssh_key(trimmed(list[i])) is Some {
        lemma_entries(list, i, 0);
        let k = entries.index_of(trimmed(list[i]));
        assert(entries[k] == trimmed(list[i]));
        lemma_lines_added(Seq::empty(), entries, k);
    }
    if 0 <= i < r@.len() {
        let k = choose|k: int|
            0 <= k < entries.len() && openssh_key(#[trigger] entries[k]) == Some(
                (r@[i].data, r@[i].text),
            );
        lemma_entries(list, 0, k);
    }
}

/// The entries are the lines that hold more than white space, without what surrounds that.
proof fn lemma_entries(list: Seq<Seq<char>>, i: int, k: int)
    ensures
        0 <= i < list.len() && trimmed(list[i]).len() > 0 ==> entries_of(list).contains(
            trimmed(list[i]),
        ),
        0 <= k < entries_of(list).len() ==> exists|j: int|
            0 <= j < list.len() && trimmed(#[trigger] list[j]) == entries_of(list)[k],
    decreases list.len(),
{
    if list.len() > 0 {
        let rest = list.drop_last();
        let n = list.len() - 1;
        lemma_entries(rest, i, k);
        assert(list[n] == list.last());
        if 0 <= i < n && trimmed(list[i]).len() > 0 {
            assert(rest[i] == list[i]);
            let at = entries_of(rest).index_of(trimmed(list[i]));
            assert(entries_of(list)[at] == trimmed(list[i]));
        }
        if i == n && trimmed(list[n]).len() > 0 {
            assert(entries_of(list)[entries_of(rest).len() as int] == trimmed(list[n]));
        }
        if 0 <= k < entries_of(list).len() {
            if k < entries_of(rest).len() {
                let j = choose|j: int|
                    0 <= j < rest.len() && trimmed(#[trigger] rest[j]) == entries_of(rest)[k];
                assert(list[j] == rest[j]);
            } else {
                assert(trimmed(list[n]) == entries_of(list)[k]);
            }
        }
    }
}

/// Keys are written in their OpenSSH form, each and in order.
pub proof fn every_key_is_written(keys: &PublicKeys, list: Vec<String>, i: int)
    requires
        call_ensures(PublicKeys::texts, (keys,), list),
    ensures
        list@.len() == keys@.len(),
        0 <= i < list@.len() ==> list@[i]@ == keys@[i].text,
{
    assert(texts(list@).len() == list@.len());
    if 0 <= i < list@.len() {
        assert(texts(list@)[i] == list@[i]@);
    }
}

/// The number of keys is how many there are, and a set is empty if it has none.
pub proof fn keys_are_counted(keys: &PublicKeys, n: usize, empty: bool)
    requires
        call_ensures(PublicKeys::len, (keys,), n),
        call_ensures(PublicKeys::is_empty, (keys,), empty),
    ensures
        n == keys@.len(),
        empty <==> n == 0,
{
}

/// A page of one entry adds its key behind the others, if it is one and none has its data.
pub proof fn one_entry_adds_one_key(keys: &mut PublicKeys, entries: &Vec<String>, more: bool)
    requires
        call_ensures(PublicKeys::add_page, (keys, entries), more),
        entries@.len() == 1,
    ensures
        final(keys)@ == match openssh_key(entries@[0]@) {
            Some((data, text)) => if exists|i: int|
                0 <= i < old(keys)@.len() && (#[trigger] old(keys)@[i]).data == data {
                old(keys)@
            } else {
                old(keys)@.push(KeyView { data, text })
            },
            None => old(keys)@,
        },
{
    let list = texts(entries@);
    assert(list.last() == entries@[0]@);
    assert(list.drop_last() == Seq::<Seq<char>>::empty());
    assert(with_lines(old(keys)@, list.drop_last()) == old(keys)@);
}

/// Keys are written one per line, and read back from that.
pub proof fn written_keys_are_read_back(keys: &PublicKeys, text: String, s: &str, r: PublicKeys)
    requires
        call_ensures(PublicKeys::to_text, (keys,), text),
        call_ensures(PublicKeys::from_str, (s,), r),
        s@ == text@,
        valid_keys(keys@),
        forall|i: int| 0 <= i < keys@.len() ==> !(#[trigger] keys@[i]).text.contains('\n'),
    ensures
        r@ == keys@,
{
    keys_are_read_back(keys@);
}

/// A key is what the line parses to, and shows its data and its form.
pub proof fn keys_are_what_their_line_says(
    line: &str,
    r: Option<PublicKey>,
    key: &PublicKey,
    data: &Vec<u8>,
    text: &str,
)
    requires
        call_ensures(PublicKey::parse, (line,), r),
        call_ensures(PublicKey::data, (key,), data),
        call_ensures(PublicKey::text, (key,), text),
    ensures
        r is Some <==> openssh_key(line@) is Some,
        r is Some ==> openssh_key(line@) == Some((r->0@.data, r->0@.text)),
        data@ == key@.data,
        text@ == key@.text,
{
}

} // verus!
