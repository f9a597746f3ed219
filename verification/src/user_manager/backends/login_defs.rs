//! The settings of the shadow-utils commands, which say which IDs fresh accounts get.
use crate::numerals::{number_in, number_up_to, numerals_are_read_back};
use crate::text::{decimal, joined, chars_of, lines, lines_of, same_text, texts};
use vstd::prelude::*;

verus! {

/// The IDs that fresh accounts get.
#[derive(Debug, Clone, Copy, PartialEq, Eq, Structural)]
pub struct IdRange {
    /// The lowest of them.
    pub first: u32,
    /// The highest of them.
    pub last: u32,
}

/// The lowest ID where the settings do not say otherwise.
pub const DEFAULT_FIRST_ID: u32 = 1000;

/// The highest ID where the settings do not say otherwise.
pub const DEFAULT_LAST_ID: u32 = 60000;

/// The setting of the lowest ID.
pub const FIRST_SETTING: &'static str = "UID_MIN";

/// The setting of the highest ID.
pub const LAST_SETTING: &'static str = "UID_MAX";

/// Whether a character separates the words of a line.
pub open spec fn is_blank(c: char) -> bool {
    c == ' ' || c == '\t'
}

/// What stands behind the last blank of a line.
pub open spec fn open_word(line: Seq<char>) -> Seq<char>
    decreases line.len(),
{
    if line.len() == 0 || is_blank(line.last()) {
        Seq::empty()
    } else {
        open_word(line.drop_last()).push(line.last())
    }
}

/// The words of a line that a blank follows.
pub open spec fn closed_words(line: Seq<char>) -> Seq<Seq<char>>
    decreases line.len(),
{
    if line.len() == 0 {
        Seq::empty()
    } else {
        let rest = line.drop_last();
        if is_blank(line.last()) && open_word(rest).len() > 0 {
            closed_words(rest).push(open_word(rest))
        } else {
            closed_words(rest)
        }
    }
}

/// The words of a line, which blanks separate.
pub open spec fn words(line: Seq<char>) -> Seq<Seq<char>> {
    if open_word(line).len() > 0 {
        closed_words(line).push(open_word(line))
    } else {
        closed_words(line)
    }
}

/// The words of a line.
fn words_of(line: &str) -> (r: Vec<String>)
    ensures
        texts(r@) == words(line@),
{
    let chars = chars_of(line);
    let mut r: Vec<String> = Vec::new();
    let mut word: Vec<char> = Vec::new();
    let mut i: usize = 0;
    assert(texts(r@) == closed_words(chars@.take(0)));
    assert(word@ == open_word(chars@.take(0)));
    while i < chars.len()
        invariant
            i <= chars@.len(),
            texts(r@) == closed_words(chars@.take(i as int)),
            word@ == open_word(chars@.take(i as int)),
        decreases chars@.len() - i,
    {
        let c = chars[i];
        assert(chars@.take(i + 1).drop_last() == chars@.take(i as int));
        if c == ' ' || c == '\t' {
            if word.len() > 0 {
                push_word(&mut r, &word);
            }
            word = Vec::new();
        } else {
            word.push(c);
        }
        i = i + 1;
    }
    assert(chars@.take(chars@.len() as int) == line@);
    if word.len() > 0 {
        push_word(&mut r, &word);
    }
    r
}

/// Puts a word behind a list of words.
fn push_word(list: &mut Vec<String>, word: &Vec<char>)
    ensures
        texts(final(list)@) == texts(old(list)@).push(word@),
{
    let ghost before = list@;
    let item = crate::text::string_of(word, 0, word.len());
    assert(word@.subrange(0, word@.len() as int) == word@);
    list.push(item);
    assert(texts(list@) == texts(before).push(word@));
}

/// What the settings say of a name: the second word of the last line that begins with it, if that
/// is a number that an ID can have.
pub open spec fn setting_in(list: Seq<Seq<char>>, name: Seq<char>) -> Option<u32>
    decreases list.len(),
{
    if list.len() == 0 {
        None
    } else {
        let line = words(list.last());
        if line.len() < 2 || line[0] != name {
            setting_in(list.drop_last(), name)
        } else {
            match number_in(line[1], u32::MAX as i64) {
                Some(n) => Some(n as u32),
                None => None,
            }
        }
    }
}

/// What the settings say of a name.
fn setting_of(list: &Vec<String>, name: &str) -> (r: Option<u32>)
    ensures
        r == setting_in(texts(list@), name@),
{
    let mut r: Option<u32> = None;
    let mut i: usize = 0;
    while i < list.len()
        invariant
            i <= list@.len(),
            r == setting_in(texts(list@.take(i as int)), name@),
        decreases list@.len() - i,
    {
        let line = words_of(list[i].as_str());
        proof {
            let next = texts(list@.take(i + 1));
            assert(next.drop_last() == texts(list@.take(i as int)));
            assert(next.last() == list@[i as int]@);
        }
        if line.len() >= 2 {
            proof {
                assert(texts(line@)[0] == line@[0]@);
                assert(texts(line@)[1] == line@[1]@);
            }
            if same_text(line[0].as_str(), name) {
                r = match number_up_to(line[1].as_str(), u32::MAX as i64) {
                    Some(n) => Some(n as u32),
                    None => None,
                };
            }
        }
        i = i + 1;
    }
    assert(list@.take(list@.len() as int) == list@);
    r
}

/// The IDs that fresh accounts get, as the settings of `useradd` have it. Each end of the range
/// that they do not give is the default one.
pub fn id_range(settings: &str) -> (r: IdRange)
    ensures
        r.first == match setting_in(lines(settings@), FIRST_SETTING@) {
            Some(id) => id,
            None => DEFAULT_FIRST_ID,
        },
        r.last == match setting_in(lines(settings@), LAST_SETTING@) {
            Some(id) => id,
            None => DEFAULT_LAST_ID,
        },
{
    let list = lines_of(settings);
    IdRange {
        first: match setting_of(&list, FIRST_SETTING) {
            Some(id) => id,
            None => DEFAULT_FIRST_ID,
        },
        last: match setting_of(&list, LAST_SETTING) {
            Some(id) => id,
            None => DEFAULT_LAST_ID,
        },
    }
}

/// Whether a text can stand as a word: it is not empty and holds no blank and no tab.
pub open spec fn is_word(s: Seq<char>) -> bool {
    s.len() > 0 && !s.contains(' ') && !s.contains('\t')
}

/// A word behind a blank is read as the last word of a line.
proof fn lemma_last_word(line: Seq<char>, blank: char, word: Seq<char>)
    requires
        blank == ' ' || blank == '\t',
        !word.contains(' '),
        !word.contains('\t'),
    ensures
        open_word(line + seq![blank] + word) == word,
        closed_words(line + seq![blank] + word) == words(line),
    decreases word.len(),
{
    let all = line + seq![blank] + word;
    if word.len() == 0 {
        assert(all.drop_last() == line);
        assert(all.last() == blank);
        assert(word == Seq::<char>::empty());
    } else {
        let rest = word.drop_last();
        assert(all.drop_last() == line + seq![blank] + rest);
        assert(all.last() == word.last());
        assert(word.contains(word.last()));
        assert(!rest.contains(' ') && !rest.contains('\t')) by {
            assert forall|i: int| 0 <= i < rest.len() implies rest[i] != ' ' && rest[i] != '\t' by {
                assert(word.contains(word[i]));
            }
        }
        lemma_last_word(line, blank, rest);
        assert(rest.push(word.last()) == word);
    }
}

/// A line of one word is read as that word.
proof fn lemma_only_word(word: Seq<char>)
    requires
        !word.contains(' '),
        !word.contains('\t'),
    ensures
        open_word(word) == word,
        closed_words(word) == Seq::<Seq<char>>::empty(),
    decreases word.len(),
{
    if word.len() > 0 {
        let rest = word.drop_last();
        assert(word.contains(word.last()));
        assert(!rest.contains(' ') && !rest.contains('\t')) by {
            assert forall|i: int| 0 <= i < rest.len() implies rest[i] != ' ' && rest[i] != '\t' by {
                assert(word.contains(word[i]));
            }
        }
        lemma_only_word(rest);
        assert(rest.push(word.last()) == word);
    } else {
        assert(word == Seq::<char>::empty());
    }
}

/// Words that are written with blanks between them are read back.
pub proof fn words_are_read_back(parts: Seq<Seq<char>>)
    requires
        forall|i: int| 0 <= i < parts.len() ==> is_word(#[trigger] parts[i]),
    ensures
        words(joined(parts, seq![' '])) == parts,
        words(joined(parts, seq!['\t'])) == parts,
    decreases parts.len(),
{
    if parts.len() == 1 {
        lemma_only_word(parts[0]);
        assert(words(parts[0]) == parts);
    } else if parts.len() > 1 {
        let rest = parts.drop_last();
        assert forall|i: int| 0 <= i < rest.len() implies is_word(#[trigger] rest[i]) by {
            assert(rest[i] == parts[i]);
        }
        words_are_read_back(rest);
        assert(is_word(parts[parts.len() - 1]));
        lemma_last_word(joined(rest, seq![' ']), ' ', parts.last());
        lemma_last_word(joined(rest, seq!['\t']), '\t', parts.last());
        assert(rest.push(parts.last()) == parts);
    } else {
        assert(words(Seq::empty()) == parts);
    }
}

/// Both ends of the range are what the last line with their setting says, whatever the other lines
/// are. They are 1000 and 60000 where no line sets them.
pub proof fn last_setting_counts(
    settings: &str,
    r: IdRange,
    before: Seq<Seq<char>>,
    line: Seq<char>,
    after: Seq<Seq<char>>,
    n: nat,
)
    requires
        call_ensures(id_range, (settings,), r),
        lines(settings@) == before + seq![line] + after,
        words(line).len() >= 2,
        words(line)[1] == decimal(n),
        n <= u32::MAX,
        forall|i: int|
            0 <= i < after.len() ==> words(#[trigger] after[i]).len() < 2 || words(after[i])[0]
                != words(line)[0],
    ensures
        words(line)[0] == "UID_MIN"@ ==> r.first == n,
        words(line)[0] == "UID_MAX"@ ==> r.last == n,
{
    numerals_are_read_back(n);
    lemma_settings_behind(before + seq![line], after, words(line)[0]);
    assert((before + seq![line]).last() == line);
}

/// Where no line has a setting, the defaults count.
pub proof fn missing_settings_have_defaults(settings: &str, r: IdRange)
    requires
        call_ensures(id_range, (settings,), r),
    ensures
        (forall|i: int|
            0 <= i < lines(settings@).len() ==> words(#[trigger] lines(settings@)[i]).len() < 2
                || words(lines(settings@)[i])[0] != "UID_MIN"@) ==> r.first == 1000,
        (forall|i: int|
            0 <= i < lines(settings@).len() ==> words(#[trigger] lines(settings@)[i]).len() < 2
                || words(lines(settings@)[i])[0] != "UID_MAX"@) ==> r.last == 60000,
{
    let all = lines(settings@);
    assert(Seq::<Seq<char>>::empty() + all == all);
    if forall|i: int|
        0 <= i < all.len() ==> words(#[trigger] all[i]).len() < 2 || words(all[i])[0] != "UID_MIN"@ {
        lemma_settings_behind(Seq::empty(), all, "UID_MIN"@);
    }
    if forall|i: int|
        0 <= i < all.len() ==> words(#[trigger] all[i]).len() < 2 || words(all[i])[0] != "UID_MAX"@ {
        lemma_settings_behind(Seq::empty(), all, "UID_MAX"@);
    }
}

/// Lines of other settings do not matter.
proof fn lemma_settings_behind(list: Seq<Seq<char>>, after: Seq<Seq<char>>, name: Seq<char>)
    requires
        forall|i: int|
            0 <= i < after.len() ==> words(#[trigger] after[i]).len() < 2 || words(after[i])[0]
                != name,
    ensures
        setting_in(list + after, name) == setting_in(list, name),
    decreases after.len(),
{
    if after.len() == 0 {
        assert(list + after == list);
    } else {
        let rest = after.drop_last();
        assert((list + after).drop_last() == list + rest);
        assert((list + after).last() == after[after.len() - 1]);
        assert forall|i: int| 0 <= i < rest.len() implies words(#[trigger] rest[i]).len() < 2
            || words(rest[i])[0] != name by {
            assert(rest[i] == after[i]);
        }
        lemma_settings_behind(list, rest, name);
    }
}

/// A blank or a tab ends a word, however many there are: the words of a line are those of what
/// stands before any of them and those of what stands behind it.
pub proof fn blanks_separate_words(before: Seq<char>, blank: char, after: Seq<char>)
    requires
        blank == ' ' || blank == '\t',
    ensures
        words(before + seq![blank] + after) == words(before) + words(after),
        words(Seq::empty()).len() == 0,
{
    lemma_words_behind(before, blank, after);
    assert(words(before + seq![blank] + after) == words(before) + words(after));
}

/// The words of a line behind a blank.
proof fn lemma_words_behind(before: Seq<char>, blank: char, after: Seq<char>)
    requires
        blank == ' ' || blank == '\t',
    ensures
        open_word(before + seq![blank] + after) == open_word(after),
        closed_words(before + seq![blank] + after) == words(before) + closed_words(after),
    decreases after.len(),
{
    let all = before + seq![blank] + after;
    if after.len() == 0 {
        assert(all.drop_last() == before);
        assert(all.last() == blank);
        assert(words(before) + closed_words(after) == words(before));
    } else {
        assert(all.drop_last() == before + seq![blank] + after.drop_last());
        assert(all.last() == after.last());
        lemma_words_behind(before, blank, after.drop_last());
        let rest = after.drop_last();
        assert(words(before) + closed_words(rest).push(open_word(rest)) == (words(before)
            + closed_words(rest)).push(open_word(rest)));
    }
}

} // verus!
