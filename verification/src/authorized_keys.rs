//! The managed block in each user's authorized_keys file. All manual entries are preserved.
use crate::public_keys::{key_texts, valid_key, valid_keys, KeyView, PublicKeys};
use crate::text::{
    is_line, lines, lines_of, same_text, texts, trim, trimmed, unlines, without_return,
};
use crate::text::{
    lines_are_read_back, lines_hold_no_line_feed, lines_of_sum, lines_of_unlines,
    trimmed_already, trimmed_without_return, unlines_ends_with_line_feed, unlines_of_sum,
};
use vstd::prelude::*;

verus! {

/// The line that opens the managed block.
pub const MANAGED_BLOCK_START: &'static str =
    "# >>> octosync managed keys - do not edit this block >>>";

/// The line that closes the managed block.
pub const MANAGED_BLOCK_END: &'static str =
    "# <<< octosync managed keys - do not edit this block <<<";

/// Whether a line opens a managed block. White space around the marker does not matter.
pub open spec fn is_start(line: Seq<char>) -> bool {
    trimmed(line) == MANAGED_BLOCK_START@
}

/// Whether a line closes a managed block.
pub open spec fn is_end(line: Seq<char>) -> bool {
    trimmed(line) == MANAGED_BLOCK_END@
}

/// Whether a line is one of the two markers.
pub open spec fn is_marker(line: Seq<char>) -> bool {
    is_start(line) || is_end(line)
}

/// Whether one of the lines opens a managed block.
pub open spec fn holds_start(list: Seq<Seq<char>>) -> bool {
    exists|i: int| 0 <= i < list.len() && is_start(#[trigger] list[i])
}

/// Whether the last marker among the lines is one that opens a block.
pub open spec fn ends_in_block(list: Seq<Seq<char>>) -> bool
    decreases list.len(),
{
    if list.len() == 0 {
        false
    } else if is_start(list.last()) {
        true
    } else if is_end(list.last()) {
        false
    } else {
        ends_in_block(list.drop_last())
    }
}

/// The manual lines before the first managed block, or all of them if there is no block.
pub open spec fn before_block(list: Seq<Seq<char>>) -> Seq<Seq<char>>
    decreases list.len(),
{
    if list.len() == 0 {
        Seq::empty()
    } else {
        let rest = list.drop_last();
        if is_marker(list.last()) || holds_start(rest) {
            before_block(rest)
        } else {
            before_block(rest).push(list.last())
        }
    }
}

/// The manual lines behind the start of the first managed block.
pub open spec fn after_block(list: Seq<Seq<char>>) -> Seq<Seq<char>>
    decreases list.len(),
{
    if list.len() == 0 {
        Seq::empty()
    } else {
        let rest = list.drop_last();
        if is_marker(list.last()) || !holds_start(rest) || ends_in_block(rest) {
            after_block(rest)
        } else {
            after_block(rest).push(list.last())
        }
    }
}

/// The lines inside managed blocks.
pub open spec fn managed_lines(list: Seq<Seq<char>>) -> Seq<Seq<char>>
    decreases list.len(),
{
    if list.len() == 0 {
        Seq::empty()
    } else {
        let rest = list.drop_last();
        if is_marker(list.last()) || !ends_in_block(rest) {
            managed_lines(rest)
        } else {
            managed_lines(rest).push(list.last())
        }
    }
}

/// A managed block that holds the given keys, line by line.
pub open spec fn block_of(keys: Seq<Seq<char>>) -> Seq<Seq<char>> {
    seq![MANAGED_BLOCK_START@] + keys + seq![MANAGED_BLOCK_END@]
}

/// The file that holds the manual lines with the managed block between them.
pub open spec fn rendered(
    before: Seq<Seq<char>>,
    after: Seq<Seq<char>>,
    keys: Seq<Seq<char>>,
) -> Seq<char> {
    unlines(before + block_of(keys) + after)
}

/// The file that replaces `current` when the managed block is to hold the given keys.
pub open spec fn managed_content(current: Seq<char>, keys: Seq<Seq<char>>) -> Seq<char> {
    rendered(before_block(lines(current)), after_block(lines(current)), keys)
}

/// Whether a block of these keys, read line by line, holds nothing that counts as manual.
///
/// This is so unless a key's comment holds a line feed and then an end marker.
pub open spec fn block_is_closed(keys: Seq<Seq<char>>) -> bool {
    after_block(lines(unlines(block_of(keys)))) == Seq::<Seq<char>>::empty()
}

/// Splits `content` into the manual lines before the first managed block and those behind it,
/// removing every managed block. A start marker without an end marker counts as a block that
/// goes on to the end.
pub fn split_around_managed_block(content: &str) -> (r: (Vec<String>, Vec<String>))
    ensures
        texts(r.0@) == before_block(lines(content@)),
        texts(r.1@) == after_block(lines(content@)),
{
    let list = lines_of(content);
    let mut before: Vec<String> = Vec::new();
    let mut after: Vec<String> = Vec::new();
    let mut in_block = false;
    let mut seen_block = false;
    let mut i: usize = 0;
    while i < list.len()
        invariant
            i <= list@.len(),
            in_block == ends_in_block(texts(list@.take(i as int))),
            seen_block == holds_start(texts(list@.take(i as int))),
            in_block ==> seen_block,
            texts(before@) == before_block(texts(list@.take(i as int))),
            texts(after@) == after_block(texts(list@.take(i as int))),
        decreases list@.len() - i,
    {
        let ghost rest = texts(list@.take(i as int));
        let ghost next = texts(list@.take(i + 1));
        let ghost line = list@[i as int]@;
        let ghost old_before = before@;
        let ghost old_after = after@;
        proof {
            assert(next.drop_last() == rest);
            assert(next.last() == line);
            assert(holds_start(next) == (holds_start(rest) || is_start(line))) by {
                if holds_start(rest) {
                    let j = choose|j: int| 0 <= j < rest.len() && is_start(#[trigger] rest[j]);
                    assert(next[j] == rest[j]);
                }
                if is_start(line) {
                    assert(next[rest.len() as int] == line);
                }
                if holds_start(next) {
                    let j = choose|j: int| 0 <= j < next.len() && is_start(#[trigger] next[j]);
                    if j < rest.len() {
                        assert(next[j] == rest[j]);
                    }
                }
            }
            lemma_markers();
        }
        let trimmed_line = trim(list[i].as_str());
        if same_text(trimmed_line.as_str(), MANAGED_BLOCK_START) {
            in_block = true;
            seen_block = true;
        } else if same_text(trimmed_line.as_str(), MANAGED_BLOCK_END) {
            in_block = false;
        } else if in_block {
        } else if seen_block {
            after.push(list[i].clone());
            assert(texts(after@) == texts(old_after).push(line));
        } else {
            before.push(list[i].clone());
            assert(texts(before@) == texts(old_before).push(line));
        }
        i = i + 1;
    }
    assert(list@.take(list@.len() as int) == list@);
    (before, after)
}

/// Appends each of the lines, and a line feed behind it.
fn push_lines(content: &mut String, list: &Vec<String>)
    ensures
        final(content)@ == old(content)@ + unlines(texts(list@)),
{
    let mut i: usize = 0;
    assert(content@ + unlines(texts(list@.take(0))) == content@);
    while i < list.len()
        invariant
            i <= list@.len(),
            content@ == old(content)@ + unlines(texts(list@.take(i as int))),
        decreases list@.len() - i,
    {
        let ghost before = content@;
        proof {
            let next = texts(list@.take(i + 1));
            assert(next.drop_last() == texts(list@.take(i as int)));
            assert(next.last() == list@[i as int]@);
            assert(unlines(next) == unlines(next.drop_last()) + list@[i as int]@ + seq!['\n']);
        }
        content.append(list[i].as_str());
        content.push('\n');
        assert(content@ == before + list@[i as int]@ + seq!['\n']);
        i = i + 1;
    }
    assert(list@.take(list@.len() as int) == list@);
}

/// Renders the file: the manual lines unchanged and in place, with the block holding exactly the
/// fetched keys. The block is always present, so an empty set of keys renders an empty block.
pub fn render_content(before: &Vec<String>, after: &Vec<String>, keys: &PublicKeys) -> (r: String)
    ensures
        r@ == rendered(texts(before@), texts(after@), key_texts(keys@)),
{
    let mut r = String::new();
    push_lines(&mut r, before);
    r.append(MANAGED_BLOCK_START);
    r.push('\n');
    let key_lines = keys.texts();
    push_lines(&mut r, &key_lines);
    r.append(MANAGED_BLOCK_END);
    r.push('\n');
    push_lines(&mut r, after);
    proof {
        let b = texts(before@);
        let a = texts(after@);
        let k = key_texts(keys@);
        let s = seq![MANAGED_BLOCK_START@];
        let e = seq![MANAGED_BLOCK_END@];
        unlines_of_sum(b + block_of(k), a);
        unlines_of_sum(b, block_of(k));
        unlines_of_sum(s + k, e);
        unlines_of_sum(s, k);
        lemma_unlines_of_one(MANAGED_BLOCK_START@);
        lemma_unlines_of_one(MANAGED_BLOCK_END@);
        assert(r@ == unlines(b) + ((MANAGED_BLOCK_START@ + seq!['\n']) + unlines(k) + (
        MANAGED_BLOCK_END@ + seq!['\n'])) + unlines(a));
    }
    r
}

/// The file that replaces `current` when the managed block is to hold the given keys.
pub fn updated_content(current: &str, keys: &PublicKeys) -> (r: String)
    ensures
        r@ == managed_content(current@, key_texts(keys@)),
{
    let (before, after) = split_around_managed_block(current);
    render_content(&before, &after, keys)
}

proof fn lemma_unlines_of_one(s: Seq<char>)
    ensures
        unlines(seq![s]) == s + seq!['\n'],
{
    assert(seq![s].drop_last() == Seq::<Seq<char>>::empty());
    assert(unlines(seq![s]) == unlines(Seq::empty()) + s + seq!['\n']);
    assert(Seq::<char>::empty() + s == s);
}

/// The markers differ, need no trimming, can stand as lines and begin with `#`.
proof fn lemma_markers()
    ensures
        is_start(MANAGED_BLOCK_START@),
        !is_end(MANAGED_BLOCK_START@),
        is_end(MANAGED_BLOCK_END@),
        !is_start(MANAGED_BLOCK_END@),
        is_line(MANAGED_BLOCK_START@),
        is_line(MANAGED_BLOCK_END@),
        MANAGED_BLOCK_START@ != MANAGED_BLOCK_END@,
        MANAGED_BLOCK_START@[0] == '#',
        MANAGED_BLOCK_END@[0] == '#',
        MANAGED_BLOCK_START@.len() > 0,
        MANAGED_BLOCK_END@.len() > 0,
{
    reveal_strlit("# >>> octosync managed keys - do not edit this block >>>");
    reveal_strlit("# <<< octosync managed keys - do not edit this block <<<");
    assert(MANAGED_BLOCK_START@[2] == '>');
    assert(MANAGED_BLOCK_END@[2] == '<');
    trimmed_already(MANAGED_BLOCK_START@);
    trimmed_already(MANAGED_BLOCK_END@);
    assert(!MANAGED_BLOCK_START@.contains('\n'));
    assert(!MANAGED_BLOCK_END@.contains('\n'));
}

/// Whether none of the lines is a marker.
pub open spec fn all_manual(list: Seq<Seq<char>>) -> bool {
    forall|i: int| 0 <= i < list.len() ==> !is_marker(#[trigger] list[i])
}

/// Where the last line of a list stands.
proof fn lemma_holds_start_last(list: Seq<Seq<char>>)
    requires
        list.len() > 0,
    ensures
        holds_start(list) == (holds_start(list.drop_last()) || is_start(list.last())),
{
    let rest = list.drop_last();
    if holds_start(rest) {
        let j = choose|j: int| 0 <= j < rest.len() && is_start(#[trigger] rest[j]);
        assert(is_start(list[j]));
    }
    if is_start(list.last()) {
        assert(is_start(list[list.len() - 1]));
    }
    if holds_start(list) {
        let j = choose|j: int| 0 <= j < list.len() && is_start(#[trigger] list[j]);
        if j < rest.len() {
            assert(is_start(rest[j]));
        }
    }
}

/// Manual lines in front of a list stand before its block.
proof fn lemma_manual_in_front(a: Seq<Seq<char>>, b: Seq<Seq<char>>)
    requires
        all_manual(a),
    ensures
        holds_start(a + b) == holds_start(b),
        ends_in_block(a + b) == ends_in_block(b),
        before_block(a + b) == a + before_block(b),
        after_block(a + b) == after_block(b),
        managed_lines(a + b) == managed_lines(b),
    decreases a.len() + b.len(),
{
    if b.len() > 0 {
        let rest = b.drop_last();
        lemma_manual_in_front(a, rest);
        assert((a + b).drop_last() == a + rest);
        assert((a + b).last() == b.last());
        lemma_holds_start_last(a + b);
        lemma_holds_start_last(b);
        assert((a + before_block(rest)).push(b.last()) == a + before_block(rest).push(b.last()));
    } else {
        assert(a + b == a);
        assert(before_block(b) == Seq::<Seq<char>>::empty());
        assert(a + before_block(b) == a);
        if a.len() > 0 {
            let rest = a.drop_last();
            assert(all_manual(rest)) by {
                assert forall|i: int| 0 <= i < rest.len() implies !is_marker(#[trigger] rest[i]) by {
                    assert(rest[i] == a[i]);
                }
            }
            lemma_manual_in_front(rest, b);
            assert(rest + b == rest);
            assert(rest + before_block(b) == rest);
            assert(!is_marker(a[a.len() - 1]));
            lemma_holds_start_last(a);
            assert(rest.push(a.last()) == a);
        }
    }
}

/// Manual lines behind a closed block stand after it.
proof fn lemma_manual_behind(a: Seq<Seq<char>>, b: Seq<Seq<char>>)
    requires
        holds_start(a),
        !ends_in_block(a),
        all_manual(b),
    ensures
        holds_start(a + b),
        !ends_in_block(a + b),
        before_block(a + b) == before_block(a),
        after_block(a + b) == after_block(a) + b,
        managed_lines(a + b) == managed_lines(a),
    decreases b.len(),
{
    if b.len() == 0 {
        assert(a + b == a);
        assert(after_block(a) + b == after_block(a));
    } else {
        let rest = b.drop_last();
        assert(all_manual(rest)) by {
            assert forall|i: int| 0 <= i < rest.len() implies !is_marker(#[trigger] rest[i]) by {
                assert(rest[i] == b[i]);
            }
        }
        lemma_manual_behind(a, rest);
        assert((a + b).drop_last() == a + rest);
        assert((a + b).last() == b.last());
        assert(!is_marker(b[b.len() - 1]));
        lemma_holds_start_last(a + b);
        assert((after_block(a) + rest).push(b.last()) == after_block(a) + b);
    }
}

/// Nothing stands before a block at the start.
proof fn lemma_nothing_before(list: Seq<Seq<char>>)
    requires
        list.len() > 0,
        is_start(list[0]),
    ensures
        holds_start(list),
        before_block(list) == Seq::<Seq<char>>::empty(),
    decreases list.len(),
{
    assert(is_start(list[0]));
    if list.len() > 1 {
        assert(list.drop_last()[0] == list[0]);
        lemma_nothing_before(list.drop_last());
    } else {
        assert(list.last() == list[0]);
        assert(before_block(list.drop_last()) == Seq::<Seq<char>>::empty());
    }
}

/// The manual lines are lines of the list, and none of them is a marker.
proof fn lemma_manual_lines(list: Seq<Seq<char>>)
    ensures
        all_manual(before_block(list)),
        all_manual(after_block(list)),
        forall|i: int| 0 <= i < before_block(list).len() ==> list.contains(#[trigger] before_block(list)[i]),
        forall|i: int| 0 <= i < after_block(list).len() ==> list.contains(#[trigger] after_block(list)[i]),
    decreases list.len(),
{
    if list.len() > 0 {
        let rest = list.drop_last();
        lemma_manual_lines(rest);
        assert(list[list.len() - 1] == list.last());
        assert forall|x: Seq<char>| rest.contains(x) implies list.contains(x) by {
            let i = rest.index_of(x);
            assert(list[i] == x);
        }
    }
}

/// How a block reads once it is written.
proof fn lemma_block_lines(keys: Seq<Seq<char>>)
    ensures
        lines(unlines(block_of(keys))) == seq![MANAGED_BLOCK_START@] + lines(unlines(keys)) + seq![
            MANAGED_BLOCK_END@,
        ],
{
    let s = seq![MANAGED_BLOCK_START@];
    let e = seq![MANAGED_BLOCK_END@];
    lemma_markers();
    unlines_of_sum(s + keys, e);
    unlines_of_sum(s, keys);
    unlines_ends_with_line_feed(s);
    unlines_ends_with_line_feed(s + keys);
    lines_of_sum(unlines(s + keys), unlines(e));
    lines_of_sum(unlines(s), unlines(keys));
    lines_are_read_back(s);
    lines_are_read_back(e);
}

/// The lines of an updated file.
proof fn lemma_updated_lines(current: Seq<char>, keys: Seq<Seq<char>>)
    ensures
        lines(managed_content(current, keys)) == before_block(lines(current)).map_values(
            |l: Seq<char>| without_return(l),
        ) + lines(unlines(block_of(keys))) + after_block(lines(current)).map_values(
            |l: Seq<char>| without_return(l),
        ),
        all_manual(before_block(lines(current)).map_values(|l: Seq<char>| without_return(l))),
        all_manual(after_block(lines(current)).map_values(|l: Seq<char>| without_return(l))),
{
    let list = lines(current);
    let b = before_block(list);
    let a = after_block(list);
    lemma_manual_lines(list);
    assert forall|i: int| 0 <= i < b.len() implies !(#[trigger] b[i]).contains('\n') by {
        assert(list.contains(b[i]));
        lines_hold_no_line_feed(current, list.index_of(b[i]));
    }
    assert forall|i: int| 0 <= i < a.len() implies !(#[trigger] a[i]).contains('\n') by {
        assert(list.contains(a[i]));
        lines_hold_no_line_feed(current, list.index_of(a[i]));
    }
    unlines_of_sum(b + block_of(keys), a);
    unlines_of_sum(b, block_of(keys));
    unlines_ends_with_line_feed(b);
    unlines_ends_with_line_feed(b + block_of(keys));
    lines_of_sum(unlines(b + block_of(keys)), unlines(a));
    lines_of_sum(unlines(b), unlines(block_of(keys)));
    lines_of_unlines(b);
    lines_of_unlines(a);
    lemma_returns_keep_manual(b);
    lemma_returns_keep_manual(a);
}

/// Dropping a carriage return makes no line a marker.
proof fn lemma_returns_keep_manual(list: Seq<Seq<char>>)
    requires
        all_manual(list),
    ensures
        all_manual(list.map_values(|l: Seq<char>| without_return(l))),
{
    let read = list.map_values(|l: Seq<char>| without_return(l));
    assert forall|i: int| 0 <= i < read.len() implies !is_marker(#[trigger] read[i]) by {
        trimmed_without_return(list[i]);
        assert(!is_marker(list[i]));
    }
}

/// An update keeps the manual lines, in order, and on the same side of the block.
///
/// A manual line that ends with a carriage return beyond the one of its line ending loses it when
/// the file is read again. Such a file is left out.
pub proof fn manual_lines_are_kept(current: Seq<char>, keys: Seq<Seq<char>>)
    requires
        block_is_closed(keys),
        forall|i: int|
            0 <= i < before_block(lines(current)).len() ==> is_line(
                #[trigger] before_block(lines(current))[i],
            ),
        forall|i: int|
            0 <= i < after_block(lines(current)).len() ==> is_line(
                #[trigger] after_block(lines(current))[i],
            ),
    ensures
        before_block(lines(managed_content(current, keys))) == before_block(lines(current)),
        after_block(lines(managed_content(current, keys))) == after_block(lines(current)),
{
    let b = before_block(lines(current));
    let a = after_block(lines(current));
    let block = lines(unlines(block_of(keys)));
    lemma_updated_lines(current, keys);
    assert(b.map_values(|l: Seq<char>| without_return(l)) == b);
    assert(a.map_values(|l: Seq<char>| without_return(l)) == a);
    lemma_block_lines(keys);
    lemma_markers();
    lemma_nothing_before(block);
    assert(block.last() == MANAGED_BLOCK_END@);
    lemma_manual_behind(block, a);
    lemma_manual_in_front(b, block + a);
    assert(b + block + a == b + (block + a));
    assert(b + Seq::<Seq<char>>::empty() == b);
    assert(Seq::<Seq<char>>::empty() + a == a);
}

/// Only the last of two updates counts: what the first put into the block is gone.
pub proof fn last_update_counts(current: Seq<char>, first: Seq<Seq<char>>, second: Seq<Seq<char>>)
    requires
        block_is_closed(first),
        forall|i: int|
            0 <= i < before_block(lines(current)).len() ==> is_line(
                #[trigger] before_block(lines(current))[i],
            ),
        forall|i: int|
            0 <= i < after_block(lines(current)).len() ==> is_line(
                #[trigger] after_block(lines(current))[i],
            ),
    ensures
        managed_content(managed_content(current, first), second) == managed_content(
            current,
            second,
        ),
{
    manual_lines_are_kept(current, first);
}

/// Updating again with the same keys changes nothing.
pub proof fn updating_is_idempotent(current: Seq<char>, keys: Seq<Seq<char>>)
    requires
        block_is_closed(keys),
        forall|i: int|
            0 <= i < before_block(lines(current)).len() ==> is_line(
                #[trigger] before_block(lines(current))[i],
            ),
        forall|i: int|
            0 <= i < after_block(lines(current)).len() ==> is_line(
                #[trigger] after_block(lines(current))[i],
            ),
    ensures
        managed_content(managed_content(current, keys), keys) == managed_content(current, keys),
{
    last_update_counts(current, keys, keys);
}

/// A start marker and lines behind it that are no markers are an open block of those lines.
proof fn lemma_open_block(keys: Seq<Seq<char>>)
    requires
        all_manual(keys),
    ensures
        ends_in_block(seq![MANAGED_BLOCK_START@] + keys),
        managed_lines(seq![MANAGED_BLOCK_START@] + keys) == keys,
        after_block(seq![MANAGED_BLOCK_START@] + keys) == Seq::<Seq<char>>::empty(),
    decreases keys.len(),
{
    lemma_markers();
    let s = seq![MANAGED_BLOCK_START@];
    let list = s + keys;
    if keys.len() == 0 {
        assert(list == s);
        assert(s.drop_last() == Seq::<Seq<char>>::empty());
        assert(is_start(s.last()));
        assert(managed_lines(s.drop_last()) == keys);
        assert(after_block(s.drop_last()) == keys);
    } else {
        let rest = keys.drop_last();
        assert(all_manual(rest)) by {
            assert forall|i: int| 0 <= i < rest.len() implies !is_marker(#[trigger] rest[i]) by {
                assert(rest[i] == keys[i]);
            }
        }
        lemma_open_block(rest);
        assert(list.drop_last() == s + rest);
        assert(list.last() == keys.last());
        assert(!is_marker(keys[keys.len() - 1]));
        assert(rest.push(keys.last()) == keys);
    }
}

/// Valid keys of one line each are no markers, and read as written.
proof fn lemma_key_lines(keys: Seq<KeyView>)
    requires
        valid_keys(keys),
        forall|i: int| 0 <= i < keys.len() ==> !(#[trigger] keys[i]).text.contains('\n'),
    ensures
        all_manual(key_texts(keys)),
        lines(unlines(key_texts(keys))) == key_texts(keys),
{
    let list = key_texts(keys);
    lemma_markers();
    assert forall|i: int| 0 <= i < list.len() implies is_line(#[trigger] list[i]) && !is_marker(
        list[i],
    ) by {
        assert(valid_key(keys[i]));
        assert(list[i] == keys[i].text);
        trimmed_already(list[i]);
    }
    lines_are_read_back(list);
}

/// A block of valid keys of one line each holds nothing that counts as manual.
pub proof fn keys_close_their_block(keys: Seq<KeyView>)
    requires
        valid_keys(keys),
        forall|i: int| 0 <= i < keys.len() ==> !(#[trigger] keys[i]).text.contains('\n'),
    ensures
        block_is_closed(key_texts(keys)),
{
    let s = seq![MANAGED_BLOCK_START@];
    let e = seq![MANAGED_BLOCK_END@];
    let list = key_texts(keys);
    lemma_key_lines(keys);
    lemma_block_lines(list);
    lemma_open_block(list);
    lemma_markers();
    assert((s + list + e).drop_last() == s + list);
    assert((s + list + e).last() == MANAGED_BLOCK_END@);
}

/// After an update, the managed lines are exactly the keys, and there is exactly one block. It
/// stands where the first block was, or at the end if there was none.
pub proof fn block_holds_exactly_the_keys(current: Seq<char>, keys: Seq<KeyView>)
    requires
        valid_keys(keys),
        forall|i: int| 0 <= i < keys.len() ==> !(#[trigger] keys[i]).text.contains('\n'),
    ensures
        managed_lines(lines(managed_content(current, key_texts(keys)))) == key_texts(keys),
        forall|i: int|
            0 <= i < lines(managed_content(current, key_texts(keys))).len() ==> is_start(
                #[trigger] lines(managed_content(current, key_texts(keys)))[i],
            ) == (i == before_block(lines(current)).len()),
{
    let s = seq![MANAGED_BLOCK_START@];
    let e = seq![MANAGED_BLOCK_END@];
    let list = key_texts(keys);
    let b = before_block(lines(current)).map_values(|l: Seq<char>| without_return(l));
    let a = after_block(lines(current)).map_values(|l: Seq<char>| without_return(l));
    let block = lines(unlines(block_of(list)));
    lemma_updated_lines(current, list);
    lemma_key_lines(keys);
    lemma_block_lines(list);
    lemma_open_block(list);
    lemma_markers();
    assert(block == s + list + e);
    assert(block.drop_last() == s + list);
    assert(block.last() == MANAGED_BLOCK_END@);
    assert(block[0] == MANAGED_BLOCK_START@);
    lemma_nothing_before(block);
    lemma_manual_behind(block, a);
    lemma_manual_in_front(b, block + a);
    let out = lines(managed_content(current, list));
    assert(out == b + (block + a));
    assert forall|i: int| 0 <= i < out.len() implies is_start(#[trigger] out[i]) == (i
        == b.len()) by {
        if i < b.len() {
            assert(out[i] == b[i]);
        } else if i == b.len() {
            assert(out[i] == block[0]);
        } else if i < b.len() + 1 + list.len() {
            assert(out[i] == list[i - b.len() - 1]);
        } else if i == b.len() + 1 + list.len() {
            assert(out[i] == block.last());
        } else {
            assert(out[i] == a[i - b.len() - block.len()]);
        }
    }
}

/// A block that is open, or closed, leaves nothing behind it.
proof fn lemma_any_block(open: Seq<char>, m: Seq<Seq<char>>, close: Seq<char>)
    requires
        is_start(open),
        is_end(close),
        all_manual(m),
    ensures
        ({
            let block = seq![open] + m;
            &&& holds_start(block)
            &&& ends_in_block(block)
            &&& before_block(block) == Seq::<Seq<char>>::empty()
            &&& after_block(block) == Seq::<Seq<char>>::empty()
        }),
        ({
            let block = seq![open] + m + seq![close];
            &&& holds_start(block)
            &&& !ends_in_block(block)
            &&& before_block(block) == Seq::<Seq<char>>::empty()
            &&& after_block(block) == Seq::<Seq<char>>::empty()
        }),
    decreases m.len(),
{
    lemma_markers();
    let block = seq![open] + m;
    assert(block[0] == open);
    lemma_nothing_before(block);
    if m.len() == 0 {
        assert(block.last() == open);
        assert(block.drop_last() == Seq::<Seq<char>>::empty());
        assert(after_block(block.drop_last()) == Seq::<Seq<char>>::empty());
    } else {
        let rest = m.drop_last();
        assert(all_manual(rest)) by {
            assert forall|i: int| 0 <= i < rest.len() implies !is_marker(#[trigger] rest[i]) by {
                assert(rest[i] == m[i]);
            }
        }
        lemma_any_block(open, rest, close);
        assert(block.drop_last() == seq![open] + rest);
        assert(block.last() == m[m.len() - 1]);
    }
    let all = block + seq![close];
    assert(all[0] == open);
    lemma_nothing_before(all);
    assert(all.drop_last() == block);
    assert(all.last() == close);
}

/// Another block behind a closed one leaves nothing behind it either.
proof fn lemma_another_block(
    list: Seq<Seq<char>>,
    open: Seq<char>,
    m: Seq<Seq<char>>,
    close: Seq<char>,
)
    requires
        holds_start(list),
        !ends_in_block(list),
        is_start(open),
        is_end(close),
        all_manual(m),
    ensures
        ({
            let block = list + seq![open] + m;
            &&& holds_start(block)
            &&& ends_in_block(block)
            &&& before_block(block) == before_block(list)
            &&& after_block(block) == after_block(list)
        }),
        ({
            let all = list + seq![open] + m + seq![close];
            &&& holds_start(all)
            &&& !ends_in_block(all)
            &&& before_block(all) == before_block(list)
            &&& after_block(all) == after_block(list)
        }),
    decreases m.len(),
{
    lemma_markers();
    let block = list + seq![open] + m;
    lemma_holds_start_last(block);
    if m.len() == 0 {
        assert(block.drop_last() == list);
        assert(block.last() == open);
    } else {
        let rest = m.drop_last();
        assert(all_manual(rest)) by {
            assert forall|i: int| 0 <= i < rest.len() implies !is_marker(#[trigger] rest[i]) by {
                assert(rest[i] == m[i]);
            }
        }
        lemma_another_block(list, open, rest, close);
        assert(block.drop_last() == list + seq![open] + rest);
        assert(block.last() == m[m.len() - 1]);
    }
    let all = block + seq![close];
    lemma_holds_start_last(all);
    assert(all.drop_last() == block);
    assert(all.last() == close);
    assert(!is_start(close));
    assert(is_marker(close));
    assert(before_block(all) == before_block(block));
    assert(after_block(all) == after_block(block));
    assert(!ends_in_block(all));
}

/// A file without a managed block keeps every line, and gets a block of exactly the keys at its
/// end.
pub proof fn first_update_appends_a_block(current: &str, keys: &PublicKeys, r: String)
    requires
        call_ensures(updated_content, (current, keys), r),
        forall|i: int|
            0 <= i < lines(current@).len() ==> trimmed(#[trigger] lines(current@)[i])
                != "# >>> octosync managed keys - do not edit this block >>>"@ && trimmed(lines(current@)[i])
                != "# <<< octosync managed keys - do not edit this block <<<"@,
    ensures
        r@ == unlines(
            lines(current@) + seq!["# >>> octosync managed keys - do not edit this block >>>"@] + Seq::new(keys@.len(), |i: int| keys@[i].text) + seq!["# <<< octosync managed keys - do not edit this block <<<"@],
        ),
{
    let all = lines(current@);
    lemma_manual_in_front(all, Seq::empty());
    assert(all + Seq::<Seq<char>>::empty() == all);
    assert(before_block(all) == all);
    assert(after_block(all) == Seq::<Seq<char>>::empty());
    lemma_block_texts(keys@);
    assert(all + block_of(key_texts(keys@)) + Seq::<Seq<char>>::empty() == all + seq![
        "# >>> octosync managed keys - do not edit this block >>>"@,
    ] + Seq::new(keys@.len(), |i: int| keys@[i].text) + seq!["# <<< octosync managed keys - do not edit this block <<<"@]);
}

/// The lines of a block, one by one.
proof fn lemma_block_texts(keys: Seq<KeyView>)
    ensures
        block_of(key_texts(keys)) == seq!["# >>> octosync managed keys - do not edit this block >>>"@] + Seq::new(
            keys.len(),
            |i: int| keys[i].text,
        ) + seq!["# <<< octosync managed keys - do not edit this block <<<"@],
{
    assert(key_texts(keys) == Seq::new(keys.len(), |i: int| keys[i].text));
}

/// A file with a managed block gets exactly the keys in the place of that block. Every line before
/// and behind it stays, and nothing of what the block held. White space around the markers does not
/// matter.
pub proof fn update_replaces_the_block(
    current: &str,
    keys: &PublicKeys,
    r: String,
    before: Seq<Seq<char>>,
    open: Seq<char>,
    managed: Seq<Seq<char>>,
    close: Seq<char>,
    after: Seq<Seq<char>>,
)
    requires
        call_ensures(updated_content, (current, keys), r),
        lines(current@) == before + seq![open] + managed + seq![close] + after,
        trimmed(open) == "# >>> octosync managed keys - do not edit this block >>>"@,
        trimmed(close) == "# <<< octosync managed keys - do not edit this block <<<"@,
        forall|i: int|
            0 <= i < before.len() ==> trimmed(#[trigger] before[i])
                != "# >>> octosync managed keys - do not edit this block >>>"@ && trimmed(before[i])
                != "# <<< octosync managed keys - do not edit this block <<<"@,
        forall|i: int|
            0 <= i < managed.len() ==> trimmed(#[trigger] managed[i])
                != "# >>> octosync managed keys - do not edit this block >>>"@ && trimmed(managed[i])
                != "# <<< octosync managed keys - do not edit this block <<<"@,
        forall|i: int|
            0 <= i < after.len() ==> trimmed(#[trigger] after[i])
                != "# >>> octosync managed keys - do not edit this block >>>"@ && trimmed(after[i])
                != "# <<< octosync managed keys - do not edit this block <<<"@,
    ensures
        r@ == unlines(
            before + seq!["# >>> octosync managed keys - do not edit this block >>>"@] + Seq::new(keys@.len(), |i: int| keys@[i].text) + seq!["# <<< octosync managed keys - do not edit this block <<<"@] + after,
        ),
{
    let all = lines(current@);
    let block = seq![open] + managed + seq![close];
    lemma_any_block(open, managed, close);
    lemma_manual_behind(block, after);
    lemma_manual_in_front(before, block + after);
    assert(all == before + (block + after));
    assert(before + Seq::<Seq<char>>::empty() == before);
    assert(Seq::<Seq<char>>::empty() + after == after);
    lemma_block_texts(keys@);
    assert(before + block_of(key_texts(keys@)) + after == before + seq![
        "# >>> octosync managed keys - do not edit this block >>>"@,
    ] + Seq::new(keys@.len(), |i: int| keys@[i].text) + seq!["# <<< octosync managed keys - do not edit this block <<<"@] + after);
}

/// A block without an end goes on to the end of the file. Every line before it stays.
pub proof fn update_replaces_an_open_block(
    current: &str,
    keys: &PublicKeys,
    r: String,
    before: Seq<Seq<char>>,
    open: Seq<char>,
    managed: Seq<Seq<char>>,
)
    requires
        call_ensures(updated_content, (current, keys), r),
        lines(current@) == before + seq![open] + managed,
        trimmed(open) == "# >>> octosync managed keys - do not edit this block >>>"@,
        forall|i: int|
            0 <= i < before.len() ==> trimmed(#[trigger] before[i])
                != "# >>> octosync managed keys - do not edit this block >>>"@ && trimmed(before[i])
                != "# <<< octosync managed keys - do not edit this block <<<"@,
        forall|i: int|
            0 <= i < managed.len() ==> trimmed(#[trigger] managed[i])
                != "# >>> octosync managed keys - do not edit this block >>>"@ && trimmed(managed[i])
                != "# <<< octosync managed keys - do not edit this block <<<"@,
    ensures
        r@ == unlines(
            before + seq!["# >>> octosync managed keys - do not edit this block >>>"@] + Seq::new(keys@.len(), |i: int| keys@[i].text) + seq!["# <<< octosync managed keys - do not edit this block <<<"@],
        ),
{
    let all = lines(current@);
    lemma_markers();
    lemma_any_block(open, managed, MANAGED_BLOCK_END@);
    lemma_manual_in_front(before, seq![open] + managed);
    assert(all == before + (seq![open] + managed));
    assert(before + Seq::<Seq<char>>::empty() == before);
    lemma_block_texts(keys@);
    assert(before + block_of(key_texts(keys@)) + Seq::<Seq<char>>::empty() == before + seq![
        "# >>> octosync managed keys - do not edit this block >>>"@,
    ] + Seq::new(keys@.len(), |i: int| keys@[i].text) + seq!["# <<< octosync managed keys - do not edit this block <<<"@]);
}

/// A second managed block disappears, and what stood before, between and behind the two stays.
pub proof fn update_leaves_one_block(
    current: &str,
    keys: &PublicKeys,
    r: String,
    before: Seq<Seq<char>>,
    open: Seq<char>,
    managed: Seq<Seq<char>>,
    close: Seq<char>,
    between: Seq<Seq<char>>,
    more: Seq<Seq<char>>,
    after: Seq<Seq<char>>,
)
    requires
        call_ensures(updated_content, (current, keys), r),
        lines(current@) == before + seq![open] + managed + seq![close] + between + seq![open] + more
            + seq![close] + after,
        trimmed(open) == "# >>> octosync managed keys - do not edit this block >>>"@,
        trimmed(close) == "# <<< octosync managed keys - do not edit this block <<<"@,
        forall|i: int|
            0 <= i < before.len() ==> trimmed(#[trigger] before[i])
                != "# >>> octosync managed keys - do not edit this block >>>"@ && trimmed(before[i])
                != "# <<< octosync managed keys - do not edit this block <<<"@,
        forall|i: int|
            0 <= i < managed.len() ==> trimmed(#[trigger] managed[i])
                != "# >>> octosync managed keys - do not edit this block >>>"@ && trimmed(managed[i])
                != "# <<< octosync managed keys - do not edit this block <<<"@,
        forall|i: int|
            0 <= i < between.len() ==> trimmed(#[trigger] between[i])
                != "# >>> octosync managed keys - do not edit this block >>>"@ && trimmed(between[i])
                != "# <<< octosync managed keys - do not edit this block <<<"@,
        forall|i: int|
            0 <= i < more.len() ==> trimmed(#[trigger] more[i])
                != "# >>> octosync managed keys - do not edit this block >>>"@ && trimmed(more[i])
                != "# <<< octosync managed keys - do not edit this block <<<"@,
        forall|i: int|
            0 <= i < after.len() ==> trimmed(#[trigger] after[i])
                != "# >>> octosync managed keys - do not edit this block >>>"@ && trimmed(after[i])
                != "# <<< octosync managed keys - do not edit this block <<<"@,
    ensures
        r@ == unlines(
            before + seq!["# >>> octosync managed keys - do not edit this block >>>"@] + Seq::new(keys@.len(), |i: int| keys@[i].text) + seq!["# <<< octosync managed keys - do not edit this block <<<"@] + between + after,
        ),
{
    let all = lines(current@);
    let block = seq![open] + managed + seq![close];
    let list = block + between;
    let both = list + seq![open] + more + seq![close];
    lemma_any_block(open, managed, close);
    lemma_manual_behind(block, between);
    lemma_another_block(list, open, more, close);
    lemma_manual_behind(both, after);
    lemma_manual_in_front(before, both + after);
    assert(all == before + (both + after));
    assert(before + Seq::<Seq<char>>::empty() == before);
    assert(Seq::<Seq<char>>::empty() + between == between);
    lemma_block_texts(keys@);
    assert(before + block_of(key_texts(keys@)) + (between + after) == before + seq![
        "# >>> octosync managed keys - do not edit this block >>>"@,
    ] + Seq::new(keys@.len(), |i: int| keys@[i].text) + seq!["# <<< octosync managed keys - do not edit this block <<<"@] + between + after);
}

/// Splitting a file gives all lines before its block and all lines behind it. Without a block, all
/// lines are before it.
pub proof fn splitting_loses_no_manual_line(
    content: &str,
    r: (Vec<String>, Vec<String>),
    before: Seq<Seq<char>>,
    open: Seq<char>,
    managed: Seq<Seq<char>>,
    close: Seq<char>,
    after: Seq<Seq<char>>,
)
    requires
        call_ensures(split_around_managed_block, (content,), r),
        trimmed(open) == "# >>> octosync managed keys - do not edit this block >>>"@,
        trimmed(close) == "# <<< octosync managed keys - do not edit this block <<<"@,
        forall|i: int|
            0 <= i < before.len() ==> trimmed(#[trigger] before[i])
                != "# >>> octosync managed keys - do not edit this block >>>"@ && trimmed(before[i])
                != "# <<< octosync managed keys - do not edit this block <<<"@,
        forall|i: int|
            0 <= i < managed.len() ==> trimmed(#[trigger] managed[i])
                != "# >>> octosync managed keys - do not edit this block >>>"@ && trimmed(managed[i])
                != "# <<< octosync managed keys - do not edit this block <<<"@,
        forall|i: int|
            0 <= i < after.len() ==> trimmed(#[trigger] after[i])
                != "# >>> octosync managed keys - do not edit this block >>>"@ && trimmed(after[i])
                != "# <<< octosync managed keys - do not edit this block <<<"@,
    ensures
        lines(content@) == before + seq![open] + managed + seq![close] + after ==> texts(r.0@)
            == before && texts(r.1@) == after,
        lines(content@) == before ==> texts(r.0@) == before && texts(r.1@).len() == 0,
{
    let block = seq![open] + managed + seq![close];
    lemma_any_block(open, managed, close);
    lemma_manual_behind(block, after);
    lemma_manual_in_front(before, block + after);
    assert(before + seq![open] + managed + seq![close] + after == before + (block + after));
    assert(before + Seq::<Seq<char>>::empty() == before);
    assert(Seq::<Seq<char>>::empty() + after == after);
    lemma_manual_in_front(before, Seq::empty());
}

/// A file is written with the lines before the block, the block with every key, and the lines
/// behind it, each on a line of its own.
pub proof fn everything_is_rendered(
    before: &Vec<String>,
    after: &Vec<String>,
    keys: &PublicKeys,
    r: String,
)
    requires
        call_ensures(render_content, (before, after, keys), r),
    ensures
        r@ == unlines(
            texts(before@) + seq!["# >>> octosync managed keys - do not edit this block >>>"@] + Seq::new(keys@.len(), |i: int| keys@[i].text) + seq!["# <<< octosync managed keys - do not edit this block <<<"@] + texts(after@),
        ),
{
    lemma_block_texts(keys@);
    assert(texts(before@) + block_of(key_texts(keys@)) + texts(after@) == texts(before@) + seq![
        "# >>> octosync managed keys - do not edit this block >>>"@,
    ] + Seq::new(keys@.len(), |i: int| keys@[i].text) + seq!["# <<< octosync managed keys - do not edit this block <<<"@] + texts(after@));
}

} // verus!
