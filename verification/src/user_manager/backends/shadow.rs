//! The shadow file, which says on which day an account expires.
use crate::numerals::{number_in, number_up_to, numerals_are_read_back};
use crate::text::{chars_of, decimal, joined, lines, lines_of, same_text, texts};
use vstd::prelude::*;

verus! {

/// The position of the expiry among the fields of an entry.
pub const EXPIRY_FIELD: usize = 7;

/// The fields of an entry, which colons separate.
pub open spec fn fields(entry: Seq<char>) -> Seq<Seq<char>>
    decreases entry.len(),
{
    if entry.len() == 0 {
        seq![Seq::empty()]
    } else {
        let rest = fields(entry.drop_last());
        if entry.last() == ':' {
            rest.push(Seq::empty())
        } else {
            rest.drop_last().push(rest.last().push(entry.last()))
        }
    }
}

/// The fields of an entry.
fn fields_of(entry: &str) -> (r: Vec<String>)
    ensures
        texts(r@) == fields(entry@),
        r@.len() > 0,
{
    let chars = chars_of(entry);
    let mut r: Vec<String> = Vec::new();
    let mut field: String = String::new();
    let mut i: usize = 0;
    assert(texts(r@).push(field@) == fields(chars@.take(0)));
    while i < chars.len()
        invariant
            i <= chars@.len(),
            texts(r@).push(field@) == fields(chars@.take(i as int)),
        decreases chars@.len() - i,
    {
        let ghost done = r@;
        let ghost before = field@;
        let c = chars[i];
        proof {
            assert(chars@.take(i + 1).drop_last() == chars@.take(i as int));
            assert(texts(done).push(before).drop_last() == texts(done));
        }
        if c == ':' {
            r.push(field);
            field = String::new();
            assert(texts(r@) == texts(done).push(before));
        } else {
            field.push(c);
        }
        i = i + 1;
    }
    let ghost done = r@;
    let ghost before = field@;
    r.push(field);
    assert(texts(r@) == texts(done).push(before));
    assert(chars@.take(chars@.len() as int) == entry@);
    r
}

/// The day on which an account expires, going by the first of the entries that has its name. An
/// empty field gives none, and neither does one that is no number.
pub open spec fn expiry_in(entries: Seq<Seq<char>>, name: Seq<char>) -> Option<i64>
    decreases entries.len(),
{
    if entries.len() == 0 {
        None
    } else {
        let first = fields(entries[0]);
        if first[0] != name {
            expiry_in(entries.drop_first(), name)
        } else if first.len() > EXPIRY_FIELD {
            number_in(first[EXPIRY_FIELD as int], i64::MAX)
        } else {
            None
        }
    }
}

/// The day on which an account expires, counted from 1970-01-01, as the shadow file has it: the
/// eighth field of the first line with the account's name.
pub fn shadow_expiry(content: &str, name: &str) -> (r: Option<i64>)
    ensures
        r == expiry_in(lines(content@), name@),
{
    let list = lines_of(content);
    let ghost all = texts(list@);
    let mut i: usize = 0;
    assert(all.skip(0) == all);
    while i < list.len()
        invariant
            i <= list@.len(),
            all == texts(list@),
            all == lines(content@),
            expiry_in(all, name@) == expiry_in(all.skip(i as int), name@),
        decreases list@.len() - i,
    {
        let entry = fields_of(list[i].as_str());
        proof {
            assert(all[i as int] == list@[i as int]@);
            assert(all.skip(i as int)[0] == all[i as int]);
            assert(all.skip(i as int).drop_first() == all.skip(i + 1));
            assert(texts(entry@)[0] == entry@[0]@);
        }
        if same_text(entry[0].as_str(), name) {
            if entry.len() > EXPIRY_FIELD {
                assert(texts(entry@)[EXPIRY_FIELD as int] == entry@[EXPIRY_FIELD as int]@);
                return number_up_to(entry[EXPIRY_FIELD].as_str(), i64::MAX);
            }
            return None;
        }
        i = i + 1;
    }
    None
}

/// A field without colons that stands behind a colon is read as the last field.
proof fn lemma_last_field(entry: Seq<char>, field: Seq<char>)
    requires
        !field.contains(':'),
    ensures
        fields(entry + seq![':'] + field) == fields(entry).push(field),
    decreases field.len(),
{
    let whole = entry + seq![':'] + field;
    if field.len() == 0 {
        assert(whole.drop_last() == entry);
        assert(whole.last() == ':');
        assert(field == Seq::<char>::empty());
    } else {
        let rest = field.drop_last();
        assert(!rest.contains(':')) by {
            if rest.contains(':') {
                assert(field[rest.index_of(':')] == ':');
            }
        }
        lemma_last_field(entry, rest);
        assert(whole.drop_last() == entry + seq![':'] + rest);
        assert(whole.last() == field.last());
        assert(field.last() == field[field.len() - 1]);
        assert(fields(entry).push(rest).drop_last() == fields(entry));
        assert(rest.push(field.last()) == field);
    }
}

/// An entry of one field is read as that field.
proof fn lemma_only_field(field: Seq<char>)
    requires
        !field.contains(':'),
    ensures
        fields(field) == seq![field],
    decreases field.len(),
{
    if field.len() > 0 {
        let rest = field.drop_last();
        assert(!rest.contains(':')) by {
            if rest.contains(':') {
                assert(field[rest.index_of(':')] == ':');
            }
        }
        lemma_only_field(rest);
        assert(field.last() == field[field.len() - 1]);
        assert(rest.push(field.last()) == field);
        assert(fields(field) == seq![field]);
    } else {
        assert(field == Seq::<char>::empty());
    }
}

/// Fields that are written with colons between them are read back.
pub proof fn fields_are_read_back(parts: Seq<Seq<char>>)
    requires
        parts.len() > 0,
        forall|i: int| 0 <= i < parts.len() ==> !(#[trigger] parts[i]).contains(':'),
    ensures
        fields(joined(parts, ":"@)) == parts,
    decreases parts.len(),
{
    reveal_strlit(":");
    assert(":"@ == seq![':']);
    if parts.len() == 1 {
        lemma_only_field(parts[0]);
        assert(joined(parts, ":"@) == parts[0]);
        assert(seq![parts[0]] == parts);
    } else {
        let rest = parts.drop_last();
        assert forall|i: int| 0 <= i < rest.len() implies !(#[trigger] rest[i]).contains(':') by {
            assert(rest[i] == parts[i]);
        }
        fields_are_read_back(rest);
        assert(parts.last() == parts[parts.len() - 1]);
        lemma_last_field(joined(rest, ":"@), parts.last());
        assert(rest.push(parts.last()) == parts);
    }
}

/// The expiry of an account is the number in the eighth field of the first entry that has its
/// name, whatever the other entries and fields are. An empty field means that it does not expire.
pub proof fn expiry_is_read_from_the_accounts_entry(
    content: &str,
    name: &str,
    r: Option<i64>,
    before: Seq<Seq<char>>,
    parts: Seq<Seq<char>>,
    after: Seq<Seq<char>>,
    day: nat,
)
    requires
        call_ensures(shadow_expiry, (content, name), r),
        lines(content@) == before + seq![joined(parts, ":"@)] + after,
        forall|i: int| 0 <= i < before.len() ==> fields(#[trigger] before[i])[0] != name@,
        parts.len() > 7,
        parts[0] == name@,
        forall|i: int| 0 <= i < parts.len() ==> !(#[trigger] parts[i]).contains(':'),
    ensures
        parts[7] == decimal(day) && day <= i64::MAX ==> r == Some(day as i64),
        parts[7].len() == 0 ==> r is None,
{
    fields_are_read_back(parts);
    lemma_first_entry(before, joined(parts, ":"@), after, name@);
    numerals_are_read_back(day);
}

/// Entries of other names do not matter, nor does what stands behind the first one of the name.
proof fn lemma_first_entry(
    before: Seq<Seq<char>>,
    entry: Seq<char>,
    after: Seq<Seq<char>>,
    name: Seq<char>,
)
    requires
        forall|i: int| 0 <= i < before.len() ==> fields(#[trigger] before[i])[0] != name,
        fields(entry)[0] == name,
    ensures
        expiry_in(before + seq![entry] + after, name) == expiry_in(seq![entry], name),
    decreases before.len(),
{
    let all = before + seq![entry] + after;
    if before.len() == 0 {
        assert(all[0] == entry);
    } else {
        assert(all[0] == before[0]);
        assert(all.drop_first() == before.drop_first() + seq![entry] + after);
        assert forall|i: int| 0 <= i < before.drop_first().len() implies fields(
            #[trigger] before.drop_first()[i],
        )[0] != name by {
            assert(before.drop_first()[i] == before[i + 1]);
        }
        lemma_first_entry(before.drop_first(), entry, after, name);
    }
}

/// An account without an entry does not expire.
pub proof fn unknown_account_does_not_expire(content: &str, name: &str, r: Option<i64>)
    requires
        call_ensures(shadow_expiry, (content, name), r),
        forall|i: int|
            0 <= i < lines(content@).len() ==> fields(#[trigger] lines(content@)[i])[0] != name@,
    ensures
        r is None,
{
    lemma_no_entry(lines(content@), name@);
}

/// Entries of other names give no expiry.
proof fn lemma_no_entry(entries: Seq<Seq<char>>, name: Seq<char>)
    requires
        forall|i: int| 0 <= i < entries.len() ==> fields(#[trigger] entries[i])[0] != name,
    ensures
        expiry_in(entries, name) is None,
    decreases entries.len(),
{
    if entries.len() > 0 {
        assert forall|i: int| 0 <= i < entries.drop_first().len() implies fields(
            #[trigger] entries.drop_first()[i],
        )[0] != name by {
            assert(entries.drop_first()[i] == entries[i + 1]);
        }
        lemma_no_entry(entries.drop_first(), name);
    }
}

} // verus!
