//! Text as sequences of characters: ordering, white space, lines and decimal numerals.
use vstd::prelude::*;

verus! {

/// Appends `c` to the string, as `String::push` documents.
pub assume_specification[ String::push ](s: &mut String, c: char)
    ensures
        final(s)@ == old(s)@.push(c),
;

/// The characters of each string of a list.
pub open spec fn texts(strings: Seq<String>) -> Seq<Seq<char>> {
    strings.map_values(|s: String| s@)
}

/// Whether `a` comes before `b` or equals it, comparing character by character.
///
/// This is the order of `str`, which compares code points by their position in the code charts.
pub open spec fn text_le(a: Seq<char>, b: Seq<char>) -> bool
    decreases a.len(),
{
    if a.len() == 0 {
        true
    } else if b.len() == 0 {
        false
    } else if a[0] != b[0] {
        (a[0] as int) < (b[0] as int)
    } else {
        text_le(a.drop_first(), b.drop_first())
    }
}

/// Whether `a` comes strictly before `b`.
pub open spec fn text_lt(a: Seq<char>, b: Seq<char>) -> bool {
    text_le(a, b) && a != b
}

/// Whether `c` has the Unicode property `White_Space`.
pub open spec fn white_space(c: char) -> bool {
    let n = c as int;
    ||| 0x9 <= n <= 0xd
    ||| n == 0x20
    ||| n == 0x85
    ||| n == 0xa0
    ||| n == 0x1680
    ||| 0x2000 <= n <= 0x200a
    ||| n == 0x2028
    ||| n == 0x2029
    ||| n == 0x202f
    ||| n == 0x205f
    ||| n == 0x3000
}

/// `s` without its leading white space.
pub open spec fn trim_start(s: Seq<char>) -> Seq<char>
    decreases s.len(),
{
    if s.len() > 0 && white_space(s[0]) {
        trim_start(s.drop_first())
    } else {
        s
    }
}

/// `s` without its trailing white space.
pub open spec fn trim_end(s: Seq<char>) -> Seq<char>
    decreases s.len(),
{
    if s.len() > 0 && white_space(s.last()) {
        trim_end(s.drop_last())
    } else {
        s
    }
}

/// `s` without leading and trailing white space.
pub open spec fn trimmed(s: Seq<char>) -> Seq<char> {
    trim_end(trim_start(s))
}

/// Length of the part of `s` before its first line feed, or of all of `s` if it has none.
pub open spec fn break_at(s: Seq<char>) -> nat
    decreases s.len(),
{
    if s.len() == 0 || s[0] == '\n' {
        0
    } else {
        1 + break_at(s.drop_first())
    }
}

/// `s` without a carriage return at its end.
pub open spec fn without_return(s: Seq<char>) -> Seq<char> {
    if s.len() > 0 && s.last() == '\r' {
        s.drop_last()
    } else {
        s
    }
}

/// The lines of `s`. A line ends with a line feed, or with a carriage return and a line feed.
/// The ending of the last line is optional.
pub open spec fn lines(s: Seq<char>) -> Seq<Seq<char>>
    decreases s.len(),
{
    let n = break_at(s) as int;
    if s.len() == 0 {
        Seq::empty()
    } else if n >= s.len() {
        seq![s]
    } else {
        seq![without_return(s.take(n))] + lines(s.skip(n + 1))
    }
}

/// The character of a decimal digit.
pub open spec fn digit(d: nat) -> char {
    (48 + d) as char
}

/// Whether `c` is one of the ten ASCII digits.
pub open spec fn is_digit(c: char) -> bool {
    '0' <= c <= '9'
}

/// The decimal numeral of `n`, without leading zeros.
pub open spec fn decimal(n: nat) -> Seq<char>
    decreases n,
{
    if n < 10 {
        seq![digit(n)]
    } else {
        decimal(n / 10).push(digit(n % 10))
    }
}

/// The parts in order, with `separator` between each two.
pub open spec fn joined(parts: Seq<Seq<char>>, separator: Seq<char>) -> Seq<char>
    decreases parts.len(),
{
    if parts.len() == 0 {
        Seq::empty()
    } else if parts.len() == 1 {
        parts[0]
    } else {
        joined(parts.drop_last(), separator) + separator + parts.last()
    }
}

/// The parts in order, each followed by a line feed.
pub open spec fn unlines(parts: Seq<Seq<char>>) -> Seq<char>
    decreases parts.len(),
{
    if parts.len() == 0 {
        Seq::empty()
    } else {
        unlines(parts.drop_last()) + parts.last() + seq!['\n']
    }
}

/// Whether a text can stand as a line: it holds no line feed, and no carriage return at its end
/// that would count as part of the line ending.
pub open spec fn is_line(s: Seq<char>) -> bool {
    !s.contains('\n') && (s.len() > 0 ==> s.last() != '\r')
}

/// The order of texts is reflexive.
pub proof fn text_le_reflexive(a: Seq<char>)
    ensures
        text_le(a, a),
    decreases a.len(),
{
    if a.len() > 0 {
        text_le_reflexive(a.drop_first());
    }
}

/// The order of texts is antisymmetric.
pub proof fn text_le_antisymmetric(a: Seq<char>, b: Seq<char>)
    requires
        text_le(a, b),
        text_le(b, a),
    ensures
        a == b,
    decreases a.len(),
{
    if a.len() > 0 && b.len() > 0 {
        text_le_antisymmetric(a.drop_first(), b.drop_first());
        assert(a == seq![a[0]] + a.drop_first());
        assert(b == seq![b[0]] + b.drop_first());
    } else {
        assert(a == b);
    }
}

/// The order of texts is transitive.
pub proof fn text_le_transitive(a: Seq<char>, b: Seq<char>, c: Seq<char>)
    requires
        text_le(a, b),
        text_le(b, c),
    ensures
        text_le(a, c),
    decreases a.len(),
{
    if a.len() > 0 && b.len() > 0 && c.len() > 0 && a[0] == b[0] && b[0] == c[0] {
        text_le_transitive(a.drop_first(), b.drop_first(), c.drop_first());
    }
}

/// Any two texts are ordered one way or the other.
pub proof fn text_le_total(a: Seq<char>, b: Seq<char>)
    ensures
        text_le(a, b) || text_le(b, a),
    decreases a.len(),
{
    if a.len() > 0 && b.len() > 0 && a[0] == b[0] {
        text_le_total(a.drop_first(), b.drop_first());
    }
}

/// Texts with different first parts of one length are ordered as those parts are.
pub proof fn first_part_decides(a: Seq<char>, b: Seq<char>, c: Seq<char>, d: Seq<char>)
    requires
        a.len() == c.len(),
        text_lt(a, c),
    ensures
        text_lt(a + b, c + d),
    decreases a.len(),
{
    if a.len() == 0 {
        assert(a == c);
    }
    let x = a + b;
    let y = c + d;
    assert(x[0] == a[0] && y[0] == c[0]);
    if a[0] == c[0] {
        assert(a == seq![a[0]] + a.drop_first());
        assert(c == seq![c[0]] + c.drop_first());
        assert(a.drop_first() != c.drop_first());
        first_part_decides(a.drop_first(), b, c.drop_first(), d);
        assert(x.drop_first() == a.drop_first() + b);
        assert(y.drop_first() == c.drop_first() + d);
    }
    assert(x.take(a.len() as int) == a);
    assert(y.take(a.len() as int) == c);
}

/// Texts with the same first part are ordered as the rest is.
pub proof fn second_part_decides(a: Seq<char>, b: Seq<char>, d: Seq<char>)
    requires
        text_le(b, d),
    ensures
        text_le(a + b, a + d),
        b != d ==> a + b != a + d,
    decreases a.len(),
{
    if a.len() == 0 {
        assert(a + b == b);
        assert(a + d == d);
    } else {
        second_part_decides(a.drop_first(), b, d);
        assert((a + b).drop_first() == a.drop_first() + b);
        assert((a + d).drop_first() == a.drop_first() + d);
    }
    assert((a + b).skip(a.len() as int) == b);
    assert((a + d).skip(a.len() as int) == d);
}

/// Numerals are made of digits, and there is at least one.
pub proof fn decimal_is_digits(n: nat)
    ensures
        decimal(n).len() > 0,
        forall|i: int| 0 <= i < decimal(n).len() ==> is_digit(#[trigger] decimal(n)[i]),
    decreases n,
{
    if n >= 10 {
        decimal_is_digits(n / 10);
    }
}

/// Different numbers have different numerals.
pub proof fn decimal_is_injective(m: nat, n: nat)
    requires
        decimal(m) == decimal(n),
    ensures
        m == n,
    decreases m,
{
    assert(decimal(m).last() == digit(m % 10));
    assert(decimal(n).last() == digit(n % 10));
    if m >= 10 && n >= 10 {
        assert(decimal(m).drop_last() == decimal(m / 10));
        assert(decimal(n).drop_last() == decimal(n / 10));
        decimal_is_injective(m / 10, n / 10);
    } else if m >= 10 {
        decimal_is_digits(m / 10);
    } else if n >= 10 {
        decimal_is_digits(n / 10);
    }
}

/// The characters of a string as a list.
pub fn chars_of(s: &str) -> (r: Vec<char>)
    ensures
        r@ == s@,
{
    let mut r: Vec<char> = Vec::new();
    for c in it: s.chars()
        invariant
            it.seq() == s@,
            r@ == s@.take(it.index() as int),
    {
        r.push(c);
    }
    assert(s@.take(s@.len() as int) == s@);
    r
}

/// The string made of the characters of `chars` from `from` up to, not including, `to`.
pub fn string_of(chars: &Vec<char>, from: usize, to: usize) -> (r: String)
    requires
        from <= to <= chars@.len(),
    ensures
        r@ == chars@.subrange(from as int, to as int),
{
    let mut r = String::new();
    let mut i: usize = from;
    while i < to
        invariant
            from <= i <= to <= chars@.len(),
            r@ == chars@.subrange(from as int, i as int),
        decreases to - i,
    {
        r.push(chars[i]);
        i = i + 1;
        assert(r@ == chars@.subrange(from as int, i as int));
    }
    r
}

/// Whether two strings hold the same characters.
pub fn same_text(a: &str, b: &str) -> (r: bool)
    ensures
        r == (a@ == b@),
{
    a.to_owned() == b.to_owned()
}

/// Whether two lists hold the same bytes.
pub fn same_bytes(a: &Vec<u8>, b: &Vec<u8>) -> (r: bool)
    ensures
        r == (a@ == b@),
{
    if a.len() != b.len() {
        return false;
    }
    let mut i: usize = 0;
    while i < a.len()
        invariant
            i <= a@.len(),
            a@.len() == b@.len(),
            forall|j: int| 0 <= j < i ==> a@[j] == b@[j],
        decreases a@.len() - i,
    {
        if a[i] != b[i] {
            return false;
        }
        i = i + 1;
    }
    assert(a@ == b@);
    true
}

/// The code point of a character.
fn code_point(c: char) -> (r: u32)
    ensures
        r as int == c as int,
{
    c as u32
}

/// Whether `a` comes before `b` or equals it.
pub fn compare_texts(a: &str, b: &str) -> (r: bool)
    ensures
        r == text_le(a@, b@),
{
    let x = chars_of(a);
    let y = chars_of(b);
    let mut i: usize = 0;
    assert(a@.skip(0) == a@ && b@.skip(0) == b@);
    while i < x.len() && i < y.len() && x[i] == y[i]
        invariant
            i <= x@.len(),
            i <= y@.len(),
            x@ == a@,
            y@ == b@,
            text_le(a@, b@) == text_le(a@.skip(i as int), b@.skip(i as int)),
        decreases x@.len() - i,
    {
        assert(a@.skip(i as int).drop_first() == a@.skip(i + 1));
        assert(b@.skip(i as int).drop_first() == b@.skip(i + 1));
        i = i + 1;
    }
    if i >= x.len() {
        true
    } else if i >= y.len() {
        false
    } else {
        code_point(x[i]) < code_point(y[i])
    }
}

/// Whether `c` has the Unicode property `White_Space`.
pub fn is_white_space(c: char) -> (r: bool)
    ensures
        r == white_space(c),
{
    let n: u32 = c as u32;
    (0x9 <= n && n <= 0xd) || n == 0x20 || n == 0x85 || n == 0xa0 || n == 0x1680 || (0x2000 <= n
        && n <= 0x200a) || n == 0x2028 || n == 0x2029 || n == 0x202f || n == 0x205f || n == 0x3000
}

/// The string without leading and trailing white space.
pub fn trim(s: &str) -> (r: String)
    ensures
        r@ == trimmed(s@),
{
    let chars = chars_of(s);
    let mut from: usize = 0;
    assert(s@.skip(0) == s@);
    while from < chars.len() && is_white_space(chars[from])
        invariant
            from <= chars@.len(),
            chars@ == s@,
            trim_start(s@) == trim_start(s@.skip(from as int)),
        decreases chars@.len() - from,
    {
        assert(s@.skip(from as int).drop_first() == s@.skip(from + 1));
        from = from + 1;
    }
    assert(trim_start(s@) == s@.skip(from as int));
    let mut to: usize = chars.len();
    assert(s@.subrange(from as int, to as int) == s@.skip(from as int));
    while from < to && is_white_space(chars[to - 1])
        invariant
            from <= to <= chars@.len(),
            chars@ == s@,
            trimmed(s@) == trim_end(s@.subrange(from as int, to as int)),
        decreases to,
    {
        assert(s@.subrange(from as int, to as int).drop_last() == s@.subrange(
            from as int,
            to - 1,
        ));
        to = to - 1;
    }
    string_of(&chars, from, to)
}

/// A line feed at `n`, with none before it, is where the text breaks.
proof fn lemma_break_at(s: Seq<char>, n: int)
    requires
        0 <= n <= s.len(),
        forall|i: int| 0 <= i < n ==> s[i] != '\n',
        n < s.len() ==> s[n] == '\n',
    ensures
        break_at(s) == n,
    decreases s.len(),
{
    if n > 0 {
        lemma_break_at(s.drop_first(), n - 1);
    }
}

/// The lines of a text that ends with a line feed, followed by another text, are those of the one
/// and then those of the other.
pub proof fn lines_of_sum(s: Seq<char>, t: Seq<char>)
    requires
        s.len() > 0 ==> s.last() == '\n',
    ensures
        lines(s + t) == lines(s) + lines(t),
    decreases s.len(),
{
    if s.len() == 0 {
        assert(s + t == t);
        assert(lines(s) + lines(t) == lines(t));
    } else {
        lemma_first_break(s);
        let n = break_at(s) as int;
        lemma_break_at(s + t, n);
        let rest = s.skip(n + 1);
        assert((s + t).take(n) == s.take(n));
        assert((s + t).skip(n + 1) == rest + t);
        lines_of_sum(rest, t);
        let first = seq![without_return(s.take(n))];
        assert(first + (lines(rest) + lines(t)) == (first + lines(rest)) + lines(t));
    }
}

/// Where a text that holds a line feed breaks.
proof fn lemma_first_break(s: Seq<char>)
    requires
        s.contains('\n'),
    ensures
        break_at(s) < s.len(),
        s[break_at(s) as int] == '\n',
        forall|i: int| 0 <= i < break_at(s) ==> s[i] != '\n',
    decreases s.len(),
{
    if s[0] != '\n' {
        let rest = s.drop_first();
        let i = s.index_of('\n');
        assert(rest[i - 1] == '\n');
        lemma_first_break(rest);
        assert forall|j: int| 0 <= j < break_at(s) implies s[j] != '\n' by {
            if j > 0 {
                assert(rest[j - 1] == s[j]);
            }
        }
    }
}

/// Where a text that holds no line feed breaks.
proof fn lemma_no_break(s: Seq<char>)
    requires
        !s.contains('\n'),
    ensures
        break_at(s) == s.len(),
{
    assert forall|i: int| 0 <= i < s.len() implies s[i] != '\n' by {
        assert(s.contains(s[i]));
    }
    lemma_break_at(s, s.len() as int);
}

/// A text without line feeds that is followed by one is read as a line, without a carriage return
/// at its end.
pub proof fn lines_of_line(s: Seq<char>)
    requires
        !s.contains('\n'),
    ensures
        lines(s + seq!['\n']) == seq![without_return(s)],
{
    let whole = s + seq!['\n'];
    assert forall|i: int| 0 <= i < s.len() implies whole[i] != '\n' by {
        assert(s.contains(s[i]));
    }
    lemma_break_at(whole, s.len() as int);
    assert(whole.take(s.len() as int) == s);
    assert(whole.skip(s.len() as int + 1) == Seq::<char>::empty());
    assert(seq![without_return(s)] + lines(Seq::<char>::empty()) == seq![without_return(s)]);
}

/// Texts without line feeds that are written one after the other are read back, each without a
/// carriage return at its end.
pub proof fn lines_of_unlines(parts: Seq<Seq<char>>)
    requires
        forall|i: int| 0 <= i < parts.len() ==> !(#[trigger] parts[i]).contains('\n'),
    ensures
        lines(unlines(parts)) == parts.map_values(|p: Seq<char>| without_return(p)),
    decreases parts.len(),
{
    let read = parts.map_values(|p: Seq<char>| without_return(p));
    if parts.len() == 0 {
        assert(lines(unlines(parts)) == read);
    } else {
        let rest = parts.drop_last();
        lines_of_unlines(rest);
        lines_of_line(parts.last());
        unlines_ends_with_line_feed(rest);
        lines_of_sum(unlines(rest), parts.last() + seq!['\n']);
        assert(unlines(parts) == unlines(rest) + (parts.last() + seq!['\n']));
        assert(read == rest.map_values(|p: Seq<char>| without_return(p)) + seq![
            without_return(parts.last()),
        ]);
    }
}

/// Lines that are written one after the other are read back.
pub proof fn lines_are_read_back(parts: Seq<Seq<char>>)
    requires
        forall|i: int| 0 <= i < parts.len() ==> is_line(#[trigger] parts[i]),
    ensures
        lines(unlines(parts)) == parts,
{
    lines_of_unlines(parts);
    assert(parts.map_values(|p: Seq<char>| without_return(p)) == parts);
}

/// A carriage return at the end of a text does not matter once the text is trimmed.
pub proof fn trimmed_without_return(s: Seq<char>)
    ensures
        trimmed(without_return(s)) == trimmed(s),
{
    if s.len() > 0 && s.last() == '\r' {
        lemma_trim_start_of_rest(s);
    }
}

/// White space at the end of a text does not change what is trimmed at its start.
proof fn lemma_trim_start_of_rest(s: Seq<char>)
    requires
        s.len() > 0,
        white_space(s.last()),
    ensures
        trim_start(s).len() == 0 && trim_start(s.drop_last()).len() == 0 || trim_start(s)
            == trim_start(s.drop_last()).push(s.last()),
        trimmed(s) == trimmed(s.drop_last()),
    decreases s.len(),
{
    if white_space(s[0]) {
        if s.len() > 1 {
            lemma_trim_start_of_rest(s.drop_first());
            assert(s.drop_first().drop_last() == s.drop_last().drop_first());
        } else {
            assert(trim_start(s.drop_first()) == Seq::<char>::empty());
            assert(trim_start(s.drop_last()) == Seq::<char>::empty());
        }
    } else {
        assert(s == s.drop_last().push(s.last()));
        assert(s.drop_last()[0] == s[0]);
    }
    let t = trim_start(s);
    let u = trim_start(s.drop_last());
    if t.len() == 0 {
        assert(t == Seq::<char>::empty());
    }
    if u.len() == 0 {
        assert(u == Seq::<char>::empty());
    }
    if t == u.push(s.last()) {
        assert(t.drop_last() == u);
        assert(t.last() == s.last());
    }
}

/// What is written line by line ends with a line feed.
pub proof fn unlines_ends_with_line_feed(parts: Seq<Seq<char>>)
    ensures
        unlines(parts).len() > 0 ==> unlines(parts).last() == '\n',
{
}

/// Writing two lists of lines one after the other is writing both together.
pub proof fn unlines_of_sum(a: Seq<Seq<char>>, b: Seq<Seq<char>>)
    ensures
        unlines(a + b) == unlines(a) + unlines(b),
    decreases b.len(),
{
    if b.len() == 0 {
        assert(a + b == a);
        assert(unlines(a) + unlines(b) == unlines(a));
    } else {
        unlines_of_sum(a, b.drop_last());
        assert((a + b).drop_last() == a + b.drop_last());
        assert((a + b).last() == b.last());
        assert(unlines(a) + unlines(b.drop_last()) + b.last() + seq!['\n'] == unlines(a) + (unlines(
            b.drop_last(),
        ) + b.last() + seq!['\n']));
    }
}

/// Joining texts by line feeds leaves out the line feed behind the last one.
pub proof fn joined_by_line_feeds(parts: Seq<Seq<char>>)
    requires
        parts.len() > 0,
    ensures
        joined(parts, seq!['\n']) + seq!['\n'] == unlines(parts),
    decreases parts.len(),
{
    if parts.len() == 1 {
        assert(unlines(parts.drop_last()) == Seq::<char>::empty());
        assert(unlines(parts) == parts[0] + seq!['\n']);
    } else {
        joined_by_line_feeds(parts.drop_last());
    }
}

/// A line feed at the end of a text adds no line.
pub proof fn last_ending_is_optional(s: Seq<char>)
    requires
        s.len() > 0,
        s.last() != '\n',
        s.last() != '\r',
    ensures
        lines(s + seq!['\n']) == lines(s),
    decreases s.len(),
{
    let whole = s + seq!['\n'];
    if s.contains('\n') {
        lemma_first_break(s);
        let n = break_at(s) as int;
        lemma_break_at(whole, n);
        assert(whole.take(n) == s.take(n));
        assert(whole.skip(n + 1) == s.skip(n + 1) + seq!['\n']);
        last_ending_is_optional(s.skip(n + 1));
    } else {
        lemma_no_break(s);
        lines_of_line(s);
    }
}

/// A text that neither begins nor ends with white space is trimmed already.
pub proof fn trimmed_already(s: Seq<char>)
    requires
        s.len() > 0 ==> !white_space(s[0]) && !white_space(s.last()),
    ensures
        trimmed(s) == s,
{
}

/// No line holds a line feed.
pub proof fn lines_hold_no_line_feed(s: Seq<char>, i: int)
    requires
        0 <= i < lines(s).len(),
    ensures
        !lines(s)[i].contains('\n'),
    decreases s.len(),
{
    if s.contains('\n') {
        lemma_first_break(s);
        let n = break_at(s) as int;
        if i == 0 {
            let line = without_return(s.take(n));
            assert(lines(s)[0] == line);
            assert forall|j: int| 0 <= j < line.len() implies line[j] != '\n' by {
                assert(line[j] == s[j]);
            }
        } else {
            lines_hold_no_line_feed(s.skip(n + 1), i - 1);
            assert(lines(s)[i] == lines(s.skip(n + 1))[i - 1]);
        }
    } else {
        lemma_no_break(s);
        assert(lines(s)[i] == s);
    }
}

/// Trimming adds no character.
pub proof fn trimmed_is_part(s: Seq<char>, c: char)
    requires
        trimmed(s).contains(c),
    ensures
        s.contains(c),
{
    lemma_trim_end_is_part(trim_start(s), c);
    lemma_trim_start_is_part(s, c);
}

proof fn lemma_trim_start_is_part(s: Seq<char>, c: char)
    requires
        trim_start(s).contains(c),
    ensures
        s.contains(c),
    decreases s.len(),
{
    if s.len() > 0 && white_space(s[0]) {
        lemma_trim_start_is_part(s.drop_first(), c);
        let i = s.drop_first().index_of(c);
        assert(s[i + 1] == c);
    }
}

proof fn lemma_trim_end_is_part(s: Seq<char>, c: char)
    requires
        trim_end(s).contains(c),
    ensures
        s.contains(c),
    decreases s.len(),
{
    if s.len() > 0 && white_space(s.last()) {
        lemma_trim_end_is_part(s.drop_last(), c);
        let i = s.drop_last().index_of(c);
        assert(s[i] == c);
    }
}

/// The lines of the string.
pub fn lines_of(s: &str) -> (r: Vec<String>)
    ensures
        texts(r@) == lines(s@),
{
    let chars = chars_of(s);
    let mut r: Vec<String> = Vec::new();
    let mut start: usize = 0;
    let mut i: usize = 0;
    assert(s@.skip(0) == s@);
    assert(texts(r@) + lines(s@) == lines(s@));
    while i < chars.len()
        invariant
            start <= i <= chars@.len(),
            chars@ == s@,
            forall|j: int| start <= j < i ==> s@[j] != '\n',
            texts(r@) + lines(s@.skip(start as int)) == lines(s@),
        decreases chars@.len() - i,
    {
        if chars[i] == '\n' {
            let ghost rest = s@.skip(start as int);
            let ghost n = i - start;
            proof {
                lemma_break_at(rest, n);
                assert(rest.take(n) == s@.subrange(start as int, i as int));
                assert(rest.skip(n + 1) == s@.skip(i + 1));
            }
            let end: usize = if start < i && chars[i - 1] == '\r' {
                i - 1
            } else {
                i
            };
            let line = string_of(&chars, start, end);
            assert(line@ == without_return(rest.take(n)));
            let ghost before = r@;
            r.push(line);
            assert(texts(r@) == texts(before) + seq![line@]);
            assert(texts(r@) + lines(s@.skip(i + 1)) == texts(before) + (seq![line@] + lines(
                s@.skip(i + 1),
            )));
            start = i + 1;
        }
        i = i + 1;
    }
    let ghost rest = s@.skip(start as int);
    if start < chars.len() {
        proof {
            lemma_break_at(rest, rest.len() as int);
        }
        let line = string_of(&chars, start, chars.len());
        assert(line@ == rest);
        let ghost before = r@;
        r.push(line);
        assert(texts(r@) == texts(before) + seq![rest]);
    } else {
        assert(texts(r@) + Seq::<Seq<char>>::empty() == texts(r@));
    }
    r
}

/// The decimal numeral of `n`.
pub fn decimal_of(n: u64) -> (r: String)
    ensures
        r@ == decimal(n as nat),
    decreases n,
{
    if n < 10 {
        let mut r = String::new();
        r.push(digit_of(n));
        r
    } else {
        let mut r = decimal_of(n / 10);
        r.push(digit_of(n % 10));
        r
    }
}

/// The character of a decimal digit.
fn digit_of(d: u64) -> (r: char)
    requires
        d < 10,
    ensures
        r == digit(d as nat),
{
    match d {
        0 => '0',
        1 => '1',
        2 => '2',
        3 => '3',
        4 => '4',
        5 => '5',
        6 => '6',
        7 => '7',
        8 => '8',
        _ => '9',
    }
}

/// The parts in order, with `separator` between each two.
pub fn join(parts: &Vec<String>, separator: &str) -> (r: String)
    ensures
        r@ == joined(texts(parts@), separator@),
{
    let mut r = String::new();
    let mut i: usize = 0;
    while i < parts.len()
        invariant
            i <= parts@.len(),
            r@ == joined(texts(parts@.take(i as int)), separator@),
        decreases parts@.len() - i,
    {
        let ghost next = texts(parts@.take(i + 1));
        assert(next.drop_last() == texts(parts@.take(i as int)));
        assert(next.last() == parts@[i as int]@);
        if i > 0 {
            r.append(separator);
        }
        r.append(parts[i].as_str());
        i = i + 1;
    }
    assert(parts@.take(parts@.len() as int) == parts@);
    r
}

/// The first characters that differ decide which of two texts comes first, and a text comes before
/// what continues it.
pub proof fn first_difference_decides(
    start: Seq<char>,
    c: char,
    rest: Seq<char>,
    d: char,
    other_rest: Seq<char>,
)
    requires
        (c as int) < (d as int),
    ensures
        text_le(start + seq![c] + rest, start + seq![d] + other_rest),
        !text_le(start + seq![d] + other_rest, start + seq![c] + rest),
        text_le(start, start + rest),
    decreases start.len(),
{
    let a = start + seq![c] + rest;
    let b = start + seq![d] + other_rest;
    if start.len() == 0 {
        assert(a[0] == c && b[0] == d);
    } else {
        let next = start.drop_first();
        assert(a[0] == start[0] && b[0] == start[0] && (start + rest)[0] == start[0]);
        assert(a.drop_first() == next + seq![c] + rest);
        assert(b.drop_first() == next + seq![d] + other_rest);
        assert((start + rest).drop_first() == next + rest);
        first_difference_decides(next, c, rest, d, other_rest);
    }
}

/// Trimming takes away the white space on both sides, and nothing between.
pub proof fn trimming_takes_both_sides(
    s: &str,
    r: String,
    front: Seq<char>,
    text: Seq<char>,
    back: Seq<char>,
)
    requires
        call_ensures(trim, (s,), r),
        s@ == front + text + back,
        forall|i: int| 0 <= i < front.len() ==> white_space(#[trigger] front[i]),
        forall|i: int| 0 <= i < back.len() ==> white_space(#[trigger] back[i]),
        text.len() > 0 ==> !white_space(text[0]) && !white_space(text.last()),
        text.len() == 0 ==> back.len() == 0,
    ensures
        r@ == text,
{
    lemma_trim_front(front, text + back);
    assert(s@ == front + (text + back));
    lemma_trim_back(text, back);
}

/// White space in front is taken away.
proof fn lemma_trim_front(front: Seq<char>, text: Seq<char>)
    requires
        forall|i: int| 0 <= i < front.len() ==> white_space(#[trigger] front[i]),
        text.len() > 0 ==> !white_space(text[0]),
    ensures
        trim_start(front + text) == text,
    decreases front.len(),
{
    if front.len() == 0 {
        assert(front + text == text);
    } else {
        assert((front + text)[0] == front[0]);
        assert((front + text).drop_first() == front.drop_first() + text);
        lemma_trim_front(front.drop_first(), text);
    }
}

/// White space behind is taken away.
proof fn lemma_trim_back(text: Seq<char>, back: Seq<char>)
    requires
        forall|i: int| 0 <= i < back.len() ==> white_space(#[trigger] back[i]),
        text.len() > 0 ==> !white_space(text.last()),
    ensures
        trim_end(text + back) == text,
    decreases back.len(),
{
    if back.len() == 0 {
        assert(text + back == text);
    } else {
        assert((text + back).last() == back.last());
        assert((text + back).drop_last() == text + back.drop_last());
        assert forall|i: int| 0 <= i < back.drop_last().len() implies white_space(
            #[trigger] back.drop_last()[i],
        ) by {
            assert(back.drop_last()[i] == back[i]);
        }
        lemma_trim_back(text, back.drop_last());
    }
}

/// White space is what Unicode says it is: the tabs and line breaks from U+0009 to U+000D, the
/// blanks, and the separators of lines and paragraphs.
pub proof fn white_space_is_that_of_unicode(c: char, r: bool)
    requires
        call_ensures(is_white_space, (c,), r),
    ensures
        r <==> c == ' ' || '\t' <= c <= '\r' || c == '\u{85}' || c == '\u{a0}' || c
            == '\u{1680}' || '\u{2000}' <= c <= '\u{200a}' || c == '\u{2028}' || c
            == '\u{2029}' || c == '\u{202f}' || c == '\u{205f}' || c == '\u{3000}',
{
}

/// A line is read without its line feed, and without a carriage return before that. A carriage
/// return anywhere else stays.
pub proof fn line_endings_are_taken_away(s: Seq<char>)
    requires
        !s.contains('\n'),
        s.len() == 0 || s.last() != '\r',
    ensures
        lines(s + seq!['\n']) == seq![s],
        lines(s + seq!['\r', '\n']) == seq![s],
        s.len() > 0 ==> lines(s) == seq![s],
        lines(Seq::empty()).len() == 0,
{
    lines_of_line(s);
    let t = s.push('\r');
    assert(t + seq!['\n'] == s + seq!['\r', '\n']);
    assert(!t.contains('\n')) by {
        assert forall|i: int| 0 <= i < t.len() implies t[i] != '\n' by {
            if i < s.len() {
                assert(s.contains(s[i]));
            }
        }
    }
    lines_of_line(t);
    assert(t.drop_last() == s);
    if s.len() > 0 {
        last_ending_is_optional(s);
    }
}

/// Writing one line puts a line feed behind it, and writing none writes nothing.
pub proof fn lines_are_written_with_line_feeds(s: Seq<char>)
    ensures
        unlines(seq![s]) == s + seq!['\n'],
        unlines(Seq::empty()).len() == 0,
{
    let one = seq![s];
    assert(one.drop_last() == Seq::<Seq<char>>::empty());
    assert(unlines(one.drop_last()) == Seq::<char>::empty());
}

/// Joining two lists is joining each, with the separator between them.
pub proof fn joining_puts_separators_between(
    a: Seq<Seq<char>>,
    b: Seq<Seq<char>>,
    separator: Seq<char>,
)
    requires
        a.len() > 0,
        b.len() > 0,
    ensures
        joined(a + b, separator) == joined(a, separator) + separator + joined(b, separator),
        a.len() == 1 ==> joined(a, separator) == a[0],
        joined(Seq::empty(), separator).len() == 0,
    decreases b.len(),
{
    assert((a + b).drop_last() == a + b.drop_last());
    assert((a + b).last() == b.last());
    if b.len() == 1 {
        assert(a + b.drop_last() == a);
    } else {
        joining_puts_separators_between(a, b.drop_last(), separator);
        assert(joined(a, separator) + separator + joined(b.drop_last(), separator) + separator
            + b.last() == joined(a, separator) + separator + (joined(b.drop_last(), separator)
            + separator + b.last()));
    }
}

/// Lines that are written are read back from the string, and texts are compared by the first
/// characters that differ.
pub proof fn strings_are_read_and_compared(
    s: &str,
    r: Vec<String>,
    parts: Seq<Seq<char>>,
    a: &str,
    b: &str,
    le: bool,
    start: Seq<char>,
    c: char,
    rest: Seq<char>,
    d: char,
    other_rest: Seq<char>,
)
    requires
        call_ensures(lines_of, (s,), r),
        s@ == unlines(parts),
        forall|i: int| 0 <= i < parts.len() ==> is_line(#[trigger] parts[i]),
        call_ensures(compare_texts, (a, b), le),
        a@ == start + seq![c] + rest,
        b@ == start + seq![d] + other_rest,
        c != d,
    ensures
        texts(r@) == parts,
        le <==> (c as int) < (d as int),
{
    lines_are_read_back(parts);
    if (c as int) < (d as int) {
        first_difference_decides(start, c, rest, d, other_rest);
    } else {
        first_difference_decides(start, d, other_rest, c, rest);
    }
}

/// Joining a list of strings and one more puts the separator and the string behind it.
pub proof fn strings_are_joined(
    parts: &Vec<String>,
    more: &Vec<String>,
    separator: &str,
    r: String,
    longer: String,
)
    requires
        call_ensures(join, (parts, separator), r),
        call_ensures(join, (more, separator), longer),
        more@.len() > 0,
        more@.drop_last() == parts@,
    ensures
        parts@.len() == 0 ==> r@.len() == 0 && longer@ == more@[0]@,
        parts@.len() > 0 ==> longer@ == r@ + separator@ + more@.last()@,
{
    let a = texts(parts@);
    let b = texts(more@);
    assert(a.len() == parts@.len() && b.len() == more@.len());
    assert(b.drop_last() == a);
    assert(b.last() == more@.last()@);
}

} // verus!
