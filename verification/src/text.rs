//! Text primitives the assembler is built on: comparing, splitting, trimming
//! and lower-casing strings, each described over the string's sequence of
//! characters.

use vstd::prelude::*;
use vstd::std_specs::iter::IteratorSpec;

verus! {

/// The tokens of `s`, reading left to right: every occurrence of `sep` closes
/// the current token and opens a new, empty one; any other character extends
/// the current token. A string with `n` separators has `n + 1` tokens, some
/// of which may be empty.
pub open spec fn split_on(s: Seq<char>, sep: char) -> Seq<Seq<char>>
    decreases s.len(),
{
    if s.len() == 0 {
        seq![Seq::<char>::empty()]
    } else {
        let before = split_on(s.drop_last(), sep);
        if s.last() == sep {
            before.push(Seq::<char>::empty())
        } else {
            before.update(before.len() - 1, before.last().push(s.last()))
        }
    }
}

/// The strings of `parts` written one after another with `sep` between each
/// two of them.
pub open spec fn joined(parts: Seq<Seq<char>>, sep: char) -> Seq<char>
    decreases parts.len(),
{
    if parts.len() == 0 {
        Seq::<char>::empty()
    } else if parts.len() == 1 {
        parts[0]
    } else {
        joined(parts.drop_last(), sep) + seq![sep] + parts.last()
    }
}

/// The tokens of a source line: its pieces between single spaces.
pub open spec fn tokens(line: Seq<char>) -> Seq<Seq<char>> {
    split_on(line, ' ')
}

/// The character sequences of a list of string slices.
pub open spec fn views(parts: Seq<&str>) -> Seq<Seq<char>> {
    Seq::new(parts.len(), |i: int| parts[i]@)
}

/// Whether `s` begins with the character `c`.
pub open spec fn begins_with(s: Seq<char>, c: char) -> bool {
    s.len() > 0 && s[0] == c
}

/// Whether `s` is made of the binary digits `0` and `1` only.
pub open spec fn is_bit_string(s: Seq<char>) -> bool {
    forall|i: int| 0 <= i < s.len() ==> #[trigger] s[i] == '0' || s[i] == '1'
}

/// The characters with the Unicode property `White_Space`.
pub open spec fn is_whitespace(c: char) -> bool {
    ||| c == ' '
    ||| '\u{9}' <= c <= '\u{D}'
    ||| c == '\u{85}'
    ||| c == '\u{A0}'
    ||| c == '\u{1680}'
    ||| '\u{2000}' <= c <= '\u{200A}'
    ||| c == '\u{2028}'
    ||| c == '\u{2029}'
    ||| c == '\u{202F}'
    ||| c == '\u{205F}'
    ||| c == '\u{3000}'
}

/// `s` without its leading and trailing whitespace: whitespace is taken off
/// either end until neither end is whitespace.
pub open spec fn trimmed(s: Seq<char>) -> Seq<char>
    decreases s.len(),
{
    if s.len() > 0 && is_whitespace(s.first()) {
        trimmed(s.drop_first())
    } else if s.len() > 0 && is_whitespace(s.last()) {
        trimmed(s.drop_last())
    } else {
        s
    }
}

/// The lower-case form of an ASCII capital letter; any other character as it
/// is.
pub open spec fn lower_char(c: char) -> char {
    if 'A' <= c <= 'Z' {
        ((c as u8 + 32) as u8) as char
    } else {
        c
    }
}

/// `s` with every ASCII capital letter replaced by its lower-case form.
pub open spec fn lowered(s: Seq<char>) -> Seq<char> {
    Seq::new(s.len(), |i: int| lower_char(s[i]))
}

/// Splitting puts at least one token out, and never one that holds the
/// separator.
pub proof fn lemma_split_on_tokens(s: Seq<char>, sep: char)
    ensures
        split_on(s, sep).len() >= 1,
        forall|i: int|
            0 <= i < split_on(s, sep).len() ==> !(#[trigger] split_on(s, sep)[i]).contains(sep),
    decreases s.len(),
{
    if s.len() > 0 {
        lemma_split_on_tokens(s.drop_last(), sep);
        let before = split_on(s.drop_last(), sep);
        let after = split_on(s, sep);
        if s.last() == sep {
            assert forall|i: int| 0 <= i < after.len() implies !(#[trigger] after[i]).contains(
                sep,
            ) by {
                if i < before.len() {
                    assert(after[i] == before[i]);
                }
            }
        } else {
            assert forall|i: int| 0 <= i < after.len() implies !(#[trigger] after[i]).contains(
                sep,
            ) by {
                if i < before.len() - 1 {
                    assert(after[i] == before[i]);
                } else {
                    let grown = before.last().push(s.last());
                    assert(after[i] == grown);
                    assert(!before.last().contains(sep));
                    if grown.contains(sep) {
                        let k: int = choose|k: int| 0 <= k < grown.len() && grown[k] == sep;
                        if k < before.last().len() {
                            assert(before.last()[k] == sep);
                        }
                    }
                }
            }
        }
    }
}

/// A string that does not hold the separator is its own single token.
pub proof fn lemma_split_on_plain(s: Seq<char>, sep: char)
    requires
        !s.contains(sep),
    ensures
        split_on(s, sep) == seq![s],
    decreases s.len(),
{
    if s.len() > 0 {
        let rest = s.drop_last();
        assert(s.last() == s[s.len() - 1]);
        assert(s.last() != sep);
        assert(!rest.contains(sep)) by {
            if rest.contains(sep) {
                let k: int = choose|k: int| 0 <= k < rest.len() && rest[k] == sep;
                assert(s[k] == sep);
            }
        }
        lemma_split_on_plain(rest, sep);
        assert(rest.push(s.last()) =~= s);
        assert(split_on(s, sep) =~= seq![s]);
    } else {
        assert(s =~= Seq::<char>::empty());
    }
}

/// Two strings put together with a separator between them have the tokens of
/// the first, then the tokens of the second.
pub proof fn lemma_split_on_joined(a: Seq<char>, b: Seq<char>, sep: char)
    ensures
        split_on(a + seq![sep] + b, sep) == split_on(a, sep) + split_on(b, sep),
    decreases b.len(),
{
    let whole = a + seq![sep] + b;
    let first = split_on(a, sep);
    if b.len() == 0 {
        assert(whole.drop_last() =~= a);
        assert(whole.last() == sep);
        assert(first.push(Seq::<char>::empty()) =~= first + split_on(b, sep));
    } else {
        let rest = b.drop_last();
        let second = split_on(rest, sep);
        lemma_split_on_joined(a, rest, sep);
        lemma_split_on_tokens(rest, sep);
        assert(whole.drop_last() =~= a + seq![sep] + rest);
        assert(whole.last() == b.last());
        if b.last() == sep {
            assert((first + second).push(Seq::<char>::empty()) =~= first + second.push(
                Seq::<char>::empty(),
            ));
        } else {
            let grown = second.last().push(b.last());
            assert((first + second).last() == second.last());
            assert((first + second).update((first + second).len() - 1, grown) =~= first
                + second.update(second.len() - 1, grown));
        }
    }
}

/// Splitting loses nothing: the tokens of a string, put together again with
/// the separator between them, are the string.
pub proof fn lemma_joined_split(s: Seq<char>, sep: char)
    ensures
        joined(split_on(s, sep), sep) == s,
    decreases s.len(),
{
    if s.len() > 0 {
        let rest = s.drop_last();
        let before = split_on(rest, sep);
        let after = split_on(s, sep);
        lemma_joined_split(rest, sep);
        lemma_split_on_tokens(rest, sep);
        if s.last() == sep {
            assert(after.drop_last() =~= before);
            assert(joined(after, sep) =~= rest + seq![sep] + Seq::<char>::empty());
            assert(rest + seq![sep] + Seq::<char>::empty() =~= s);
        } else {
            let grown = before.last().push(s.last());
            assert(after.last() == grown);
            if before.len() == 1 {
                assert(before[0] == rest);
                assert(grown =~= s);
            } else {
                assert(after.drop_last() =~= before.drop_last());
                let head = joined(before.drop_last(), sep) + seq![sep];
                assert(joined(before, sep) == head + before.last());
                assert(joined(after, sep) == head + grown);
                assert(head + grown =~= (head + before.last()).push(s.last()));
                assert(rest.push(s.last()) =~= s);
            }
        }
    }
}

/// Joining loses nothing either: strings that do not hold the separator,
/// put together with the separator between them, are split into themselves
/// again.
pub proof fn lemma_split_joined(parts: Seq<Seq<char>>, sep: char)
    requires
        parts.len() >= 1,
        forall|i: int| 0 <= i < parts.len() ==> !(#[trigger] parts[i]).contains(sep),
    ensures
        split_on(joined(parts, sep), sep) == parts,
    decreases parts.len(),
{
    if parts.len() == 1 {
        lemma_split_on_plain(parts[0], sep);
        assert(seq![parts[0]] =~= parts);
    } else {
        let front = parts.drop_last();
        assert forall|i: int| 0 <= i < front.len() implies !(#[trigger] front[i]).contains(sep) by {
            assert(front[i] == parts[i]);
        }
        lemma_split_joined(front, sep);
        lemma_split_on_joined(joined(front, sep), parts.last(), sep);
        lemma_split_on_plain(parts.last(), sep);
        assert(front + seq![parts.last()] =~= parts);
    }
}

/// Trimming cuts out the stretch between the whitespace at the two ends: where
/// everything before `from` and everything from `to` on is whitespace, and the
/// stretch between them is empty or has a character other than whitespace at
/// each end, that stretch is what trimming leaves.
pub proof fn lemma_trimmed_is_subrange(s: Seq<char>, from: int, to: int)
    requires
        0 <= from <= to <= s.len(),
        forall|j: int| 0 <= j < from ==> is_whitespace(#[trigger] s[j]),
        forall|j: int| to <= j < s.len() ==> is_whitespace(#[trigger] s[j]),
        from < to ==> !is_whitespace(s[from]) && !is_whitespace(s[to - 1]),
    ensures
        trimmed(s) == s.subrange(from, to),
    decreases s.len(),
{
    if s.len() > 0 && is_whitespace(s.first()) {
        let rest = s.drop_first();
        if from == 0 {
            assert(from == to);
            assert forall|j: int| 0 <= j < rest.len() implies is_whitespace(#[trigger] rest[j]) by {
                assert(rest[j] == s[j + 1]);
            }
            lemma_trimmed_is_subrange(rest, 0, 0);
            assert(rest.subrange(0, 0) =~= s.subrange(from, to));
        } else {
            assert forall|j: int| 0 <= j < from - 1 implies is_whitespace(#[trigger] rest[j]) by {
                assert(rest[j] == s[j + 1]);
            }
            assert forall|j: int| to - 1 <= j < rest.len() implies is_whitespace(
                #[trigger] rest[j],
            ) by {
                assert(rest[j] == s[j + 1]);
            }
            lemma_trimmed_is_subrange(rest, from - 1, to - 1);
            assert(rest.subrange(from - 1, to - 1) =~= s.subrange(from, to));
        }
    } else if s.len() > 0 && is_whitespace(s.last()) {
        let rest = s.drop_last();
        if to == s.len() {
            assert(from == to);
            assert(is_whitespace(s[0]));
        }
        lemma_trimmed_is_subrange(rest, from, to);
        assert(rest.subrange(from, to) =~= s.subrange(from, to));
    } else if s.len() > 0 {
        if from > 0 {
            assert(is_whitespace(s[0]));
        }
        if to < s.len() {
            assert(is_whitespace(s[s.len() - 1]));
        }
        assert(s.subrange(0, s.len() as int) =~= s);
    } else {
        assert(s.subrange(from, to) =~= s);
    }
}

/// Trimming a string begins at its first character that is no whitespace.
pub proof fn lemma_trimmed_begins(s: Seq<char>, at: int)
    requires
        0 <= at < s.len(),
        !is_whitespace(s[at]),
        forall|j: int| 0 <= j < at ==> is_whitespace(#[trigger] s[j]),
    ensures
        trimmed(s).len() > 0,
        trimmed(s)[0] == s[at],
    decreases s.len(),
{
    if is_whitespace(s.first()) {
        let rest = s.drop_first();
        assert(at > 0);
        assert(rest[at - 1] == s[at]);
        assert forall|j: int| 0 <= j < at - 1 implies is_whitespace(#[trigger] rest[j]) by {
            assert(rest[j] == s[j + 1]);
        }
        lemma_trimmed_begins(rest, at - 1);
    } else if is_whitespace(s.last()) {
        if at > 0 {
            assert(is_whitespace(s[0]));
        }
        let rest = s.drop_last();
        assert(rest[0] == s[0]);
        lemma_trimmed_begins(rest, 0);
    } else {
        if at > 0 {
            assert(is_whitespace(s[0]));
        }
    }
}

/// An empty string at the end of a list puts one separator at the end of what
/// the list is joined to.
pub proof fn lemma_joined_rows(rows: Seq<Seq<char>>, sep: char)
    requires
        rows.len() >= 1,
    ensures
        joined(rows.push(Seq::<char>::empty()), sep) == joined(rows, sep) + seq![sep],
{
    let more = rows.push(Seq::<char>::empty());
    assert(more.drop_last() =~= rows);
    assert(joined(more, sep) =~= joined(rows, sep) + seq![sep]);
}

/// Whether `c` is a whitespace character.
pub fn is_whitespace_char(c: char) -> (white: bool)
    ensures
        white == is_whitespace(c),
{
    c == ' ' || ('\u{9}' <= c && c <= '\u{D}') || c == '\u{85}' || c == '\u{A0}' || c == '\u{1680}'
        || ('\u{2000}' <= c && c <= '\u{200A}') || c == '\u{2028}' || c == '\u{2029}' || c
        == '\u{202F}' || c == '\u{205F}' || c == '\u{3000}'
}

/// The lower-case form of `c` where it is an ASCII capital letter, else `c`.
pub fn to_lower_char(c: char) -> (low: char)
    ensures
        low == lower_char(c),
{
    if 'A' <= c && c <= 'Z' {
        ((c as u8) + 32) as char
    } else {
        c
    }
}

/// The characters of `s`, in order.
pub fn chars_of(s: &str) -> (chars: Vec<char>)
    ensures
        chars@ == s@,
{
    let mut chars: Vec<char> = Vec::new();
    for c in it: s.chars()
        invariant
            chars@ == it.seq().take(it.index() as int),
            it.seq() == s@,
    {
        chars.push(c);
    }
    chars
}

/// Whether two strings hold the same characters.
pub fn str_eq(a: &str, b: &str) -> (same: bool)
    ensures
        same == (a@ == b@),
{
    let mut rest_a = a.chars();
    let mut rest_b = b.chars();
    let ghost mut done: int = 0;
    loop
        invariant
            0 <= done <= a@.len(),
            done <= b@.len(),
            a@.take(done) == b@.take(done),
            rest_a.remaining() == a@.skip(done),
            rest_b.remaining() == b@.skip(done),
        decreases a@.len() - done,
    {
        let next_a = rest_a.next();
        let next_b = rest_b.next();
        match (next_a, next_b) {
            (Some(x), Some(y)) => {
                if x != y {
                    assert(a@[done] != b@[done]);
                    return false;
                }
                proof {
                    assert(a@.take(done + 1) == a@.take(done).push(a@[done]));
                    assert(b@.take(done + 1) == b@.take(done).push(b@[done]));
                    assert(a@.skip(done).drop_first() == a@.skip(done + 1));
                    assert(b@.skip(done).drop_first() == b@.skip(done + 1));
                    done = done + 1;
                }
            },
            (None, None) => {
                assert(a@ == a@.take(done));
                assert(b@ == b@.take(done));
                return true;
            },
            _ => {
                return false;
            },
        }
    }
}

/// Whether `s` begins with the character `c`.
pub fn starts_with_char(s: &str, c: char) -> (found: bool)
    ensures
        found == begins_with(s@, c),
{
    let mut rest = s.chars();
    match rest.next() {
        Some(first) => first == c,
        None => false,
    }
}

/// Splits a line at every single space. Two spaces in a row, or a space at
/// either end, give an empty token.
pub fn split_spaces<'a>(line: &'a str) -> (parts: Vec<&'a str>)
    ensures
        views(parts@) == tokens(line@),
{
    let total: usize = line.unicode_len();
    let mut parts: Vec<&'a str> = Vec::new();
    let mut start: usize = 0;
    let mut at: usize = 0;
    assert(line@.take(0) =~= Seq::<char>::empty());
    assert(views(parts@).push(line@.subrange(0, 0)) =~= seq![Seq::<char>::empty()]);
    for c in it: line.chars()
        invariant
            it.seq() == line@,
            total == line@.len(),
            at == it.index(),
            start <= at <= total,
            views(parts@).push(line@.subrange(start as int, at as int)) == split_on(
                line@.take(at as int),
                ' ',
            ),
    {
        let ghost before = split_on(line@.take(at as int), ' ');
        let ghost shown = views(parts@);
        let ghost current = line@.subrange(start as int, at as int);
        assert(line@.take(at + 1).drop_last() =~= line@.take(at as int));
        assert(line@.take(at + 1).last() == c);
        if c == ' ' {
            parts.push(line.substring_char(start, at));
            start = at + 1;
            assert(views(parts@) =~= shown.push(current));
            assert(line@.subrange(start as int, at + 1) =~= Seq::<char>::empty());
        } else {
            assert(line@.subrange(start as int, at + 1) =~= current.push(c));
            assert(before.update(before.len() - 1, before.last().push(c)) =~= shown.push(
                current.push(c),
            ));
        }
        at += 1;
    }
    let ghost shown = views(parts@);
    parts.push(line.substring_char(start, at));
    assert(views(parts@) =~= shown.push(line@.subrange(start as int, at as int)));
    assert(line@.take(at as int) =~= line@);
    parts
}

/// The line without the whitespace at its two ends.
pub fn trim<'a>(s: &'a str) -> (inner: &'a str)
    ensures
        inner@ == trimmed(s@),
{
    let total: usize = s.unicode_len();
    let mut seen = false;
    let mut first: usize = 0;
    let mut end: usize = 0;
    let mut at: usize = 0;
    for c in it: s.chars()
        invariant
            it.seq() == s@,
            total == s@.len(),
            at == it.index(),
            at <= total,
            !seen ==> first == 0 && end == 0,
            !seen ==> forall|j: int| 0 <= j < at ==> is_whitespace(#[trigger] s@[j]),
            seen ==> first < end <= at,
            seen ==> !is_whitespace(s@[first as int]) && !is_whitespace(s@[end - 1]),
            seen ==> forall|j: int| 0 <= j < first ==> is_whitespace(#[trigger] s@[j]),
            seen ==> forall|j: int| end <= j < at ==> is_whitespace(#[trigger] s@[j]),
    {
        if !is_whitespace_char(c) {
            if !seen {
                first = at;
                seen = true;
            }
            end = at + 1;
        }
        at += 1;
    }
    proof {
        lemma_trimmed_is_subrange(s@, first as int, end as int);
    }
    s.substring_char(first, end)
}

} // verus!
