//! Assembling a whole source: every line that is neither blank nor a comment
//! is encoded, and the encodings are written one per line, in the order of
//! the source.

use crate::dispatch::{
    lemma_encoding_is_bits, line_encoding, line_fault, process_line, validate_line,
};
use crate::instruction::EncodeError;
use crate::text::{
    begins_with, is_bit_string, is_whitespace, joined, lemma_joined_rows, lemma_split_joined,
    lemma_trimmed_begins, lemma_trimmed_is_subrange, split_on, starts_with_char, trim, trimmed,
};
use vstd::prelude::*;
use vstd::string::StringExecFns;

verus! {

/// A source line that cannot be encoded.
#[derive(Clone, Copy, Debug, PartialEq, Eq, Structural)]
pub struct LineError {
    /// The place of the line in the source, counted from zero.
    pub line: usize,
    /// What is wrong with the line.
    pub fault: EncodeError,
}

/// Whether a line holds an instruction: without the whitespace at its ends
/// it is not empty and does not begin with the comment marker `;`.
pub open spec fn is_meaningful(line: Seq<char>) -> bool {
    trimmed(line).len() > 0 && !begins_with(trimmed(line), ';')
}

/// What keeps a source line from being assembled: the fault of the trimmed
/// line where the line holds an instruction, nothing where it holds none.
pub open spec fn source_fault(line: Seq<char>) -> Option<EncodeError> {
    if is_meaningful(line) {
        line_fault(trimmed(line))
    } else {
        None
    }
}

/// The encodings of the lines that hold an instruction, in the order of the
/// lines. Each such line is encoded without the whitespace at its ends.
pub open spec fn encodings(lines: Seq<Seq<char>>) -> Seq<Seq<char>>
    decreases lines.len(),
{
    if lines.len() == 0 {
        Seq::<Seq<char>>::empty()
    } else if is_meaningful(lines.last()) {
        encodings(lines.drop_last()).push(line_encoding(trimmed(lines.last())))
    } else {
        encodings(lines.drop_last())
    }
}

/// The rows written one after another, each followed by a newline.
pub open spec fn written(rows: Seq<Seq<char>>) -> Seq<char>
    decreases rows.len(),
{
    if rows.len() == 0 {
        Seq::<char>::empty()
    } else {
        written(rows.drop_last()) + rows.last() + seq!['\n']
    }
}

/// The output for a source.
pub open spec fn assembled(lines: Seq<Seq<char>>) -> Seq<char> {
    written(encodings(lines))
}

/// The number of lines that hold an instruction.
pub open spec fn meaningful_count(lines: Seq<Seq<char>>) -> nat
    decreases lines.len(),
{
    if lines.len() == 0 {
        0
    } else if is_meaningful(lines.last()) {
        meaningful_count(lines.drop_last()) + 1
    } else {
        meaningful_count(lines.drop_last())
    }
}

/// The character sequences of a list of strings.
pub open spec fn texts(lines: Seq<String>) -> Seq<Seq<char>> {
    Seq::new(lines.len(), |i: int| lines[i]@)
}

/// A line of whitespace only, and an empty line, hold no instruction.
pub proof fn lemma_blank_line_is_skipped(line: Seq<char>)
    requires
        forall|i: int| 0 <= i < line.len() ==> is_whitespace(#[trigger] line[i]),
    ensures
        !is_meaningful(line),
        source_fault(line) is None,
{
    lemma_trimmed_is_subrange(line, 0, 0);
}

/// A line whose first character after any whitespace is the comment marker
/// holds no instruction.
pub proof fn lemma_comment_line_is_skipped(line: Seq<char>, at: int)
    requires
        0 <= at < line.len(),
        line[at] == ';',
        forall|i: int| 0 <= i < at ==> is_whitespace(#[trigger] line[i]),
    ensures
        !is_meaningful(line),
        source_fault(line) is None,
{
    lemma_trimmed_begins(line, at);
}

/// A line that holds no instruction adds nothing to the output, wherever it
/// stands in the source.
pub proof fn lemma_skipped_line_adds_nothing(
    before: Seq<Seq<char>>,
    line: Seq<char>,
    after: Seq<Seq<char>>,
)
    requires
        !is_meaningful(line),
    ensures
        encodings(before + seq![line] + after) == encodings(before + after),
        assembled(before + seq![line] + after) == assembled(before + after),
        meaningful_count(before + seq![line] + after) == meaningful_count(before + after),
    decreases after.len(),
{
    let with = before + seq![line] + after;
    let without = before + after;
    if after.len() == 0 {
        assert(with.drop_last() =~= before);
        assert(without =~= before);
    } else {
        lemma_skipped_line_adds_nothing(before, line, after.drop_last());
        assert(with.drop_last() =~= before + seq![line] + after.drop_last());
        assert(without.drop_last() =~= before + after.drop_last());
        assert(with.last() == without.last());
    }
}

/// There is one encoding for each line that holds an instruction.
pub proof fn lemma_one_encoding_per_instruction(lines: Seq<Seq<char>>)
    ensures
        encodings(lines).len() == meaningful_count(lines),
    decreases lines.len(),
{
    if lines.len() > 0 {
        lemma_one_encoding_per_instruction(lines.drop_last());
    }
}

/// Where every line that holds an instruction can be encoded, no encoding
/// holds a newline.
proof fn lemma_encodings_are_bits(lines: Seq<Seq<char>>)
    requires
        forall|i: int| 0 <= i < lines.len() ==> source_fault(#[trigger] lines[i]) is None,
    ensures
        forall|k: int|
            0 <= k < encodings(lines).len() ==> is_bit_string(#[trigger] encodings(lines)[k]),
    decreases lines.len(),
{
    if lines.len() > 0 {
        let front = lines.drop_last();
        assert forall|i: int| 0 <= i < front.len() implies source_fault(
            #[trigger] front[i],
        ) is None by {
            assert(front[i] == lines[i]);
        }
        lemma_encodings_are_bits(front);
        assert(source_fault(lines[lines.len() - 1]) is None);
        if is_meaningful(lines.last()) {
            lemma_encoding_is_bits(trimmed(lines.last()));
        }
        let rows = encodings(lines);
        assert forall|k: int| 0 <= k < rows.len() implies is_bit_string(#[trigger] rows[k]) by {
            if k < encodings(front).len() {
                assert(rows[k] == encodings(front)[k]);
            }
        }
    }
}

/// Rows written one after another, each followed by a newline, are the rows
/// and one empty string, put together with newlines between them.
proof fn lemma_written_is_joined(rows: Seq<Seq<char>>)
    ensures
        written(rows) == joined(rows.push(Seq::<char>::empty()), '\n'),
    decreases rows.len(),
{
    let more = rows.push(Seq::<char>::empty());
    if rows.len() == 0 {
        assert(more[0] =~= written(rows));
    } else {
        let front = rows.drop_last();
        lemma_written_is_joined(front);
        lemma_joined_rows(rows, '\n');
        if front.len() == 0 {
            assert(written(front) =~= Seq::<char>::empty());
            assert(joined(rows, '\n') == rows[0]);
            assert(written(rows) =~= rows[0] + seq!['\n']);
        } else {
            lemma_joined_rows(front, '\n');
            assert(joined(rows, '\n') == joined(front, '\n') + seq!['\n'] + rows.last());
            assert(written(rows) =~= joined(rows, '\n') + seq!['\n']);
        }
    }
}

/// Where every line that holds an instruction can be encoded, the output has
/// one row for each such line and no other: cut at its newlines, it gives
/// the encodings in the order of the source, and after the last newline
/// nothing.
pub proof fn lemma_output_rows(lines: Seq<Seq<char>>)
    requires
        forall|i: int| 0 <= i < lines.len() ==> source_fault(#[trigger] lines[i]) is None,
    ensures
        split_on(assembled(lines), '\n') == encodings(lines).push(Seq::<char>::empty()),
        encodings(lines).len() == meaningful_count(lines),
{
    let rows = encodings(lines);
    let more = rows.push(Seq::<char>::empty());
    lemma_one_encoding_per_instruction(lines);
    lemma_encodings_are_bits(lines);
    lemma_written_is_joined(rows);
    assert forall|k: int| 0 <= k < more.len() implies !(#[trigger] more[k]).contains('\n') by {
        if k < rows.len() {
            assert(more[k] == rows[k]);
            assert(is_bit_string(rows[k]));
            if rows[k].contains('\n') {
                let j: int = choose|j: int| 0 <= j < rows[k].len() && rows[k][j] == '\n';
                assert(rows[k][j] == '0' || rows[k][j] == '1');
            }
        }
    }
    lemma_split_joined(more, '\n');
}

/// Assembles a source, given line by line. Lines that are blank or comments
/// are passed over. Where every other line can be encoded, the result is the
/// output text; else it names the first line that cannot, and what is wrong
/// with it.
pub fn assemble(lines: &Vec<String>) -> (output: Result<String, LineError>)
    ensures
        match output {
            Ok(text) => {
                &&& forall|i: int|
                    0 <= i < lines.len() ==> source_fault(#[trigger] lines[i]@) is None
                &&& text@ == assembled(texts(lines@))
            },
            Err(error) => {
                &&& error.line < lines.len()
                &&& source_fault(lines[error.line as int]@) == Some(error.fault)
                &&& forall|i: int|
                    0 <= i < error.line ==> source_fault(#[trigger] lines[i]@) is None
            },
        },
{
    let mut text = String::new();
    let mut at: usize = 0;
    let ghost all = texts(lines@);
    assert(all.take(0) =~= Seq::<Seq<char>>::empty());
    while at < lines.len()
        invariant
            at <= lines.len(),
            all == texts(lines@),
            forall|i: int| 0 <= i < at ==> source_fault(#[trigger] lines[i]@) is None,
            text@ == assembled(all.take(at as int)),
        decreases lines.len() - at,
    {
        let line = trim(lines[at].as_str());
        proof {
            let seen = all.take(at + 1);
            assert(seen.drop_last() =~= all.take(at as int));
            assert(seen.last() == lines[at as int]@);
            reveal_strlit("\n");
        }
        if line.unicode_len() > 0 && !starts_with_char(line, ';') {
            match validate_line(line) {
                Err(fault) => {
                    return Err(LineError { line: at, fault });
                },
                Ok(_) => {},
            }
            let bits = process_line(String::from_str(line));
            text.append(bits.as_str());
            text.append("\n");
            proof {
                let rows = encodings(all.take(at as int));
                assert(encodings(all.take(at + 1)) == rows.push(bits@));
                assert(rows.push(bits@).drop_last() =~= rows);
                assert("\n"@ =~= seq!['\n']);
            }
        }
        at += 1;
    }
    assert(all.take(at as int) =~= all);
    Ok(text)
}

} // verus!
