//! Character classification with line and column tracking.
use vstd::prelude::*;
use vstd::std_specs::iter::IteratorSpec;

verus! {

/// What a source character is to the tokenizer.
#[derive(Debug, Clone, Copy, PartialEq, Eq)]
pub enum CharKind {
    Whitespace,
    Char(char),
    Newline,
}

/// One source character with its kind and its 1-based position.
#[derive(Debug, Clone, Copy, PartialEq, Eq)]
pub struct AnalyzedChar {
    pub kind: CharKind,
    pub line: usize,
    pub column: usize,
}

/// Whether `c` has the Unicode `White_Space` property, as `char::is_whitespace` reports it.
pub uninterp spec fn unicode_whitespace(c: char) -> bool;

/// `char::is_whitespace` of std: its answer depends on the character alone and is
/// the `White_Space` property of the Unicode tables that std carries. Nothing
/// is claimed about which characters have it.
pub assume_specification[ char::is_whitespace ](c: char) -> (b: bool)
    ensures
        b == unicode_whitespace(c),
;

/// The kind of `c`, given whether it is white space.
pub open spec fn kind_given(c: char, whitespace: bool) -> CharKind {
    if c == '\n' {
        CharKind::Newline
    } else if whitespace {
        CharKind::Whitespace
    } else {
        CharKind::Char(c)
    }
}

/// The kind of `c`: a line feed is a line break, any other white space is
/// white space, everything else is a glyph.
pub open spec fn kind_of(c: char) -> CharKind {
    kind_given(c, unicode_whitespace(c))
}

/// Number of line breaks among the first `i` characters of `text`.
pub open spec fn breaks_before(text: Seq<char>, i: int) -> nat
    decreases i,
{
    if i <= 0 {
        0
    } else if text[i - 1] == '\n' {
        breaks_before(text, i - 1) + 1
    } else {
        breaks_before(text, i - 1)
    }
}

/// Index of the first character of the line that holds position `i`.
pub open spec fn line_start(text: Seq<char>, i: int) -> int
    decreases i,
{
    if i <= 0 {
        0
    } else if text[i - 1] == '\n' {
        i
    } else {
        line_start(text, i - 1)
    }
}

/// 1-based line of the character at index `i`.
pub open spec fn line_at(text: Seq<char>, i: int) -> nat {
    breaks_before(text, i) + 1
}

/// 1-based column of the character at index `i`.
pub open spec fn column_at(text: Seq<char>, i: int) -> int {
    i - line_start(text, i) + 1
}

/// `out` is the classification of `text`: one entry per character, in order,
/// each with the character's kind and position.
pub open spec fn classifies(text: Seq<char>, out: Seq<AnalyzedChar>) -> bool {
    &&& out.len() == text.len()
    &&& forall|i: int|
        0 <= i < text.len() ==> {
            &&& (#[trigger] out[i]).kind == kind_of(text[i])
            &&& out[i].line == line_at(text, i)
            &&& out[i].column == column_at(text, i)
        }
}

/// The line start never lies after the position, and no line break lies
/// between the two.
pub proof fn lemma_line_start_bounds(text: Seq<char>, i: int)
    requires
        0 <= i <= text.len(),
    ensures
        0 <= line_start(text, i) <= i,
        breaks_before(text, i) <= i,
        breaks_before(text, line_start(text, i)) == breaks_before(text, i),
    decreases i,
{
    if i > 0 {
        lemma_line_start_bounds(text, i - 1);
    }
}

/// Line numbers never decrease along the text.
pub proof fn lemma_breaks_monotonic(text: Seq<char>, i: int, j: int)
    requires
        0 <= i <= j,
    ensures
        breaks_before(text, i) <= breaks_before(text, j),
    decreases j - i,
{
    if i < j {
        lemma_breaks_monotonic(text, i, j - 1);
    }
}

/// Positions advance along a classification: there is one entry per
/// character, lines never decrease, and of two neighbours on one line the
/// later one stands exactly one column further.
pub proof fn lemma_positions_advance(text: Seq<char>, out: Seq<AnalyzedChar>)
    requires
        classifies(text, out),
    ensures
        out.len() == text.len(),
        forall|i: int, j: int|
            0 <= i <= j < out.len() ==> (#[trigger] out[i]).line <= (#[trigger] out[j]).line,
        forall|i: int|
            #![trigger out[i]]
            0 <= i && i + 1 < out.len() && out[i].line == out[i + 1].line ==> out[i + 1].column
                == out[i].column + 1,
{
    assert forall|i: int, j: int| 0 <= i <= j < out.len() implies (#[trigger] out[i]).line <= (
    #[trigger] out[j]).line by {
        lemma_breaks_monotonic(text, i, j);
    }
    assert forall|i: int|
        #![trigger out[i]]
        0 <= i && i + 1 < out.len() && out[i].line == out[i + 1].line implies out[i + 1].column
        == out[i].column + 1 by {
        let next = out[i + 1];
        assert(next.line == line_at(text, i + 1));
    }
}

/// A text has exactly one classification: classifying it again gives the
/// same sequence.
pub proof fn lemma_classification_unique(text: Seq<char>, a: Seq<AnalyzedChar>, b: Seq<AnalyzedChar>)
    requires
        classifies(text, a),
        classifies(text, b),
    ensures
        a == b,
{
    assert forall|i: int| 0 <= i < a.len() implies a[i] == b[i] by {
        let x = a[i];
        let y = b[i];
        assert(x.kind == y.kind && x.line == y.line && x.column == y.column);
    }
    assert(a =~= b);
}

/// The kind of `c`, where `whitespace` is what `char::is_whitespace` said of it.
pub fn classify_char(c: char, whitespace: bool) -> (kind: CharKind)
    ensures
        kind == kind_given(c, whitespace),
{
    if c == '\n' {
        CharKind::Newline
    } else if whitespace {
        CharKind::Whitespace
    } else {
        CharKind::Char(c)
    }
}

/// Classifies every character of `input`, in order, and tags each with its
/// line and column. Positions start at line 1, column 1; a line break ends
/// its line.
pub fn analyze_chars(input: &str) -> (result: Vec<AnalyzedChar>)
    ensures
        classifies(input@, result@),
        result@.len() == input@.len(),
        forall|i: int, j: int|
            0 <= i <= j < result@.len() ==> (#[trigger] result@[i]).line <= (
            #[trigger] result@[j]).line,
        forall|i: int|
            #![trigger result@[i]]
            0 <= i && i + 1 < result@.len() && result@[i].line == result@[i + 1].line
                ==> result@[i + 1].column == result@[i].column + 1,
{
    let total = input.unicode_len();
    let mut result: Vec<AnalyzedChar> = Vec::new();
    let mut breaks: usize = 0;
    let mut offset: usize = 0;
    let mut iter = input.chars();
    let mut done: usize = 0;
    while done < total
        invariant
            done <= total,
            total == input@.len(),
            iter.remaining() == input@.skip(done as int),
            result@.len() == done,
            breaks == breaks_before(input@, done as int),
            offset == done - line_start(input@, done as int),
            forall|i: int|
                0 <= i < done ==> {
                    &&& (#[trigger] result@[i]).kind == kind_of(input@[i])
                    &&& result@[i].line == line_at(input@, i)
                    &&& result@[i].column == column_at(input@, i)
                },
        decreases total - done,
    {
        proof {
            lemma_line_start_bounds(input@, done as int);
        }
        if let Some(ch) = iter.next() {
            let kind = classify_char(ch, ch.is_whitespace());
            result.push(AnalyzedChar { kind, line: breaks + 1, column: offset + 1 });
            if ch == '\n' {
                breaks += 1;
                offset = 0;
            } else {
                offset += 1;
            }
        }
        done += 1;
    }
    proof {
        lemma_positions_advance(input@, result@);
    }
    result
}

} // verus!
