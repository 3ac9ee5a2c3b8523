//! Located syntax errors.
use vstd::prelude::*;
use crate::lexer::Input;

verus! {

/// A syntax error: 1-based line and column of the offending text, and an
/// excerpt of it (at most 30 characters, the longer ones cut to 27 and
/// followed by `...`).
#[derive(Debug)]
pub struct ParseContentError {
    pub line_number: usize,
    pub column_number: usize,
    pub section: String,
}

/// A syntax error in the file at `path`.
#[derive(Debug)]
pub struct ParseFileError {
    pub path: String,
    pub content_error: ParseContentError,
}

/// The position where the line holding position `i` starts.
pub open spec fn line_start(s: Seq<char>, i: int) -> int
    decreases i,
{
    if i <= 0 {
        0
    } else if s[i - 1] == '\n' {
        i
    } else {
        line_start(s, i - 1)
    }
}

/// The 1-based line of position `i`: one more than the line ends before it.
pub open spec fn line_of(s: Seq<char>, i: int) -> int
    decreases i,
{
    if i <= 0 {
        1
    } else if s[i - 1] == '\n' {
        line_of(s, i - 1) + 1
    } else {
        line_of(s, i - 1)
    }
}

/// The excerpt shown for the offending text `t`.
pub open spec fn excerpt(t: Seq<char>) -> Seq<char> {
    if t.len() < 30 {
        t
    } else {
        t.subrange(0, 27) + seq!['.', '.', '.']
    }
}

proof fn lemma_line_bounds(s: Seq<char>, i: int)
    requires
        0 <= i,
    ensures
        1 <= line_of(s, i) <= i + 1,
        0 <= line_start(s, i) <= i,
    decreases i,
{
    if i > 0 {
        lemma_line_bounds(s, i - 1);
    }
}

impl ParseContentError {
    /// The error for the offending text from `pos` to `end`.
    pub fn at(input: &Input, pos: usize, end: usize) -> (r: ParseContentError)
        requires
            input.wf(),
            pos <= end <= input.len(),
        ensures
            r.line_number == line_of(input.chars@, pos as int),
            r.column_number == pos - line_start(input.chars@, pos as int) + 1,
            r.section@ == excerpt(input.chars@.subrange(pos as int, end as int)),
    {
        let mut line: usize = 1;
        let mut start: usize = 0;
        let mut i: usize = 0;
        while i < pos
            invariant
                pos <= input.chars@.len(),
                input.chars@.len() < usize::MAX,
                i <= pos,
                line == line_of(input.chars@, i as int),
                start == line_start(input.chars@, i as int),
            decreases pos - i,
        {
            proof {
                lemma_line_bounds(input.chars@, i as int);
            }
            if input.chars[i] == '\n' {
                line = line + 1;
                start = i + 1;
            }
            i += 1;
        }
        proof {
            lemma_line_bounds(input.chars@, pos as int);
        }
        let section = if end - pos < 30 {
            input.slice(pos, end)
        } else {
            let mut cut = input.slice(pos, pos + 27);
            cut.append("...");
            proof {
                reveal_strlit("...");
                assert("..."@ =~= seq!['.', '.', '.']);
                assert(input.chars@.subrange(pos as int, end as int).subrange(0, 27) =~= input.chars@.subrange(
                    pos as int,
                    pos + 27,
                ));
            }
            cut
        };
        ParseContentError { line_number: line, column_number: pos - start + 1, section }
    }
}

} // verus!
