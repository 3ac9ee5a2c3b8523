//! Characters, whitespace, comments and identifiers of the source text.
use vstd::prelude::*;

verus! {

/// The source text, with its characters at hand for indexing.
pub struct Input<'a> {
    pub text: &'a str,
    pub chars: Vec<char>,
}

impl<'a> Input<'a> {
    pub open spec fn wf(&self) -> bool {
        &&& self.chars@ == self.text@
        &&& self.chars@.len() < usize::MAX
    }

    pub open spec fn len(&self) -> int {
        self.chars@.len() as int
    }

    pub fn new(text: &'a str) -> (r: Input<'a>)
        requires
            text@.len() < usize::MAX,
        ensures
            r.wf(),
            r.text == text,
    {
        let n = text.unicode_len();
        let mut chars: Vec<char> = Vec::new();
        let mut i: usize = 0;
        while i < n
            invariant
                n == text@.len(),
                i <= n,
                chars@ == text@.subrange(0, i as int),
            decreases n - i,
        {
            chars.push(text.get_char(i));
            i += 1;
            assert(chars@ =~= text@.subrange(0, i as int));
        }
        assert(chars@ =~= text@);
        Input { text, chars }
    }

    /// The text from `from` to `to`, as a string.
    pub fn slice(&self, from: usize, to: usize) -> (r: String)
        requires
            self.wf(),
            from <= to <= self.len(),
        ensures
            r@ == self.chars@.subrange(from as int, to as int),
    {
        self.text.substring_char(from, to).to_owned()
    }

    /// The character at `i`, if there is one.
    pub fn at(&self, i: usize) -> (r: Option<char>)
        ensures
            r == char_at(self.chars@, i as int),
    {
        if i < self.chars.len() {
            Some(self.chars[i])
        } else {
            None
        }
    }

    /// `word` stands at `pos`.
    pub fn starts_with(&self, pos: usize, word: &str) -> (r: bool)
        ensures
            r == has_at(self.chars@, pos as int, word@),
    {
        let n = word.unicode_len();
        let len = self.chars.len();
        if n > len || pos > len - n {
            return false;
        }
        let mut i: usize = 0;
        while i < n
            invariant
                n == word@.len(),
                len == self.chars@.len(),
                pos + n <= len,
                i <= n,
                forall|j: int| 0 <= j < i ==> self.chars@[pos + j] == word@[j],
            decreases n - i,
        {
            assert(pos + i < self.chars@.len());
            if self.chars[pos + i] != word.get_char(i) {
                return false;
            }
            i += 1;
        }
        true
    }
}

pub open spec fn char_at(s: Seq<char>, i: int) -> Option<char> {
    if 0 <= i < s.len() {
        Some(s[i])
    } else {
        None
    }
}

/// `w` occurs in `s` at `pos`.
pub open spec fn has_at(s: Seq<char>, pos: int, w: Seq<char>) -> bool {
    0 <= pos && pos + w.len() <= s.len() && forall|j: int| 0 <= j < w.len() ==> s[pos + j] == w[j]
}

pub open spec fn is_ws(c: char) -> bool {
    c == ' ' || c == '\t' || c == '\n' || c == '\r'
}

pub open spec fn is_alpha(c: char) -> bool {
    ('a' <= c && c <= 'z') || ('A' <= c && c <= 'Z')
}

pub open spec fn is_digit(c: char) -> bool {
    '0' <= c && c <= '9'
}

pub open spec fn is_ident_start(c: char) -> bool {
    is_alpha(c) || c == '_'
}

pub open spec fn is_ident_char(c: char) -> bool {
    is_alpha(c) || is_digit(c) || c == '_'
}

/// The end of the run of characters satisfying `p` from `i` on.
pub open spec fn run_end(s: Seq<char>, i: int, p: spec_fn(char) -> bool) -> int
    decreases s.len() - i,
{
    if i < 0 || i >= s.len() || !p(s[i]) {
        i
    } else {
        run_end(s, i + 1, p)
    }
}

/// The end of the identifier at `i`, if one starts there.
pub open spec fn ident_end(s: Seq<char>, i: int) -> Option<int> {
    if 0 <= i < s.len() && is_ident_start(s[i]) {
        Some(run_end(s, i + 1, |c: char| is_ident_char(c)))
    } else {
        None
    }
}

/// `t` is an identifier: a letter or `_`, then letters, digits or `_`.
pub open spec fn is_ident(t: Seq<char>) -> bool {
    &&& t.len() > 0
    &&& is_ident_start(t[0])
    &&& forall|j: int| 1 <= j < t.len() ==> is_ident_char(#[trigger] t[j])
}

proof fn lemma_run_end(s: Seq<char>, i: int, p: spec_fn(char) -> bool)
    requires
        0 <= i <= s.len(),
    ensures
        i <= run_end(s, i, p) <= s.len(),
        forall|j: int| i <= j < run_end(s, i, p) ==> p(#[trigger] s[j]),
    decreases s.len() - i,
{
    if i < s.len() && p(s[i]) {
        lemma_run_end(s, i + 1, p);
    }
}

/// The text of an identifier found at `i` is an identifier.
pub proof fn lemma_ident_text(s: Seq<char>, i: int)
    requires
        ident_end(s, i) is Some,
    ensures
        is_ident(s.subrange(i, ident_end(s, i)->Some_0)),
        i < ident_end(s, i)->Some_0 <= s.len(),
{
    lemma_run_end(s, i + 1, |c: char| is_ident_char(c));
    let t = s.subrange(i, ident_end(s, i)->Some_0);
    assert forall|j: int| 1 <= j < t.len() implies is_ident_char(#[trigger] t[j]) by {
        assert(t[j] == s[i + j]);
    }
}

/// The position just after the first `\n` from `i` on, or the end of text.
pub open spec fn line_comment_end(s: Seq<char>, i: int) -> int
    decreases s.len() - i,
{
    if i < 0 || i >= s.len() {
        s.len() as int
    } else if s[i] == '\n' {
        i + 1
    } else {
        line_comment_end(s, i + 1)
    }
}

/// The position of the first `*/` from `i` on.
pub open spec fn block_close(s: Seq<char>, i: int) -> Option<int>
    decreases s.len() - i,
{
    if i < 0 || i + 1 >= s.len() {
        None
    } else if s[i] == '*' && s[i + 1] == '/' {
        Some(i)
    } else {
        block_close(s, i + 1)
    }
}

/// The end of the comment at `i`, if one starts there: `// ...` up to and
/// including the line end, or `/* ... */`.
pub open spec fn comment_end(s: Seq<char>, i: int) -> Option<int> {
    if has_at(s, i, seq!['/', '/']) {
        Some(line_comment_end(s, i + 2))
    } else if has_at(s, i, seq!['/', '*']) {
        match block_close(s, i + 2) {
            Some(c) => Some(c + 2),
            None => None,
        }
    } else {
        None
    }
}

/// The end of the whitespace and comments from `i` on.
pub open spec fn trivia_end(s: Seq<char>, i: int) -> int
    decreases s.len() - i,
{
    if i < 0 || i >= s.len() {
        i
    } else if is_ws(s[i]) {
        trivia_end(s, i + 1)
    } else {
        match comment_end(s, i) {
            Some(e) => if i < e <= s.len() {
                trivia_end(s, e)
            } else {
                i
            },
            None => i,
        }
    }
}

/// The start of the last comment in the whitespace and comments from `i`
/// on, or `last` if there is none.
pub open spec fn last_comment(s: Seq<char>, i: int, last: Option<int>) -> Option<int>
    decreases s.len() - i,
{
    if i < 0 || i >= s.len() {
        last
    } else if is_ws(s[i]) {
        last_comment(s, i + 1, last)
    } else {
        match comment_end(s, i) {
            Some(e) => if i < e <= s.len() {
                last_comment(s, e, Some(i))
            } else {
                last
            },
            None => last,
        }
    }
}

/// Documentation text of the javadoc body `s[i..end]`: lines are joined
/// with one space; on every line but the first, leading blanks, one `*` and
/// the blanks after it are dropped. `st` is 0 inside a line's text, 1 at a
/// line's start, 2 after its `*`.
pub open spec fn doc_from(s: Seq<char>, i: int, end: int, st: int) -> Seq<char>
    decreases end - i,
{
    if i < 0 || i >= end || end > s.len() {
        seq![]
    } else if s[i] == '\n' {
        seq![' '] + doc_from(s, i + 1, end, 1)
    } else if s[i] == '\r' && i + 1 < end && s[i + 1] == '\n' {
        doc_from(s, i + 1, end, st)
    } else if st != 0 && (s[i] == ' ' || s[i] == '\t') {
        doc_from(s, i + 1, end, st)
    } else if st == 1 && s[i] == '*' {
        doc_from(s, i + 1, end, 2)
    } else {
        seq![s[i]] + doc_from(s, i + 1, end, 0)
    }
}

/// The first position from `from` on, before `to`, that is not whitespace.
pub open spec fn trim_front(s: Seq<char>, from: int, to: int) -> int
    decreases to - from,
{
    if 0 <= from < to && from < s.len() && is_ws(s[from]) {
        trim_front(s, from + 1, to)
    } else {
        from
    }
}

/// The end of the text from `from` to `to` once trailing whitespace is dropped.
pub open spec fn trim_back(s: Seq<char>, from: int, to: int) -> int
    decreases to,
{
    if from < to && 1 <= to <= s.len() && is_ws(s[to - 1]) {
        trim_back(s, from, to - 1)
    } else {
        to
    }
}

/// `t` without its leading and trailing whitespace.
pub open spec fn trimmed(t: Seq<char>) -> Seq<char> {
    t.subrange(trim_front(t, 0, t.len() as int), trim_back(t, trim_front(t, 0, t.len() as int), t.len() as int))
}

/// The documentation carried by the comment at `c`: the text of a
/// `/** ... */` comment, trimmed, or nothing for any other comment.
pub open spec fn doc_of_comment(s: Seq<char>, c: int) -> Seq<char> {
    if has_at(s, c, seq!['/', '*', '*']) {
        match block_close(s, c + 2) {
            Some(close) => if close >= c + 3 {
                trimmed(doc_from(s, c + 3, close, 0))
            } else {
                seq![]
            },
            None => seq![],
        }
    } else {
        seq![]
    }
}

/// The documentation in the whitespace and comments from `i` on: that of
/// the last comment there.
pub open spec fn doc_before(s: Seq<char>, i: int) -> Seq<char> {
    match last_comment(s, i, None) {
        Some(c) => doc_of_comment(s, c),
        None => seq![],
    }
}

impl<'a> Input<'a> {
    fn line_comment_end(&self, i: usize) -> (r: usize)
        ensures
            r == line_comment_end(self.chars@, i as int),
    {
        let mut j = i;
        let len = self.chars.len();
        if j >= len {
            return len;
        }
        while j < len
            invariant
                len == self.chars@.len(),
                i <= j <= len,
                line_comment_end(self.chars@, i as int) == line_comment_end(self.chars@, j as int),
            decreases len - j,
        {
            if self.chars[j] == '\n' {
                return j + 1;
            }
            j += 1;
        }
        len
    }

    fn block_close(&self, i: usize) -> (r: Option<usize>)
        ensures
            match r {
                Some(c) => block_close(self.chars@, i as int) == Some(c as int),
                None => block_close(self.chars@, i as int) is None,
            },
    {
        let len = self.chars.len();
        let mut j = i;
        while j < len && j + 1 < len
            invariant
                len == self.chars@.len(),
                i <= j,
                block_close(self.chars@, i as int) == block_close(self.chars@, j as int),
            decreases len - j,
        {
            if self.chars[j] == '*' && self.chars[j + 1] == '/' {
                return Some(j);
            }
            j += 1;
        }
        None
    }

    /// The end of the comment at `i`, if one starts there.
    pub fn comment_end(&self, i: usize) -> (r: Option<usize>)
        ensures
            match r {
                Some(e) => comment_end(self.chars@, i as int) == Some(e as int),
                None => comment_end(self.chars@, i as int) is None,
            },
    {
        let slash_slash = self.starts_with(i, "//");
        let slash_star = self.starts_with(i, "/*");
        proof {
            reveal_strlit("//");
            reveal_strlit("/*");
            assert("//"@ =~= seq!['/', '/']);
            assert("/*"@ =~= seq!['/', '*']);
        }
        let len = self.chars.len();
        if slash_slash {
            assert(i + 2 <= len);
            Some(self.line_comment_end(i + 2))
        } else if slash_star {
            assert(i + 2 <= len);
            match self.block_close(i + 2) {
                Some(c) => {
                    proof {
                        lemma_block_close_bound(self.chars@, i + 2);
                    }
                    Some(c + 2)
                },
                None => None,
            }
        } else {
            None
        }
    }

    /// The end of the whitespace and comments from `i` on, with the start of
    /// the last comment among them.
    pub fn skip_trivia(&self, i: usize) -> (r: (usize, Option<usize>))
        ensures
            r.0 == trivia_end(self.chars@, i as int),
            i <= r.0 <= if i <= self.chars@.len() { self.chars@.len() as int } else { i as int },
            match r.1 {
                Some(c) => last_comment(self.chars@, i as int, None) == Some(c as int),
                None => last_comment(self.chars@, i as int, None) is None,
            },
    {
        let len = self.chars.len();
        let mut j = i;
        let mut last: Option<usize> = None;
        let mut done = false;
        while !done && j < len
            invariant
                done ==> trivia_end(self.chars@, j as int) == j && last_comment(self.chars@, j as int, match last {
                        Some(c) => Some(c as int),
                        None => None,
                    }) == match last {
                        Some(c) => Some(c as int),
                        None => None,
                    },
                len == self.chars@.len(),
                i <= j,
                i <= len ==> j <= len,
                trivia_end(self.chars@, i as int) == trivia_end(self.chars@, j as int),
                last_comment(self.chars@, i as int, None) == last_comment(
                    self.chars@,
                    j as int,
                    match last {
                        Some(c) => Some(c as int),
                        None => None,
                    },
                ),
            decreases len - j, if done { 0int } else { 1int },
        {
            if is_ws_char(self.chars[j]) {
                j += 1;
            } else {
                match self.comment_end(j) {
                    Some(e) => {
                        if j < e && e <= len {
                            last = Some(j);
                            j = e;
                        } else {
                            done = true;
                        }
                    },
                    None => {
                        done = true;
                    },
                }
            }
        }
        (j, last)
    }

    /// The documentation text of the javadoc body from `i` to `end`.
    pub fn doc_text(&self, i: usize, end: usize) -> (r: String)
        requires
            self.wf(),
            end <= self.len(),
        ensures
            r@ == doc_from(self.chars@, i as int, end as int, 0),
    {
        let mut out = String::new();
        let mut j = i;
        let mut st: u8 = 0;
        proof {
            reveal_strlit(" ");
            assert(" "@ =~= seq![' ']);
        }
        while j < end
            invariant
                self.wf(),
                end <= self.chars@.len(),
                i <= j,
                st <= 2,
                out@ + doc_from(self.chars@, j as int, end as int, st as int) == doc_from(self.chars@, i as int, end as int, 0),
            decreases end - j,
        {
            let c = self.chars[j];
            let ghost out0 = out@;
            let ghost st0 = st as int;
            let ghost s = self.chars@;
            if c == '\n' {
                out.append(" ");
                st = 1;
                proof {
                    reveal_strlit(" ");
                    assert(" "@ =~= seq![' ']);
                }
                assert(doc_from(s, j as int, end as int, st0) == seq![' '] + doc_from(s, j + 1, end as int, 1));
                assert(out@ =~= out0 + seq![' ']);
            } else if c == '\r' && j + 1 < end && self.chars[j + 1] == '\n' {
                assert(doc_from(s, j as int, end as int, st0) == doc_from(s, j + 1, end as int, st0));
            } else if st != 0 && (c == ' ' || c == '\t') {
                assert(doc_from(s, j as int, end as int, st0) == doc_from(s, j + 1, end as int, st0));
            } else if st == 1 && c == '*' {
                st = 2;
                assert(doc_from(s, j as int, end as int, st0) == doc_from(s, j + 1, end as int, 2));
            } else {
                let piece = self.text.substring_char(j, j + 1);
                assert(piece@ =~= seq![c]);
                out.append(piece);
                st = 0;
                assert(doc_from(s, j as int, end as int, st0) == seq![c] + doc_from(s, j + 1, end as int, 0));
                assert(out@ == out0 + seq![c]);
            }
            assert(out@ + doc_from(self.chars@, j + 1, end as int, st as int) =~= doc_from(self.chars@, i as int, end as int, 0));
            j += 1;
        }
        assert(out@ =~= doc_from(self.chars@, i as int, end as int, 0));
        out
    }

    /// The documentation carried by the comment at `c`.
    pub fn doc_of_comment(&self, c: usize) -> (r: String)
        requires
            self.wf(),
        ensures
            r@ == doc_of_comment(self.chars@, c as int),
    {
        let javadoc = self.starts_with(c, "/**");
        proof {
            reveal_strlit("/**");
            assert("/**"@ =~= seq!['/', '*', '*']);
            reveal_strlit("");
        }
        let len = self.chars.len();
        if javadoc {
            assert(c + 3 <= len);
            match self.block_close(c + 2) {
                Some(close) => {
                    proof {
                        lemma_block_close_bound(self.chars@, c + 2);
                    }
                    if close >= c + 3 {
                        let text = self.doc_text(c + 3, close);
                        return trim(&text);
                    }
                },
                None => {},
            }
        }
        String::new()
    }

    /// The end of the identifier at `i`, if one starts there.
    pub fn identifier_end(&self, i: usize) -> (r: Option<usize>)
        ensures
            match r {
                Some(e) => ident_end(self.chars@, i as int) == Some(e as int) && i < e <= self.chars@.len(),
                None => ident_end(self.chars@, i as int) is None,
            },
    {
        let len = self.chars.len();
        if i >= len || !is_ident_start_char(self.chars[i]) {
            return None;
        }
        let mut j = i + 1;
        while j < len && is_ident_char_char(self.chars[j])
            invariant
                len == self.chars@.len(),
                i < j <= len,
                run_end(self.chars@, i + 1, |c: char| is_ident_char(c)) == run_end(self.chars@, j as int, |c: char| is_ident_char(c)),
            decreases len - j,
        {
            j += 1;
        }
        Some(j)
    }
}

/// `t` without its leading and trailing whitespace.
pub fn trim(t: &String) -> (r: String)
    ensures
        r@ == trimmed(t@),
{
    let text = t.as_str();
    let n = text.unicode_len();
    let mut a: usize = 0;
    while a < n && is_ws_char(text.get_char(a))
        invariant
            n == t@.len(),
            text@ == t@,
            a <= n,
            trim_front(t@, 0, n as int) == trim_front(t@, a as int, n as int),
        decreases n - a,
    {
        a += 1;
    }
    let mut b: usize = n;
    while b > a && is_ws_char(text.get_char(b - 1))
        invariant
            n == t@.len(),
            text@ == t@,
            a <= b <= n,
            trim_back(t@, a as int, n as int) == trim_back(t@, a as int, b as int),
        decreases b,
    {
        b -= 1;
    }
    text.substring_char(a, b).to_owned()
}

/// A comment ends after its start and within the text.
pub proof fn lemma_comment_end_bound(s: Seq<char>, i: int)
    ensures
        comment_end(s, i) matches Some(e) ==> i + 2 <= e <= s.len(),
{
    if has_at(s, i, seq!['/', '/']) {
        lemma_line_comment_end_bound(s, i + 2);
    } else if has_at(s, i, seq!['/', '*']) {
        lemma_block_close_bound(s, i + 2);
    }
}

proof fn lemma_line_comment_end_bound(s: Seq<char>, i: int)
    requires
        0 <= i <= s.len(),
    ensures
        i <= line_comment_end(s, i) <= s.len(),
    decreases s.len() - i,
{
    if i < s.len() && s[i] != '\n' {
        lemma_line_comment_end_bound(s, i + 1);
    }
}

proof fn lemma_block_close_bound(s: Seq<char>, i: int)
    ensures
        block_close(s, i) matches Some(c) ==> i <= c && c + 2 <= s.len(),
    decreases s.len() - i,
{
    if !(i < 0 || i + 1 >= s.len()) && !(s[i] == '*' && s[i + 1] == '/') {
        lemma_block_close_bound(s, i + 1);
    }
}

pub fn is_ws_char(c: char) -> (r: bool)
    ensures
        r == is_ws(c),
{
    c == ' ' || c == '\t' || c == '\n' || c == '\r'
}

pub fn is_ident_start_char(c: char) -> (r: bool)
    ensures
        r == is_ident_start(c),
{
    ('a' <= c && c <= 'z') || ('A' <= c && c <= 'Z') || c == '_'
}

pub fn is_ident_char_char(c: char) -> (r: bool)
    ensures
        r == is_ident_char(c),
{
    ('a' <= c && c <= 'z') || ('A' <= c && c <= 'Z') || ('0' <= c && c <= '9') || c == '_'
}

pub fn is_digit_char(c: char) -> (r: bool)
    ensures
        r == is_digit(c),
{
    '0' <= c && c <= '9'
}

} // verus!
