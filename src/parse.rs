//! The grammar: source text to syntax tree.
use vstd::prelude::*;
use crate::ast::{
    Annotation, Arg, Const, Direction, EnumElement, File, InterfaceElement, Item, Member, Method,
    Type,
};
use crate::error::{excerpt, line_of, line_start, ParseContentError};
use crate::lexer::{
    char_at, has_at, ident_end, is_digit, is_digit_char, is_ident, is_ident_char,
    is_ident_char_char, trivia_end, Input,
};

verus! {

/// A parse that, on success, consumed something and stayed in the text.
pub open spec fn advances<T>(r: Option<(T, usize)>, pos: usize, len: int) -> bool {
    r matches Some(p) ==> pos < p.1 <= len
}

/// The end of a dotted name whose first identifier ends at `e`: each
/// further `.identifier` is taken.
pub open spec fn dotted_from(s: Seq<char>, e: int) -> int
    decreases s.len() - e,
{
    if 0 <= e && e < s.len() && s[e] == '.' {
        match ident_end(s, e + 1) {
            Some(e2) => if e < e2 <= s.len() {
                dotted_from(s, e2)
            } else {
                e
            },
            None => e,
        }
    } else {
        e
    }
}

/// The end of the dotted name (`a.b.c`) at `i`, if one starts there.
pub open spec fn dotted_end(s: Seq<char>, i: int) -> Option<int> {
    match ident_end(s, i) {
        Some(e) => Some(dotted_from(s, e)),
        None => None,
    }
}

/// The first position from `i` on holding `c`, or the end of the text.
pub open spec fn find_char(s: Seq<char>, i: int, c: char) -> int
    decreases s.len() - i,
{
    if i < 0 || i >= s.len() || s[i] == c {
        i
    } else {
        find_char(s, i + 1, c)
    }
}

/// The end of the word `w` at `i` when it stands there as a keyword: not
/// followed by a character that would continue an identifier.
pub open spec fn keyword_end(s: Seq<char>, i: int, w: Seq<char>) -> Option<int> {
    if has_at(s, i, w) && !(char_at(s, i + w.len()) matches Some(c) && is_ident_char(c)) {
        Some(i + w.len())
    } else {
        None
    }
}

/// The position after `c`, itself after whitespace and comments from `i`.
pub open spec fn expect_end(s: Seq<char>, i: int, c: char) -> Option<int> {
    if char_at(s, trivia_end(s, i)) == Some(c) {
        Some(trivia_end(s, i) + 1)
    } else {
        None
    }
}

/// The end of the annotation at `i`: `@` and a name, then, if a `(` follows,
/// a non-empty text up to the first `)`, included.
pub open spec fn annotation_end(s: Seq<char>, i: int) -> Option<int> {
    if char_at(s, i) == Some('@') {
        match ident_end(s, i + 1) {
            None => None,
            Some(ie) => {
                let c = find_char(s, ie + 1, ')');
                if char_at(s, ie) == Some('(') && c > ie + 1 && c < s.len() {
                    Some(c + 1)
                } else {
                    Some(ie)
                }
            },
        }
    } else {
        None
    }
}

/// The end of the annotations from `i` on, each followed by whitespace and
/// comments.
pub open spec fn annotations_end(s: Seq<char>, i: int) -> int
    decreases s.len() - i,
{
    match annotation_end(s, i) {
        Some(e) => if i < trivia_end(s, e) <= s.len() {
            annotations_end(s, trivia_end(s, e))
        } else {
            i
        },
        None => i,
    }
}

/// Where the annotations from `i` on are written.
pub open spec fn annotation_positions(s: Seq<char>, i: int) -> Seq<int>
    decreases s.len() - i,
{
    match annotation_end(s, i) {
        Some(e) => if i < trivia_end(s, e) <= s.len() {
            seq![i] + annotation_positions(s, trivia_end(s, e))
        } else {
            seq![]
        },
        None => seq![],
    }
}

/// `anns` are the annotations written after the whitespace and comments
/// from `pos`, in order, each the text after its `@`.
pub open spec fn annotations_spec(s: Seq<char>, pos: int, anns: Seq<Annotation>) -> bool {
    let at = annotation_positions(s, trivia_end(s, pos));
    &&& anns.len() == at.len()
    &&& forall|k: int|
        0 <= k < anns.len() ==> (#[trigger] anns[k]).0@ == s.subrange(at[k] + 1, annotation_end(s, at[k])->Some_0)
}

/// Where a declaration proper starts after whitespace, comments and
/// annotations from `pos`.
pub open spec fn preamble_end(s: Seq<char>, pos: int) -> int {
    annotations_end(s, trivia_end(s, pos))
}

/// The direction keyword (`inout`, `in`, `out`) at `i`, with its end.
pub open spec fn direction_at(s: Seq<char>, i: int) -> Option<(Direction, int)> {
    match keyword_end(s, i, "inout"@) {
        Some(e) => Some((Direction::InOut, e)),
        None => match keyword_end(s, i, "in"@) {
            Some(e) => Some((Direction::In, e)),
            None => match keyword_end(s, i, "out"@) {
                Some(e) => Some((Direction::Out, e)),
                None => None,
            },
        },
    }
}

/// The direction of the argument whose type starts after `j0`, and where
/// its type starts.
pub open spec fn arg_direction(s: Seq<char>, j0: int) -> (Direction, int) {
    match direction_at(s, j0) {
        Some((d, k)) => (d, trivia_end(s, k)),
        None => (Direction::Unspecified, j0),
    }
}

/// `a` is the argument written at `pos`: its direction (unspecified if
/// none is written), its type, and its name (empty if none follows).
pub open spec fn arg_spec(s: Seq<char>, pos: int, a: Arg) -> bool {
    let (d, j) = arg_direction(s, preamble_end(s, pos));
    &&& a.direction == d
    &&& annotations_spec(s, pos, a.annotations@)
    &&& type_spec(s, j, a.arg_type)
    &&& match type_end(s, j) {
        Some(e) => {
            let k = trivia_end(s, e);
            if k > e && ident_end(s, k) is Some {
                a.name@ == s.subrange(k, ident_end(s, k)->Some_0)
            } else {
                a.name@.len() == 0
            }
        },
        None => false,
    }
}

/// The end of the method argument at `pos`: annotations, an optional
/// direction, a type, and a name if one follows after whitespace.
pub open spec fn arg_end(s: Seq<char>, pos: int) -> Option<int> {
    let j = arg_direction(s, preamble_end(s, pos)).1;
    match type_end(s, j) {
        None => None,
        Some(e) => {
            let k = trivia_end(s, e);
            if k > e && ident_end(s, k) is Some {
                ident_end(s, k)
            } else {
                Some(e)
            }
        },
    }
}

/// The end of the arguments after the one ending at `end`: each further one
/// follows a comma.
pub open spec fn args_rest(s: Seq<char>, end: int) -> int
    decreases s.len() - end,
{
    let k = trivia_end(s, end);
    if char_at(s, k) == Some(',') {
        match arg_end(s, trivia_end(s, k + 1)) {
            Some(e) => if end < e <= s.len() {
                args_rest(s, e)
            } else {
                end
            },
            None => end,
        }
    } else {
        end
    }
}

/// Where the arguments after the one ending at `end` are written.
pub open spec fn args_rest_positions(s: Seq<char>, end: int) -> Seq<int>
    decreases s.len() - end,
{
    let k = trivia_end(s, end);
    if char_at(s, k) == Some(',') {
        match arg_end(s, trivia_end(s, k + 1)) {
            Some(e) => if end < e <= s.len() {
                seq![trivia_end(s, k + 1)] + args_rest_positions(s, e)
            } else {
                seq![]
            },
            None => seq![],
        }
    } else {
        seq![]
    }
}

/// Where the comma-separated arguments from `pos` on are written.
pub open spec fn args_positions(s: Seq<char>, pos: int) -> Seq<int> {
    match arg_end(s, trivia_end(s, pos)) {
        Some(e) => seq![trivia_end(s, pos)] + args_rest_positions(s, e),
        None => seq![],
    }
}

/// The end of the comma-separated arguments from `pos` on; `pos` itself if
/// there are none.
pub open spec fn args_end(s: Seq<char>, pos: int) -> int {
    match arg_end(s, trivia_end(s, pos)) {
        Some(e) => args_rest(s, e),
        None => pos,
    }
}

/// The end of the digits from `i` on.
pub open spec fn digits_end(s: Seq<char>, i: int) -> int {
    crate::lexer::run_end(s, i, |c: char| is_digit(c))
}

/// The literal at `pos`, as (start of its text, end of its text, end): a
/// number (digits, then perhaps `.` and digits, then perhaps `f`), a quoted
/// string (its text without the quotes), or `{}`.
pub open spec fn const_value_at(s: Seq<char>, pos: int) -> Option<(int, int, int)> {
    if char_at(s, pos) matches Some(c) && is_digit(c) {
        let a = digits_end(s, pos + 1);
        let b = if char_at(s, a) == Some('.') {
            digits_end(s, a + 1)
        } else {
            a
        };
        let f = if char_at(s, b) == Some('f') {
            b + 1
        } else {
            b
        };
        Some((pos, f, f))
    } else if char_at(s, pos) == Some('"') {
        let q = find_char(s, pos + 1, '"');
        if q < s.len() {
            Some((pos + 1, q, q + 1))
        } else {
            None
        }
    } else if has_at(s, pos, "{}"@) {
        Some((pos, pos + 2, pos + 2))
    } else {
        None
    }
}

/// The parts of `const Type NAME = value;` at `pos`: where the type
/// starts, where the name starts and ends, where the value's text starts
/// and ends, and the end.
pub open spec fn const_parts(s: Seq<char>, pos: int) -> Option<(int, int, int, int, int, int)> {
    match keyword_end(s, preamble_end(s, pos), "const"@) {
        None => None,
        Some(k) => {
            let t = trivia_end(s, k);
            match type_end(s, t) {
                None => None,
                Some(e1) => {
                    let n = trivia_end(s, e1);
                    match ident_end(s, n) {
                        None => None,
                        Some(e2) => match expect_end(s, e2, '=') {
                            None => None,
                            Some(e3) => match const_value_at(s, trivia_end(s, e3)) {
                                None => None,
                                Some((v0, v1, e4)) => match expect_end(s, e4, ';') {
                                    None => None,
                                    Some(e) => Some((t, n, e2, v0, v1, e)),
                                },
                            },
                        },
                    }
                },
            }
        },
    }
}

/// `c` is the const written at `pos`, with the documentation before it.
pub open spec fn const_spec(s: Seq<char>, pos: int, c: Const) -> bool {
    match const_parts(s, pos) {
        None => false,
        Some((t, n0, n1, v0, v1, _)) => {
            &&& type_spec(s, t, c.const_type)
            &&& c.name@ == s.subrange(n0, n1)
            &&& c.value@ == s.subrange(v0, v1)
            &&& c.docu@ == crate::lexer::doc_before(s, pos)
            &&& annotations_spec(s, pos, c.annotations@)
        },
    }
}

/// The parts of `Type name [= value];` at `pos`: where the type starts,
/// where the name starts and ends, and the end.
pub open spec fn member_parts(s: Seq<char>, pos: int) -> Option<(int, int, int, int)> {
    let t = preamble_end(s, pos);
    match type_end(s, t) {
        None => None,
        Some(e1) => {
            let n = trivia_end(s, e1);
            if n == e1 {
                None
            } else {
                match ident_end(s, n) {
                    None => None,
                    Some(e2) => {
                        let before_semicolon = match expect_end(s, e2, '=') {
                            Some(v) => match const_value_at(s, trivia_end(s, v)) {
                                Some((_, _, e4)) => Some(e4),
                                None => None,
                            },
                            None => Some(e2),
                        };
                        match before_semicolon {
                            None => None,
                            Some(b) => match expect_end(s, b, ';') {
                                None => None,
                                Some(e) => Some((t, n, e2, e)),
                            },
                        }
                    },
                }
            }
        },
    }
}

/// `m` is the struct member written at `pos`, with the documentation before it.
pub open spec fn member_spec(s: Seq<char>, pos: int, m: Member) -> bool {
    match member_parts(s, pos) {
        None => false,
        Some((t, n0, n1, _)) => {
            &&& type_spec(s, t, m.member_type)
            &&& m.name@ == s.subrange(n0, n1)
            &&& m.docu@ == crate::lexer::doc_before(s, pos)
            &&& annotations_spec(s, pos, m.annotations@)
        },
    }
}

/// Whether `oneway` is written at `j0`, and where the return type starts.
pub open spec fn method_oneway(s: Seq<char>, j0: int) -> (bool, int) {
    match keyword_end(s, j0, "oneway"@) {
        Some(k) => (true, trivia_end(s, k)),
        None => (false, j0),
    }
}

/// The end of an optional `= id` after a method's parameters ending at `e`.
pub open spec fn method_id_end(s: Seq<char>, e: int) -> int {
    match expect_end(s, e, '=') {
        Some(v) => {
            let d = trivia_end(s, v);
            if char_at(s, d) matches Some(c) && is_digit(c) {
                digits_end(s, d + 1)
            } else {
                e
            }
        },
        None => e,
    }
}

/// The parts of `[oneway] ReturnType name(args) [= id];` at `pos`: where the
/// return type starts, where the name starts and ends, where the arguments
/// start and end, and the end.
pub open spec fn method_parts(s: Seq<char>, pos: int) -> Option<(int, int, int, int, int, int)> {
    let t = method_oneway(s, preamble_end(s, pos)).1;
    match type_end(s, t) {
        None => None,
        Some(e1) => {
            let n = trivia_end(s, e1);
            if n == e1 {
                None
            } else {
                match ident_end(s, n) {
                    None => None,
                    Some(e2) => match expect_end(s, e2, '(') {
                        None => None,
                        Some(a0) => {
                            let a1 = args_end(s, a0);
                            match expect_end(s, a1, ')') {
                                None => None,
                                Some(e3) => match expect_end(s, method_id_end(s, e3), ';') {
                                    None => None,
                                    Some(e) => Some((t, n, e2, a0, a1, e)),
                                },
                            }
                        },
                    },
                }
            }
        },
    }
}

/// `m` is the method written at `pos`, with the documentation before it.
pub open spec fn method_spec(s: Seq<char>, pos: int, m: Method) -> bool {
    match method_parts(s, pos) {
        None => false,
        Some((t, n0, n1, a0, _, _)) => {
            &&& m.is_one_way == method_oneway(s, preamble_end(s, pos)).0
            &&& m.args@.len() == args_positions(s, a0).len()
            &&& forall|k: int| 0 <= k < m.args@.len() ==> arg_spec(s, args_positions(s, a0)[k], #[trigger] m.args@[k])
            &&& type_spec(s, t, m.return_type)
            &&& m.name@ == s.subrange(n0, n1)
            &&& m.docu@ == crate::lexer::doc_before(s, pos)
            &&& annotations_spec(s, pos, m.annotations@)
        },
    }
}

/// The first position from `i` on holding `;` or `}`, or the end of the text.
pub open spec fn stop_at(s: Seq<char>, i: int) -> int
    decreases s.len() - i,
{
    if i < 0 || i >= s.len() || s[i] == ';' || s[i] == '}' {
        i
    } else {
        stop_at(s, i + 1)
    }
}

/// The end of the const or method at `pos` inside an interface body.
pub open spec fn element_end(s: Seq<char>, pos: int) -> Option<int> {
    match const_parts(s, pos) {
        Some(p) => Some(p.5),
        None => match method_parts(s, pos) {
            Some(p) => Some(p.5),
            None => None,
        },
    }
}

/// The syntax error at `pos` inside an interface body, if there is one:
/// neither a const nor a method stands there, and some text other than `;`
/// or `}` does; it spans up to the next `;` or `}`.
pub open spec fn element_error(s: Seq<char>, pos: int) -> Option<(int, int)> {
    if element_end(s, pos) is Some {
        None
    } else {
        let j = trivia_end(s, pos);
        if stop_at(s, j) == j {
            None
        } else {
            Some((j, stop_at(s, j)))
        }
    }
}

/// Where the consts and methods of an interface body starting at `p` stop,
/// or the syntax error among them.
pub open spec fn body_end(s: Seq<char>, p: int) -> Result<int, (int, int)>
    decreases s.len() - p,
{
    match element_end(s, p) {
        Some(e) => if p < e <= s.len() {
            body_end(s, e)
        } else {
            Ok(p)
        },
        None => match element_error(s, p) {
            Some(x) => Err(x),
            None => Ok(p),
        },
    }
}

/// The name of a declaration after its keyword ending at `k`: where it
/// starts and ends, or where the missing name was expected.
pub open spec fn declared_name_at(s: Seq<char>, k: int) -> Result<(int, int), int> {
    let t = trivia_end(s, k);
    match ident_end(s, t) {
        Some(e) => Ok((t, e)),
        None => Err(t),
    }
}

/// What stands at `pos` when an interface is expected: `None` if no
/// interface does; the end of the interface; or its syntax error.
pub open spec fn interface_outcome(s: Seq<char>, pos: int) -> Option<Result<int, (int, int)>> {
    match keyword_end(s, preamble_end(s, pos), "interface"@) {
        None => None,
        Some(k) => match declared_name_at(s, k) {
            Err(t) => Some(Err((t, s.len() as int))),
            Ok((_, ne)) => match expect_end(s, ne, '{') {
                None => None,
                Some(p) => match body_end(s, p) {
                    Err(x) => Some(Err(x)),
                    Ok(q) => match expect_end(s, q, '}') {
                        Some(end) => Some(Ok(end)),
                        None => None,
                    },
                },
            },
        },
    }
}

/// Where the members of a parcelable body starting at `p` stop.
pub open spec fn members_end(s: Seq<char>, p: int) -> int
    decreases s.len() - p,
{
    match member_parts(s, p) {
        Some(x) => if p < x.3 <= s.len() {
            members_end(s, x.3)
        } else {
            p
        },
        None => p,
    }
}

/// What stands at `pos` when a parcelable is expected (as for interfaces).
pub open spec fn parcelable_outcome(s: Seq<char>, pos: int) -> Option<Result<int, (int, int)>> {
    match keyword_end(s, preamble_end(s, pos), "parcelable"@) {
        None => None,
        Some(k) => match declared_name_at(s, k) {
            Err(t) => Some(Err((t, s.len() as int))),
            Ok((_, ne)) => match expect_end(s, ne, '{') {
                None => None,
                Some(p) => match expect_end(s, members_end(s, p), '}') {
                    Some(end) => Some(Ok(end)),
                    None => None,
                },
            },
        },
    }
}

/// The enum value at `pos`, as (start of its text, end of its text, end):
/// an optionally negative integer, or a quoted string without its quotes.
pub open spec fn enum_value_at(s: Seq<char>, pos: int) -> Option<(int, int, int)> {
    let d = if char_at(s, pos) == Some('-') {
        pos + 1
    } else {
        pos
    };
    if char_at(s, d) matches Some(c) && is_digit(c) {
        Some((pos, digits_end(s, d + 1), digits_end(s, d + 1)))
    } else if char_at(s, pos) == Some('"') && find_char(s, pos + 1, '"') < s.len() {
        Some((pos + 1, find_char(s, pos + 1, '"'), find_char(s, pos + 1, '"') + 1))
    } else {
        None
    }
}

/// The end of the enum element at `pos`: a name, then `= value` if a valid
/// value follows the `=`.
pub open spec fn enum_element_end(s: Seq<char>, pos: int) -> Option<int> {
    match ident_end(s, trivia_end(s, pos)) {
        None => None,
        Some(ie) => match expect_end(s, ie, '=') {
            Some(v) => match enum_value_at(s, trivia_end(s, v)) {
                Some((_, _, ve)) => Some(ve),
                None => Some(ie),
            },
            None => Some(ie),
        },
    }
}

/// Where the elements after the one ending at `end` stop: each further one
/// follows a comma.
pub open spec fn enum_rest(s: Seq<char>, end: int) -> int
    decreases s.len() - end,
{
    match expect_end(s, end, ',') {
        Some(c) => match enum_element_end(s, c) {
            Some(e) => if end < e <= s.len() {
                enum_rest(s, e)
            } else {
                end
            },
            None => end,
        },
        None => end,
    }
}

/// Where the comma-separated elements of an enum body starting at `p` stop;
/// `p` itself if the body has none.
pub open spec fn enum_body_end(s: Seq<char>, p: int) -> int {
    match enum_element_end(s, p) {
        Some(e1) => enum_rest(s, e1),
        None => p,
    }
}

/// Where the elements of an enum body starting at `p` are written, in order.
pub open spec fn enum_body_positions(s: Seq<char>, p: int) -> Seq<int> {
    match enum_element_end(s, p) {
        Some(e1) => seq![p] + enum_positions(s, e1),
        None => seq![],
    }
}

/// What stands at `pos` when an enum is expected (as for interfaces); its
/// body holds elements separated by commas, perhaps none, and may end with
/// a comma.
pub open spec fn enum_outcome(s: Seq<char>, pos: int) -> Option<Result<int, (int, int)>> {
    match keyword_end(s, preamble_end(s, pos), "enum"@) {
        None => None,
        Some(k) => match declared_name_at(s, k) {
            Err(t) => Some(Err((t, s.len() as int))),
            Ok((_, ne)) => match expect_end(s, ne, '{') {
                None => None,
                Some(p) => {
                    let rest = enum_body_end(s, p);
                    let q = match expect_end(s, rest, ',') {
                        Some(c) => c,
                        None => rest,
                    };
                    match expect_end(s, q, '}') {
                        Some(end) => Some(Ok(end)),
                        None => None,
                    }
                },
            },
        },
    }
}

/// What stands at `pos` when a declaration is expected: an interface, else
/// a parcelable, else an enum.
#[verifier::opaque]
pub open spec fn item_outcome(s: Seq<char>, pos: int) -> Option<Result<int, (int, int)>> {
    match interface_outcome(s, pos) {
        None => match parcelable_outcome(s, pos) {
            None => enum_outcome(s, pos),
            r => r,
        },
        r => r,
    }
}

/// The end of `keyword name;` at `pos` (after whitespace and comments),
/// with where the dotted name starts and ends.
pub open spec fn directive_at(s: Seq<char>, pos: int, w: Seq<char>) -> Option<(int, int, int)> {
    match keyword_end(s, trivia_end(s, pos), w) {
        None => None,
        Some(k) => {
            let n = trivia_end(s, k);
            match dotted_end(s, n) {
                None => None,
                Some(e) => match expect_end(s, e, ';') {
                    None => None,
                    Some(end) => Some((n, e, end)),
                },
            }
        },
    }
}

/// The end of the forward declaration at `pos` (`interface Name;`,
/// `parcelable Name;` or `enum Name;`).
pub open spec fn forward_end(s: Seq<char>, pos: int) -> Option<int> {
    let j = trivia_end(s, pos);
    let k = match keyword_end(s, j, "interface"@) {
        Some(k) => Some(k),
        None => match keyword_end(s, j, "parcelable"@) {
            Some(k) => Some(k),
            None => keyword_end(s, j, "enum"@),
        },
    };
    match k {
        None => None,
        Some(k) => match ident_end(s, trivia_end(s, k)) {
            None => None,
            Some(e) => expect_end(s, e, ';'),
        },
    }
}

/// Where the imports and forward declarations from `p` on stop.
pub open spec fn header_end(s: Seq<char>, p: int) -> int
    decreases s.len() - p,
{
    match directive_at(s, p, "import"@) {
        Some((_, _, e)) => if p < e <= s.len() {
            header_end(s, e)
        } else {
            p
        },
        None => match forward_end(s, p) {
            Some(e) => if p < e <= s.len() {
                header_end(s, e)
            } else {
                p
            },
            None => p,
        },
    }
}

/// Where the imports from `p` on are written, forward declarations skipped.
pub open spec fn header_imports(s: Seq<char>, p: int) -> Seq<int>
    decreases s.len() - p,
{
    match directive_at(s, p, "import"@) {
        Some((_, _, e)) => if p < e <= s.len() {
            seq![p] + header_imports(s, e)
        } else {
            seq![]
        },
        None => match forward_end(s, p) {
            Some(e) => if p < e <= s.len() {
                header_imports(s, e)
            } else {
                seq![]
            },
            None => seq![],
        },
    }
}

/// `n` is the name of the import directive at `p`.
pub open spec fn import_name_at(s: Seq<char>, p: int, n: Seq<char>) -> bool {
    directive_at(s, p, "import"@) matches Some((n0, n1, _)) && n == s.subrange(n0, n1)
}

/// Where the declarations from `p` on stop, or the syntax error among them.
pub open spec fn items_end(s: Seq<char>, p: int) -> Result<int, (int, int)>
    decreases s.len() - p,
{
    match item_outcome(s, p) {
        Some(Ok(e)) => if p < e <= s.len() {
            items_end(s, e)
        } else {
            Ok(p)
        },
        Some(Err(x)) => Err(x),
        None => Ok(p),
    }
}

/// Whether the text is a file, or the span of its syntax error: `package`,
/// then imports and forward declarations, then declarations, then nothing
/// but whitespace and comments.
pub open spec fn file_outcome(s: Seq<char>) -> Result<(), (int, int)> {
    match directive_at(s, 0, "package"@) {
        None => Err((trivia_end(s, 0), s.len() as int)),
        Some((_, _, p)) => match items_end(s, header_end(s, p)) {
            Err(x) => Err(x),
            Ok(q) => if trivia_end(s, q) < s.len() {
                Err((trivia_end(s, q), s.len() as int))
            } else {
                Ok(())
            },
        },
    }
}

/// The name of the declaration introduced by keyword `w` at `pos`, if it
/// has one.
pub open spec fn declared_name_of(s: Seq<char>, pos: int, w: Seq<char>) -> Option<Seq<char>> {
    match keyword_end(s, preamble_end(s, pos), w) {
        Some(k) => match declared_name_at(s, k) {
            Ok((n0, n1)) => Some(s.subrange(n0, n1)),
            Err(_) => None,
        },
        None => None,
    }
}

/// Where the consts of an interface body starting at `p` are written, in order.
pub open spec fn body_consts(s: Seq<char>, p: int) -> Seq<int>
    decreases s.len() - p,
{
    match element_end(s, p) {
        Some(e) => if p < e <= s.len() {
            (if const_parts(s, p) is Some {
                seq![p]
            } else {
                seq![]
            }) + body_consts(s, e)
        } else {
            seq![]
        },
        None => seq![],
    }
}

/// Where the methods of an interface body starting at `p` are written, in order.
pub open spec fn body_methods(s: Seq<char>, p: int) -> Seq<int>
    decreases s.len() - p,
{
    match element_end(s, p) {
        Some(e) => if p < e <= s.len() {
            (if const_parts(s, p) is Some {
                seq![]
            } else {
                seq![p]
            }) + body_methods(s, e)
        } else {
            seq![]
        },
        None => seq![],
    }
}

/// Where the members of a parcelable body starting at `p` are written.
pub open spec fn body_members(s: Seq<char>, p: int) -> Seq<int>
    decreases s.len() - p,
{
    match member_parts(s, p) {
        Some(x) => if p < x.3 <= s.len() {
            seq![p] + body_members(s, x.3)
        } else {
            seq![]
        },
        None => seq![],
    }
}

/// The consts and methods of interface `it` are those written in its body
/// from `first` on, in order.
pub open spec fn interface_body_spec(s: Seq<char>, first: int, it: Item) -> bool {
    match it {
        Item::Interface { consts, methods, .. } => body_lists_spec(s, first, consts@, methods@),
        _ => false,
    }
}

/// `consts` and `methods` are those written in an interface body from
/// `first` on, in order.
pub open spec fn body_lists_spec(s: Seq<char>, first: int, consts: Seq<Const>, methods: Seq<Method>) -> bool {
    &&& consts.len() == body_consts(s, first).len()
    &&& forall|k: int| 0 <= k < consts.len() ==> const_spec(s, body_consts(s, first)[k], #[trigger] consts[k])
    &&& methods.len() == body_methods(s, first).len()
    &&& forall|k: int| 0 <= k < methods.len() ==> method_spec(s, body_methods(s, first)[k], #[trigger] methods[k])
}

/// The members of parcelable `it` are those written in its body from
/// `first` on, in order.
pub open spec fn parcelable_body_spec(s: Seq<char>, first: int, it: Item) -> bool {
    match it {
        Item::Parcelable { members, .. } => {
            &&& members@.len() == body_members(s, first).len()
            &&& forall|k: int|
                0 <= k < members@.len() ==> member_spec(s, body_members(s, first)[k], #[trigger] members@[k])
        },
        _ => false,
    }
}

/// `el` is the enum element written at `pos`: its name, its value's text
/// (empty without a valid `= value`), and the documentation before it.
#[verifier::opaque]
pub open spec fn enum_element_spec(s: Seq<char>, pos: int, el: EnumElement) -> bool {
    let start = trivia_end(s, pos);
    match ident_end(s, start) {
        None => false,
        Some(ie) => {
            &&& el.name@ == s.subrange(start, ie)
            &&& el.docu@ == crate::lexer::doc_before(s, pos)
            &&& match expect_end(s, ie, '=') {
                Some(v) => match enum_value_at(s, trivia_end(s, v)) {
                    Some((v0, v1, _)) => el.value@ == s.subrange(v0, v1),
                    None => el.value@.len() == 0,
                },
                None => el.value@.len() == 0,
            }
        },
    }
}

/// Where the elements after the one ending at `end` are written.
pub open spec fn enum_positions(s: Seq<char>, end: int) -> Seq<int>
    decreases s.len() - end,
{
    match expect_end(s, end, ',') {
        Some(c) => match enum_element_end(s, c) {
            Some(e) => if end < e <= s.len() {
                seq![c] + enum_positions(s, e)
            } else {
                seq![]
            },
            None => seq![],
        },
        None => seq![],
    }
}

/// The elements of enum `it` are those written in its body from `first`
/// on, in order.
pub open spec fn enum_body_spec(s: Seq<char>, first: int, it: Item) -> bool {
    match it {
        Item::Enum { elements, .. } => {
            let at = enum_body_positions(s, first);
            &&& elements@.len() == at.len()
            &&& forall|k: int| 0 <= k < elements@.len() ==> enum_element_spec(s, at[k], #[trigger] elements@[k])
        },
        _ => false,
    }
}

/// `it` is the declaration written at `pos`: its kind, name, documentation
/// and body.
#[verifier::opaque]
pub open spec fn declaration_spec(s: Seq<char>, pos: int, it: Item) -> bool {
    let w = match it {
        Item::Interface { .. } => "interface"@,
        Item::Parcelable { .. } => "parcelable"@,
        Item::Enum { .. } => "enum"@,
    };
    &&& declared_name_of(s, pos, w) == Some(it.name()@)
    &&& it.docu()@ == crate::lexer::doc_before(s, pos)
    &&& annotations_spec(s, pos, it.annotations()@)
    &&& body_start(s, pos, w) matches Some(b) && match it {
        Item::Interface { .. } => interface_body_spec(s, b, it),
        Item::Parcelable { .. } => parcelable_body_spec(s, b, it),
        Item::Enum { .. } => enum_body_spec(s, b, it),
    }
}

/// The declarations of `f` are those written in the text, in order, and
/// its package is the one named by the `package` directive.
pub open spec fn file_items_spec(s: Seq<char>, f: File) -> bool {
    match directive_at(s, 0, "package"@) {
        Some((n0, n1, p)) => {
            let at = items_positions(s, header_end(s, p));
            &&& f.package@ == s.subrange(n0, n1)
            &&& f.imports@.len() == header_imports(s, p).len()
            &&& forall|k: int| 0 <= k < f.imports@.len() ==> import_name_at(s, header_imports(s, p)[k], #[trigger] f.imports@[k]@)
            &&& f.items@.len() == at.len()
            &&& forall|k: int| 0 <= k < f.items@.len() ==> declaration_spec(s, at[k], #[trigger] f.items@[k])
        },
        None => false,
    }
}

/// Where the declarations from `p` on are written, in order.
pub open spec fn items_positions(s: Seq<char>, p: int) -> Seq<int>
    decreases s.len() - p,
{
    match item_outcome(s, p) {
        Some(Ok(e)) => if p < e <= s.len() {
            seq![p] + items_positions(s, e)
        } else {
            seq![]
        },
        _ => seq![],
    }
}

/// The body of the declaration introduced by keyword `w` at `pos`: where
/// its first element would stand.
pub open spec fn body_start(s: Seq<char>, pos: int, w: Seq<char>) -> Option<int> {
    match keyword_end(s, preamble_end(s, pos), w) {
        Some(k) => match declared_name_at(s, k) {
            Ok((_, ne)) => expect_end(s, ne, '{'),
            Err(_) => None,
        },
        None => None,
    }
}

/// The end of the whitespace and comments from `pos` on.
fn skip(inp: &Input, pos: usize) -> (r: usize)
    requires
        inp.wf(),
        pos <= inp.len(),
    ensures
        r == trivia_end(inp.chars@, pos as int),
        pos <= r <= inp.len(),
{
    inp.skip_trivia(pos).0
}

/// `c` stands at `pos`.
fn is_char(inp: &Input, pos: usize, c: char) -> (r: bool)
    ensures
        r == (char_at(inp.chars@, pos as int) == Some(c)),
{
    inp.at(pos) == Some(c)
}

/// The end of the keyword `w` at `pos`: the word itself, not followed by a
/// character that would continue an identifier.
fn keyword(inp: &Input, pos: usize, w: &str) -> (r: Option<usize>)
    requires
        inp.wf(),
    ensures
        match r {
            Some(e) => keyword_end(inp.chars@, pos as int, w@) == Some(e as int),
            None => keyword_end(inp.chars@, pos as int, w@) is None,
        },
{
    if !inp.starts_with(pos, w) {
        return None;
    }
    let e = pos + w.unicode_len();
    match inp.at(e) {
        Some(c) => if is_ident_char_char(c) {
            None
        } else {
            Some(e)
        },
        None => Some(e),
    }
}

/// The identifier at `pos`, with its end.
pub fn identifier(inp: &Input, pos: usize) -> (r: Option<(String, usize)>)
    requires
        inp.wf(),
    ensures
        match r {
            Some((n, e)) => ident_end(inp.chars@, pos as int) == Some(e as int) && pos < e <= inp.len()
                && n@ == inp.chars@.subrange(pos as int, e as int) && is_ident(n@),
            None => ident_end(inp.chars@, pos as int) is None,
        },
{
    proof {
        if ident_end(inp.chars@, pos as int) is Some {
            crate::lexer::lemma_ident_text(inp.chars@, pos as int);
        }
    }
    match inp.identifier_end(pos) {
        Some(e) => Some((inp.slice(pos, e), e)),
        None => None,
    }
}

/// The dotted name at `pos` (`x`, `x.y.z`).
fn dotted_name(inp: &Input, pos: usize) -> (r: Option<(String, usize)>)
    requires
        inp.wf(),
    ensures
        match r {
            Some((n, e)) => dotted_end(inp.chars@, pos as int) == Some(e as int) && pos < e <= inp.len()
                && n@ == inp.chars@.subrange(pos as int, e as int),
            None => dotted_end(inp.chars@, pos as int) is None,
        },
{
    let mut e = match inp.identifier_end(pos) {
        Some(e) => e,
        None => return None,
    };
    let ghost first = e;
    loop
        invariant
            inp.wf(),
            pos < e <= inp.len(),
            dotted_from(inp.chars@, first as int) == dotted_from(inp.chars@, e as int),
        ensures
            pos < e <= inp.len(),
            dotted_from(inp.chars@, first as int) == e,
        decreases inp.len() - e,
    {
        if !is_char(inp, e, '.') {
            break;
        }
        match inp.identifier_end(e + 1) {
            Some(e2) => {
                e = e2;
            },
            None => break,
        }
    }
    Some((inp.slice(pos, e), e))
}

/// An annotation at `pos`: `@Name` or `@Name(text)`; its text is what
/// follows `@`.
fn annotation(inp: &Input, pos: usize) -> (r: Option<(Annotation, usize)>)
    requires
        inp.wf(),
    ensures
        advances(r, pos, inp.len()),
        match r {
            Some((a, e)) => annotation_end(inp.chars@, pos as int) == Some(e as int) && a.0@
                == inp.chars@.subrange(pos + 1, e as int),
            None => annotation_end(inp.chars@, pos as int) is None,
        },
{
    if !is_char(inp, pos, '@') {
        return None;
    }
    let e = match inp.identifier_end(pos + 1) {
        Some(e) => e,
        None => return None,
    };
    let mut end = e;
    if is_char(inp, e, '(') {
        let mut j = e + 1;
        while j < inp.chars.len() && inp.chars[j] != ')'
            invariant
                inp.wf(),
                e < j <= inp.len(),
                find_char(inp.chars@, e + 1, ')') == find_char(inp.chars@, j as int, ')'),
            decreases inp.len() - j,
        {
            j += 1;
        }
        if j > e + 1 && is_char(inp, j, ')') {
            end = j + 1;
        }
    }
    Some((Annotation(inp.slice(pos + 1, end)), end))
}

/// Documentation and annotations before a declaration at `pos`: the
/// documentation of the last comment before the first annotation (or the
/// declaration), then any number of annotations, each followed by
/// whitespace and comments. Returns where the declaration proper starts.
fn preamble(inp: &Input, pos: usize) -> (r: (String, Vec<Annotation>, usize))
    requires
        inp.wf(),
        pos <= inp.len(),
    ensures
        r.0@ == crate::lexer::doc_before(inp.chars@, pos as int),
        pos <= r.2 <= inp.len(),
        r.2 == preamble_end(inp.chars@, pos as int),
        annotations_spec(inp.chars@, pos as int, r.1@),
{
    let (start, last) = inp.skip_trivia(pos);
    let docu = match last {
        Some(c) => inp.doc_of_comment(c),
        None => {
            proof {
                reveal_strlit("");
            }
            String::new()
        },
    };
    let mut annotations: Vec<Annotation> = Vec::new();
    let mut j = start;
    let ghost mut at: Seq<int> = Seq::empty();
    assert(annotation_positions(inp.chars@, start as int) =~= at + annotation_positions(inp.chars@, start as int));
    loop
        invariant
            inp.wf(),
            pos <= j <= inp.len(),
            preamble_end(inp.chars@, pos as int) == annotations_end(inp.chars@, j as int),
            annotation_positions(inp.chars@, start as int) == at + annotation_positions(inp.chars@, j as int),
            at.len() == annotations@.len(),
            forall|k: int|
                0 <= k < annotations@.len() ==> (#[trigger] annotations@[k]).0@ == inp.chars@.subrange(
                    at[k] + 1,
                    annotation_end(inp.chars@, at[k])->Some_0,
                ),
        ensures
            pos <= j <= inp.len(),
            preamble_end(inp.chars@, pos as int) == j,
            annotation_positions(inp.chars@, start as int) == at,
            at.len() == annotations@.len(),
            forall|k: int|
                0 <= k < annotations@.len() ==> (#[trigger] annotations@[k]).0@ == inp.chars@.subrange(
                    at[k] + 1,
                    annotation_end(inp.chars@, at[k])->Some_0,
                ),
        decreases inp.len() - j,
    {
        let ghost here = j as int;
        match annotation(inp, j) {
            Some((a, e)) => {
                annotations.push(a);
                j = skip(inp, e);
                proof {
                    at = at.push(here);
                    assert(annotation_positions(inp.chars@, start as int) =~= at + annotation_positions(inp.chars@, j as int));
                }
            },
            None => {
                assert(at + annotation_positions(inp.chars@, j as int) =~= at);
                break;
            },
        }
    }
    (docu, annotations, j)
}


/// `n` is a dotted name written somewhere in `s`.
pub open spec fn dotted_in(s: Seq<char>, n: Seq<char>) -> bool {
    exists|i: int, e: int| dotted_end(s, i) == Some(e) && n == s.subrange(i, e)
}

/// The end of the blanks (spaces and tabs) from `i` on.
pub open spec fn blanks_end(s: Seq<char>, i: int) -> int {
    crate::lexer::run_end(s, i, |c: char| c == ' ' || c == '\t')
}

/// The end of an array suffix (`[]`, perhaps after blanks) at `d`.
pub open spec fn array_suffix_end(s: Seq<char>, d: int) -> Option<int> {
    let b = blanks_end(s, d);
    if has_at(s, b, seq!['[', ']']) {
        Some(b + 2)
    } else {
        None
    }
}

/// The end of the type written at `pos`, if one is: a dotted name followed
/// by `<`, generic parameters separated by commas, and `>`; or a dotted
/// name followed by `[]`; or a plain dotted name. Whitespace and comments
/// may stand around `<`, `,` and `>`.
pub open spec fn type_end(s: Seq<char>, pos: int) -> Option<int>
    decreases s.len() - pos, 0int,
{
    match dotted_end(s, pos) {
        None => None,
        Some(d) => {
            let g = trivia_end(s, d);
            if char_at(s, g) == Some('<') {
                let p = trivia_end(s, g + 1);
                if pos < p <= s.len() {
                    params_end(s, p)
                } else {
                    None
                }
            } else {
                match array_suffix_end(s, d) {
                    Some(b) => Some(b),
                    None => Some(d),
                }
            }
        },
    }
}

/// The end of a generic parameter list whose first parameter is written at
/// `p`: just after its closing `>`.
pub open spec fn params_end(s: Seq<char>, p: int) -> Option<int>
    decreases s.len() - p, 1int,
{
    if p < 0 || p > s.len() {
        None
    } else {
        match type_end(s, p) {
            None => None,
            Some(e0) => {
                let k = trivia_end(s, e0);
                if char_at(s, k) == Some('>') {
                    Some(k + 1)
                } else if char_at(s, k) == Some(',') {
                    let q = trivia_end(s, k + 1);
                    if p < q <= s.len() {
                        params_end(s, q)
                    } else {
                        None
                    }
                } else {
                    None
                }
            },
        }
    }
}

/// `t` is the type written at `pos`: a generic type's name and parameters,
/// `Array` of the name before `[]`, or a plain name without parameters.
pub open spec fn type_spec(s: Seq<char>, pos: int, t: Type) -> bool
    decreases t, 0int,
{
    match dotted_end(s, pos) {
        None => false,
        Some(d) => {
            let g = trivia_end(s, d);
            if char_at(s, g) == Some('<') {
                &&& t.name@ == s.subrange(pos, d)
                &&& t.generic_types@.len() > 0
                &&& params_spec(s, trivia_end(s, g + 1), t.generic_types@, 0)
            } else if array_suffix_end(s, d) is Some {
                &&& t.name@ == "Array"@
                &&& t.generic_types@.len() == 1
                &&& t.generic_types@[0].name@ == s.subrange(pos, d)
                &&& t.generic_types@[0].generic_types@.len() == 0
            } else {
                &&& t.name@ == s.subrange(pos, d)
                &&& t.generic_types@.len() == 0
            }
        },
    }
}

/// The generic parameters `ts[i..]` are the types written from `p` on,
/// separated by commas, the last one followed by `>`.
pub open spec fn params_spec(s: Seq<char>, p: int, ts: Seq<Type>, i: int) -> bool
    decreases ts, ts.len() - i,
{
    if i < 0 || i >= ts.len() {
        false
    } else {
        &&& type_spec(s, p, ts[i])
        &&& match type_end(s, p) {
            Some(e0) => if i == ts.len() - 1 {
                char_at(s, trivia_end(s, e0)) == Some('>')
            } else {
                char_at(s, trivia_end(s, e0)) == Some(',') && params_spec(
                    s,
                    trivia_end(s, trivia_end(s, e0) + 1),
                    ts,
                    i + 1,
                )
            },
            None => false,
        }
    }
}

/// `t` is the type written from `start` to `end`.
#[verifier::opaque]
pub open spec fn parsed_type(s: Seq<char>, start: int, t: Type, end: int) -> bool {
    type_spec(s, start, t) && type_end(s, start) == Some(end)
}

/// Generic parameters parsed one after another, each from its start to its
/// end, the last followed by `>`, the others by commas.
proof fn lemma_params(s: Seq<char>, ts: Seq<Type>, starts: Seq<int>, ends: Seq<int>, i: int)
    requires
        0 <= i < ts.len(),
        starts.len() == ts.len(),
        ends.len() == ts.len(),
        forall|k: int| 0 <= k < ts.len() ==> parsed_type(s, starts[k], ts[k], #[trigger] ends[k]),
        forall|k: int|
            0 <= k < ts.len() - 1 ==> char_at(s, trivia_end(s, #[trigger] ends[k])) == Some(',') && starts[k + 1]
                == trivia_end(s, trivia_end(s, ends[k]) + 1),
        char_at(s, trivia_end(s, ends[ts.len() - 1])) == Some('>'),
    ensures
        params_spec(s, starts[i], ts, i),
    decreases ts.len() - i,
{
    assert(parsed_type(s, starts[i], ts[i], ends[i]));
    reveal(parsed_type);
    if i < ts.len() - 1 {
        lemma_params(s, ts, starts, ends, i + 1);
    }
}

/// One step of a generic parameter list: the parameter at `j` ends at `ge`,
/// and what follows it decides the list's end.
proof fn lemma_params_end_step(s: Seq<char>, j: int, ge: Option<int>)
    requires
        0 <= j <= s.len(),
        type_end(s, j) == ge,
    ensures
        ge is None ==> params_end(s, j) is None,
        ge matches Some(e0) ==> {
            let k = trivia_end(s, e0);
            &&& char_at(s, k) == Some('>') ==> params_end(s, j) == Some(k + 1)
            &&& (char_at(s, k) == Some(',') && j < trivia_end(s, k + 1) <= s.len()) ==> params_end(s, j)
                == params_end(s, trivia_end(s, k + 1))
            &&& (char_at(s, k) != Some('>') && char_at(s, k) != Some(',')) ==> params_end(s, j) is None
        },
{
}

/// What `type_end` says of the text at `pos`.
proof fn lemma_type_end_unfold(s: Seq<char>, pos: int)
    ensures
        type_end(s, pos) == match dotted_end(s, pos) {
            None => None,
            Some(d) => {
                let g = trivia_end(s, d);
                if char_at(s, g) == Some('<') {
                    let p = trivia_end(s, g + 1);
                    if pos < p <= s.len() {
                        params_end(s, p)
                    } else {
                        None
                    }
                } else {
                    match array_suffix_end(s, d) {
                        Some(b) => Some(b),
                        None => Some(d),
                    }
                }
            },
        },
{
}

/// What `type_spec` says of `t` and the text at `pos`.
proof fn lemma_type_unfold(s: Seq<char>, pos: int, t: Type)
    ensures
        type_end(s, pos) == match dotted_end(s, pos) {
            None => None,
            Some(d) => {
                let g = trivia_end(s, d);
                if char_at(s, g) == Some('<') {
                    let p = trivia_end(s, g + 1);
                    if pos < p <= s.len() {
                        params_end(s, p)
                    } else {
                        None
                    }
                } else {
                    match array_suffix_end(s, d) {
                        Some(b) => Some(b),
                        None => Some(d),
                    }
                }
            },
        },
        type_spec(s, pos, t) == match dotted_end(s, pos) {
            None => false,
            Some(d) => {
                let g = trivia_end(s, d);
                if char_at(s, g) == Some('<') {
                    &&& t.name@ == s.subrange(pos, d)
                    &&& t.generic_types@.len() > 0
                    &&& params_spec(s, trivia_end(s, g + 1), t.generic_types@, 0)
                } else if array_suffix_end(s, d) is Some {
                    &&& t.name@ == "Array"@
                    &&& t.generic_types@.len() == 1
                    &&& t.generic_types@[0].name@ == s.subrange(pos, d)
                    &&& t.generic_types@[0].generic_types@.len() == 0
                } else {
                    &&& t.name@ == s.subrange(pos, d)
                    &&& t.generic_types@.len() == 0
                }
            },
        },
{
}

/// The end of the blanks (spaces and tabs) from `pos` on.
fn skip_blanks(inp: &Input, pos: usize) -> (r: usize)
    requires
        inp.wf(),
        pos <= inp.len(),
    ensures
        pos <= r <= inp.len(),
        r == blanks_end(inp.chars@, pos as int),
{
    let mut j = pos;
    while j < inp.chars.len() && (inp.chars[j] == ' ' || inp.chars[j] == '\t')
        invariant
            inp.wf(),
            pos <= j <= inp.len(),
            blanks_end(inp.chars@, pos as int) == blanks_end(inp.chars@, j as int),
        decreases inp.len() - j,
    {
        j += 1;
    }
    j
}

/// A type at `pos`: `Name<T1, T2, ...>` (each parameter a type), `Name []`
/// (read as `Array<Name>`), or a plain dotted name.
pub fn type_at(inp: &Input, pos: usize) -> (r: Option<(Type, usize)>)
    requires
        inp.wf(),
    ensures
        match r {
            Some((t, e)) => type_end(inp.chars@, pos as int) == Some(e as int) && type_spec(inp.chars@, pos as int, t)
                && pos < e <= inp.len(),
            None => type_end(inp.chars@, pos as int) is None,
        },
    decreases inp.len() - pos,
{
    let (name, e) = match dotted_name(inp, pos) {
        Some(p) => p,
        None => return None,
    };
    let t = skip(inp, e);
    if is_char(inp, t, '<') {
        let mut generic_types: Vec<Type> = Vec::new();
        let ghost mut starts: Seq<int> = Seq::empty();
        let ghost mut ends: Seq<int> = Seq::empty();
        let first = skip(inp, t + 1);
        let mut j = first;
        loop
            invariant
                inp.wf(),
                pos < first <= j <= inp.len(),
                dotted_end(inp.chars@, pos as int) == Some(e as int),
                name@ == inp.chars@.subrange(pos as int, e as int),
                t == trivia_end(inp.chars@, e as int),
                first == trivia_end(inp.chars@, t + 1),
                char_at(inp.chars@, t as int) == Some('<'),
                params_end(inp.chars@, first as int) == params_end(inp.chars@, j as int),
                starts.len() == generic_types@.len(),
                ends.len() == generic_types@.len(),
                generic_types@.len() == 0 ==> j == first,
                generic_types@.len() > 0 ==> starts[0] == first,
                forall|k: int|
                    0 <= k < generic_types@.len() ==> parsed_type(inp.chars@, starts[k], generic_types@[k], #[trigger] ends[k]),
                forall|k: int|
                    0 <= k < generic_types@.len() - 1 ==> char_at(inp.chars@, trivia_end(inp.chars@, #[trigger] ends[k]))
                        == Some(',') && starts[k + 1] == trivia_end(inp.chars@, trivia_end(inp.chars@, ends[k]) + 1),
                generic_types@.len() > 0 ==> char_at(
                    inp.chars@,
                    trivia_end(inp.chars@, ends[generic_types@.len() - 1]),
                ) == Some(',') && j == trivia_end(inp.chars@, trivia_end(inp.chars@, ends[generic_types@.len() - 1]) + 1),
            decreases inp.len() - j,
        {
            let parsed = type_at(inp, j);
            proof {
                lemma_params_end_step(inp.chars@, j as int, match parsed {
                    Some((_, ge)) => Some(ge as int),
                    None => None,
                });
                lemma_type_end_unfold(inp.chars@, pos as int);
            }
            let (g, ge) = match parsed {
                Some(p) => p,
                None => return None,
            };
            let ghost before = generic_types@;
            generic_types.push(g);
            proof {
                starts = starts.push(j as int);
                ends = ends.push(ge as int);
                reveal(parsed_type);
                assert(parsed_type(inp.chars@, j as int, g, ge as int));
                assert forall|k: int| 0 <= k < generic_types@.len() implies parsed_type(
                    inp.chars@,
                    starts[k],
                    generic_types@[k],
                    #[trigger] ends[k],
                ) by {
                    if k < before.len() {
                        assert(generic_types@[k] == before[k]);
                    }
                }
            }
            let k = skip(inp, ge);
            if is_char(inp, k, ',') {
                j = skip(inp, k + 1);
            } else if is_char(inp, k, '>') {
                let r = Type { name, generic_types };
                proof {
                    lemma_params(inp.chars@, generic_types@, starts, ends, 0);
                    lemma_type_unfold(inp.chars@, pos as int, r);
                }
                return Some((r, k + 1));
            } else {
                return None;
            }
        }
    }
    let b = skip_blanks(inp, e);
    let array = inp.starts_with(b, "[]");
    proof {
        reveal_strlit("[]");
        assert("[]"@ =~= seq!['[', ']']);
    }
    if array {
        let end = b + 2;
        let element = Type { name, generic_types: Vec::new() };
        let r = Type::new("Array", vec![element]);
        proof {
            reveal_strlit("Array");
            lemma_type_unfold(inp.chars@, pos as int, r);
        }
        return Some((r, end));
    }
    let r = Type { name, generic_types: Vec::new() };
    proof {
        lemma_type_unfold(inp.chars@, pos as int, r);
    }
    Some((r, e))
}

/// `in`, `out` or `inout`.
fn direction(inp: &Input, pos: usize) -> (r: Option<(Direction, usize)>)
    requires
        inp.wf(),
    ensures
        advances(r, pos, inp.len()),
        match r {
            Some((d, e)) => direction_at(inp.chars@, pos as int) == Some((d, e as int)),
            None => direction_at(inp.chars@, pos as int) is None,
        },
{
    proof {
        reveal_strlit("inout");
        reveal_strlit("in");
        reveal_strlit("out");
    }
    if let Some(e) = keyword(inp, pos, "inout") {
        return Some((Direction::InOut, e));
    }
    if let Some(e) = keyword(inp, pos, "in") {
        return Some((Direction::In, e));
    }
    if let Some(e) = keyword(inp, pos, "out") {
        return Some((Direction::Out, e));
    }
    None
}

/// A method argument at `pos`: annotations, an optional direction, a type,
/// and an optional name set apart from the type.
fn arg(inp: &Input, pos: usize) -> (r: Option<(Arg, usize)>)
    requires
        inp.wf(),
        pos <= inp.len(),
    ensures
        advances(r, pos, inp.len()),
        r matches Some((a, _)) ==> a.name@.len() == 0 || is_ident(a.name@),
        match r {
            Some((a, e)) => arg_end(inp.chars@, pos as int) == Some(e as int) && arg_spec(inp.chars@, pos as int, a),
            None => arg_end(inp.chars@, pos as int) is None,
        },
{
    let (_docu, annotations, j) = preamble(inp, pos);
    let (dir, j) = match direction(inp, j) {
        Some((d, e)) => (d, skip(inp, e)),
        None => (Direction::Unspecified, j),
    };
    let (arg_type, e) = match type_at(inp, j) {
        Some(p) => p,
        None => return None,
    };
    let k = skip(inp, e);
    if k > e {
        if let Some((name, ne)) = identifier(inp, k) {
            return Some((Arg { direction: dir, name, arg_type, annotations }, ne));
        }
    }
    proof {
        reveal_strlit("");
    }
    Some((Arg { direction: dir, name: String::new(), arg_type, annotations }, e))
}

/// Method arguments at `pos`, separated by commas; possibly none.
fn args(inp: &Input, pos: usize) -> (r: (Vec<Arg>, usize))
    requires
        inp.wf(),
        pos <= inp.len(),
    ensures
        pos <= r.1 <= inp.len(),
        r.1 == args_end(inp.chars@, pos as int),
        r.0@.len() == args_positions(inp.chars@, pos as int).len(),
        forall|k: int|
            0 <= k < r.0@.len() ==> arg_spec(inp.chars@, args_positions(inp.chars@, pos as int)[k], #[trigger] r.0@[k]),
{
    let mut list: Vec<Arg> = Vec::new();
    let first = skip(inp, pos);
    let (a, e) = match arg(inp, first) {
        Some(p) => p,
        None => return (list, pos),
    };
    list.push(a);
    let mut end = e;
    let ghost mut at: Seq<int> = seq![first as int];
    assert(args_positions(inp.chars@, pos as int) =~= at + args_rest_positions(inp.chars@, end as int));
    loop
        invariant
            inp.wf(),
            pos <= end <= inp.len(),
            args_end(inp.chars@, pos as int) == args_rest(inp.chars@, end as int),
            args_positions(inp.chars@, pos as int) == at + args_rest_positions(inp.chars@, end as int),
            at.len() == list@.len(),
            forall|k: int| 0 <= k < list@.len() ==> arg_spec(inp.chars@, at[k], #[trigger] list@[k]),
        ensures
            pos <= end <= inp.len(),
            args_end(inp.chars@, pos as int) == end,
            args_positions(inp.chars@, pos as int) == at,
            at.len() == list@.len(),
            forall|k: int| 0 <= k < list@.len() ==> arg_spec(inp.chars@, at[k], #[trigger] list@[k]),
        decreases inp.len() - end,
    {
        let k = skip(inp, end);
        if !is_char(inp, k, ',') {
            assert(at + args_rest_positions(inp.chars@, end as int) =~= at);
            break;
        }
        let next = skip(inp, k + 1);
        let ghost prev = end as int;
        match arg(inp, next) {
            Some((a, e)) => {
                list.push(a);
                end = e;
                proof {
                    at = at.push(next as int);
                    assert(args_rest_positions(inp.chars@, prev) == seq![next as int] + args_rest_positions(inp.chars@, end as int));
                    assert(args_positions(inp.chars@, pos as int) =~= at + args_rest_positions(inp.chars@, end as int));
                }
            },
            None => {
                assert(at + args_rest_positions(inp.chars@, end as int) =~= at);
                break;
            },
        }
    }
    (list, end)
}

/// A literal value at `pos`: a number (`12`, `1.5`, `2.f`), a quoted
/// string (its text without the quotes), or `{}`.
fn const_value(inp: &Input, pos: usize) -> (r: Option<(String, usize)>)
    requires
        inp.wf(),
    ensures
        advances(r, pos, inp.len()),
        match r {
            Some((v, e)) => const_value_at(inp.chars@, pos as int) matches Some((v0, v1, e1)) && e1 == e
                && v@ == inp.chars@.subrange(v0, v1),
            None => const_value_at(inp.chars@, pos as int) is None,
        },
{
    let len = inp.chars.len();
    if pos < len && is_digit_char(inp.chars[pos]) {
        let mut j = pos + 1;
        while j < len && is_digit_char(inp.chars[j])
            invariant
                len == inp.chars@.len(),
                pos < j <= len,
                digits_end(inp.chars@, pos + 1) == digits_end(inp.chars@, j as int),
            decreases len - j,
        {
            j += 1;
        }
        let ghost a = j as int;
        if is_char(inp, j, '.') {
            j += 1;
            while j < len && is_digit_char(inp.chars[j])
                invariant
                    len == inp.chars@.len(),
                    pos < a < j <= len,
                    digits_end(inp.chars@, a + 1) == digits_end(inp.chars@, j as int),
                decreases len - j,
            {
                j += 1;
            }
        }
        if is_char(inp, j, 'f') {
            j += 1;
        }
        return Some((inp.slice(pos, j), j));
    }
    if is_char(inp, pos, '"') {
        let mut j = pos + 1;
        while j < len && inp.chars[j] != '"'
            invariant
                len == inp.chars@.len(),
                pos < j <= len,
                find_char(inp.chars@, pos + 1, '"') == find_char(inp.chars@, j as int, '"'),
            decreases len - j,
        {
            j += 1;
        }
        if j < len {
            return Some((inp.slice(pos + 1, j), j + 1));
        }
        return None;
    }
    if inp.starts_with(pos, "{}") {
        proof {
            reveal_strlit("{}");
        }
        assert(has_at(inp.chars@, pos as int, "{}"@));
        return Some((inp.slice(pos, pos + 2), pos + 2));
    }
    None
}


/// The outcome of parsing a declaration: parsed up to a position, not
/// there (another form may be tried), or a syntax error over the text from
/// one position to another, which ends the parse.
pub enum Parsed<T> {
    Done(T, usize),
    Miss,
    Fail(usize, usize),
}

/// An interface holds no more consts and methods than `n`.
pub open spec fn elements_within(it: Item, n: int) -> bool {
    match it {
        Item::Interface { consts, methods, .. } => consts@.len() + methods@.len() <= n,
        _ => true,
    }
}

/// Positions in a parse outcome stay in the text, and success consumes.
pub open spec fn parsed_in<T>(r: Parsed<T>, pos: usize, len: int) -> bool {
    match r {
        Parsed::Done(_, e) => pos < e <= len,
        Parsed::Miss => true,
        Parsed::Fail(a, b) => a <= b <= len,
    }
}

/// The position after `c`, itself after whitespace and comments from `pos`.
fn expect(inp: &Input, pos: usize, c: char) -> (r: Option<usize>)
    requires
        inp.wf(),
        pos <= inp.len(),
    ensures
        r matches Some(e) ==> pos < e <= inp.len() && e - 1 == trivia_end(inp.chars@, pos as int)
            && inp.chars@[e - 1] == c,
        match r {
            Some(e) => expect_end(inp.chars@, pos as int, c) == Some(e as int),
            None => expect_end(inp.chars@, pos as int, c) is None,
        },
{
    let j = skip(inp, pos);
    if is_char(inp, j, c) {
        Some(j + 1)
    } else {
        None
    }
}

/// `const Type NAME = value;` at `pos`, with its documentation and annotations.
fn parse_const_at(inp: &Input, pos: usize) -> (r: Option<(Const, usize)>)
    requires
        inp.wf(),
        pos <= inp.len(),
    ensures
        advances(r, pos, inp.len()),
        r matches Some((c, e)) ==> c.docu@ == crate::lexer::doc_before(inp.chars@, pos as int) && is_ident(c.name@),
        match r {
            Some((c, e)) => const_parts(inp.chars@, pos as int) matches Some(p) && p.5 == e && const_spec(
                inp.chars@,
                pos as int,
                c,
            ),
            None => const_parts(inp.chars@, pos as int) is None,
        },
{
    let (docu, annotations, j) = preamble(inp, pos);
    proof {
        reveal_strlit("const");
    }
    let k = match keyword(inp, j, "const") {
        Some(k) => k,
        None => return None,
    };
    let (const_type, e) = match type_at(inp, skip(inp, k)) {
        Some(p) => p,
        None => return None,
    };
    let (name, e) = match identifier(inp, skip(inp, e)) {
        Some(p) => p,
        None => return None,
    };
    let e = match expect(inp, e, '=') {
        Some(e) => e,
        None => return None,
    };
    let (value, e) = match const_value(inp, skip(inp, e)) {
        Some(p) => p,
        None => return None,
    };
    let e = match expect(inp, e, ';') {
        Some(e) => e,
        None => return None,
    };
    Some((Const { name, const_type, value, docu, annotations }, e))
}

/// `Type name [= value];` at `pos`; the value is not kept.
fn parse_member_at(inp: &Input, pos: usize) -> (r: Option<(Member, usize)>)
    requires
        inp.wf(),
        pos <= inp.len(),
    ensures
        advances(r, pos, inp.len()),
        r matches Some((m, e)) ==> m.docu@ == crate::lexer::doc_before(inp.chars@, pos as int) && is_ident(m.name@),
        match r {
            Some((m, e)) => member_parts(inp.chars@, pos as int) matches Some(p) && p.3 == e && member_spec(
                inp.chars@,
                pos as int,
                m,
            ),
            None => member_parts(inp.chars@, pos as int) is None,
        },
{
    let (docu, annotations, j) = preamble(inp, pos);
    let (member_type, e) = match type_at(inp, j) {
        Some(p) => p,
        None => return None,
    };
    let k = skip(inp, e);
    if k == e {
        return None;
    }
    let (name, e) = match identifier(inp, k) {
        Some(p) => p,
        None => return None,
    };
    let mut e = e;
    if let Some(v) = expect(inp, e, '=') {
        match const_value(inp, skip(inp, v)) {
            Some((_, ve)) => {
                e = ve;
            },
            None => return None,
        }
    }
    let e = match expect(inp, e, ';') {
        Some(e) => e,
        None => return None,
    };
    Some((Member { name, member_type, docu, annotations }, e))
}

/// `[oneway] ReturnType name(args) [= id];` at `pos`.
fn parse_method_at(inp: &Input, pos: usize) -> (r: Option<(Method, usize)>)
    requires
        inp.wf(),
        pos <= inp.len(),
    ensures
        advances(r, pos, inp.len()),
        r matches Some((m, e)) ==> m.docu@ == crate::lexer::doc_before(inp.chars@, pos as int) && is_ident(m.name@),
        match r {
            Some((m, e)) => method_parts(inp.chars@, pos as int) matches Some(p) && p.5 == e && method_spec(
                inp.chars@,
                pos as int,
                m,
            ),
            None => method_parts(inp.chars@, pos as int) is None,
        },
{
    let (docu, annotations, j) = preamble(inp, pos);
    proof {
        reveal_strlit("oneway");
    }
    let (is_one_way, j) = match keyword(inp, j, "oneway") {
        Some(k) => (true, skip(inp, k)),
        None => (false, j),
    };
    let (return_type, e) = match type_at(inp, j) {
        Some(p) => p,
        None => return None,
    };
    let k = skip(inp, e);
    if k == e {
        return None;
    }
    let (name, e) = match identifier(inp, k) {
        Some(p) => p,
        None => return None,
    };
    let e = match expect(inp, e, '(') {
        Some(e) => e,
        None => return None,
    };
    let (method_args, e) = args(inp, e);
    let e = match expect(inp, e, ')') {
        Some(e) => e,
        None => return None,
    };
    let e = method_id(inp, e);
    let e = match expect(inp, e, ';') {
        Some(e) => e,
        None => return None,
    };
    Some((Method { is_one_way, name, return_type, args: method_args, docu, annotations }, e))
}

/// The end of an optional `= id` after a method's parameters ending at `e`.
fn method_id(inp: &Input, e: usize) -> (r: usize)
    requires
        inp.wf(),
        e <= inp.len(),
    ensures
        r == method_id_end(inp.chars@, e as int),
        e <= r <= inp.len(),
{
    if let Some(v) = expect(inp, e, '=') {
        let d = skip(inp, v);
        let len = inp.chars.len();
        if d < len && is_digit_char(inp.chars[d]) {
            let mut j = d + 1;
            while j < len && is_digit_char(inp.chars[j])
                invariant
                    len == inp.chars@.len(),
                    e < d < j <= len,
                    digits_end(inp.chars@, d + 1) == digits_end(inp.chars@, j as int),
                decreases len - j,
            {
                j += 1;
            }
            return j;
        }
    }
    e
}

/// The end of the offending text at `pos`: up to the next `;` or `}`.
fn fragment_end(inp: &Input, pos: usize) -> (r: usize)
    requires
        inp.wf(),
        pos <= inp.len(),
    ensures
        pos <= r <= inp.len(),
        r == stop_at(inp.chars@, pos as int),
{
    let mut j = pos;
    while j < inp.chars.len() && inp.chars[j] != ';' && inp.chars[j] != '}'
        invariant
            inp.wf(),
            pos <= j <= inp.len(),
            stop_at(inp.chars@, pos as int) == stop_at(inp.chars@, j as int),
        decreases inp.len() - j,
    {
        j += 1;
    }
    j
}

/// A const or a method at `pos`. Anything else but the end of the body is
/// a syntax error over the text up to the next `;` or `}`.
fn interface_element_at(inp: &Input, pos: usize) -> (r: Parsed<InterfaceElement>)
    requires
        inp.wf(),
        pos <= inp.len(),
    ensures
        parsed_in(r, pos, inp.len()),
        match r {
            Parsed::Done(InterfaceElement::Const(c), e) => element_end(inp.chars@, pos as int) == Some(e as int)
                && const_spec(inp.chars@, pos as int, c),
            Parsed::Done(InterfaceElement::Method(m), e) => element_end(inp.chars@, pos as int) == Some(e as int)
                && const_parts(inp.chars@, pos as int) is None && method_spec(inp.chars@, pos as int, m),
            Parsed::Miss => element_end(inp.chars@, pos as int) is None && element_error(inp.chars@, pos as int) is None,
            Parsed::Fail(a, b) => element_error(inp.chars@, pos as int) == Some((a as int, b as int)),
        },
{
    if let Some((c, e)) = parse_const_at(inp, pos) {
        return Parsed::Done(InterfaceElement::Const(c), e);
    }
    if let Some((m, e)) = parse_method_at(inp, pos) {
        return Parsed::Done(InterfaceElement::Method(m), e);
    }
    let j = skip(inp, pos);
    let end = fragment_end(inp, j);
    if end == j {
        Parsed::Miss
    } else {
        Parsed::Fail(j, end)
    }
}

/// The name after a declaration keyword ending at `k`; a missing name is a
/// syntax error from there to the end of the text.
fn declared_name(inp: &Input, k: usize) -> (r: Result<(String, usize), usize>)
    requires
        inp.wf(),
        k <= inp.len(),
    ensures
        r matches Ok((n, e)) ==> k < e <= inp.len() && is_ident(n@),
        r matches Err(a) ==> k <= a <= inp.len(),
        match r {
            Ok((n, e)) => declared_name_at(inp.chars@, k as int) matches Ok((n0, n1)) && n1 == e && n@
                == inp.chars@.subrange(n0, n1),
            Err(a) => declared_name_at(inp.chars@, k as int) == Err::<(int, int), int>(a as int),
        },
{
    let t = skip(inp, k);
    match identifier(inp, t) {
        Some(p) => Ok(p),
        None => Err(t),
    }
}

/// A const stands at `at`: it heads the body's consts from there.
proof fn lemma_body_const_step(s: Seq<char>, at: int, e: int)
    requires
        element_end(s, at) == Some(e),
        at < e <= s.len(),
        const_parts(s, at) is Some,
    ensures
        body_consts(s, at) == seq![at] + body_consts(s, e),
        body_methods(s, at) == body_methods(s, e),
        body_end(s, at) == body_end(s, e),
{
    assert(body_methods(s, at) =~= Seq::<int>::empty() + body_methods(s, e));
}

/// A method stands at `at`: it heads the body's methods from there.
proof fn lemma_body_method_step(s: Seq<char>, at: int, e: int)
    requires
        element_end(s, at) == Some(e),
        at < e <= s.len(),
        const_parts(s, at) is None,
    ensures
        body_methods(s, at) == seq![at] + body_methods(s, e),
        body_consts(s, at) == body_consts(s, e),
        body_end(s, at) == body_end(s, e),
{
    assert(body_consts(s, at) =~= Seq::<int>::empty() + body_consts(s, e));
}

/// The consts and methods of an interface body starting at `first`, and
/// where they stop; or the syntax error among them.
fn interface_body(inp: &Input, first: usize) -> (r: Result<(Vec<Const>, Vec<Method>, usize), (usize, usize)>)
    requires
        inp.wf(),
        first <= inp.len(),
    ensures
        match r {
            Ok((consts, methods, p)) => {
                &&& first <= p <= inp.len()
                &&& consts@.len() + methods@.len() <= p
                &&& body_end(inp.chars@, first as int) == Ok::<int, (int, int)>(p as int)
                &&& body_lists_spec(inp.chars@, first as int, consts@, methods@)
            },
            Err((a, b)) => a <= b <= inp.len() && body_end(inp.chars@, first as int) == Err::<int, (int, int)>(
                (a as int, b as int),
            ),
        },
{
    let mut consts: Vec<Const> = Vec::new();
    let mut methods: Vec<Method> = Vec::new();
    let mut p = first;
    let ghost mut cpos: Seq<int> = Seq::empty();
    let ghost mut mpos: Seq<int> = Seq::empty();
    assert(body_consts(inp.chars@, first as int) =~= cpos + body_consts(inp.chars@, first as int));
    assert(body_methods(inp.chars@, first as int) =~= mpos + body_methods(inp.chars@, first as int));
    loop
        invariant
            inp.wf(),
            first <= p <= inp.len(),
            body_end(inp.chars@, first as int) == body_end(inp.chars@, p as int),
            consts@.len() + methods@.len() <= p - first,
            body_consts(inp.chars@, first as int) == cpos + body_consts(inp.chars@, p as int),
            body_methods(inp.chars@, first as int) == mpos + body_methods(inp.chars@, p as int),
            cpos.len() == consts@.len(),
            mpos.len() == methods@.len(),
            forall|k: int| 0 <= k < consts@.len() ==> const_spec(inp.chars@, cpos[k], #[trigger] consts@[k]),
            forall|k: int| 0 <= k < methods@.len() ==> method_spec(inp.chars@, mpos[k], #[trigger] methods@[k]),
        decreases inp.len() - p,
    {
        let ghost at = p as int;
        match interface_element_at(inp, p) {
            Parsed::Done(InterfaceElement::Const(c), e) => {
                consts.push(c);
                p = e;
                proof {
                    lemma_body_const_step(inp.chars@, at, p as int);
                    cpos = cpos.push(at);
                    assert(body_consts(inp.chars@, first as int) =~= cpos + body_consts(inp.chars@, p as int));
                }
            },
            Parsed::Done(InterfaceElement::Method(m), e) => {
                methods.push(m);
                p = e;
                proof {
                    lemma_body_method_step(inp.chars@, at, p as int);
                    mpos = mpos.push(at);
                    assert(body_methods(inp.chars@, first as int) =~= mpos + body_methods(inp.chars@, p as int));
                }
            },
            Parsed::Miss => {
                proof {
                    assert(body_consts(inp.chars@, p as int) =~= Seq::<int>::empty());
                    assert(body_methods(inp.chars@, p as int) =~= Seq::<int>::empty());
                    assert(cpos + body_consts(inp.chars@, p as int) =~= cpos);
                    assert(mpos + body_methods(inp.chars@, p as int) =~= mpos);
                }
                return Ok((consts, methods, p));
            },
            Parsed::Fail(a, b) => return Err((a, b)),
        }
    }
}

/// `interface Name { (const | method)* }` at `pos`.
fn parse_interface_at(inp: &Input, pos: usize) -> (r: Parsed<Item>)
    requires
        inp.wf(),
        pos <= inp.len(),
    ensures
        parsed_in(r, pos, inp.len()),
        r matches Parsed::Done(it, _) ==> it is Interface && it.docu()@ == crate::lexer::doc_before(
            inp.chars@,
            pos as int,
        ) && is_ident(it.name()@),
        r matches Parsed::Done(it, _) ==> declared_name_of(inp.chars@, pos as int, "interface"@) == Some(it.name()@),
        r matches Parsed::Done(it, _) ==> annotations_spec(inp.chars@, pos as int, it.annotations()@),
        r matches Parsed::Done(it, e) ==> elements_within(it, e as int),
        r matches Parsed::Done(it, _) ==> body_start(inp.chars@, pos as int, "interface"@) matches Some(b)
            && interface_body_spec(inp.chars@, b, it),
        match r {
            Parsed::Done(_, e) => interface_outcome(inp.chars@, pos as int) == Some(Ok::<int, (int, int)>(e as int)),
            Parsed::Miss => interface_outcome(inp.chars@, pos as int) is None,
            Parsed::Fail(a, b) => interface_outcome(inp.chars@, pos as int) == Some(
                Err::<int, (int, int)>((a as int, b as int)),
            ),
        },
{
    let (docu, annotations, j) = preamble(inp, pos);
    proof {
        reveal_strlit("interface");
    }
    let k = match keyword(inp, j, "interface") {
        Some(k) => k,
        None => return Parsed::Miss,
    };
    let (name, e) = match declared_name(inp, k) {
        Ok(p) => p,
        Err(a) => return Parsed::Fail(a, inp.chars.len()),
    };
    let p = match expect(inp, e, '{') {
        Some(p) => p,
        None => return Parsed::Miss,
    };
    let (consts, methods, p) = match interface_body(inp, p) {
        Ok(x) => x,
        Err((a, b)) => return Parsed::Fail(a, b),
    };
    match expect(inp, p, '}') {
        Some(end) => Parsed::Done(Item::Interface { name, docu, consts, methods, annotations }, end),
        None => Parsed::Miss,
    }
}

/// `parcelable Name { member* }` at `pos`.
fn parse_parcelable_at(inp: &Input, pos: usize) -> (r: Parsed<Item>)
    requires
        inp.wf(),
        pos <= inp.len(),
    ensures
        parsed_in(r, pos, inp.len()),
        r matches Parsed::Done(it, _) ==> it is Parcelable && it.docu()@ == crate::lexer::doc_before(
            inp.chars@,
            pos as int,
        ) && is_ident(it.name()@),
        r matches Parsed::Done(it, _) ==> declared_name_of(inp.chars@, pos as int, "parcelable"@) == Some(it.name()@),
        r matches Parsed::Done(it, _) ==> annotations_spec(inp.chars@, pos as int, it.annotations()@),
        r matches Parsed::Done(it, _) ==> body_start(inp.chars@, pos as int, "parcelable"@) matches Some(b)
            && parcelable_body_spec(inp.chars@, b, it),
        match r {
            Parsed::Done(_, e) => parcelable_outcome(inp.chars@, pos as int) == Some(Ok::<int, (int, int)>(e as int)),
            Parsed::Miss => parcelable_outcome(inp.chars@, pos as int) is None,
            Parsed::Fail(a, b) => parcelable_outcome(inp.chars@, pos as int) == Some(Err::<int, (int, int)>((a as int, b as int))),
        },
{
    let (docu, annotations, j) = preamble(inp, pos);
    proof {
        reveal_strlit("parcelable");
    }
    let k = match keyword(inp, j, "parcelable") {
        Some(k) => k,
        None => return Parsed::Miss,
    };
    let (name, e) = match declared_name(inp, k) {
        Ok(p) => p,
        Err(a) => return Parsed::Fail(a, inp.chars.len()),
    };
    let mut p = match expect(inp, e, '{') {
        Some(p) => p,
        None => return Parsed::Miss,
    };
    let mut members: Vec<Member> = Vec::new();
    let ghost first = p as int;
    let ghost mut at_pos: Seq<int> = Seq::empty();
    assert(body_members(inp.chars@, first) =~= at_pos + body_members(inp.chars@, first));
    loop
        invariant
            inp.wf(),
            pos < p <= inp.len(),
            members_end(inp.chars@, first) == members_end(inp.chars@, p as int),
            body_members(inp.chars@, first) == at_pos + body_members(inp.chars@, p as int),
            at_pos.len() == members@.len(),
            forall|k: int| 0 <= k < members@.len() ==> member_spec(inp.chars@, at_pos[k], #[trigger] members@[k]),
        ensures
            pos < p <= inp.len(),
            members_end(inp.chars@, first) == p,
            body_members(inp.chars@, first) == at_pos,
            at_pos.len() == members@.len(),
            forall|k: int| 0 <= k < members@.len() ==> member_spec(inp.chars@, at_pos[k], #[trigger] members@[k]),
        decreases inp.len() - p,
    {
        let ghost at = p as int;
        match parse_member_at(inp, p) {
            Some((m, e)) => {
                members.push(m);
                p = e;
                proof {
                    at_pos = at_pos.push(at);
                    assert(body_members(inp.chars@, first) =~= at_pos + body_members(inp.chars@, p as int));
                }
            },
            None => break,
        }
    }
    match expect(inp, p, '}') {
        Some(end) => Parsed::Done(Item::Parcelable { name, docu, members, annotations }, end),
        None => Parsed::Miss,
    }
}

/// An enum value at `pos`: an optionally negative integer, or a quoted
/// string (its text without the quotes).
fn enum_value(inp: &Input, pos: usize) -> (r: Option<(String, usize)>)
    requires
        inp.wf(),
    ensures
        advances(r, pos, inp.len()),
        match r {
            Some((v, e)) => enum_value_at(inp.chars@, pos as int) matches Some((v0, v1, e1)) && e1 == e
                && v@ == inp.chars@.subrange(v0, v1),
            None => enum_value_at(inp.chars@, pos as int) is None,
        },
{
    let len = inp.chars.len();
    let d = if is_char(inp, pos, '-') {
        pos + 1
    } else {
        pos
    };
    if d < len && is_digit_char(inp.chars[d]) {
        let mut j = d + 1;
        while j < len && is_digit_char(inp.chars[j])
            invariant
                len == inp.chars@.len(),
                pos <= d < j <= len,
                digits_end(inp.chars@, d + 1) == digits_end(inp.chars@, j as int),
            decreases len - j,
        {
            j += 1;
        }
        return Some((inp.slice(pos, j), j));
    }
    if is_char(inp, pos, '"') {
        let mut j = pos + 1;
        while j < len && inp.chars[j] != '"'
            invariant
                len == inp.chars@.len(),
                pos < j <= len,
                find_char(inp.chars@, pos + 1, '"') == find_char(inp.chars@, j as int, '"'),
            decreases len - j,
        {
            j += 1;
        }
        if j < len {
            return Some((inp.slice(pos + 1, j), j + 1));
        }
    }
    None
}

/// `NAME [= value]` at `pos`, with its documentation.
fn enum_element_at(inp: &Input, pos: usize) -> (r: Option<(EnumElement, usize)>)
    requires
        inp.wf(),
        pos <= inp.len(),
    ensures
        advances(r, pos, inp.len()),
        r matches Some((el, e)) ==> el.docu@ == crate::lexer::doc_before(inp.chars@, pos as int) && is_ident(el.name@),
        match r {
            Some((el, e)) => enum_element_end(inp.chars@, pos as int) == Some(e as int) && enum_element_spec(
                inp.chars@,
                pos as int,
                el,
            ),
            None => enum_element_end(inp.chars@, pos as int) is None,
        },
{
    let (start, last) = inp.skip_trivia(pos);
    let docu = match last {
        Some(c) => inp.doc_of_comment(c),
        None => {
            proof {
                reveal_strlit("");
            }
            String::new()
        },
    };
    let (name, e) = match identifier(inp, start) {
        Some(p) => p,
        None => return None,
    };
    if let Some(v) = expect(inp, e, '=') {
        if let Some((value, ve)) = enum_value(inp, skip(inp, v)) {
            let el = EnumElement { name, value, docu };
            proof {
                reveal(enum_element_spec);
            }
            return Some((el, ve));
        }
    }
    proof {
        reveal_strlit("");
    }
    let el = EnumElement { name, value: String::new(), docu };
    proof {
        reveal(enum_element_spec);
    }
    Some((el, e))
}

/// The comma-separated elements of an enum body starting at `b`, perhaps
/// none, and where they stop.
fn enum_elements(inp: &Input, b: usize) -> (r: (Vec<EnumElement>, usize))
    requires
        inp.wf(),
        b <= inp.len(),
    ensures
        b <= r.1 <= inp.len(),
        r.1 == enum_body_end(inp.chars@, b as int),
        r.0@.len() == enum_body_positions(inp.chars@, b as int).len(),
        forall|k: int|
            0 <= k < r.0@.len() ==> enum_element_spec(inp.chars@, enum_body_positions(inp.chars@, b as int)[k], #[trigger] r.0@[k]),
{
    let mut elements: Vec<EnumElement> = Vec::new();
    let mut p = match enum_element_at(inp, b) {
        Some((el, e)) => {
            elements.push(el);
            e
        },
        None => return (elements, b),
    };
    let ghost first = p as int;
    let ghost mut at: Seq<int> = seq![b as int];
    assert(seq![b as int] + enum_positions(inp.chars@, first) =~= at + enum_positions(inp.chars@, first));
    loop
        invariant
            inp.wf(),
            b < p <= inp.len(),
            enum_rest(inp.chars@, first) == enum_rest(inp.chars@, p as int),
            seq![b as int] + enum_positions(inp.chars@, first) == at + enum_positions(inp.chars@, p as int),
            at.len() == elements@.len(),
            forall|k: int| 0 <= k < elements@.len() ==> enum_element_spec(inp.chars@, at[k], #[trigger] elements@[k]),
        ensures
            b < p <= inp.len(),
            enum_rest(inp.chars@, first) == p,
            seq![b as int] + enum_positions(inp.chars@, first) == at,
            at.len() == elements@.len(),
            forall|k: int| 0 <= k < elements@.len() ==> enum_element_spec(inp.chars@, at[k], #[trigger] elements@[k]),
        decreases inp.len() - p,
    {
        let c = match expect(inp, p, ',') {
            Some(c) => c,
            None => {
                assert(at + enum_positions(inp.chars@, p as int) =~= at);
                break;
            },
        };
        let ghost prev = p as int;
        match enum_element_at(inp, c) {
            Some((el, e)) => {
                elements.push(el);
                p = e;
                proof {
                    at = at.push(c as int);
                    assert(enum_positions(inp.chars@, prev) == seq![c as int] + enum_positions(inp.chars@, p as int));
                    assert(seq![b as int] + enum_positions(inp.chars@, first) =~= at + enum_positions(inp.chars@, p as int));
                }
            },
            None => {
                assert(at + enum_positions(inp.chars@, p as int) =~= at);
                break;
            },
        }
    }
    (elements, p)
}

/// `enum Name { [element (, element)* [,]] }` at `pos`; the body may be empty.
fn parse_enum_at(inp: &Input, pos: usize) -> (r: Parsed<Item>)
    requires
        inp.wf(),
        pos <= inp.len(),
    ensures
        parsed_in(r, pos, inp.len()),
        r matches Parsed::Done(it, _) ==> it is Enum && it.docu()@ == crate::lexer::doc_before(
            inp.chars@,
            pos as int,
        ) && is_ident(it.name()@),
        r matches Parsed::Done(it, _) ==> declared_name_of(inp.chars@, pos as int, "enum"@) == Some(it.name()@),
        r matches Parsed::Done(it, _) ==> annotations_spec(inp.chars@, pos as int, it.annotations()@),
        r matches Parsed::Done(it, _) ==> body_start(inp.chars@, pos as int, "enum"@) matches Some(b)
            && enum_body_spec(inp.chars@, b, it),
        match r {
            Parsed::Done(_, e) => enum_outcome(inp.chars@, pos as int) == Some(Ok::<int, (int, int)>(e as int)),
            Parsed::Miss => enum_outcome(inp.chars@, pos as int) is None,
            Parsed::Fail(a, b) => enum_outcome(inp.chars@, pos as int) == Some(Err::<int, (int, int)>((a as int, b as int))),
        },
{
    let (docu, annotations, j) = preamble(inp, pos);
    proof {
        reveal_strlit("enum");
    }
    let k = match keyword(inp, j, "enum") {
        Some(k) => k,
        None => return Parsed::Miss,
    };
    let (name, e) = match declared_name(inp, k) {
        Ok(p) => p,
        Err(a) => return Parsed::Fail(a, inp.chars.len()),
    };
    let p = match expect(inp, e, '{') {
        Some(p) => p,
        None => return Parsed::Miss,
    };
    let (elements, p) = enum_elements(inp, p);
    let q = match expect(inp, p, ',') {
        Some(c) => c,
        None => p,
    };
    match expect(inp, q, '}') {
        Some(end) => Parsed::Done(Item::Enum { name, docu, elements, annotations }, end),
        None => Parsed::Miss,
    }
}

/// An interface, a parcelable or an enum at `pos`.
fn item_at(inp: &Input, pos: usize) -> (r: Parsed<Item>)
    requires
        inp.wf(),
        pos <= inp.len(),
    ensures
        parsed_in(r, pos, inp.len()),
        r matches Parsed::Done(it, _) ==> is_ident(it.name()@),
        r matches Parsed::Done(it, e) ==> elements_within(it, e as int),
        r matches Parsed::Done(it, _) ==> declaration_spec(inp.chars@, pos as int, it),
        match r {
            Parsed::Done(_, e) => item_outcome(inp.chars@, pos as int) == Some(Ok::<int, (int, int)>(e as int)),
            Parsed::Miss => item_outcome(inp.chars@, pos as int) is None,
            Parsed::Fail(a, b) => item_outcome(inp.chars@, pos as int) == Some(Err::<int, (int, int)>((a as int, b as int))),
        },
{
    let r = parse_interface_at(inp, pos);
    proof {
        lemma_item_outcome(inp.chars@, pos as int);
    }
    if !matches!(r, Parsed::Miss) {
        proof {
            if r is Done {
                lemma_declaration(inp.chars@, pos as int, r->Done_0);
            }
        }
        return r;
    }
    let r = parse_parcelable_at(inp, pos);
    if !matches!(r, Parsed::Miss) {
        proof {
            if r is Done {
                lemma_declaration(inp.chars@, pos as int, r->Done_0);
            }
        }
        return r;
    }
    let r = parse_enum_at(inp, pos);
    proof {
        if r is Done {
            lemma_declaration(inp.chars@, pos as int, r->Done_0);
        }
    }
    r
}

proof fn lemma_item_outcome(s: Seq<char>, pos: int)
    ensures
        item_outcome(s, pos) == match interface_outcome(s, pos) {
            None => match parcelable_outcome(s, pos) {
                None => enum_outcome(s, pos),
                r => r,
            },
            r => r,
        },
{
    reveal(item_outcome);
}

proof fn lemma_declaration(s: Seq<char>, pos: int, it: Item)
    requires
        ({
            let w = match it {
                Item::Interface { .. } => "interface"@,
                Item::Parcelable { .. } => "parcelable"@,
                Item::Enum { .. } => "enum"@,
            };
            &&& declared_name_of(s, pos, w) == Some(it.name()@)
            &&& it.docu()@ == crate::lexer::doc_before(s, pos)
            &&& annotations_spec(s, pos, it.annotations()@)
            &&& body_start(s, pos, w) matches Some(b) && match it {
                Item::Interface { .. } => interface_body_spec(s, b, it),
                Item::Parcelable { .. } => parcelable_body_spec(s, b, it),
                Item::Enum { .. } => enum_body_spec(s, b, it),
            }
        }),
    ensures
        declaration_spec(s, pos, it),
{
    reveal(declaration_spec);
}


/// `package name;` at `pos`.
fn package_at(inp: &Input, pos: usize) -> (r: Option<(String, usize)>)
    requires
        inp.wf(),
        pos <= inp.len(),
    ensures
        advances(r, pos, inp.len()),
        r matches Some((n, _)) ==> dotted_in(inp.chars@, n@),
        match r {
            Some((n, e)) => directive_at(inp.chars@, pos as int, "package"@) matches Some((n0, n1, e1)) && e1 == e
                && n@ == inp.chars@.subrange(n0, n1),
            None => directive_at(inp.chars@, pos as int, "package"@) is None,
        },
{
    proof {
        reveal_strlit("package");
    }
    let k = match keyword(inp, skip(inp, pos), "package") {
        Some(k) => k,
        None => return None,
    };
    let (name, e) = match dotted_name(inp, skip(inp, k)) {
        Some(p) => p,
        None => return None,
    };
    match expect(inp, e, ';') {
        Some(end) => Some((name, end)),
        None => None,
    }
}

/// `import name;` at `pos`.
fn import_at(inp: &Input, pos: usize) -> (r: Option<(String, usize)>)
    requires
        inp.wf(),
        pos <= inp.len(),
    ensures
        advances(r, pos, inp.len()),
        r matches Some((n, _)) ==> dotted_in(inp.chars@, n@),
        match r {
            Some((n, e)) => directive_at(inp.chars@, pos as int, "import"@) matches Some((n0, n1, e1)) && e1 == e
                && n@ == inp.chars@.subrange(n0, n1),
            None => directive_at(inp.chars@, pos as int, "import"@) is None,
        },
{
    proof {
        reveal_strlit("import");
    }
    let k = match keyword(inp, skip(inp, pos), "import") {
        Some(k) => k,
        None => return None,
    };
    let (name, e) = match dotted_name(inp, skip(inp, k)) {
        Some(p) => p,
        None => return None,
    };
    match expect(inp, e, ';') {
        Some(end) => Some((name, end)),
        None => None,
    }
}

/// A forward declaration at `pos` (`interface Name;`, `parcelable Name;`,
/// `enum Name;`), which declares nothing.
fn forward_declaration_at(inp: &Input, pos: usize) -> (r: Option<usize>)
    requires
        inp.wf(),
        pos <= inp.len(),
    ensures
        r matches Some(e) ==> pos < e <= inp.len(),
        match r {
            Some(e) => forward_end(inp.chars@, pos as int) == Some(e as int),
            None => forward_end(inp.chars@, pos as int) is None,
        },
{
    let j = skip(inp, pos);
    proof {
        reveal_strlit("interface");
        reveal_strlit("parcelable");
        reveal_strlit("enum");
    }
    let k = match keyword(inp, j, "interface") {
        Some(k) => k,
        None => match keyword(inp, j, "parcelable") {
            Some(k) => k,
            None => match keyword(inp, j, "enum") {
                Some(k) => k,
                None => return None,
            },
        },
    };
    let (_, e) = match identifier(inp, skip(inp, k)) {
        Some(p) => p,
        None => return None,
    };
    expect(inp, e, ';')
}

/// A whole file: `package`, then imports and forward declarations in any
/// order, then declarations, with nothing after them but whitespace and
/// comments. An error holds the offending span.
fn file_at(inp: &Input) -> (r: Result<File, (usize, usize)>)
    requires
        inp.wf(),
    ensures
        r matches Err((a, b)) ==> a <= b <= inp.len(),
        match r {
            Ok(_) => file_outcome(inp.chars@) is Ok,
            Err((a, b)) => file_outcome(inp.chars@) == Err::<(), (int, int)>((a as int, b as int)),
        },
        r matches Ok(f) ==> dotted_in(inp.chars@, f.package@),
        r matches Ok(f) ==> forall|k: int| 0 <= k < f.imports@.len() ==> dotted_in(inp.chars@, #[trigger] f.imports@[k]@),
        r matches Ok(f) ==> forall|k: int| 0 <= k < f.items@.len() ==> is_ident(#[trigger] f.items@[k].name()@),
        r matches Ok(f) ==> forall|k: int| 0 <= k < f.items@.len() ==> elements_within(#[trigger] f.items@[k], inp.len()),
        r matches Ok(f) ==> file_items_spec(inp.chars@, f),
{
    let len = inp.chars.len();
    let (package, mut p) = match package_at(inp, 0) {
        Some(x) => x,
        None => {
            let j = skip(inp, 0);
            return Err((j, len));
        },
    };
    let mut imports: Vec<String> = Vec::new();
    let ghost first = p as int;
    let ghost mut ipos: Seq<int> = Seq::empty();
    proof {
        reveal_strlit("package");
        assert(header_imports(inp.chars@, first) =~= ipos + header_imports(inp.chars@, first));
    }
    assert(directive_at(inp.chars@, 0, "package"@) matches Some((_, _, e)) && e == first);
    loop
        invariant
            inp.wf(),
            len == inp.chars@.len(),
            0 < p <= len,
            forall|k: int| 0 <= k < imports@.len() ==> dotted_in(inp.chars@, #[trigger] imports@[k]@),
            directive_at(inp.chars@, 0, "package"@) matches Some((_, _, e)) && e == first,
            header_end(inp.chars@, first) == header_end(inp.chars@, p as int),
            header_imports(inp.chars@, first) == ipos + header_imports(inp.chars@, p as int),
            ipos.len() == imports@.len(),
            forall|k: int| 0 <= k < imports@.len() ==> import_name_at(inp.chars@, ipos[k], #[trigger] imports@[k]@),
        ensures
            0 < p <= len,
            forall|k: int| 0 <= k < imports@.len() ==> dotted_in(inp.chars@, #[trigger] imports@[k]@),
            header_end(inp.chars@, first) == p,
            header_imports(inp.chars@, first) == ipos,
            ipos.len() == imports@.len(),
            forall|k: int| 0 <= k < imports@.len() ==> import_name_at(inp.chars@, ipos[k], #[trigger] imports@[k]@),
        decreases len - p,
    {
        let ghost here = p as int;
        if let Some((import, e)) = import_at(inp, p) {
            imports.push(import);
            p = e;
            proof {
                reveal_strlit("import");
                ipos = ipos.push(here);
                assert(header_imports(inp.chars@, first) =~= ipos + header_imports(inp.chars@, p as int));
            }
        } else if let Some(e) = forward_declaration_at(inp, p) {
            p = e;
            proof {
                reveal_strlit("import");
                assert(header_imports(inp.chars@, here) == header_imports(inp.chars@, p as int));
            }
        } else {
            proof {
                reveal_strlit("import");
                assert(ipos + header_imports(inp.chars@, p as int) =~= ipos);
            }
            break;
        }
    }
    let mut items: Vec<Item> = Vec::new();
    let ghost second = p as int;
    let ghost mut at: Seq<int> = Seq::empty();
    assert(items_positions(inp.chars@, second) =~= at + items_positions(inp.chars@, second));
    loop
        invariant
            inp.wf(),
            len == inp.chars@.len(),
            0 < p <= len,
            forall|k: int| 0 <= k < items@.len() ==> is_ident(#[trigger] items@[k].name()@),
            forall|k: int| 0 <= k < items@.len() ==> elements_within(#[trigger] items@[k], len as int),
            directive_at(inp.chars@, 0, "package"@) matches Some((_, _, e)) && header_end(inp.chars@, e) == second,
            items_end(inp.chars@, second) == items_end(inp.chars@, p as int),
            items_positions(inp.chars@, second) == at + items_positions(inp.chars@, p as int),
            at.len() == items@.len(),
            forall|k: int| 0 <= k < items@.len() ==> declaration_spec(inp.chars@, at[k], #[trigger] items@[k]),
        ensures
            0 < p <= len,
            forall|k: int| 0 <= k < items@.len() ==> is_ident(#[trigger] items@[k].name()@),
            forall|k: int| 0 <= k < items@.len() ==> elements_within(#[trigger] items@[k], len as int),
            items_end(inp.chars@, second) == Ok::<int, (int, int)>(p as int),
            items_positions(inp.chars@, second) == at,
            at.len() == items@.len(),
            forall|k: int| 0 <= k < items@.len() ==> declaration_spec(inp.chars@, at[k], #[trigger] items@[k]),
        decreases len - p,
    {
        let ghost here = p as int;
        match item_at(inp, p) {
            Parsed::Done(item, e) => {
                items.push(item);
                p = e;
                proof {
                    at = at.push(here);
                    assert(items_positions(inp.chars@, second) =~= at + items_positions(inp.chars@, p as int));
                }
            },
            Parsed::Miss => break,
            Parsed::Fail(a, b) => return Err((a, b)),
        }
    }
    let z = skip(inp, p);
    if z < len {
        return Err((z, len));
    }
    Ok(File { package, imports, items })
}

/// Parses one source file into its syntax tree, or reports the first syntax
/// error with its line, column and an excerpt of the offending text.
pub fn parse(input: &str) -> (r: Result<File, ParseContentError>)
    requires
        input@.len() < usize::MAX,
    ensures
        r is Ok <==> file_outcome(input@) is Ok,
        r matches Err(err) ==> file_outcome(input@) matches Err((a, b)) && 0 <= a <= b <= input@.len()
            && err.line_number == line_of(input@, a) && err.column_number == a - line_start(input@, a) + 1
            && err.section@ == excerpt(input@.subrange(a, b)),
        r matches Ok(f) ==> dotted_in(input@, f.package@),
        r matches Ok(f) ==> forall|k: int| 0 <= k < f.imports@.len() ==> dotted_in(input@, #[trigger] f.imports@[k]@),
        r matches Ok(f) ==> forall|k: int| 0 <= k < f.items@.len() ==> is_ident(#[trigger] f.items@[k].name()@),
        r matches Ok(f) ==> forall|k: int| 0 <= k < f.items@.len() ==> elements_within(#[trigger] f.items@[k], input@.len() as int),
        r matches Ok(f) ==> file_items_spec(input@, f),
{
    let inp = Input::new(input);
    match file_at(&inp) {
        Ok(f) => Ok(f),
        Err((a, b)) => Err(ParseContentError::at(&inp, a, b)),
    }
}

/// What follows a parse that ended at `e`, with the value it produced.
fn rest_after<T>(inp: &Input, r: Option<(T, usize)>) -> (out: Result<(String, T), ParseContentError>)
    requires
        inp.wf(),
        r matches Some((_, e)) ==> e <= inp.len(),
    ensures
        r is Some <==> out is Ok,
        out matches Ok((rest, v)) ==> r matches Some((v2, e)) && v == v2 && rest@ == inp.chars@.subrange(e as int, inp.len()),
{
    match r {
        Some((v, e)) => Ok((inp.slice(e, inp.chars.len()), v)),
        None => {
            let j = skip(inp, 0);
            Err(ParseContentError::at(inp, j, inp.chars.len()))
        },
    }
}

/// `package name;` at the start of `input`: the rest of the text and the name.
pub fn parse_package(input: &str) -> (r: Result<(String, String), ParseContentError>)
    requires
        input@.len() < usize::MAX,
    ensures
        r is Ok <==> directive_at(input@, 0, "package"@) is Some,
        r matches Ok((rest, n)) ==> directive_at(input@, 0, "package"@) matches Some((n0, n1, e)) && n@
            == input@.subrange(n0, n1) && rest@ == input@.subrange(e, input@.len() as int),
{
    let inp = Input::new(input);
    let p = package_at(&inp, 0);
    rest_after(&inp, p)
}

/// `import name;` at the start of `input`: the rest of the text and the name.
pub fn parse_import(input: &str) -> (r: Result<(String, String), ParseContentError>)
    requires
        input@.len() < usize::MAX,
    ensures
        r is Ok <==> directive_at(input@, 0, "import"@) is Some,
        r matches Ok((rest, n)) ==> directive_at(input@, 0, "import"@) matches Some((n0, n1, e)) && n@
            == input@.subrange(n0, n1) && rest@ == input@.subrange(e, input@.len() as int),
{
    let inp = Input::new(input);
    let p = import_at(&inp, 0);
    rest_after(&inp, p)
}

/// A type at the start of `input`: the rest of the text and the type.
pub fn parse_type(input: &str) -> (r: Result<(String, Type), ParseContentError>)
    requires
        input@.len() < usize::MAX,
    ensures
        r is Ok <==> type_end(input@, 0) is Some,
        r matches Ok((rest, t)) ==> type_spec(input@, 0, t) && rest@ == input@.subrange(
            type_end(input@, 0)->Some_0,
            input@.len() as int,
        ),
{
    let inp = Input::new(input);
    let p = type_at(&inp, 0);
    rest_after(&inp, p)
}

/// A method argument at the start of `input`.
pub fn parse_arg(input: &str) -> (r: Result<(String, Arg), ParseContentError>)
    requires
        input@.len() < usize::MAX,
    ensures
        r is Ok <==> arg_end(input@, 0) is Some,
        r matches Ok((rest, a)) ==> arg_spec(input@, 0, a) && rest@ == input@.subrange(
            arg_end(input@, 0)->Some_0,
            input@.len() as int,
        ),
{
    let inp = Input::new(input);
    let p = arg(&inp, 0);
    rest_after(&inp, p)
}

/// An annotation at the start of `input`.
pub fn parse_annotation(input: &str) -> (r: Result<(String, Annotation), ParseContentError>)
    requires
        input@.len() < usize::MAX,
    ensures
        r is Ok <==> annotation_end(input@, 0) is Some,
        r matches Ok((rest, a)) ==> a.0@ == input@.subrange(1, annotation_end(input@, 0)->Some_0)
            && rest@ == input@.subrange(annotation_end(input@, 0)->Some_0, input@.len() as int),
{
    let inp = Input::new(input);
    let p = annotation(&inp, 0);
    rest_after(&inp, p)
}

/// A const at the start of `input`, with the documentation before it.
pub fn parse_const(input: &str) -> (r: Result<(String, Const), ParseContentError>)
    requires
        input@.len() < usize::MAX,
    ensures
        r matches Ok((_, c)) ==> c.docu@ == crate::lexer::doc_before(input@, 0),
        r is Ok <==> const_parts(input@, 0) is Some,
        r matches Ok((rest, c)) ==> const_spec(input@, 0, c) && rest@ == input@.subrange(
            const_parts(input@, 0)->Some_0.5,
            input@.len() as int,
        ),
{
    let inp = Input::new(input);
    let p = parse_const_at(&inp, 0);
    rest_after(&inp, p)
}

/// A struct member at the start of `input`, with the documentation before it.
pub fn parse_member(input: &str) -> (r: Result<(String, Member), ParseContentError>)
    requires
        input@.len() < usize::MAX,
    ensures
        r matches Ok((_, m)) ==> m.docu@ == crate::lexer::doc_before(input@, 0),
        r is Ok <==> member_parts(input@, 0) is Some,
        r matches Ok((rest, m)) ==> member_spec(input@, 0, m) && rest@ == input@.subrange(
            member_parts(input@, 0)->Some_0.3,
            input@.len() as int,
        ),
{
    let inp = Input::new(input);
    let p = parse_member_at(&inp, 0);
    rest_after(&inp, p)
}

/// A method at the start of `input`, with the documentation before it.
pub fn parse_method(input: &str) -> (r: Result<(String, Method), ParseContentError>)
    requires
        input@.len() < usize::MAX,
    ensures
        r matches Ok((_, m)) ==> m.docu@ == crate::lexer::doc_before(input@, 0),
        r is Ok <==> method_parts(input@, 0) is Some,
        r matches Ok((rest, m)) ==> method_spec(input@, 0, m) && rest@ == input@.subrange(
            method_parts(input@, 0)->Some_0.5,
            input@.len() as int,
        ),
{
    let inp = Input::new(input);
    let p = parse_method_at(&inp, 0);
    rest_after(&inp, p)
}

/// Where the text of the comment at `pos` starts and ends.
pub open spec fn comment_text_span(s: Seq<char>, pos: int) -> Option<(int, int)> {
    match crate::lexer::comment_end(s, pos) {
        None => None,
        Some(e) => if has_at(s, pos, seq!['/', '/']) {
            let from = blanks_end(s, pos + 2);
            let to0 = if e > from && s[e - 1] == '\n' {
                e - 1
            } else {
                e
            };
            let to = if to0 > from && s[to0 - 1] == '\r' {
                to0 - 1
            } else {
                to0
            };
            Some((if from > to { to } else { from }, to))
        } else {
            let from = crate::lexer::trim_front(s, pos + 2, e - 2);
            let to = crate::lexer::trim_back(s, from, e - 2);
            Some((if from > to { to } else { from }, to))
        },
    }
}

/// The text of the comment at `pos`: for `// ...` what follows the slashes
/// and blanks up to the line end; for `/* ... */` what lies between the
/// delimiters, whitespace trimmed at both ends.
fn comment_text(inp: &Input, pos: usize) -> (r: Option<(String, usize)>)
    requires
        inp.wf(),
        pos <= inp.len(),
    ensures
        advances(r, pos, inp.len()),
        r matches Some((_, e)) ==> crate::lexer::comment_end(inp.chars@, pos as int) == Some(e as int),
        r is None ==> crate::lexer::comment_end(inp.chars@, pos as int) is None,
        r matches Some((t, _)) ==> comment_text_span(inp.chars@, pos as int) matches Some((a, b)) && t@
            == inp.chars@.subrange(a, b),
{
    let e = match inp.comment_end(pos) {
        Some(e) => e,
        None => return None,
    };
    proof {
        crate::lexer::lemma_comment_end_bound(inp.chars@, pos as int);
    }
    let line = inp.starts_with(pos, "//");
    proof {
        reveal_strlit("//");
        assert("//"@ =~= seq!['/', '/']);
    }
    let (mut from, mut to) = if line {
        let from = skip_blanks(inp, pos + 2);
        let to = if e > from && inp.chars[e - 1] == '\n' {
            e - 1
        } else {
            e
        };
        (from, to)
    } else {
        (pos + 2, e - 2)
    };
    if line && to > from && inp.chars[to - 1] == '\r' {
        to = to - 1;
    }
    if !line {
        let ghost to0 = to as int;
        while from < to && crate::lexer::is_ws_char(inp.chars[from])
            invariant
                inp.wf(),
                to <= inp.len(),
                to == to0,
                crate::lexer::trim_front(inp.chars@, pos + 2, to0) == crate::lexer::trim_front(inp.chars@, from as int, to0),
            decreases to - from,
        {
            from += 1;
        }
        while to > from && crate::lexer::is_ws_char(inp.chars[to - 1])
            invariant
                inp.wf(),
                to <= inp.len(),
                crate::lexer::trim_back(inp.chars@, from as int, to0) == crate::lexer::trim_back(inp.chars@, from as int, to as int),
            decreases to,
        {
            to -= 1;
        }
    }
    if from > to {
        from = to;
    }
    Some((inp.slice(from, to), e))
}

/// A comment at the start of `input`: the rest of the text and the
/// comment's text.
pub fn parse_comment(input: &str) -> (r: Result<(String, String), ParseContentError>)
    requires
        input@.len() < usize::MAX,
    ensures
        r is Ok <==> crate::lexer::comment_end(input@, 0) is Some,
        r matches Ok((_, t)) ==> comment_text_span(input@, 0) matches Some((a, b)) && t@ == input@.subrange(a, b),
        r matches Ok((rest, _)) ==> rest@ == input@.subrange(
            crate::lexer::comment_end(input@, 0)->Some_0,
            input@.len() as int,
        ),
{
    let inp = Input::new(input);
    let p = comment_text(&inp, 0);
    rest_after(&inp, p)
}

/// A declaration at the start of `input`, with the documentation before it;
/// a syntax error inside it is reported where it stands.
pub fn parse_item(input: &str) -> (r: Result<(String, Item), ParseContentError>)
    requires
        input@.len() < usize::MAX,
    ensures
        r matches Ok((_, it)) ==> declaration_spec(input@, 0, it),
        r is Ok <==> item_outcome(input@, 0) matches Some(Ok(_)),
        r matches Ok((rest, _)) ==> item_outcome(input@, 0) matches Some(Ok(e)) && rest@ == input@.subrange(
            e,
            input@.len() as int,
        ),
        r matches Err(err) ==> item_outcome(input@, 0) matches Some(Err((a, b))) ==> err.line_number == line_of(
            input@,
            a,
        ) && err.section@ == excerpt(input@.subrange(a, b)),
{
    let inp = Input::new(input);
    match item_at(&inp, 0) {
        Parsed::Done(item, e) => Ok((inp.slice(e, inp.chars.len()), item)),
        Parsed::Miss => {
            let j = skip(&inp, 0);
            Err(ParseContentError::at(&inp, j, inp.chars.len()))
        },
        Parsed::Fail(a, b) => Err(ParseContentError::at(&inp, a, b)),
    }
}

} // verus!
