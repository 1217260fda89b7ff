//! The small parts of the format: runs of characters, numbers, names,
//! quoted text, comments, and what may stand between two tokens.
//!
//! Every parser here reads the characters of the input from a place on. It
//! returns what it read with the place after it, or the place where the
//! input is not what the parser looks for. The places count characters.

use crate::error::{Expected, ParseError};
use crate::types::{
    digits_end, is_blank, is_digit, is_exponent, is_name, is_number, is_quotable, Number,
};
use vstd::prelude::*;

verus! {

/// A kind of character.
#[derive(Debug, Clone, Copy, PartialEq, Eq, Structural)]
pub enum Class {
    /// Space, tab, carriage return, line feed.
    Blank,
    /// Any character that is not blank.
    Name,
    /// Any character but carriage return and line feed.
    Line,
    /// Any character but the quote.
    Quoted,
    /// What a number is written with: the digits, `-`, `+`, `.` and `e`.
    Numeral,
}

/// `c` is of the kind `class`.
pub open spec fn member(class: Class, c: char) -> bool {
    match class {
        Class::Blank => is_blank(c),
        Class::Name => !is_blank(c),
        Class::Line => c != '\r' && c != '\n',
        Class::Quoted => c != '"',
        Class::Numeral => is_digit(c) || c == '-' || c == '+' || c == '.' || c == 'e',
    }
}

/// Where the characters of the kind `class` that start at `i` end.
pub open spec fn run_end(s: Seq<char>, i: int, class: Class) -> int
    decreases s.len() - i,
{
    if 0 <= i < s.len() && member(class, s[i]) {
        run_end(s, i + 1, class)
    } else {
        i
    }
}

/// A run ends at the first character that is not of the kind, or where the
/// input ends.
pub proof fn run_end_is_first_other(s: Seq<char>, i: int, class: Class)
    requires
        0 <= i <= s.len(),
    ensures
        i <= run_end(s, i, class) <= s.len(),
        forall|j: int| i <= j < run_end(s, i, class) ==> member(class, #[trigger] s[j]),
        run_end(s, i, class) < s.len() ==> !member(class, s[run_end(s, i, class)]),
    decreases s.len() - i,
{
    if i < s.len() && member(class, s[i]) {
        run_end_is_first_other(s, i + 1, class);
    }
}

/// The fault of a parser that looked for `expected` at the place `i`.
pub open spec fn fault(i: int, expected: Expected) -> ParseError {
    ParseError { position: i as usize, expected }
}

/// What a parser returned is what its grammar says.
pub open spec fn yields<T: View>(
    r: Result<(usize, T), ParseError>,
    said: Result<(int, T::V), ParseError>,
) -> bool {
    match r {
        Ok((end, value)) => said == Ok::<(int, T::V), ParseError>((end as int, value@)),
        Err(e) => said == Err::<(int, T::V), ParseError>(e),
    }
}

fn is_member(class: Class, c: char) -> (r: bool)
    ensures
        r == member(class, c),
{
    match class {
        Class::Blank => c == ' ' || c == '\t' || c == '\r' || c == '\n',
        Class::Name => !(c == ' ' || c == '\t' || c == '\r' || c == '\n'),
        Class::Line => c != '\r' && c != '\n',
        Class::Quoted => c != '"',
        Class::Numeral => ('0' <= c && c <= '9') || c == '-' || c == '+' || c == '.' || c == 'e',
    }
}

/// Finds where the characters of the kind `class` that start at `i` end.
pub fn run(input: &[char], i: usize, class: Class) -> (end: usize)
    requires
        i <= input@.len(),
    ensures
        end == run_end(input@, i as int, class),
        i <= end <= input@.len(),
{
    let mut end = i;
    while end < input.len() && is_member(class, input[end])
        invariant
            i <= end <= input@.len(),
            run_end(input@, i as int, class) == run_end(input@, end as int, class),
        decreases input@.len() - end,
    {
        end += 1;
    }
    end
}

/// `String::push`: the string is then what it was, with `c` after it.
#[verifier::external_body]
pub(crate) fn push_char(text: &mut String, c: char)
    ensures
        final(text)@ == old(text)@.push(c),
{
    text.push(c);
}

/// The characters from `from` up to, not including, `to`, as a string.
pub fn string_of(input: &[char], from: usize, to: usize) -> (text: String)
    requires
        from <= to <= input@.len(),
    ensures
        text@ == input@.subrange(from as int, to as int),
{
    let mut text = String::new();
    let mut i = from;
    while i < to
        invariant
            from <= i <= to <= input@.len(),
            text@ == input@.subrange(from as int, i as int),
        decreases to - i,
    {
        push_char(&mut text, input[i]);
        assert(input@.subrange(from as int, i + 1) =~= input@.subrange(from as int, i as int).push(
            input@[i as int],
        ));
        i += 1;
    }
    text
}

/// What `num_f32` reads at `i`: the characters that numbers are written
/// with, as far as they go, if they are a number.
pub open spec fn number_at(s: Seq<char>, i: int) -> Result<(int, Seq<char>), ParseError> {
    let end = run_end(s, i, Class::Numeral);
    if is_number(s.subrange(i, end)) {
        Ok((end, s.subrange(i, end)))
    } else {
        Err(fault(i, Expected::Number))
    }
}

/// Finds where the digits of `t`, the input from `from` to `to`, that start
/// at `i` end.
fn digits(input: &[char], Ghost(from): Ghost<int>, i: usize, to: usize) -> (end: usize)
    requires
        0 <= from <= i <= to <= input@.len(),
    ensures
        i <= end <= to,
        end - from == digits_end(input@.subrange(from, to as int), i - from),
{
    let ghost t = input@.subrange(from, to as int);
    let mut end = i;
    while end < to && '0' <= input[end] && input[end] <= '9'
        invariant
            0 <= from <= i <= end <= to <= input@.len(),
            t == input@.subrange(from, to as int),
            digits_end(t, i - from) == digits_end(t, end - from),
        decreases to - end,
    {
        assert(t[end - from] == input@[from + (end - from)]);
        end += 1;
    }
    assert(end < to ==> t[end - from] == input@[from + (end - from)]);
    end
}

/// Tells whether the input from `from` to `to` is a number.
pub fn number_form(input: &[char], from: usize, to: usize) -> (r: bool)
    requires
        from <= to <= input@.len(),
    ensures
        r == is_number(input@.subrange(from as int, to as int)),
{
    let ghost t = input@.subrange(from as int, to as int);
    assert(forall|k: int| 0 <= k < t.len() ==> t[k] == input@[from + k]);
    let a = if from < to && input[from] == '-' {
        from + 1
    } else {
        from
    };
    let b = digits(input, Ghost(from as int), a, to);
    let c = if b < to && input[b] == '.' {
        digits(input, Ghost(from as int), b + 1, to)
    } else {
        b
    };
    if !(a < b || c - b > 1) {
        return false;
    }
    if c == to {
        return true;
    }
    if input[c] != 'e' {
        return false;
    }
    let d = if c + 1 < to && (input[c + 1] == '-' || input[c + 1] == '+') {
        c + 2
    } else {
        c + 1
    };
    if d > to {
        assert(!is_exponent(t, c - from));
        return false;
    }
    let f = digits(input, Ghost(from as int), d, to);
    d < f && f == to
}

/// Reads a number.
pub fn num_f32(input: &[char], i: usize) -> (r: Result<(usize, Number), ParseError>)
    requires
        i <= input@.len(),
    ensures
        yields(r, number_at(input@, i as int)),
        r matches Ok((end, number)) ==> i < end <= input@.len() && number.wf(),
{
    let end = run(input, i, Class::Numeral);
    if number_form(input, i, end) {
        Ok((end, Number { text: string_of(input, i, end) }))
    } else {
        Err(ParseError { position: i, expected: Expected::Number })
    }
}

/// What a parser that returns only a place returned is what its grammar says.
pub open spec fn gives(r: Result<usize, ParseError>, said: Result<int, ParseError>) -> bool {
    match r {
        Ok(end) => said == Ok::<int, ParseError>(end as int),
        Err(e) => said == Err::<int, ParseError>(e),
    }
}

/// The character `c` stands at `i`.
pub open spec fn char_at(s: Seq<char>, i: int, c: char) -> Result<int, ParseError> {
    if 0 <= i < s.len() && s[i] == c {
        Ok(i + 1)
    } else {
        Err(fault(i, Expected::Char(c)))
    }
}

/// The characters of `t` stand at `i`, one after the other. Where they do
/// not, the fault is at the first that does not.
pub open spec fn tag_at(s: Seq<char>, i: int, t: Seq<char>) -> Result<int, ParseError>
    decreases t.len(),
{
    if t.len() == 0 {
        Ok(i)
    } else {
        match char_at(s, i, t[0]) {
            Ok(next) => tag_at(s, next, t.skip(1)),
            Err(e) => Err(e),
        }
    }
}

/// Reads the character `c`.
pub fn expect(input: &[char], i: usize, c: char) -> (r: Result<usize, ParseError>)
    requires
        i <= input@.len(),
    ensures
        gives(r, char_at(input@, i as int, c)),
        r matches Ok(end) ==> end == i + 1 && end <= input@.len(),
{
    if i < input.len() && input[i] == c {
        Ok(i + 1)
    } else {
        Err(ParseError { position: i, expected: Expected::Char(c) })
    }
}

/// Reads the characters of `pattern`.
pub fn tag(input: &[char], i: usize, pattern: &[char]) -> (r: Result<usize, ParseError>)
    requires
        i <= input@.len(),
    ensures
        gives(r, tag_at(input@, i as int, pattern@)),
        r matches Ok(end) ==> end == i + pattern@.len() && end <= input@.len(),
{
    let mut at = i;
    let mut k: usize = 0;
    assert(pattern@.skip(0) =~= pattern@);
    while k < pattern.len()
        invariant
            k <= pattern@.len(),
            at == i + k,
            at <= input@.len(),
            tag_at(input@, i as int, pattern@) == tag_at(input@, at as int, pattern@.skip(k as int)),
        decreases pattern@.len() - k,
    {
        assert(pattern@.skip(k as int)[0] == pattern@[k as int]);
        assert(pattern@.skip(k as int).skip(1) =~= pattern@.skip(k + 1));
        match expect(input, at, pattern[k]) {
            Ok(next) => {
                at = next;
            },
            Err(e) => {
                return Err(e);
            },
        }
        k += 1;
    }
    Ok(at)
}

/// What `text` reads at `i`: the characters that are not blank, as far as
/// they go, if there is one.
pub open spec fn text_at(s: Seq<char>, i: int) -> Result<(int, Seq<char>), ParseError> {
    let end = run_end(s, i, Class::Name);
    if end > i {
        Ok((end, s.subrange(i, end)))
    } else {
        Err(fault(i, Expected::Name))
    }
}

/// Reads a name: characters up to the next blank one.
pub fn text(input: &[char], i: usize) -> (r: Result<(usize, String), ParseError>)
    requires
        i <= input@.len(),
    ensures
        yields(r, text_at(input@, i as int)),
        r matches Ok((end, name)) ==> i < end <= input@.len() && is_name(name@),
{
    let end = run(input, i, Class::Name);
    proof {
        run_end_is_first_other(input@, i as int, Class::Name);
    }
    if end > i {
        Ok((end, string_of(input, i, end)))
    } else {
        Err(ParseError { position: i, expected: Expected::Name })
    }
}

/// What `string` reads at `i`: a quote, the characters up to the next
/// quote, of which there is one at least, and that quote.
pub open spec fn string_at(s: Seq<char>, i: int) -> Result<(int, Seq<char>), ParseError> {
    match char_at(s, i, '"') {
        Err(e) => Err(e),
        Ok(from) => {
            let end = run_end(s, from, Class::Quoted);
            if end == from {
                Err(fault(from, Expected::Text))
            } else {
                match char_at(s, end, '"') {
                    Err(e) => Err(e),
                    Ok(after) => Ok((after, s.subrange(from, end))),
                }
            }
        },
    }
}

/// Reads a quoted text, and returns it without the quotes.
pub fn string(input: &[char], i: usize) -> (r: Result<(usize, String), ParseError>)
    requires
        i <= input@.len(),
    ensures
        yields(r, string_at(input@, i as int)),
        r matches Ok((end, text)) ==> i < end <= input@.len() && is_quotable(text@),
{
    let from = match expect(input, i, '"') {
        Ok(from) => from,
        Err(e) => {
            return Err(e);
        },
    };
    let end = run(input, from, Class::Quoted);
    proof {
        run_end_is_first_other(input@, from as int, Class::Quoted);
    }
    if end == from {
        return Err(ParseError { position: from, expected: Expected::Text });
    }
    match expect(input, end, '"') {
        Ok(after) => Ok((after, string_of(input, from, end))),
        Err(e) => Err(e),
    }
}

/// Where the text of a comment that begins at `i` begins: after the two
/// slashes, and after one space where one follows them.
pub open spec fn comment_text_start(s: Seq<char>, i: int) -> int {
    if i + 2 < s.len() && s[i + 2] == ' ' {
        i + 3
    } else {
        i + 2
    }
}

/// What `comment` reads at `i`: two slashes; the rest of the line, which is
/// the text of the comment, without one space where it begins with one; and
/// the end of the line, which is a line feed, a carriage return with a line
/// feed, or the end of the input.
pub open spec fn comment_at(s: Seq<char>, i: int) -> Result<(int, Seq<char>), ParseError> {
    if !(0 <= i && i + 1 < s.len() && s[i] == '/' && s[i + 1] == '/') {
        Err(fault(i, Expected::Comment))
    } else {
        let from = comment_text_start(s, i);
        let end = run_end(s, from, Class::Line);
        if end >= s.len() {
            Ok((end, s.subrange(from, end)))
        } else if s[end] == '\n' {
            Ok((end + 1, s.subrange(from, end)))
        } else if end + 1 < s.len() && s[end + 1] == '\n' {
            Ok((end + 2, s.subrange(from, end)))
        } else {
            Err(fault(end, Expected::LineEnd))
        }
    }
}

/// Where the comment at `i` ends, if there is one.
fn comment_span(input: &[char], i: usize) -> (r: Result<(usize, usize, usize), ParseError>)
    requires
        i <= input@.len(),
    ensures
        match r {
            Ok((from, end, after)) => i < from <= end <= after <= input@.len() && comment_at(
                input@,
                i as int,
            ) == Ok::<(int, Seq<char>), ParseError>(
                (after as int, input@.subrange(from as int, end as int)),
            ),
            Err(e) => comment_at(input@, i as int) == Err::<(int, Seq<char>), ParseError>(e),
        },
{
    let n = input.len();
    if !(n - i >= 2 && input[i] == '/' && input[i + 1] == '/') {
        return Err(ParseError { position: i, expected: Expected::Comment });
    }
    let from = if n - i > 2 && input[i + 2] == ' ' {
        i + 3
    } else {
        i + 2
    };
    let end = run(input, from, Class::Line);
    proof {
        run_end_is_first_other(input@, from as int, Class::Line);
    }
    if end >= n {
        Ok((from, end, end))
    } else if input[end] == '\n' {
        Ok((from, end, end + 1))
    } else if n - end > 1 && input[end + 1] == '\n' {
        Ok((from, end, end + 2))
    } else {
        Err(ParseError { position: end, expected: Expected::LineEnd })
    }
}

/// Reads a comment, and returns its text.
pub fn comment(input: &[char], i: usize) -> (r: Result<(usize, String), ParseError>)
    requires
        i <= input@.len(),
    ensures
        yields(r, comment_at(input@, i as int)),
        r matches Ok((end, text)) ==> i < end <= input@.len(),
{
    match comment_span(input, i) {
        Ok((from, end, after)) => Ok((after, string_of(input, from, end))),
        Err(e) => Err(e),
    }
}

/// What `ignored` reads at `i`: comments and runs of blank characters, as
/// many as follow one another, each as one piece: a comment by its text, a
/// run by its characters.
pub open spec fn ignored_at(s: Seq<char>, i: int) -> (int, Seq<Seq<char>>)
    decreases s.len() - i,
{
    match comment_at(s, i) {
        Ok((end, text)) => {
            if i < end <= s.len() {
                let rest = ignored_at(s, end);
                (rest.0, seq![text] + rest.1)
            } else {
                (i, Seq::empty())
            }
        },
        Err(_) => {
            let end = run_end(s, i, Class::Blank);
            if i < end <= s.len() {
                let rest = ignored_at(s, end);
                (rest.0, seq![s.subrange(i, end)] + rest.1)
            } else {
                (i, Seq::empty())
            }
        },
    }
}

/// Where the next token begins: after what `ignored` reads at `i`.
pub open spec fn token_at(s: Seq<char>, i: int) -> int {
    ignored_at(s, i).0
}

/// The views of the strings of a list.
pub open spec fn pieces(list: Seq<String>) -> Seq<Seq<char>> {
    Seq::new(list.len(), |j: int| list[j]@)
}

/// Reads what may stand between two tokens, and returns it piece by piece.
pub fn ignored(input: &[char], i: usize) -> (r: (usize, Vec<String>))
    requires
        i <= input@.len(),
    ensures
        r.0 == ignored_at(input@, i as int).0,
        pieces(r.1@) == ignored_at(input@, i as int).1,
        i <= r.0 <= input@.len(),
{
    let mut at = i;
    let mut list: Vec<String> = Vec::new();
    loop
        invariant
            i <= at <= input@.len(),
            ignored_at(input@, i as int).0 == ignored_at(input@, at as int).0,
            ignored_at(input@, i as int).1 == pieces(list@) + ignored_at(input@, at as int).1,
        ensures
            i <= at <= input@.len(),
            at == ignored_at(input@, i as int).0,
            pieces(list@) == ignored_at(input@, i as int).1,
        decreases input@.len() - at,
    {
        let ghost before = pieces(list@);
        let ghost rest = ignored_at(input@, at as int).1;
        match comment_span(input, at) {
            Ok((from, end, after)) => {
                list.push(string_of(input, from, end));
                proof {
                    let text = input@.subrange(from as int, end as int);
                    let tail = ignored_at(input@, after as int).1;
                    assert(pieces(list@) =~= before.push(text));
                    assert(before.push(text) + tail =~= before + (seq![text] + tail));
                }
                at = after;
            },
            Err(_) => {
                let end = run(input, at, Class::Blank);
                if end > at {
                    list.push(string_of(input, at, end));
                    proof {
                        let text = input@.subrange(at as int, end as int);
                        let tail = ignored_at(input@, end as int).1;
                        assert(pieces(list@) =~= before.push(text));
                        assert(before.push(text) + tail =~= before + (seq![text] + tail));
                    }
                    at = end;
                } else {
                    assert(before + rest =~= before);
                    break ;
                }
            },
        }
    }
    (at, list)
}

/// Finds where the next token begins.
pub fn skip_ignored(input: &[char], i: usize) -> (at: usize)
    requires
        i <= input@.len(),
    ensures
        at == token_at(input@, i as int),
        i <= at <= input@.len(),
{
    let mut at = i;
    loop
        invariant
            i <= at <= input@.len(),
            token_at(input@, i as int) == token_at(input@, at as int),
        ensures
            i <= at <= input@.len(),
            at == token_at(input@, i as int),
        decreases input@.len() - at,
    {
        match comment_span(input, at) {
            Ok((from, end, after)) => {
                at = after;
            },
            Err(_) => {
                let end = run(input, at, Class::Blank);
                if end > at {
                    at = end;
                } else {
                    break ;
                }
            },
        }
    }
    at
}

} // verus!
