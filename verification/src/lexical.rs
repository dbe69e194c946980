//! Lexical primitives: spaces, line ends and comments, keywords, quoted
//! strings and numeric literals.
//!
//! The grammar threads a [`Cursor`] through the document: a position and,
//! once matching has stopped, what was expected there. Every primitive
//! leaves a stopped cursor as it is, so a record reads as a plain sequence of
//! steps and the first mismatch is the one that is reported.
use vstd::prelude::*;
use crate::error::{Expected, Keyword, SyntaxError};
use crate::model::{Decimal, DecimalView};

verus! {

/// The character classes that the format scans runs of.
#[derive(Clone, Copy, Debug, PartialEq, Eq, Structural)]
pub enum Class {
    /// A space or a tab: what separates the fields of a record.
    Space,
    /// A decimal digit.
    Digit,
    /// Anything that may stand in a comment: all but the line terminators.
    Comment,
    /// Anything that may stand in a quoted string: all but `"`.
    Quoted,
}

impl Class {
    /// `true` where `c` belongs to the class.
    pub open spec fn holds(self, c: char) -> bool {
        match self {
            Class::Space => c == ' ' || c == '\t',
            Class::Digit => '0' <= c && c <= '9',
            Class::Comment => c != '\n' && c != '\r',
            Class::Quoted => c != '"',
        }
    }

    /// Tells whether `c` belongs to the class.
    pub fn admits(self, c: char) -> (r: bool)
        ensures
            r == self.holds(c),
    {
        match self {
            Class::Space => c == ' ' || c == '\t',
            Class::Digit => c >= '0' && c <= '9',
            Class::Comment => c != '\n' && c != '\r',
            Class::Quoted => c != '"',
        }
    }
}

/// Where the run of characters of `class` that starts at `from` ends: the
/// first position at or after `from` that holds a character outside the
/// class, or the document's length.
pub open spec fn run_end(s: Seq<char>, from: int, class: Class) -> int
    decreases s.len() - from,
{
    if 0 <= from < s.len() && class.holds(s[from]) {
        run_end(s, from + 1, class)
    } else {
        from
    }
}

/// A run lies inside the document, holds only characters of its class, and
/// cannot be extended.
pub proof fn lemma_run_end(s: Seq<char>, from: int, class: Class)
    requires
        0 <= from <= s.len(),
    ensures
        from <= run_end(s, from, class) <= s.len(),
        forall|i: int| from <= i < run_end(s, from, class) ==> class.holds(#[trigger] s[i]),
        run_end(s, from, class) < s.len() ==> !class.holds(s[run_end(s, from, class)]),
    decreases s.len() - from,
{
    if from < s.len() && class.holds(s[from]) {
        lemma_run_end(s, from + 1, class);
    }
}

/// A position that holds only characters of the class up to it, and none of
/// the class at it, is where the run ends.
pub proof fn lemma_run_end_is(s: Seq<char>, from: int, class: Class, end: int)
    requires
        0 <= from <= end <= s.len(),
        forall|i: int| from <= i < end ==> class.holds(#[trigger] s[i]),
        end < s.len() ==> !class.holds(s[end]),
    ensures
        run_end(s, from, class) == end,
    decreases end - from,
{
    if from < end {
        lemma_run_end_is(s, from + 1, class, end);
    }
}

/// Scans the run of `class` that starts at `from`.
pub fn scan(input: &[char], from: usize, class: Class) -> (end: usize)
    requires
        from <= input.len(),
    ensures
        end == run_end(input@, from as int, class),
        from <= end <= input.len(),
{
    let mut i: usize = from;
    while i < input.len() && class.admits(input[i])
        invariant
            from <= i <= input.len(),
            run_end(input@, from as int, class) == run_end(input@, i as int, class),
        decreases input.len() - i,
    {
        i += 1;
    }
    i
}

/// `true` where the document holds `ch` at `at`.
pub open spec fn sees(s: Seq<char>, at: int, ch: char) -> bool {
    0 <= at < s.len() && s[at] == ch
}

/// Tells whether the document holds `ch` at `at`.
pub fn peek(input: &[char], at: usize, ch: char) -> (r: bool)
    ensures
        r == sees(input@, at as int, ch),
{
    at < input.len() && input[at] == ch
}

/// `true` where the characters `t` stand in the document from `at` on.
#[verifier::opaque]
pub open spec fn has_at(s: Seq<char>, at: int, t: Seq<char>) -> bool {
    0 <= at && at + t.len() <= s.len() && s.subrange(at, at + t.len()) == t
}

/// How far the grammar has read, and what stopped it.
pub struct Cursor {
    /// The position reached.
    pub at: int,
    /// `None` while matching goes on; else what was expected at `at`.
    pub fault: Option<Expected>,
}

impl Cursor {
    /// A cursor that reads on at `at`.
    pub open spec fn new(at: int) -> Cursor {
        Cursor { at, fault: None }
    }

    /// A cursor that stopped at `at`, where `expected` was missing.
    pub open spec fn fail(at: int, expected: Expected) -> Cursor {
        Cursor { at, fault: Some(expected) }
    }

    /// `true` while nothing was missing.
    pub open spec fn ok(self) -> bool {
        self.fault is None
    }
}

/// The executable parser's outcome `r` on the document `s` is what the
/// cursor `c` says, and lies inside the document.
pub open spec fn lands(s: Seq<char>, r: Result<usize, SyntaxError>, c: Cursor) -> bool {
    match r {
        Ok(next) => c == Cursor::new(next as int) && next <= s.len(),
        Err(e) => c == Cursor::fail(e.offset as int, e.expected) && e.offset <= s.len(),
    }
}

/// The position part of an outcome that carries a value.
pub open spec fn position<T>(r: Result<(T, usize), SyntaxError>) -> Result<usize, SyntaxError> {
    match r {
        Ok((_, next)) => Ok(next),
        Err(e) => Err(e),
    }
}

/// Zero or more spaces and tabs.
pub open spec fn spaces(s: Seq<char>, c: Cursor) -> Cursor {
    if c.ok() {
        Cursor::new(run_end(s, c.at, Class::Space))
    } else {
        c
    }
}

/// The separator between two fields: at least one space or tab.
pub open spec fn separator(s: Seq<char>, c: Cursor) -> Cursor {
    if !c.ok() {
        c
    } else if run_end(s, c.at, Class::Space) > c.at {
        Cursor::new(run_end(s, c.at, Class::Space))
    } else {
        Cursor::fail(c.at, Expected::Space)
    }
}

/// One of the format's fixed words, letter for letter.
pub open spec fn keyword(s: Seq<char>, c: Cursor, k: Keyword) -> Cursor {
    if !c.ok() {
        c
    } else if has_at(s, c.at, k.text()) {
        Cursor::new(c.at + k.text().len())
    } else {
        Cursor::fail(c.at, Expected::Keyword(k))
    }
}

/// One line terminator: `\r\n`, `\n` or `\r`.
pub open spec fn line_break(s: Seq<char>, c: Cursor) -> Cursor {
    if !c.ok() {
        c
    } else if sees(s, c.at, '\r') && sees(s, c.at + 1, '\n') {
        Cursor::new(c.at + 2)
    } else if sees(s, c.at, '\n') || sees(s, c.at, '\r') {
        Cursor::new(c.at + 1)
    } else {
        Cursor::fail(c.at, Expected::LineEnd)
    }
}

/// A comment, where one starts here: `//` and the rest of the line.
pub open spec fn comment(s: Seq<char>, c: Cursor) -> Cursor {
    if c.ok() && sees(s, c.at, '/') && sees(s, c.at + 1, '/') {
        Cursor::new(run_end(s, c.at + 2, Class::Comment))
    } else {
        c
    }
}

/// The end of a line: optional spaces, an optional comment, one line
/// terminator.
pub open spec fn line_end(s: Seq<char>, c: Cursor) -> Cursor {
    line_break(s, comment(s, spaces(s, c)))
}

/// Zero or more lines that hold nothing but spaces and a comment. A line
/// that holds anything else is left untouched.
pub open spec fn blank_lines(s: Seq<char>, c: Cursor) -> Cursor
    decreases s.len() - c.at,
{
    let next = line_end(s, c);
    if c.ok() && next.ok() && c.at < next.at <= s.len() {
        blank_lines(s, next)
    } else {
        c
    }
}

/// What ends a record: the end of its line, then any blank lines.
pub open spec fn record_end(s: Seq<char>, c: Cursor) -> Cursor {
    blank_lines(s, line_end(s, c))
}

/// A `"`-delimited string without escape sequences: everything up to the
/// next `"`.
pub open spec fn quoted(s: Seq<char>, c: Cursor) -> (Seq<char>, Cursor) {
    let close = run_end(s, c.at + 1, Class::Quoted);
    if !c.ok() {
        (Seq::empty(), c)
    } else if !sees(s, c.at, '"') {
        (Seq::empty(), Cursor::fail(c.at, Expected::Quote))
    } else if close >= s.len() {
        (Seq::empty(), Cursor::fail(close, Expected::ClosingQuote))
    } else {
        (s.subrange(c.at + 1, close), Cursor::new(close + 1))
    }
}

/// The value of one decimal digit.
pub open spec fn digit_value(c: char) -> int {
    c as int - '0' as int
}

/// The number that a string of decimal digits denotes.
pub open spec fn number_value(digits: Seq<char>) -> int
    decreases digits.len(),
{
    if digits.len() == 0 {
        0
    } else {
        number_value(digits.drop_last()) * 10 + digit_value(digits.last())
    }
}

/// An unsigned integer: one or more digits whose value is at most `max`.
pub open spec fn unsigned(s: Seq<char>, c: Cursor, max: int) -> (int, Cursor) {
    let end = run_end(s, c.at, Class::Digit);
    let value = number_value(s.subrange(c.at, end));
    if !c.ok() {
        (0, c)
    } else if end <= c.at {
        (0, Cursor::fail(c.at, Expected::Digit))
    } else if value > max {
        (0, Cursor::fail(c.at, Expected::InRange))
    } else {
        (value, Cursor::new(end))
    }
}

/// A signed integer: an optional `-`, then the magnitude as an unsigned
/// integer of at most `i32::MAX`, negated where the `-` was there.
pub open spec fn signed(s: Seq<char>, c: Cursor) -> (int, Cursor) {
    let negative = sees(s, c.at, '-');
    let digits = Cursor::new(if negative { c.at + 1 } else { c.at });
    let (magnitude, after) = unsigned(s, digits, i32::MAX as int);
    if !c.ok() {
        (0, c)
    } else {
        (if negative { -magnitude } else { magnitude }, after)
    }
}

/// Where the mantissa of a number that starts at `from` ends: digits with
/// an optional `.` and more digits, or `.` and at least one digit.
pub open spec fn mantissa_end(s: Seq<char>, from: int) -> Option<int> {
    let whole = run_end(s, from, Class::Digit);
    if whole > from {
        if sees(s, whole, '.') {
            Some(run_end(s, whole + 1, Class::Digit))
        } else {
            Some(whole)
        }
    } else if sees(s, from, '.') && run_end(s, from + 1, Class::Digit) > from + 1 {
        Some(run_end(s, from + 1, Class::Digit))
    } else {
        None
    }
}

/// Where the exponent that starts at `from` ends: `e` or `E`, an optional
/// sign, at least one digit. Where no such exponent stands, `from` itself.
pub open spec fn exponent_end(s: Seq<char>, from: int) -> int {
    let digits = if sees(s, from + 1, '+') || sees(s, from + 1, '-') {
        from + 2
    } else {
        from + 1
    };
    if (sees(s, from, 'e') || sees(s, from, 'E')) && run_end(s, digits, Class::Digit) > digits {
        run_end(s, digits, Class::Digit)
    } else {
        from
    }
}

/// Where the unsigned number that starts at `from` ends, if one starts
/// there.
pub open spec fn number_end(s: Seq<char>, from: int) -> Option<int> {
    match mantissa_end(s, from) {
        Some(m) => Some(exponent_end(s, m)),
        None => None,
    }
}

/// A signed number at `at`: an optional `-`, then an unsigned number,
/// which is kept apart from the sign.
#[verifier::opaque]
pub open spec fn decimal_at(s: Seq<char>, at: int) -> (DecimalView, Cursor) {
    let negative = sees(s, at, '-');
    let from = if negative { at + 1 } else { at };
    match number_end(s, from) {
        Some(end) => (DecimalView { negative, literal: s.subrange(from, end) }, Cursor::new(end)),
        None => (
            DecimalView { negative: false, literal: Seq::empty() },
            Cursor::fail(from, Expected::Number),
        ),
    }
}

/// A signed number.
pub open spec fn decimal(s: Seq<char>, c: Cursor) -> (DecimalView, Cursor) {
    if c.ok() {
        decimal_at(s, c.at)
    } else {
        (DecimalView { negative: false, literal: Seq::empty() }, c)
    }
}

/// A number of at least two digits is ten times the number before its last
/// digit, plus that digit.
pub proof fn lemma_number_value_step(s: Seq<char>, from: int, to: int)
    requires
        0 <= from <= to < s.len(),
    ensures
        number_value(s.subrange(from, to + 1)) == number_value(s.subrange(from, to)) * 10
            + digit_value(s[to]),
{
    assert(s.subrange(from, to + 1).drop_last() =~= s.subrange(from, to));
}

/// More digits never denote a smaller number.
pub proof fn lemma_number_value_grows(s: Seq<char>, from: int, mid: int, to: int)
    requires
        0 <= from <= mid <= to <= s.len(),
        forall|i: int| from <= i < to ==> Class::Digit.holds(#[trigger] s[i]),
    ensures
        0 <= number_value(s.subrange(from, mid)) <= number_value(s.subrange(from, to)),
    decreases to - from,
{
    if from < to {
        lemma_number_value_grows(s, from, if mid < to { mid } else { to - 1 }, to - 1);
        lemma_number_value_step(s, from, to - 1);
        if mid == to {
            lemma_number_value_grows(s, from, to - 1, to - 1);
        }
    } else {
        assert(s.subrange(from, mid) =~= s.subrange(from, to));
    }
}

/// `String::push` of the standard library: the string afterwards is the
/// string before with `c` appended, and nothing else.
pub assume_specification[ String::push ](s: &mut String, c: char)
    ensures
        final(s)@ == old(s)@.push(c),
;

/// Copies the characters of `input` from `from` up to `to` into a string.
pub fn collect(input: &[char], from: usize, to: usize) -> (r: String)
    requires
        from <= to <= input.len(),
    ensures
        r@ == input@.subrange(from as int, to as int),
{
    let mut out = String::new();
    let mut i: usize = from;
    while i < to
        invariant
            from <= i <= to <= input.len(),
            out@ == input@.subrange(from as int, i as int),
        decreases to - i,
    {
        out.push(input[i]);
        assert(input@.subrange(from as int, i as int).push(input@[i as int])
            =~= input@.subrange(from as int, i + 1));
        i += 1;
    }
    out
}

/// Skips zero or more spaces and tabs.
pub fn skip_space(input: &[char], pos: usize) -> (next: usize)
    requires
        pos <= input.len(),
    ensures
        Cursor::new(next as int) == spaces(input@, Cursor::new(pos as int)),
        pos <= next <= input.len(),
{
    scan(input, pos, Class::Space)
}

/// Reads the separator between two fields.
pub fn expect_separator(input: &[char], pos: usize) -> (r: Result<usize, SyntaxError>)
    requires
        pos <= input.len(),
    ensures
        lands(input@, r, separator(input@, Cursor::new(pos as int))),
        r matches Ok(next) ==> pos < next <= input.len(),
{
    let end = scan(input, pos, Class::Space);
    if end > pos {
        Ok(end)
    } else {
        Err(SyntaxError { expected: Expected::Space, offset: pos })
    }
}

/// Reads the keyword `k`.
pub fn expect_keyword(input: &[char], pos: usize, k: Keyword) -> (r: Result<usize, SyntaxError>)
    requires
        pos <= input.len(),
    ensures
        lands(input@, r, keyword(input@, Cursor::new(pos as int), k)),
        r matches Ok(next) ==> pos <= next <= input.len(),
{
    reveal(has_at);
    let word = k.as_str();
    let n = word.unicode_len();
    if n > input.len() - pos {
        return Err(SyntaxError { expected: Expected::Keyword(k), offset: pos });
    }
    let mut i: usize = 0;
    while i < n
        invariant
            i <= n,
            n == word@.len(),
            word@ == k.text(),
            pos + n <= input.len(),
            forall|j: int| 0 <= j < i ==> input@[pos + j] == word@[j],
        decreases n - i,
    {
        if input[pos + i] != word.get_char(i) {
            reveal(has_at);
            assert(input@.subrange(pos as int, pos + n)[i as int] != word@[i as int]);
            return Err(SyntaxError { expected: Expected::Keyword(k), offset: pos });
        }
        i += 1;
    }
    assert(input@.subrange(pos as int, pos + n) =~= word@);
    Ok(pos + n)
}

/// Reads the end of a line: optional spaces, an optional comment, then
/// exactly one line terminator.
pub fn skip_optional_trailing_comment_and_newline(input: &[char], pos: usize) -> (r: Result<
    usize,
    SyntaxError,
>)
    requires
        pos <= input.len(),
    ensures
        lands(input@, r, line_end(input@, Cursor::new(pos as int))),
        r matches Ok(next) ==> pos < next <= input.len(),
{
    let after_spaces = scan(input, pos, Class::Space);
    let at = if peek(input, after_spaces, '/') && peek(input, after_spaces + 1, '/') {
        scan(input, after_spaces + 2, Class::Comment)
    } else {
        after_spaces
    };
    if peek(input, at, '\r') && peek(input, at + 1, '\n') {
        Ok(at + 2)
    } else if peek(input, at, '\n') || peek(input, at, '\r') {
        Ok(at + 1)
    } else {
        Err(SyntaxError { expected: Expected::LineEnd, offset: at })
    }
}

/// Skips zero or more blank or comment-only lines.
pub fn skip_blank_lines(input: &[char], pos: usize) -> (next: usize)
    requires
        pos <= input.len(),
    ensures
        Cursor::new(next as int) == blank_lines(input@, Cursor::new(pos as int)),
        pos <= next <= input.len(),
{
    let mut at: usize = pos;
    loop
        invariant
            pos <= at <= input.len(),
            blank_lines(input@, Cursor::new(pos as int)) == blank_lines(
                input@,
                Cursor::new(at as int),
            ),
        decreases input.len() - at,
    {
        match skip_optional_trailing_comment_and_newline(input, at) {
            Ok(next) => {
                at = next;
            },
            Err(_) => {
                return at;
            },
        }
    }
}

/// Reads what ends a record: the end of its line, then any blank lines.
pub fn expect_record_end(input: &[char], pos: usize) -> (r: Result<usize, SyntaxError>)
    requires
        pos <= input.len(),
    ensures
        lands(input@, r, record_end(input@, Cursor::new(pos as int))),
        r matches Ok(next) ==> pos < next <= input.len(),
{
    match skip_optional_trailing_comment_and_newline(input, pos) {
        Ok(next) => Ok(skip_blank_lines(input, next)),
        Err(e) => {
            assert(blank_lines(input@, line_end(input@, Cursor::new(pos as int))) == line_end(
                input@,
                Cursor::new(pos as int),
            ));
            Err(e)
        },
    }
}

/// Reads a quoted string and returns what stands between the quotes.
pub fn quoted_string(input: &[char], pos: usize) -> (r: Result<(String, usize), SyntaxError>)
    requires
        pos <= input.len(),
    ensures
        lands(input@, position(r), quoted(input@, Cursor::new(pos as int)).1),
        r matches Ok((text, next)) ==> text@ == quoted(input@, Cursor::new(pos as int)).0 && pos
            < next <= input.len(),
{
    if !peek(input, pos, '"') {
        return Err(SyntaxError { expected: Expected::Quote, offset: pos });
    }
    let close = scan(input, pos + 1, Class::Quoted);
    if close >= input.len() {
        return Err(SyntaxError { expected: Expected::ClosingQuote, offset: close });
    }
    Ok((collect(input, pos + 1, close), close + 1))
}

/// Reads an unsigned integer of at most `max`. Digits whose value is larger
/// are an error, not a wrapped value.
pub fn unsigned_integer(input: &[char], pos: usize, max: u32) -> (r: Result<
    (u32, usize),
    SyntaxError,
>)
    requires
        pos <= input.len(),
    ensures
        lands(input@, position(r), unsigned(input@, Cursor::new(pos as int), max as int).1),
        r matches Ok((value, next)) ==> value == unsigned(
            input@,
            Cursor::new(pos as int),
            max as int,
        ).0 && value <= max && pos < next <= input.len(),
{
    let end = scan(input, pos, Class::Digit);
    if end == pos {
        return Err(SyntaxError { expected: Expected::Digit, offset: pos });
    }
    proof {
        lemma_run_end(input@, pos as int, Class::Digit);
    }
    let mut value: u32 = 0;
    let mut i: usize = pos;
    assert(input@.subrange(pos as int, pos as int) =~= Seq::<char>::empty());
    while i < end
        invariant
            pos <= i <= end <= input.len(),
            value == number_value(input@.subrange(pos as int, i as int)),
            value <= max,
            end == run_end(input@, pos as int, Class::Digit),
            forall|j: int| pos <= j < end ==> Class::Digit.holds(#[trigger] input@[j]),
        decreases end - i,
    {
        let digit: u64 = (input[i] as u32 - '0' as u32) as u64;
        let grown: u64 = value as u64 * 10 + digit;
        proof {
            lemma_number_value_step(input@, pos as int, i as int);
        }
        if grown > max as u64 {
            proof {
                lemma_number_value_grows(input@, pos as int, i + 1, end as int);
            }
            return Err(SyntaxError { expected: Expected::InRange, offset: pos });
        }
        value = grown as u32;
        i += 1;
    }
    Ok((value, end))
}

/// Reads a signed integer: an optional `-`, then the magnitude, which is
/// negated after it has been read.
pub fn signed_integer(input: &[char], pos: usize) -> (r: Result<(i32, usize), SyntaxError>)
    requires
        pos <= input.len(),
    ensures
        lands(input@, position(r), signed(input@, Cursor::new(pos as int)).1),
        r matches Ok((value, next)) ==> value == signed(input@, Cursor::new(pos as int)).0 && pos
            < next <= input.len(),
{
    let negative = peek(input, pos, '-');
    let from = if negative { pos + 1 } else { pos };
    match unsigned_integer(input, from, 0x7fff_ffff) {
        Ok((magnitude, next)) => {
            let value: i32 = if negative { -(magnitude as i32) } else { magnitude as i32 };
            Ok((value, next))
        },
        Err(e) => Err(e),
    }
}

/// Finds where the unsigned number that starts at `from` ends.
pub fn number_extent(input: &[char], from: usize) -> (r: Option<usize>)
    requires
        from <= input.len(),
    ensures
        match r {
            Some(end) => number_end(input@, from as int) == Some(end as int) && from < end
                <= input.len(),
            None => number_end(input@, from as int) is None,
        },
{
    let whole = scan(input, from, Class::Digit);
    let mantissa = if whole > from {
        if peek(input, whole, '.') {
            scan(input, whole + 1, Class::Digit)
        } else {
            whole
        }
    } else if peek(input, from, '.') {
        let fraction = scan(input, from + 1, Class::Digit);
        if fraction > from + 1 {
            fraction
        } else {
            return None;
        }
    } else {
        return None;
    };
    if peek(input, mantissa, 'e') || peek(input, mantissa, 'E') {
        let digits = if peek(input, mantissa + 1, '+') || peek(input, mantissa + 1, '-') {
            mantissa + 2
        } else {
            mantissa + 1
        };
        let end = scan(input, digits, Class::Digit);
        if end > digits {
            return Some(end);
        }
    }
    Some(mantissa)
}

/// Reads a signed number: an optional `-`, then the magnitude, which is kept
/// as written.
pub fn signed_float(input: &[char], pos: usize) -> (r: Result<(Decimal, usize), SyntaxError>)
    requires
        pos <= input.len(),
    ensures
        lands(input@, position(r), decimal(input@, Cursor::new(pos as int)).1),
        r matches Ok((value, next)) ==> value@ == decimal(input@, Cursor::new(pos as int)).0
            && pos < next <= input.len(),
{
    reveal(decimal_at);
    let negative = peek(input, pos, '-');
    let from = if negative { pos + 1 } else { pos };
    match number_extent(input, from) {
        Some(end) => Ok((Decimal { negative, literal: collect(input, from, end) }, end)),
        None => Err(SyntaxError { expected: Expected::Number, offset: from }),
    }
}

/// A keyword, a separator and an unsigned integer of 32 bits.
pub open spec fn count_field(s: Seq<char>, c: Cursor, k: Keyword) -> (int, Cursor) {
    unsigned(s, separator(s, keyword(s, c, k)), u32::MAX as int)
}

/// A keyword, a separator and a quoted string.
pub open spec fn string_field(s: Seq<char>, c: Cursor, k: Keyword) -> (Seq<char>, Cursor) {
    quoted(s, separator(s, keyword(s, c, k)))
}

/// Reads a keyword, a separator and an unsigned integer of 32 bits.
pub fn read_count_field(input: &[char], pos: usize, k: Keyword) -> (r: Result<
    (u32, usize),
    SyntaxError,
>)
    requires
        pos <= input.len(),
    ensures
        lands(input@, position(r), count_field(input@, Cursor::new(pos as int), k).1),
        r matches Ok((value, next)) ==> value == count_field(input@, Cursor::new(pos as int), k).0
            && pos < next <= input.len(),
{
    let word = expect_keyword(input, pos, k)?;
    unsigned_integer(input, expect_separator(input, word)?, u32::MAX)
}

/// Reads a keyword, a separator and a quoted string.
pub fn read_string_field(input: &[char], pos: usize, k: Keyword) -> (r: Result<
    (String, usize),
    SyntaxError,
>)
    requires
        pos <= input.len(),
    ensures
        lands(input@, position(r), string_field(input@, Cursor::new(pos as int), k).1),
        r matches Ok((text, next)) ==> text@ == string_field(input@, Cursor::new(pos as int), k).0
            && pos < next <= input.len(),
{
    let word = expect_keyword(input, pos, k)?;
    quoted_string(input, expect_separator(input, word)?)
}

} // verus!
