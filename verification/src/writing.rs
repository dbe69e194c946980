//! The text of a scene, written out in one plain way, and the proof that
//! the grammar reads it back: what is written from a scene is a document
//! that describes this scene and no other.
use vstd::prelude::*;
use crate::error::{Keyword, ParseError};
use crate::geometry::{pair, triple};
use crate::header::{count_line, header, optional_line_end, string_line};
use crate::joints::{joint_fields, joint_record, joint_records, joints};
use crate::lexical::{
    blank_lines, count_field, decimal, decimal_at, digit_value, has_at, keyword, lemma_run_end,
    lemma_run_end_is, line_end, number_end, number_value, quoted, record_end, run_end, sees,
    separator, signed, spaces, string_field, unsigned, Class, Cursor,
};
use crate::locality::{
    ends_joints, ends_number, lemma_blank_lines_moved, lemma_count_field_moved,
    lemma_count_line_moved, lemma_decimal_moved, lemma_header_moved, lemma_joint_record_moved,
    lemma_joints_moved, lemma_keyword_moved, lemma_keyword_shape, lemma_keyword_starts_line,
    lemma_list_moved, lemma_mesh_block_moved, lemma_number_moved, lemma_optional_line_end_bounds,
    lemma_quoted_moved, lemma_record_end_moved, lemma_record_end_sticky, lemma_record_moved,
    lemma_separator_moved, lemma_signed_moved, lemma_solid_halts, lemma_spaces_moved,
    lemma_string_field_moved, lemma_string_line_moved, lemma_triple_moved, lemma_unsigned_moved,
    same_text, solid, stops,
};
use crate::mesh::{counted, lemma_list_sticky, list, mesh, record, Record};
use crate::model::{DecimalView, HeaderView, JointView, MeshView, SceneView, Tri, Vert, Weight};
use crate::scene::{document, lemma_declared_counts_kept, mesh_block, meshes, parses_to};

verus! {

/// The character that writes the digit `d`.
pub open spec fn digit_char(d: int) -> char {
    (d + '0' as int) as char
}

/// The decimal digits of `n`, without leading zeros.
pub open spec fn digits_of(n: nat) -> Seq<char>
    decreases n,
{
    if n < 10 {
        seq![digit_char(n as int)]
    } else {
        digits_of(n / 10).push(digit_char((n % 10) as int))
    }
}

/// An integer as the format writes it: a `-` where it is negative, then
/// the digits of its magnitude.
pub open spec fn integer_text(i: int) -> Seq<char> {
    if i < 0 {
        seq!['-'] + digits_of((-i) as nat)
    } else {
        digits_of(i as nat)
    }
}

/// A string between quotes.
pub open spec fn quoted_text(t: Seq<char>) -> Seq<char> {
    seq!['"'] + (t + seq!['"'])
}

/// A number as the format writes it: a `-` where it is negative, then its
/// magnitude as it was written.
pub open spec fn decimal_text(v: DecimalView) -> Seq<char> {
    if v.negative {
        seq!['-'] + v.literal
    } else {
        v.literal
    }
}

/// `true` where `t` can stand between quotes: it holds no `"`.
pub open spec fn quote_free(t: Seq<char>) -> bool {
    forall|i: int| 0 <= i < t.len() ==> #[trigger] t[i] != '"'
}

/// `true` where `t` is an unsigned number of the format, whole.
pub open spec fn is_number(t: Seq<char>) -> bool {
    number_end(t, 0) == Some(t.len() as int)
}

/// A text that stands somewhere stands there part by part.
pub proof fn lemma_has_at_split(s: Seq<char>, p: int, a: Seq<char>, b: Seq<char>)
    requires
        has_at(s, p, a + b),
    ensures
        has_at(s, p, a),
        has_at(s, p + a.len(), b),
        p + a.len() + b.len() <= s.len(),
{
    reveal(has_at);
    let whole = s.subrange(p, p + (a + b).len());
    assert(s.subrange(p, p + a.len()) =~= a) by {
        assert forall|i: int| 0 <= i < a.len() implies s.subrange(p, p + a.len())[i] == a[i] by {
            assert(whole[i] == (a + b)[i]);
        }
    }
    assert(s.subrange(p + a.len(), p + a.len() + b.len()) =~= b) by {
        assert forall|i: int| 0 <= i < b.len() implies s.subrange(
            p + a.len(),
            p + a.len() + b.len(),
        )[i] == b[i] by {
            assert(whole[a.len() + i] == (a + b)[a.len() + i]);
        }
    }
}

/// A text that stands somewhere stands inside the document.
pub proof fn lemma_has_at_bounds(s: Seq<char>, p: int, t: Seq<char>)
    requires
        has_at(s, p, t),
    ensures
        0 <= p,
        p + t.len() <= s.len(),
{
    reveal(has_at);
}

/// A text that stands somewhere puts its characters there.
pub proof fn lemma_has_at_char(s: Seq<char>, p: int, t: Seq<char>, i: int)
    requires
        has_at(s, p, t),
        0 <= i < t.len(),
    ensures
        0 <= p,
        p + i < s.len(),
        s[p + i] == t[i],
{
    reveal(has_at);
    assert(s.subrange(p, p + t.len())[i] == t[i]);
}

/// A text that stands in a document is the same text as the document's
/// there.
pub proof fn lemma_has_at_same_text(s: Seq<char>, p: int, t: Seq<char>)
    requires
        has_at(s, p, t),
    ensures
        same_text(t, s, p, 0, t.len() as int),
{
    lemma_has_at_bounds(s, p, t);
    assert forall|i: int| 0 <= i < t.len() implies #[trigger] t[i] == s[i + p] by {
        lemma_has_at_char(s, p, t, i);
    }
}

/// The digits of a number are digits, at least one, and denote the number.
pub proof fn lemma_digits_of(n: nat)
    ensures
        digits_of(n).len() >= 1,
        forall|i: int|
            0 <= i < digits_of(n).len() ==> Class::Digit.holds(#[trigger] digits_of(n)[i]),
        number_value(digits_of(n)) == n,
    decreases n,
{
    if n < 10 {
        assert(digits_of(n).drop_last() =~= Seq::<char>::empty());
        assert(number_value(digits_of(n)) == number_value(digits_of(n).drop_last()) * 10
            + digit_value(digits_of(n).last()));
    } else {
        lemma_digits_of(n / 10);
        assert(digits_of(n).drop_last() =~= digits_of(n / 10));
        assert(number_value(digits_of(n)) == number_value(digits_of(n).drop_last()) * 10
            + digit_value(digits_of(n).last()));
    }
}

/// The digits of a number, with no digit behind them, are read as the
/// number.
pub proof fn lemma_digits_read(s: Seq<char>, p: int, n: nat, max: int)
    requires
        has_at(s, p, digits_of(n)),
        stops(s, p + digits_of(n).len(), Class::Digit),
        n <= max,
    ensures
        unsigned(s, Cursor::new(p), max) == (n as int, Cursor::new(p + digits_of(n).len())),
{
    let t = digits_of(n);
    lemma_digits_of(n);
    lemma_has_at_bounds(s, p, t);
    assert(s.subrange(p, p + t.len()) == t) by {
        reveal(has_at);
    }
    assert forall|i: int| p <= i < p + t.len() implies Class::Digit.holds(#[trigger] s[i]) by {
        lemma_has_at_char(s, p, t, i - p);
    }
    lemma_run_end_is(s, p, Class::Digit, p + t.len());
}

/// An integer as written, with no digit behind it, is read as the integer.
pub proof fn lemma_integer_read(s: Seq<char>, p: int, i: int)
    requires
        has_at(s, p, integer_text(i)),
        stops(s, p + integer_text(i).len(), Class::Digit),
        -(i32::MAX as int) <= i <= i32::MAX as int,
    ensures
        signed(s, Cursor::new(p)) == (i, Cursor::new(p + integer_text(i).len())),
{
    if i < 0 {
        let n = (-i) as nat;
        lemma_has_at_split(s, p, seq!['-'], digits_of(n));
        lemma_has_at_char(s, p, seq!['-'], 0);
        lemma_digits_read(s, p + 1, n, i32::MAX as int);
    } else {
        lemma_digits_of(i as nat);
        lemma_has_at_char(s, p, digits_of(i as nat), 0);
        lemma_digits_read(s, p, i as nat, i32::MAX as int);
    }
}

/// A string as written between quotes is read as the string.
pub proof fn lemma_quoted_read(s: Seq<char>, p: int, t: Seq<char>)
    requires
        has_at(s, p, quoted_text(t)),
        quote_free(t),
    ensures
        quoted(s, Cursor::new(p)) == (t, Cursor::new(p + t.len() + 2)),
{
    lemma_has_at_split(s, p, seq!['"'], t + seq!['"']);
    lemma_has_at_split(s, p + 1, t, seq!['"']);
    assert(s.subrange(p + 1, p + 1 + t.len()) == t) by {
        reveal(has_at);
    }
    lemma_has_at_char(s, p, seq!['"'], 0);
    lemma_has_at_char(s, p + 1 + t.len(), seq!['"'], 0);
    assert forall|i: int| p + 1 <= i < p + 1 + t.len() implies Class::Quoted.holds(
        #[trigger] s[i],
    ) by {
        lemma_has_at_char(s, p + 1, t, i - p - 1);
    }
    lemma_run_end_is(s, p + 1, Class::Quoted, p + 1 + t.len());
}

/// A number as written, with nothing behind it that goes on with a number,
/// is read as the number.
pub proof fn lemma_decimal_read(s: Seq<char>, p: int, v: DecimalView)
    requires
        has_at(s, p, decimal_text(v)),
        is_number(v.literal),
        ends_number(s, p + decimal_text(v).len()),
    ensures
        decimal(s, Cursor::new(p)) == (v, Cursor::new(p + decimal_text(v).len())),
        decimal_text(v).len() >= 1,
        !Class::Space.holds(decimal_text(v)[0]),
{
    reveal(decimal_at);
    let from = if v.negative { p + 1 } else { p };
    if v.negative {
        lemma_has_at_split(s, p, seq!['-'], v.literal);
        lemma_has_at_char(s, p, seq!['-'], 0);
    }
    lemma_number_moved(v.literal, s, from, 0);
    lemma_has_at_same_text(s, from, v.literal);
    lemma_has_at_char(s, from, v.literal, 0);
    assert(s.subrange(from, from + v.literal.len()) == v.literal);
}


/// One space between two fields is read as their separator.
pub proof fn lemma_space_read(s: Seq<char>, q: int, rest: Seq<char>)
    requires
        has_at(s, q, seq![' '] + rest),
        rest.len() >= 1,
        !Class::Space.holds(rest[0]),
    ensures
        separator(s, Cursor::new(q)) == Cursor::new(q + 1),
        spaces(s, Cursor::new(q)) == Cursor::new(q + 1),
        has_at(s, q + 1, rest),
        stops(s, q, Class::Digit),
        ends_number(s, q),
{
    lemma_has_at_split(s, q, seq![' '], rest);
    lemma_has_at_char(s, q, seq![' '], 0);
    lemma_has_at_char(s, q + 1, rest, 0);
    lemma_run_end_is(s, q, Class::Space, q + 1);
}

/// One tab before the first field of a record is read as its indentation.
pub proof fn lemma_tab_read(s: Seq<char>, q: int, rest: Seq<char>)
    requires
        has_at(s, q, seq!['\t'] + rest),
        rest.len() >= 1,
        !Class::Space.holds(rest[0]),
    ensures
        run_end(s, q, Class::Space) == q + 1,
        spaces(s, Cursor::new(q)) == Cursor::new(q + 1),
        has_at(s, q + 1, rest),
        s[q + 1] == rest[0],
{
    lemma_has_at_split(s, q, seq!['\t'], rest);
    lemma_has_at_char(s, q, seq!['\t'], 0);
    lemma_has_at_char(s, q + 1, rest, 0);
    lemma_run_end_is(s, q, Class::Space, q + 1);
}

/// A `\n` is read as the end of a line, and as the end of a record where
/// no blank line follows.
pub proof fn lemma_newline_read(s: Seq<char>, q: int, rest: Seq<char>)
    requires
        has_at(s, q, seq!['\n'] + rest),
    ensures
        line_end(s, Cursor::new(q)) == Cursor::new(q + 1),
        solid(s, q + 1) ==> record_end(s, Cursor::new(q)) == Cursor::new(q + 1),
        has_at(s, q + 1, rest),
        stops(s, q, Class::Digit),
        ends_number(s, q),
{
    lemma_has_at_split(s, q, seq!['\n'], rest);
    lemma_has_at_char(s, q, seq!['\n'], 0);
    lemma_run_end(s, q, Class::Space);
    if solid(s, q + 1) {
        lemma_solid_halts(s, q + 1);
    }
}

/// `true` where `c` is the first character of a keyword.
pub open spec fn opens_keyword(c: char) -> bool {
    exists|k: Keyword| c == #[trigger] k.text()[0]
}

/// `true` where `t` starts as the lines of a written document start:
/// with a keyword, or with a tab and then a keyword or a `"`.
pub open spec fn starts_line(t: Seq<char>) -> bool {
    &&& t.len() >= 1
    &&& opens_keyword(t[0]) || (t.len() >= 2 && t[0] == '\t' && (t[1] == '"' || opens_keyword(
        t[1],
    )))
}

/// Where a line starts as the lines of a written document start, no blank
/// line starts.
pub proof fn lemma_line_start_solid(s: Seq<char>, q: int, t: Seq<char>)
    requires
        has_at(s, q, t),
        starts_line(t),
    ensures
        solid(s, q),
        t[0] != '\t' ==> run_end(s, q, Class::Space) == q,
        t[0] == '\t' ==> run_end(s, q, Class::Space) == q + 1,
{
    lemma_has_at_char(s, q, t, 0);
    if opens_keyword(t[0]) {
        let k = choose|k: Keyword| t[0] == #[trigger] k.text()[0];
        lemma_keyword_shape(k);
        lemma_run_end_is(s, q, Class::Space, q);
    } else {
        lemma_has_at_char(s, q, t, 1);
        if t[1] != '"' {
            let k = choose|k: Keyword| t[1] == #[trigger] k.text()[0];
            lemma_keyword_shape(k);
        }
        lemma_run_end_is(s, q, Class::Space, q + 1);
    }
}

/// A keyword that stands somewhere is read there.
pub proof fn lemma_keyword_read(s: Seq<char>, p: int, k: Keyword)
    requires
        has_at(s, p, k.text()),
    ensures
        keyword(s, Cursor::new(p), k) == Cursor::new(p + k.text().len()),
        k.text().len() >= 1,
        !Class::Space.holds(k.text()[0]),
{
    lemma_keyword_shape(k);
}

/// The numbers of a vector can all be written.
pub open spec fn numbers(v: Seq<DecimalView>, n: nat) -> bool {
    v.len() == n && forall|i: int| 0 <= i < v.len() ==> is_number(#[trigger] v[i].literal)
}

/// A vector of two numbers: `( x y )`.
pub open spec fn pair_text(v: Seq<DecimalView>) -> Seq<char> {
    Keyword::OpenParen.text() + (seq![' '] + (decimal_text(v[0]) + (seq![' '] + (decimal_text(v[1])
        + (seq![' '] + Keyword::CloseParen.text())))))
}

/// A vector of three numbers: `( x y z )`.
pub open spec fn triple_text(v: Seq<DecimalView>) -> Seq<char> {
    Keyword::OpenParen.text() + (seq![' '] + (decimal_text(v[0]) + (seq![' '] + (decimal_text(v[1])
        + (seq![' '] + (decimal_text(v[2]) + (seq![' '] + Keyword::CloseParen.text())))))))
}

/// A number as written, and the space behind it, are read as the number
/// and a separator.
pub proof fn lemma_number_and_space_read(s: Seq<char>, p: int, v: DecimalView, rest: Seq<char>)
    requires
        has_at(s, p, decimal_text(v) + (seq![' '] + rest)),
        is_number(v.literal),
        rest.len() >= 1,
        !Class::Space.holds(rest[0]),
    ensures
        decimal(s, Cursor::new(p)) == (v, Cursor::new(p + decimal_text(v).len())),
        separator(s, Cursor::new(p + decimal_text(v).len())) == Cursor::new(
            p + decimal_text(v).len() + 1,
        ),
        spaces(s, Cursor::new(p + decimal_text(v).len())) == Cursor::new(
            p + decimal_text(v).len() + 1,
        ),
        has_at(s, p + decimal_text(v).len() + 1, rest),
        decimal_text(v).len() >= 1,
        !Class::Space.holds(decimal_text(v)[0]),
{
    lemma_has_at_split(s, p, decimal_text(v), seq![' '] + rest);
    lemma_space_read(s, p + decimal_text(v).len(), rest);
    lemma_decimal_read(s, p, v);
}

/// A number can be written: its text is not empty and starts with no
/// space.
pub proof fn lemma_decimal_text(v: DecimalView)
    requires
        is_number(v.literal),
    ensures
        decimal_text(v).len() >= 1,
        !Class::Space.holds(decimal_text(v)[0]),
{
    lemma_number_moved(v.literal, v.literal, 0, 0);
}

/// A vector of two numbers as written is read back as it was.
pub proof fn lemma_pair_read(s: Seq<char>, p: int, v: Seq<DecimalView>)
    requires
        has_at(s, p, pair_text(v)),
        numbers(v, 2),
    ensures
        pair(s, Cursor::new(p)) == (v, Cursor::new(p + pair_text(v).len())),
        pair_text(v).len() >= 1,
        pair_text(v)[0] == '(',
{
    reveal_strlit("(");
    reveal_strlit(")");
    let close = Keyword::CloseParen.text();
    let t2 = seq![' '] + close;
    let t1 = decimal_text(v[1]) + t2;
    let t0 = decimal_text(v[0]) + (seq![' '] + t1);
    lemma_decimal_text(v[0]);
    lemma_decimal_text(v[1]);
    lemma_has_at_split(s, p, Keyword::OpenParen.text(), seq![' '] + t0);
    lemma_keyword_read(s, p, Keyword::OpenParen);
    lemma_space_read(s, p + 1, t0);
    let at0 = p + 2;
    lemma_number_and_space_read(s, at0, v[0], t1);
    let at1 = at0 + decimal_text(v[0]).len() + 1;
    lemma_number_and_space_read(s, at1, v[1], close);
    let at2 = at1 + decimal_text(v[1]).len() + 1;
    lemma_keyword_read(s, at2, Keyword::CloseParen);
    assert(seq![v[0], v[1]] =~= v);
}

/// A vector of three numbers as written is read back as it was.
pub proof fn lemma_triple_read(s: Seq<char>, p: int, v: Seq<DecimalView>)
    requires
        has_at(s, p, triple_text(v)),
        numbers(v, 3),
    ensures
        triple(s, Cursor::new(p)) == (v, Cursor::new(p + triple_text(v).len())),
        triple_text(v).len() >= 1,
        triple_text(v)[0] == '(',
{
    reveal_strlit("(");
    reveal_strlit(")");
    let close = Keyword::CloseParen.text();
    let t2 = decimal_text(v[2]) + (seq![' '] + close);
    let t1 = decimal_text(v[1]) + (seq![' '] + t2);
    let t0 = decimal_text(v[0]) + (seq![' '] + t1);
    lemma_decimal_text(v[0]);
    lemma_decimal_text(v[1]);
    lemma_decimal_text(v[2]);
    lemma_has_at_split(s, p, Keyword::OpenParen.text(), seq![' '] + t0);
    lemma_keyword_read(s, p, Keyword::OpenParen);
    lemma_space_read(s, p + 1, t0);
    let at0 = p + 2;
    lemma_number_and_space_read(s, at0, v[0], t1);
    let at1 = at0 + decimal_text(v[0]).len() + 1;
    lemma_number_and_space_read(s, at1, v[1], t2);
    let at2 = at1 + decimal_text(v[1]).len() + 1;
    lemma_number_and_space_read(s, at2, v[2], close);
    let at3 = at2 + decimal_text(v[2]).len() + 1;
    lemma_keyword_read(s, at3, Keyword::CloseParen);
    assert(seq![v[0], v[1], v[2]] =~= v);
}


/// A keyword, a space and a count.
pub open spec fn count_field_text(k: Keyword, n: int) -> Seq<char> {
    k.text() + (seq![' '] + digits_of(n as nat))
}

/// A keyword, a space and a string between quotes.
pub open spec fn string_field_text(k: Keyword, t: Seq<char>) -> Seq<char> {
    k.text() + (seq![' '] + quoted_text(t))
}

/// `true` where `n` fits a count of the format.
pub open spec fn is_count(n: int) -> bool {
    0 <= n <= u32::MAX
}

/// A keyword and its count as written are read back as they were.
pub proof fn lemma_count_field_read(s: Seq<char>, p: int, k: Keyword, n: int)
    requires
        has_at(s, p, count_field_text(k, n)),
        is_count(n),
        stops(s, p + count_field_text(k, n).len(), Class::Digit),
    ensures
        count_field(s, Cursor::new(p), k) == (n, Cursor::new(p + count_field_text(k, n).len())),
        count_field_text(k, n).len() >= 1,
        count_field_text(k, n)[0] == k.text()[0],
        opens_keyword(count_field_text(k, n)[0]),
{
    let digits = digits_of(n as nat);
    lemma_digits_of(n as nat);
    lemma_has_at_split(s, p, k.text(), seq![' '] + digits);
    lemma_keyword_read(s, p, k);
    lemma_space_read(s, p + k.text().len(), digits);
    lemma_digits_read(s, p + k.text().len() + 1, n as nat, u32::MAX as int);
}

/// A keyword and its string as written are read back as they were.
pub proof fn lemma_string_field_read(s: Seq<char>, p: int, k: Keyword, t: Seq<char>)
    requires
        has_at(s, p, string_field_text(k, t)),
        quote_free(t),
    ensures
        string_field(s, Cursor::new(p), k) == (
            t,
            Cursor::new(p + string_field_text(k, t).len()),
        ),
        string_field_text(k, t).len() >= 1,
        string_field_text(k, t)[0] == k.text()[0],
        opens_keyword(string_field_text(k, t)[0]),
{
    lemma_has_at_split(s, p, k.text(), seq![' '] + quoted_text(t));
    lemma_keyword_read(s, p, k);
    lemma_space_read(s, p + k.text().len(), quoted_text(t));
    lemma_quoted_read(s, p + k.text().len() + 1, t);
}

/// A count as written, and the space behind it, are read as the count and
/// a separator.
pub proof fn lemma_count_and_space_read(s: Seq<char>, p: int, n: int, rest: Seq<char>)
    requires
        has_at(s, p, digits_of(n as nat) + (seq![' '] + rest)),
        is_count(n),
        rest.len() >= 1,
        !Class::Space.holds(rest[0]),
    ensures
        unsigned(s, Cursor::new(p), u32::MAX as int) == (
            n,
            Cursor::new(p + digits_of(n as nat).len()),
        ),
        separator(s, Cursor::new(p + digits_of(n as nat).len())) == Cursor::new(
            p + digits_of(n as nat).len() + 1,
        ),
        has_at(s, p + digits_of(n as nat).len() + 1, rest),
        digits_of(n as nat).len() >= 1,
        !Class::Space.holds(digits_of(n as nat)[0]),
{
    lemma_digits_of(n as nat);
    lemma_has_at_split(s, p, digits_of(n as nat), seq![' '] + rest);
    lemma_space_read(s, p + digits_of(n as nat).len(), rest);
    lemma_digits_read(s, p, n as nat, u32::MAX as int);
}

/// A vector of three numbers as written, and the space behind it, are read
/// as the vector and a separator.
pub proof fn lemma_triple_and_space_read(
    s: Seq<char>,
    p: int,
    v: Seq<DecimalView>,
    rest: Seq<char>,
)
    requires
        has_at(s, p, triple_text(v) + (seq![' '] + rest)),
        numbers(v, 3),
        rest.len() >= 1,
        !Class::Space.holds(rest[0]),
    ensures
        triple(s, Cursor::new(p)) == (v, Cursor::new(p + triple_text(v).len())),
        separator(s, Cursor::new(p + triple_text(v).len())) == Cursor::new(
            p + triple_text(v).len() + 1,
        ),
        has_at(s, p + triple_text(v).len() + 1, rest),
{
    lemma_has_at_split(s, p, triple_text(v), seq![' '] + rest);
    lemma_space_read(s, p + triple_text(v).len(), rest);
    lemma_triple_read(s, p, v);
}

/// An integer can be written: its text is not empty and starts with no
/// space.
pub proof fn lemma_integer_text(i: int)
    ensures
        integer_text(i).len() >= 1,
        !Class::Space.holds(integer_text(i)[0]),
{
    if i >= 0 {
        lemma_digits_of(i as nat);
    }
}

/// `true` where a joint with these values can be written.
pub open spec fn joint_writable(j: JointView) -> bool {
    &&& quote_free(j.name)
    &&& -(i32::MAX as int) <= j.parent_ix <= i32::MAX as int
    &&& numbers(j.position, 3)
    &&& numbers(j.orientation, 3)
}

/// The fields of a joint as they are written.
#[verifier::opaque]
pub open spec fn joint_fields_text(j: JointView) -> Seq<char> {
    quoted_text(j.name) + (seq![' '] + (integer_text(j.parent_ix) + (seq![' '] + (triple_text(
        j.position,
    ) + (seq![' '] + triple_text(j.orientation))))))
}

/// The fields of a joint as written are read back as they were.
pub proof fn lemma_joint_fields_read(s: Seq<char>, p: int, j: JointView, rest: Seq<char>)
    requires
        has_at(s, p, seq!['\t'] + (joint_fields_text(j) + (seq!['\n'] + rest))),
        joint_writable(j),
    ensures
        joint_fields(s, Cursor::new(p)) == (j, Cursor::new(p + 1 + joint_fields_text(j).len())),
        joint_fields_text(j).len() >= 1,
        joint_fields_text(j)[0] == '"',
{
    reveal(joint_fields);
    reveal(joint_fields_text);
    reveal_strlit("(");
    let t3 = triple_text(j.orientation);
    let t2 = triple_text(j.position) + (seq![' '] + t3);
    let t1 = integer_text(j.parent_ix) + (seq![' '] + t2);
    lemma_integer_text(j.parent_ix);
    lemma_keyword_shape(Keyword::OpenParen);
    lemma_tab_read(s, p, joint_fields_text(j) + (seq!['\n'] + rest));
    lemma_has_at_split(s, p + 1, joint_fields_text(j), seq!['\n'] + rest);
    let at0 = p + 1;
    lemma_has_at_split(s, at0, quoted_text(j.name), seq![' '] + t1);
    lemma_quoted_read(s, at0, j.name);
    let at1 = at0 + quoted_text(j.name).len();
    lemma_space_read(s, at1, t1);
    let at2 = at1 + 1;
    lemma_has_at_split(s, at2, integer_text(j.parent_ix), seq![' '] + t2);
    let at3 = at2 + integer_text(j.parent_ix).len();
    lemma_space_read(s, at3, t2);
    lemma_integer_read(s, at2, j.parent_ix);
    let at4 = at3 + 1;
    lemma_triple_and_space_read(s, at4, j.position, t3);
    let at5 = at4 + triple_text(j.position).len() + 1;
    lemma_triple_read(s, at5, j.orientation);
}


/// `true` where every record of the list can be written.
pub open spec fn all_writable<R: Record>(items: Seq<R::V>) -> bool {
    forall|i: int| 0 <= i < items.len() ==> R::writable(#[trigger] items[i])
}

/// One record on its line: a tab, the fields, a `\n`.
pub open spec fn record_line<R: Record>(value: R::V) -> Seq<char> {
    seq!['\t'] + (R::fields_text(value) + seq!['\n'])
}

/// The records of a list, line after line.
pub open spec fn records_text<R: Record>(items: Seq<R::V>) -> Seq<char>
    decreases items.len(),
{
    if items.len() == 0 {
        Seq::empty()
    } else {
        record_line::<R>(items[0]) + records_text::<R>(items.drop_first())
    }
}

/// A counted list as written: the line that gives the count, then the
/// records.
pub open spec fn list_text<R: Record>(items: Seq<R::V>) -> Seq<char> {
    seq!['\t'] + (count_field_text(R::count_word(), items.len() as int) + (seq!['\n']
        + records_text::<R>(items)))
}

/// The line of a record is read as the record, where no blank line
/// follows.
pub proof fn lemma_record_read<R: Record>(s: Seq<char>, p: int, value: R::V)
    requires
        has_at(s, p, record_line::<R>(value)),
        R::writable(value),
        solid(s, p + record_line::<R>(value).len()),
    ensures
        record::<R>(s, Cursor::new(p)) == (value, Cursor::new(p + record_line::<R>(value).len())),
        starts_line(record_line::<R>(value)),
{
    let fields = R::fields_text(value);
    let none = Seq::<char>::empty();
    assert(seq!['\n'] + none =~= seq!['\n']);
    R::lemma_fields_read(s, p, value, none);
    lemma_has_at_split(s, p, seq!['\t'], fields + seq!['\n']);
    lemma_has_at_split(s, p + 1, fields, seq!['\n']);
    lemma_newline_read(s, p + 1 + fields.len(), none);
}

/// A run of records as written is read back as it was.
pub proof fn lemma_counted_read<R: Record>(s: Seq<char>, p: int, items: Seq<R::V>)
    requires
        has_at(s, p, records_text::<R>(items)),
        all_writable::<R>(items),
        solid(s, p + records_text::<R>(items).len()),
    ensures
        counted::<R>(s, Cursor::new(p), items.len()) == (
            items,
            Cursor::new(p + records_text::<R>(items).len()),
        ),
        items.len() > 0 ==> starts_line(records_text::<R>(items)),
    decreases items.len(),
{
    if items.len() == 0 {
        assert(items =~= Seq::<R::V>::empty());
    } else {
        let first = items[0];
        let tail = items.drop_first();
        let line = record_line::<R>(first);
        lemma_has_at_split(s, p, line, records_text::<R>(tail));
        assert(all_writable::<R>(tail)) by {
            assert forall|i: int| 0 <= i < tail.len() implies R::writable(#[trigger] tail[i]) by {
                assert(tail[i] == items[i + 1]);
            }
        }
        lemma_counted_read::<R>(s, p + line.len(), tail);
        if tail.len() > 0 {
            lemma_line_start_solid(s, p + line.len(), records_text::<R>(tail));
        }
        lemma_record_read::<R>(s, p, first);
        assert(seq![first] + tail =~= items);
    }
}

/// A counted list as written is read back as it was.
pub proof fn lemma_list_read<R: Record>(s: Seq<char>, p: int, items: Seq<R::V>)
    requires
        has_at(s, p, list_text::<R>(items)),
        all_writable::<R>(items),
        is_count(items.len() as int),
        solid(s, p + list_text::<R>(items).len()),
    ensures
        list::<R>(s, Cursor::new(p)) == (items, Cursor::new(p + list_text::<R>(items).len())),
        starts_line(list_text::<R>(items)),
{
    reveal(list);
    let n = items.len() as int;
    let head = count_field_text(R::count_word(), n);
    let records = records_text::<R>(items);
    lemma_digits_of(n as nat);
    lemma_keyword_shape(R::count_word());
    lemma_tab_read(s, p, head + (seq!['\n'] + records));
    lemma_has_at_split(s, p + 1, head, seq!['\n'] + records);
    let q = p + 1 + head.len();
    lemma_newline_read(s, q, records);
    lemma_count_field_read(s, p + 1, R::count_word(), n);
    lemma_counted_read::<R>(s, q + 1, items);
    if items.len() > 0 {
        lemma_line_start_solid(s, q + 1, records);
    }
}

/// The joints of a skeleton, line after line.
pub open spec fn joint_lines(js: Seq<JointView>) -> Seq<char>
    decreases js.len(),
{
    if js.len() == 0 {
        Seq::empty()
    } else {
        (seq!['\t'] + (joint_fields_text(js[0]) + seq!['\n'])) + joint_lines(js.drop_first())
    }
}

/// `true` where every joint of the list can be written.
pub open spec fn joints_writable(js: Seq<JointView>) -> bool {
    forall|i: int| 0 <= i < js.len() ==> joint_writable(#[trigger] js[i])
}

/// A run of joints as written is read back as it was.
#[verifier::rlimit(50)]
pub proof fn lemma_joint_records_read(s: Seq<char>, p: int, js: Seq<JointView>)
    requires
        has_at(s, p, joint_lines(js)),
        joints_writable(js),
        ends_joints(s, p + joint_lines(js).len()),
    ensures
        joint_records(s, Cursor::new(p)) == (js, Cursor::new(p + joint_lines(js).len())),
        js.len() > 0 ==> starts_line(joint_lines(js)),
    decreases js.len(),
{
    if js.len() == 0 {
        assert(js =~= Seq::<JointView>::empty());
    } else {
        let first = js[0];
        let tail = js.drop_first();
        let fields = joint_fields_text(first);
        let line = seq!['\t'] + (fields + seq!['\n']);
        let none = Seq::<char>::empty();
        lemma_has_at_split(s, p, line, joint_lines(tail));
        assert(joints_writable(tail)) by {
            assert forall|i: int| 0 <= i < tail.len() implies joint_writable(
                #[trigger] tail[i],
            ) by {
                assert(tail[i] == js[i + 1]);
            }
        }
        lemma_joint_records_read(s, p + line.len(), tail);
        if tail.len() > 0 {
            lemma_line_start_solid(s, p + line.len(), joint_lines(tail));
        }
        assert(seq!['\n'] + none =~= seq!['\n']);
        lemma_joint_fields_read(s, p, first, none);
        lemma_tab_read(s, p, fields + seq!['\n']);
        lemma_has_at_split(s, p + 1, fields, seq!['\n']);
        lemma_newline_read(s, p + 1 + fields.len(), none);
        assert(joint_record(s, Cursor::new(p)) == (first, Cursor::new(p + line.len())));
        assert(seq![first] + tail =~= js);
    }
}

/// The `joints` block as written.
#[verifier::opaque]
pub open spec fn joints_text(js: Seq<JointView>) -> Seq<char> {
    Keyword::Joints.text() + (seq!['\n'] + (joint_lines(js) + (Keyword::Close.text() + seq![
        '\n',
    ])))
}

/// The `joints` block as written is read back as it was.
#[verifier::rlimit(50)]
pub proof fn lemma_joints_read(s: Seq<char>, p: int, js: Seq<JointView>)
    requires
        has_at(s, p, joints_text(js)),
        joints_writable(js),
        solid(s, p + joints_text(js).len()),
    ensures
        joints(s, Cursor::new(p)) == (js, Cursor::new(p + joints_text(js).len())),
        starts_line(joints_text(js)),
{
    reveal(joints_text);
    let close = Keyword::Close.text() + seq!['\n'];
    let lines = joint_lines(js);
    let none = Seq::<char>::empty();
    lemma_keyword_shape(Keyword::Joints);
    lemma_keyword_shape(Keyword::Close);
    reveal_strlit("}");
    lemma_has_at_split(s, p, Keyword::Joints.text(), seq!['\n'] + (lines + close));
    lemma_keyword_read(s, p, Keyword::Joints);
    let q0 = p + Keyword::Joints.text().len();
    lemma_newline_read(s, q0, lines + close);
    let q1 = q0 + 1;
    lemma_has_at_split(s, q1, lines, close);
    let q2 = q1 + lines.len();
    lemma_has_at_split(s, q2, Keyword::Close.text(), seq!['\n']);
    lemma_line_start_solid(s, q2, close);
    lemma_has_at_char(s, q2, close, 0);
    assert(ends_joints(s, q2));
    lemma_joint_records_read(s, q1, js);
    if js.len() > 0 {
        lemma_line_start_solid(s, q1, lines);
    }
    lemma_keyword_read(s, q2, Keyword::Close);
    assert(seq!['\n'] + none =~= seq!['\n']);
    lemma_newline_read(s, q2 + 1, none);
    assert(keyword(s, Cursor::new(p), Keyword::Joints) == Cursor::new(q0));
    assert(record_end(s, Cursor::new(q0)) == Cursor::new(q1));
    assert(joint_records(s, Cursor::new(q1)) == (js, Cursor::new(q2)));
    assert(spaces(s, Cursor::new(q2)) == Cursor::new(q2));
}


/// `true` where a mesh with these values can be written.
pub open spec fn mesh_writable(m: MeshView) -> bool {
    &&& quote_free(m.shader)
    &&& is_count(m.verts.len() as int) && all_writable::<Vert>(m.verts)
    &&& is_count(m.tris.len() as int) && all_writable::<Tri>(m.tris)
    &&& is_count(m.weights.len() as int) && all_writable::<Weight>(m.weights)
}

/// A mesh as written, from `mesh {` to `}`.
#[verifier::opaque]
pub open spec fn mesh_text(m: MeshView) -> Seq<char> {
    Keyword::Mesh.text() + (seq!['\n'] + (seq!['\t'] + (string_field_text(
        Keyword::Shader,
        m.shader,
    ) + (seq!['\n'] + (list_text::<Vert>(m.verts) + (list_text::<Tri>(m.tris) + (list_text::<
        Weight,
    >(m.weights) + Keyword::Close.text())))))))
}

/// A mesh as written is read back as it was.
#[verifier::rlimit(50)]
pub proof fn lemma_mesh_read(s: Seq<char>, p: int, m: MeshView)
    requires
        has_at(s, p, mesh_text(m)),
        mesh_writable(m),
    ensures
        mesh(s, Cursor::new(p)) == (m, Cursor::new(p + mesh_text(m).len())),
        starts_line(mesh_text(m)),
{
    reveal(mesh);
    reveal(mesh_text);
    let close = Keyword::Close.text();
    let weights = list_text::<Weight>(m.weights);
    let tris = list_text::<Tri>(m.tris);
    let verts = list_text::<Vert>(m.verts);
    let shader = string_field_text(Keyword::Shader, m.shader);
    let t3 = weights + close;
    let t2 = tris + t3;
    let t1 = verts + t2;
    let t0 = shader + (seq!['\n'] + t1);
    lemma_keyword_shape(Keyword::Mesh);
    lemma_keyword_shape(Keyword::Close);
    lemma_keyword_shape(Keyword::Shader);
    lemma_has_at_split(s, p, Keyword::Mesh.text(), seq!['\n'] + (seq!['\t'] + t0));
    lemma_keyword_read(s, p, Keyword::Mesh);
    let q0 = p + Keyword::Mesh.text().len();
    lemma_newline_read(s, q0, seq!['\t'] + t0);
    let q1 = q0 + 1;
    lemma_tab_read(s, q1, t0);
    lemma_line_start_solid(s, q1, seq!['\t'] + t0);
    let q2 = q1 + 1;
    lemma_has_at_split(s, q2, shader, seq!['\n'] + t1);
    lemma_string_field_read(s, q2, Keyword::Shader, m.shader);
    let q3 = q2 + shader.len();
    lemma_newline_read(s, q3, t1);
    let q4 = q3 + 1;
    lemma_has_at_split(s, q4, verts, t2);
    let q5 = q4 + verts.len();
    lemma_has_at_split(s, q5, tris, t3);
    let q6 = q5 + tris.len();
    lemma_has_at_split(s, q6, weights, close);
    let q7 = q6 + weights.len();
    lemma_line_start_solid(s, q7, close);
    lemma_list_read::<Weight>(s, q6, m.weights);
    lemma_line_start_solid(s, q6, weights);
    lemma_list_read::<Tri>(s, q5, m.tris);
    lemma_line_start_solid(s, q5, tris);
    lemma_list_read::<Vert>(s, q4, m.verts);
    lemma_line_start_solid(s, q4, verts);
    lemma_keyword_read(s, q7, Keyword::Close);
    assert(keyword(s, Cursor::new(p), Keyword::Mesh) == Cursor::new(q0));
    assert(record_end(s, Cursor::new(q0)) == Cursor::new(q1));
    assert(spaces(s, Cursor::new(q1)) == Cursor::new(q2));
    assert(string_field(s, Cursor::new(q2), Keyword::Shader) == (m.shader, Cursor::new(q3)));
    assert(record_end(s, Cursor::new(q3)) == Cursor::new(q4));
    assert(list::<Vert>(s, Cursor::new(q4)) == (m.verts, Cursor::new(q5)));
    assert(list::<Tri>(s, Cursor::new(q5)) == (m.tris, Cursor::new(q6)));
    assert(list::<Weight>(s, Cursor::new(q6)) == (m.weights, Cursor::new(q7)));
    assert(spaces(s, Cursor::new(q7)) == Cursor::new(q7));
}

/// The meshes of a scene as written, each with a `\n` behind its `}`.
pub open spec fn meshes_text(ms: Seq<MeshView>) -> Seq<char>
    decreases ms.len(),
{
    if ms.len() == 0 {
        Seq::empty()
    } else {
        (mesh_text(ms[0]) + seq!['\n']) + meshes_text(ms.drop_first())
    }
}

/// `true` where every mesh of the list can be written.
pub open spec fn meshes_writable(ms: Seq<MeshView>) -> bool {
    forall|i: int| 0 <= i < ms.len() ==> mesh_writable(#[trigger] ms[i])
}

/// A mesh as written, with a `\n` behind its `}` and no blank line behind
/// that, is read as the mesh.
pub proof fn lemma_mesh_block_read(s: Seq<char>, p: int, m: MeshView)
    requires
        has_at(s, p, mesh_text(m) + seq!['\n']),
        mesh_writable(m),
        solid(s, p + mesh_text(m).len() + 1),
    ensures
        mesh_block(s, Cursor::new(p)) == (m, Cursor::new(p + mesh_text(m).len() + 1)),
        solid(s, p),
{
    reveal(mesh_block);
    let none = Seq::<char>::empty();
    let q = p + mesh_text(m).len() + 1;
    lemma_has_at_split(s, p, mesh_text(m), seq!['\n']);
    lemma_mesh_read(s, p, m);
    lemma_line_start_solid(s, p, mesh_text(m));
    assert(seq!['\n'] + none =~= seq!['\n']);
    lemma_newline_read(s, q - 1, none);
    lemma_solid_halts(s, q);
    assert(blank_lines(s, Cursor::new(q - 1)) == Cursor::new(q));
}

/// The meshes of a document as written are read back as they were.
#[verifier::rlimit(50)]
pub proof fn lemma_meshes_read(s: Seq<char>, p: int, ms: Seq<MeshView>)
    requires
        has_at(s, p, meshes_text(ms)),
        meshes_writable(ms),
        p + meshes_text(ms).len() == s.len(),
    ensures
        meshes(s, Cursor::new(p)) == (ms, Cursor::new(s.len() as int)),
        solid(s, p),
    decreases ms.len(),
{
    if ms.len() == 0 {
        assert(ms =~= Seq::<MeshView>::empty());
        lemma_run_end(s, p, Class::Space);
    } else {
        let first = ms[0];
        let tail = ms.drop_first();
        let block = mesh_text(first) + seq!['\n'];
        lemma_has_at_split(s, p, block, meshes_text(tail));
        assert(meshes_writable(tail)) by {
            assert forall|i: int| 0 <= i < tail.len() implies mesh_writable(#[trigger] tail[i]) by {
                assert(tail[i] == ms[i + 1]);
            }
        }
        let q = p + block.len();
        lemma_meshes_read(s, q, tail);
        lemma_mesh_block_read(s, p, first);
        assert(mesh_block(s, Cursor::new(p)) == (first, Cursor::new(q)));
        assert(seq![first] + tail =~= ms);
    }
}

/// `true` where a header with these values can be written.
pub open spec fn header_writable(h: HeaderView) -> bool {
    &&& is_count(h.md5_version)
    &&& quote_free(h.command_line)
    &&& is_count(h.num_joints)
    &&& is_count(h.num_meshes)
}

/// The header as written: four lines.
#[verifier::opaque]
pub open spec fn header_text(h: HeaderView) -> Seq<char> {
    count_field_text(Keyword::Version, h.md5_version) + (seq!['\n'] + (string_field_text(
        Keyword::CommandLine,
        h.command_line,
    ) + (seq!['\n'] + (count_field_text(Keyword::NumJoints, h.num_joints) + (seq!['\n'] + (
    count_field_text(Keyword::NumMeshes, h.num_meshes) + seq!['\n']))))))
}

/// The header as written is read back as it was.
#[verifier::rlimit(50)]
pub proof fn lemma_header_read(s: Seq<char>, p: int, h: HeaderView)
    requires
        has_at(s, p, header_text(h)),
        header_writable(h),
    ensures
        header(s, Cursor::new(p)) == (h, Cursor::new(p + header_text(h).len())),
{
    reveal(header_text);
    let none = Seq::<char>::empty();
    let l4 = count_field_text(Keyword::NumMeshes, h.num_meshes);
    let l3 = count_field_text(Keyword::NumJoints, h.num_joints);
    let l2 = string_field_text(Keyword::CommandLine, h.command_line);
    let l1 = count_field_text(Keyword::Version, h.md5_version);
    let t3 = l4 + seq!['\n'];
    let t2 = l3 + (seq!['\n'] + t3);
    let t1 = l2 + (seq!['\n'] + t2);
    assert(seq!['\n'] + none =~= seq!['\n']);
    lemma_has_at_split(s, p, l1, seq!['\n'] + t1);
    let q1 = p + l1.len();
    lemma_newline_read(s, q1, t1);
    lemma_count_field_read(s, p, Keyword::Version, h.md5_version);
    let at2 = q1 + 1;
    lemma_has_at_split(s, at2, l2, seq!['\n'] + t2);
    let q2 = at2 + l2.len();
    lemma_newline_read(s, q2, t2);
    lemma_string_field_read(s, at2, Keyword::CommandLine, h.command_line);
    let at3 = q2 + 1;
    lemma_has_at_split(s, at3, l3, seq!['\n'] + t3);
    let q3 = at3 + l3.len();
    lemma_newline_read(s, q3, t3);
    lemma_count_field_read(s, at3, Keyword::NumJoints, h.num_joints);
    lemma_has_at_split(
        s,
        at3,
        Keyword::NumJoints.text(),
        seq![' '] + digits_of(h.num_joints as nat),
    );
    lemma_keyword_read(s, at3, Keyword::NumJoints);
    lemma_keyword_starts_line(s, at3, Keyword::NumJoints);
    let at4 = q3 + 1;
    lemma_has_at_split(s, at4, l4, seq!['\n']);
    let q4 = at4 + l4.len();
    lemma_newline_read(s, q4, none);
    lemma_count_field_read(s, at4, Keyword::NumMeshes, h.num_meshes);
    assert(count_line(s, Cursor::new(p), Keyword::Version) == (h.md5_version, Cursor::new(at2)));
    assert(string_line(s, Cursor::new(at2), Keyword::CommandLine) == (
        h.command_line,
        Cursor::new(at3),
    ));
    assert(optional_line_end(s, Cursor::new(at3)) == Cursor::new(at3));
    assert(count_line(s, Cursor::new(at3), Keyword::NumJoints) == (h.num_joints, Cursor::new(at4)));
    assert(count_line(s, Cursor::new(at4), Keyword::NumMeshes) == (
        h.num_meshes,
        Cursor::new(q4 + 1),
    ));
}

/// `true` where the scene can be written: its strings hold no `"`, its
/// integers fit their fields, its vectors have the length of their kind,
/// and its numbers are numbers of the format.
pub open spec fn writable(scene: SceneView) -> bool {
    &&& header_writable(scene.header)
    &&& joints_writable(scene.joint_list)
    &&& meshes_writable(scene.mesh_list)
}

/// The document that is written from a scene: the header, the `joints`
/// block, and the meshes, with one tab before each record, one space
/// between each two fields, and a `\n` at the end of each line.
pub open spec fn text_of(scene: SceneView) -> Seq<char> {
    header_text(scene.header) + (joints_text(scene.joint_list) + meshes_text(scene.mesh_list))
}

/// What is written from a scene matches the grammar, and describes this
/// scene.
#[verifier::rlimit(50)]
pub proof fn lemma_written_is_read(scene: SceneView)
    requires
        writable(scene),
    ensures
        document(text_of(scene)) == (scene, Cursor::new(text_of(scene).len() as int)),
{
    let s = text_of(scene);
    let h = header_text(scene.header);
    let j = joints_text(scene.joint_list);
    let m = meshes_text(scene.mesh_list);
    assert(has_at(s, 0, s)) by {
        reveal(has_at);
        assert(s.subrange(0, s.len() as int) =~= s);
    }
    lemma_has_at_split(s, 0, h, j + m);
    let q0 = h.len() as int;
    lemma_has_at_split(s, q0, j, m);
    let q1 = q0 + j.len();
    lemma_header_read(s, 0, scene.header);
    lemma_meshes_read(s, q1, scene.mesh_list);
    lemma_joints_read(s, q0, scene.joint_list);
    lemma_line_start_solid(s, q0, j);
    lemma_solid_halts(s, q0);
    assert(header(s, Cursor::new(0)) == (scene.header, Cursor::new(q0)));
    assert(blank_lines(s, Cursor::new(q0)) == Cursor::new(q0));
    assert(joints(s, Cursor::new(q0)) == (scene.joint_list, Cursor::new(q1)));
}

/// A consistent scene survives being written and parsed: the document
/// written from it parses, to this scene, which holds as many joints and
/// meshes as its header declares.
pub proof fn lemma_round_trip(scene: SceneView, r: Result<SceneView, ParseError>)
    requires
        writable(scene),
        scene.consistent(),
        parses_to(text_of(scene), r),
    ensures
        r == Ok::<SceneView, ParseError>(scene),
        scene.joint_list.len() == scene.header.num_joints,
        scene.mesh_list.len() == scene.header.num_meshes,
{
    lemma_written_is_read(scene);
    lemma_declared_counts_kept(text_of(scene), r);
}


/// A string that is read holds no `"`.
pub proof fn lemma_quoted_writable(s: Seq<char>, p: int)
    requires
        0 <= p <= s.len(),
        quoted(s, Cursor::new(p)).1.ok(),
    ensures
        quote_free(quoted(s, Cursor::new(p)).0),
{
    lemma_run_end(s, p + 1, Class::Quoted);
}

/// A number that is read is a number of the format, whole.
pub proof fn lemma_decimal_writable(s: Seq<char>, p: int)
    requires
        0 <= p <= s.len(),
        decimal(s, Cursor::new(p)).1.ok(),
    ensures
        is_number(decimal(s, Cursor::new(p)).0.literal),
{
    reveal(decimal_at);
    let from = if sees(s, p, '-') { p + 1 } else { p };
    let end = number_end(s, from)->0;
    let literal = s.subrange(from, end);
    lemma_number_moved(s, literal, -from, from);
    assert(same_text(s, literal, -from, from, end));
}

/// What is read as a vector of two numbers can be written.
pub proof fn lemma_pair_writable(s: Seq<char>, p: int)
    requires
        0 <= p <= s.len(),
        pair(s, Cursor::new(p)).1.ok(),
    ensures
        numbers(pair(s, Cursor::new(p)).0, 2),
{
    lemma_keyword_read_bounds(s, p, Keyword::OpenParen);
    let c0 = keyword(s, Cursor::new(p), Keyword::OpenParen);
    lemma_spaces_moved(s, s, 0, c0.at);
    let c1 = spaces(s, c0);
    lemma_decimal_moved(s, s, 0, c1.at);
    lemma_decimal_writable(s, c1.at);
    let c2 = decimal(s, c1).1;
    lemma_separator_moved(s, s, 0, c2.at);
    let c3 = separator(s, c2);
    lemma_decimal_writable(s, c3.at);
}

/// What is read as a vector of three numbers can be written.
pub proof fn lemma_triple_writable(s: Seq<char>, p: int)
    requires
        0 <= p <= s.len(),
        triple(s, Cursor::new(p)).1.ok(),
    ensures
        numbers(triple(s, Cursor::new(p)).0, 3),
{
    lemma_keyword_read_bounds(s, p, Keyword::OpenParen);
    let c0 = keyword(s, Cursor::new(p), Keyword::OpenParen);
    lemma_spaces_moved(s, s, 0, c0.at);
    let c1 = spaces(s, c0);
    lemma_decimal_moved(s, s, 0, c1.at);
    lemma_decimal_writable(s, c1.at);
    let c2 = decimal(s, c1).1;
    lemma_separator_moved(s, s, 0, c2.at);
    let c3 = separator(s, c2);
    lemma_decimal_moved(s, s, 0, c3.at);
    lemma_decimal_writable(s, c3.at);
    let c4 = decimal(s, c3).1;
    lemma_separator_moved(s, s, 0, c4.at);
    let c5 = separator(s, c4);
    lemma_decimal_writable(s, c5.at);
}

/// A keyword that is read ends inside the document.
pub proof fn lemma_keyword_read_bounds(s: Seq<char>, p: int, k: Keyword)
    requires
        0 <= p <= s.len(),
        keyword(s, Cursor::new(p), k).ok(),
    ensures
        p < keyword(s, Cursor::new(p), k).at <= s.len(),
{
    lemma_keyword_moved(s, s, 0, p, k);
}

/// What is read as the fields of a joint can be written.
pub proof fn lemma_joint_fields_writable(s: Seq<char>, p: int)
    requires
        0 <= p <= s.len(),
        joint_fields(s, Cursor::new(p)).1.ok(),
    ensures
        joint_writable(joint_fields(s, Cursor::new(p)).0),
{
    reveal(joint_fields);
    lemma_spaces_moved(s, s, 0, p);
    let c0 = spaces(s, Cursor::new(p));
    lemma_quoted_moved(s, s, 0, c0.at);
    lemma_quoted_writable(s, c0.at);
    let c1 = quoted(s, c0).1;
    lemma_separator_moved(s, s, 0, c1.at);
    let c2 = separator(s, c1);
    lemma_signed_moved(s, s, 0, c2.at);
    let digits = if sees(s, c2.at, '-') { c2.at + 1 } else { c2.at };
    lemma_unsigned_moved(s, s, 0, digits, i32::MAX as int);
    let c3 = signed(s, c2).1;
    lemma_separator_moved(s, s, 0, c3.at);
    let c4 = separator(s, c3);
    lemma_triple_moved(s, s, 0, c4.at);
    lemma_triple_writable(s, c4.at);
    let c5 = triple(s, c4).1;
    lemma_separator_moved(s, s, 0, c5.at);
    let c6 = separator(s, c5);
    lemma_triple_writable(s, c6.at);
}

/// What is read as a run of joints can be written.
pub proof fn lemma_joint_records_writable(s: Seq<char>, p: int)
    requires
        0 <= p <= s.len(),
        joint_records(s, Cursor::new(p)).1.ok(),
    ensures
        joints_writable(joint_records(s, Cursor::new(p)).0),
    decreases s.len() - p,
{
    let q = run_end(s, p, Class::Space);
    if sees(s, q, '"') {
        let (first, next) = joint_record(s, Cursor::new(p));
        assert(next.ok());
        lemma_record_end_sticky(s, joint_fields(s, Cursor::new(p)).1);
        lemma_joint_fields_writable(s, p);
        lemma_joint_record_moved(s, s, 0, p);
        lemma_run_end(s, p, Class::Space);
        lemma_joint_records_writable(s, next.at);
        let rest = joint_records(s, next).0;
        assert forall|i: int| 0 <= i < (seq![first] + rest).len() implies joint_writable(
            #[trigger] (seq![first] + rest)[i],
        ) by {
            if i > 0 {
                assert((seq![first] + rest)[i] == rest[i - 1]);
            }
        }
    }
}

/// What is read as the `joints` block can be written.
pub proof fn lemma_joints_writable(s: Seq<char>, p: int)
    requires
        0 <= p <= s.len(),
        joints(s, Cursor::new(p)).1.ok(),
    ensures
        joints_writable(joints(s, Cursor::new(p)).0),
{
    let c0 = keyword(s, Cursor::new(p), Keyword::Joints);
    let c1 = record_end(s, c0);
    let c2 = joint_records(s, c1).1;
    let c4 = keyword(s, spaces(s, c2), Keyword::Close);
    lemma_record_end_sticky(s, c4);
    lemma_record_end_sticky(s, c0);
    assert(c2.ok());
    assert(c1.ok()) by {
        if !c1.ok() {
            assert(joint_records(s, c1).1 == c1);
        }
    }
    lemma_keyword_read_bounds(s, p, Keyword::Joints);
    lemma_record_end_moved(s, s, 0, c0.at);
    lemma_joint_records_writable(s, c1.at);
}

/// What is read as a counted list holds as many records as the count
/// says, and every one of them can be written.
pub proof fn lemma_counted_writable<R: Record>(s: Seq<char>, p: int, n: nat)
    requires
        0 <= p <= s.len(),
        counted::<R>(s, Cursor::new(p), n).1.ok(),
    ensures
        counted::<R>(s, Cursor::new(p), n).0.len() == n,
        all_writable::<R>(counted::<R>(s, Cursor::new(p), n).0),
    decreases n,
{
    if n > 0 {
        let (first, next) = record::<R>(s, Cursor::new(p));
        let less = (n - 1) as nat;
        assert(next.ok()) by {
            if !next.ok() {
                assert(counted::<R>(s, next, less).1 == next);
            }
        }
        lemma_record_end_sticky(s, R::fields(s, Cursor::new(p)).1);
        R::lemma_fields_writable(s, p);
        lemma_record_moved::<R>(s, s, 0, p);
        lemma_counted_writable::<R>(s, next.at, less);
        let rest = counted::<R>(s, next, less).0;
        assert forall|i: int| 0 <= i < (seq![first] + rest).len() implies R::writable(
            #[trigger] (seq![first] + rest)[i],
        ) by {
            if i > 0 {
                assert((seq![first] + rest)[i] == rest[i - 1]);
            }
        }
    }
}

/// What is read as a counted list holds as many records as its count
/// says, and can be written.
pub proof fn lemma_list_writable<R: Record>(s: Seq<char>, p: int)
    requires
        0 <= p <= s.len(),
        list::<R>(s, Cursor::new(p)).1.ok(),
    ensures
        list::<R>(s, Cursor::new(p)).0.len() == count_field(
            s,
            spaces(s, Cursor::new(p)),
            R::count_word(),
        ).0,
        is_count(list::<R>(s, Cursor::new(p)).0.len() as int),
        all_writable::<R>(list::<R>(s, Cursor::new(p)).0),
{
    reveal(list);
    let c0 = spaces(s, Cursor::new(p));
    let (n, c1) = count_field(s, c0, R::count_word());
    let c2 = record_end(s, c1);
    assert(c2.ok()) by {
        if !c2.ok() {
            assert(counted::<R>(s, c2, n as nat).1 == c2);
        }
    }
    lemma_record_end_sticky(s, c1);
    lemma_spaces_moved(s, s, 0, p);
    lemma_count_field_moved(s, s, 0, c0.at, R::count_word());
    lemma_record_end_moved(s, s, 0, c1.at);
    lemma_counted_writable::<R>(s, c2.at, n as nat);
}

/// What is read as a mesh can be written.
pub proof fn lemma_mesh_writable(s: Seq<char>, p: int)
    requires
        0 <= p <= s.len(),
        mesh(s, Cursor::new(p)).1.ok(),
    ensures
        mesh_writable(mesh(s, Cursor::new(p)).0),
{
    reveal(mesh);
    let c0 = keyword(s, Cursor::new(p), Keyword::Mesh);
    let c1 = record_end(s, c0);
    let c2 = spaces(s, c1);
    let c3 = string_field(s, c2, Keyword::Shader).1;
    let c4 = record_end(s, c3);
    let c5 = list::<Vert>(s, c4).1;
    let c6 = list::<Tri>(s, c5).1;
    let c7 = list::<Weight>(s, c6).1;
    lemma_list_sticky::<Weight>(s, c6);
    lemma_list_sticky::<Tri>(s, c5);
    lemma_list_sticky::<Vert>(s, c4);
    assert(c7.ok() && c6.ok() && c5.ok() && c4.ok());
    lemma_record_end_sticky(s, c3);
    assert(c2.ok());
    lemma_record_end_sticky(s, c0);
    lemma_keyword_read_bounds(s, p, Keyword::Mesh);
    lemma_record_end_moved(s, s, 0, c0.at);
    lemma_spaces_moved(s, s, 0, c1.at);
    lemma_string_field_moved(s, s, 0, c2.at, Keyword::Shader);
    lemma_string_field_writable(s, c2.at, Keyword::Shader);
    lemma_record_end_moved(s, s, 0, c3.at);
    lemma_list_moved::<Vert>(s, s, 0, c4.at);
    lemma_list_writable::<Vert>(s, c4.at);
    lemma_list_moved::<Tri>(s, s, 0, c5.at);
    lemma_list_writable::<Tri>(s, c5.at);
    lemma_list_writable::<Weight>(s, c6.at);
}

/// What is read as a keyword and its string can be written.
pub proof fn lemma_string_field_writable(s: Seq<char>, p: int, k: Keyword)
    requires
        0 <= p <= s.len(),
        string_field(s, Cursor::new(p), k).1.ok(),
    ensures
        quote_free(string_field(s, Cursor::new(p), k).0),
{
    lemma_keyword_read_bounds(s, p, k);
    let c0 = keyword(s, Cursor::new(p), k);
    lemma_separator_moved(s, s, 0, c0.at);
    lemma_quoted_writable(s, separator(s, c0).at);
}

/// What is read as the meshes of a document can be written.
pub proof fn lemma_meshes_writable(s: Seq<char>, p: int)
    requires
        0 <= p <= s.len(),
        meshes(s, Cursor::new(p)).1.ok(),
    ensures
        meshes_writable(meshes(s, Cursor::new(p)).0),
    decreases s.len() - p,
{
    if p < s.len() {
        let (first, next) = mesh_block(s, Cursor::new(p));
        assert(next.ok());
        lemma_mesh_block_moved(s, s, 0, p);
        assert(mesh_writable(first)) by {
            reveal(mesh_block);
            lemma_record_end_sticky(s, mesh(s, Cursor::new(p)).1);
            lemma_mesh_writable(s, p);
        }
        lemma_meshes_writable(s, next.at);
        let rest = meshes(s, next).0;
        assert forall|i: int| 0 <= i < (seq![first] + rest).len() implies mesh_writable(
            #[trigger] (seq![first] + rest)[i],
        ) by {
            if i > 0 {
                assert((seq![first] + rest)[i] == rest[i - 1]);
            }
        }
    }
}

/// What is read as the header can be written.
pub proof fn lemma_header_writable(s: Seq<char>, p: int)
    requires
        0 <= p <= s.len(),
        header(s, Cursor::new(p)).1.ok(),
    ensures
        header_writable(header(s, Cursor::new(p)).0),
{
    let c1 = count_line(s, Cursor::new(p), Keyword::Version).1;
    let c2 = string_line(s, c1, Keyword::CommandLine).1;
    let c3 = optional_line_end(s, c2);
    let c4 = count_line(s, c3, Keyword::NumJoints).1;
    assert(c4.ok() && c3.ok() && c2.ok() && c1.ok());
    lemma_count_line_moved(s, s, 0, p, Keyword::Version);
    lemma_count_field_moved(s, s, 0, p, Keyword::Version);
    lemma_string_line_moved(s, s, 0, c1.at, Keyword::CommandLine);
    lemma_string_field_writable(s, c1.at, Keyword::CommandLine);
    lemma_optional_line_end_bounds(s, c2.at);
    lemma_count_line_moved(s, s, 0, c3.at, Keyword::NumJoints);
    lemma_count_field_moved(s, s, 0, c3.at, Keyword::NumJoints);
    lemma_count_field_moved(s, s, 0, c4.at, Keyword::NumMeshes);
}

/// Whatever the grammar reads can be written: in the scene of a document
/// that matches the grammar, no string holds a `"`, every integer fits its
/// field, every vector has the length of its kind, and every number is a
/// number of the format.
pub proof fn lemma_read_is_writable(s: Seq<char>)
    requires
        document(s).1.ok(),
    ensures
        writable(document(s).0),
{
    let c0 = header(s, Cursor::new(0)).1;
    let c1 = blank_lines(s, c0);
    let c2 = joints(s, c1).1;
    assert(c2.ok());
    assert(c1.ok());
    assert(c0.ok()) by {
        lemma_record_end_sticky(s, c0);
    }
    lemma_header_moved(s, s, 0, 0);
    lemma_header_writable(s, 0);
    lemma_blank_lines_moved(s, s, 0, c0.at);
    lemma_joints_moved(s, s, 0, c1.at);
    lemma_joints_writable(s, c1.at);
    lemma_meshes_writable(s, c2.at);
}

/// Writing is the inverse of parsing, up to the way a document is laid
/// out: the scene that a text parses to, written out, is a text that
/// parses to the same scene.
pub proof fn lemma_rewritten_parses_alike(
    s: Seq<char>,
    scene: SceneView,
    again: Result<SceneView, ParseError>,
)
    requires
        parses_to(s, Ok(scene)),
        parses_to(text_of(scene), again),
    ensures
        again == Ok::<SceneView, ParseError>(scene),
{
    lemma_read_is_writable(s);
    lemma_round_trip(scene, again);
}

} // verus!
