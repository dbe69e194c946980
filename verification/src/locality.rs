//! What a parser makes of a stretch of text, it makes of the same stretch
//! wherever it stands: in another document, or further on in the same one.
//!
//! Each lemma here takes two documents that hold the same characters over
//! the stretch that a parser reads in the first, and says what has to hold
//! of the second document where the stretch ends for the parser to stop
//! there too.
use vstd::prelude::*;
use crate::error::Keyword;
use crate::geometry::{pair, triple};
use crate::header::{count_line, header, optional_line_end, string_line};
use crate::joints::{joint_fields, joint_record, joint_records, joints};
use crate::lexical::{
    blank_lines, comment, count_field, decimal, decimal_at, has_at, keyword,
    lemma_number_value_grows, lemma_run_end, lemma_run_end_is, line_end, mantissa_end, number_end,
    quoted, record_end, run_end, sees, separator, signed, spaces, string_field, unsigned, Class,
    Cursor,
};
use crate::mesh::{counted, lemma_list_sticky, list, mesh, record, Record};
use crate::model::{Tri, Vert, Weight};
use crate::scene::{mesh_block, meshes};

verus! {

/// The characters of `a` from `lo` up to `hi` stand in `b` as well, `d`
/// places further on.
pub open spec fn same_text(a: Seq<char>, b: Seq<char>, d: int, lo: int, hi: int) -> bool {
    &&& 0 <= lo <= hi <= a.len()
    &&& 0 <= lo + d
    &&& hi + d <= b.len()
    &&& forall|i: int| lo <= i < hi ==> #[trigger] a[i] == b[i + d]
}

/// What holds over a stretch holds over each part of it.
pub proof fn lemma_same_text_part(
    a: Seq<char>,
    b: Seq<char>,
    d: int,
    lo: int,
    hi: int,
    from: int,
    to: int,
)
    requires
        same_text(a, b, d, lo, hi),
        lo <= from <= to <= hi,
    ensures
        same_text(a, b, d, from, to),
{
}

/// The same stretch, cut out of either document, is the same text.
pub proof fn lemma_same_text_subrange(a: Seq<char>, b: Seq<char>, d: int, lo: int, hi: int)
    requires
        same_text(a, b, d, lo, hi),
    ensures
        a.subrange(lo, hi) == b.subrange(lo + d, hi + d),
{
    assert(a.subrange(lo, hi) =~= b.subrange(lo + d, hi + d));
}

/// No character of `class` stands at `at`: the document ends there, or
/// holds something else.
pub open spec fn stops(s: Seq<char>, at: int, class: Class) -> bool {
    !(0 <= at < s.len() && class.holds(s[at]))
}

/// The cursor `c`, `d` places further on.
pub open spec fn shifted(c: Cursor, d: int) -> Cursor {
    Cursor { at: c.at + d, fault: c.fault }
}

/// A run that is matched character for character, and after which the
/// second document stops, is the same run there.
pub proof fn lemma_run_moved(a: Seq<char>, b: Seq<char>, d: int, p: int, class: Class)
    requires
        0 <= p <= a.len(),
    ensures
        p <= run_end(a, p, class) <= a.len(),
        stops(a, run_end(a, p, class), class),
        same_text(a, b, d, p, run_end(a, p, class)) && stops(b, run_end(a, p, class) + d, class)
            ==> run_end(b, p + d, class) == run_end(a, p, class) + d,
{
    lemma_run_end(a, p, class);
    let e = run_end(a, p, class);
    if same_text(a, b, d, p, e) && stops(b, e + d, class) {
        assert forall|j: int| p + d <= j < e + d implies class.holds(#[trigger] b[j]) by {
            assert(b[j] == a[j - d]);
        }
        lemma_run_end_is(b, p + d, class, e + d);
    }
}

/// Optional spaces are read alike wherever the same text stands and ends.
pub proof fn lemma_spaces_moved(a: Seq<char>, b: Seq<char>, d: int, p: int)
    requires
        0 <= p <= a.len(),
    ensures
        spaces(a, Cursor::new(p)).ok(),
        p <= spaces(a, Cursor::new(p)).at <= a.len(),
        stops(a, spaces(a, Cursor::new(p)).at, Class::Space),
        same_text(a, b, d, p, spaces(a, Cursor::new(p)).at) && stops(
            b,
            spaces(a, Cursor::new(p)).at + d,
            Class::Space,
        ) ==> spaces(b, Cursor::new(p + d)) == shifted(spaces(a, Cursor::new(p)), d),
{
    lemma_run_moved(a, b, d, p, Class::Space);
}

/// A separator is read alike wherever the same text stands and ends.
pub proof fn lemma_separator_moved(a: Seq<char>, b: Seq<char>, d: int, p: int)
    requires
        0 <= p <= a.len(),
        separator(a, Cursor::new(p)).ok(),
    ensures
        p < separator(a, Cursor::new(p)).at <= a.len(),
        stops(a, separator(a, Cursor::new(p)).at, Class::Space),
        same_text(a, b, d, p, separator(a, Cursor::new(p)).at) && stops(
            b,
            separator(a, Cursor::new(p)).at + d,
            Class::Space,
        ) ==> separator(b, Cursor::new(p + d)) == shifted(separator(a, Cursor::new(p)), d),
{
    lemma_run_moved(a, b, d, p, Class::Space);
}

/// What every keyword has: at least one character, and a first character
/// that is no space, no digit, no quote, no `/` and no line terminator.
pub proof fn lemma_keyword_shape(k: Keyword)
    ensures
        k.text().len() >= 1,
        !Class::Space.holds(k.text()[0]),
        !Class::Digit.holds(k.text()[0]),
        k.text()[0] != '"',
        k.text()[0] != '/',
        k.text()[0] != '\n',
        k.text()[0] != '\r',
{
    reveal_strlit("MD5Version");
    reveal_strlit("commandline");
    reveal_strlit("numJoints");
    reveal_strlit("numMeshes");
    reveal_strlit("joints {");
    reveal_strlit("mesh {");
    reveal_strlit("}");
    reveal_strlit("shader");
    reveal_strlit("numverts");
    reveal_strlit("vert");
    reveal_strlit("numtris");
    reveal_strlit("tri");
    reveal_strlit("numweights");
    reveal_strlit("weight");
    reveal_strlit("(");
    reveal_strlit(")");
}

/// A keyword is read alike wherever the same text stands and ends.
pub proof fn lemma_keyword_moved(a: Seq<char>, b: Seq<char>, d: int, p: int, k: Keyword)
    requires
        0 <= p <= a.len(),
        keyword(a, Cursor::new(p), k).ok(),
    ensures
        p < keyword(a, Cursor::new(p), k).at <= a.len(),
        a[p] == k.text()[0],
        same_text(a, b, d, p, keyword(a, Cursor::new(p), k).at) ==> keyword(
            b,
            Cursor::new(p + d),
            k,
        ) == shifted(keyword(a, Cursor::new(p), k), d),
{
    reveal(has_at);
    lemma_keyword_shape(k);
    let e = p + k.text().len();
    assert(a.subrange(p, e)[0] == k.text()[0]);
    if same_text(a, b, d, p, e) {
        lemma_same_text_subrange(a, b, d, p, e);
    }
}

/// A quoted string is read alike wherever the same text stands and ends.
pub proof fn lemma_quoted_moved(a: Seq<char>, b: Seq<char>, d: int, p: int)
    requires
        0 <= p <= a.len(),
        quoted(a, Cursor::new(p)).1.ok(),
    ensures
        p + 2 <= quoted(a, Cursor::new(p)).1.at <= a.len(),
        a[p] == '"',
        same_text(a, b, d, p, quoted(a, Cursor::new(p)).1.at) ==> quoted(b, Cursor::new(p + d)) == (
            quoted(a, Cursor::new(p)).0,
            shifted(quoted(a, Cursor::new(p)).1, d),
        ),
{
    let close = run_end(a, p + 1, Class::Quoted);
    lemma_run_moved(a, b, d, p + 1, Class::Quoted);
    if same_text(a, b, d, p, close + 1) {
        assert(b[close + d] == a[close]);
        assert(b[p + d] == a[p]);
        lemma_same_text_part(a, b, d, p, close + 1, p + 1, close);
        lemma_same_text_subrange(a, b, d, p + 1, close);
    }
}

/// An unsigned integer is read alike wherever the same text stands and ends.
pub proof fn lemma_unsigned_moved(a: Seq<char>, b: Seq<char>, d: int, p: int, max: int)
    requires
        0 <= p <= a.len(),
        unsigned(a, Cursor::new(p), max).1.ok(),
    ensures
        p < unsigned(a, Cursor::new(p), max).1.at <= a.len(),
        0 <= unsigned(a, Cursor::new(p), max).0,
        Class::Digit.holds(a[p]),
        stops(a, unsigned(a, Cursor::new(p), max).1.at, Class::Digit),
        same_text(a, b, d, p, unsigned(a, Cursor::new(p), max).1.at) && stops(
            b,
            unsigned(a, Cursor::new(p), max).1.at + d,
            Class::Digit,
        ) ==> unsigned(b, Cursor::new(p + d), max) == (
            unsigned(a, Cursor::new(p), max).0,
            shifted(unsigned(a, Cursor::new(p), max).1, d),
        ),
{
    let e = run_end(a, p, Class::Digit);
    lemma_run_moved(a, b, d, p, Class::Digit);
    lemma_run_end(a, p, Class::Digit);
    lemma_number_value_grows(a, p, p, e);
    if same_text(a, b, d, p, e) && stops(b, e + d, Class::Digit) {
        lemma_same_text_subrange(a, b, d, p, e);
    }
}

/// A signed integer is read alike wherever the same text stands and ends.
pub proof fn lemma_signed_moved(a: Seq<char>, b: Seq<char>, d: int, p: int)
    requires
        0 <= p <= a.len(),
        signed(a, Cursor::new(p)).1.ok(),
    ensures
        p < signed(a, Cursor::new(p)).1.at <= a.len(),
        stops(a, signed(a, Cursor::new(p)).1.at, Class::Digit),
        same_text(a, b, d, p, signed(a, Cursor::new(p)).1.at) && stops(
            b,
            signed(a, Cursor::new(p)).1.at + d,
            Class::Digit,
        ) ==> signed(b, Cursor::new(p + d)) == (
            signed(a, Cursor::new(p)).0,
            shifted(signed(a, Cursor::new(p)).1, d),
        ),
{
    let from = if sees(a, p, '-') { p + 1 } else { p };
    lemma_unsigned_moved(a, b, d, from, i32::MAX as int);
    let e = signed(a, Cursor::new(p)).1.at;
    if same_text(a, b, d, p, e) && stops(b, e + d, Class::Digit) {
        assert(b[p + d] == a[p]);
        lemma_same_text_part(a, b, d, p, e, from, e);
    }
}


/// No number goes on at `at`: the document ends there, or holds something
/// that is no digit, no `.` and no `e`.
pub open spec fn ends_number(s: Seq<char>, at: int) -> bool {
    !(0 <= at < s.len() && (Class::Digit.holds(s[at]) || s[at] == '.' || s[at] == 'e' || s[at]
        == 'E'))
}

/// An unsigned number is read alike wherever the same text stands and ends.
pub proof fn lemma_number_moved(a: Seq<char>, b: Seq<char>, d: int, p: int)
    requires
        0 <= p <= a.len(),
        number_end(a, p) is Some,
    ensures
        p < number_end(a, p)->0 <= a.len(),
        Class::Digit.holds(a[p]) || a[p] == '.',
        same_text(a, b, d, p, number_end(a, p)->0) && ends_number(b, number_end(a, p)->0 + d)
            ==> number_end(b, p + d) == Some(number_end(a, p)->0 + d),
{
    let whole = run_end(a, p, Class::Digit);
    let m = mantissa_end(a, p)->0;
    let e = number_end(a, p)->0;
    let q = if sees(a, m + 1, '+') || sees(a, m + 1, '-') { m + 2 } else { m + 1 };
    lemma_run_end(a, p, Class::Digit);
    if whole > p {
        if sees(a, whole, '.') {
            lemma_run_end(a, whole + 1, Class::Digit);
        }
    } else {
        lemma_run_end(a, p + 1, Class::Digit);
    }
    assert(p < m <= a.len());
    if (sees(a, m, 'e') || sees(a, m, 'E')) && run_end(a, q, Class::Digit) > q {
        lemma_run_end(a, q, Class::Digit);
    }
    assert(m <= e <= a.len());
    if same_text(a, b, d, p, e) && ends_number(b, e + d) {
        lemma_run_moved(a, b, d, p, Class::Digit);
        assert(run_end(b, p + d, Class::Digit) == whole + d);
        if whole > p {
            if sees(a, whole, '.') {
                lemma_run_moved(a, b, d, whole + 1, Class::Digit);
                assert(b[whole + d] == a[whole]);
            } else {
                assert(!sees(b, whole + d, '.'));
            }
        } else {
            lemma_run_moved(a, b, d, p + 1, Class::Digit);
            assert(b[p + d] == a[p]);
        }
        assert(mantissa_end(b, p + d) == Some(m + d));
        if (sees(a, m, 'e') || sees(a, m, 'E')) && run_end(a, q, Class::Digit) > q {
            assert(b[m + d] == a[m]);
            assert(b[m + 1 + d] == a[m + 1]);
            lemma_run_moved(a, b, d, q, Class::Digit);
        } else {
            assert(e == m);
        }
    }
}

/// A signed number is read alike wherever the same text stands and ends.
pub proof fn lemma_decimal_moved(a: Seq<char>, b: Seq<char>, d: int, p: int)
    requires
        0 <= p <= a.len(),
        decimal(a, Cursor::new(p)).1.ok(),
    ensures
        p < decimal(a, Cursor::new(p)).1.at <= a.len(),
        !Class::Space.holds(a[p]),
        a[p] != ')',
        same_text(a, b, d, p, decimal(a, Cursor::new(p)).1.at) && ends_number(
            b,
            decimal(a, Cursor::new(p)).1.at + d,
        ) ==> decimal(b, Cursor::new(p + d)) == (
            decimal(a, Cursor::new(p)).0,
            shifted(decimal(a, Cursor::new(p)).1, d),
        ),
{
    reveal(decimal_at);
    let from = if sees(a, p, '-') { p + 1 } else { p };
    lemma_number_moved(a, b, d, from);
    let e = decimal(a, Cursor::new(p)).1.at;
    if same_text(a, b, d, p, e) && ends_number(b, e + d) {
        assert(b[p + d] == a[p]);
        lemma_same_text_part(a, b, d, p, e, from, e);
        lemma_same_text_subrange(a, b, d, from, e);
    }
}

/// A number that a separator follows, or optional spaces and a closing
/// parenthesis, ends where it ends.
pub proof fn lemma_number_ends_before(a: Seq<char>, at: int)
    requires
        0 <= at <= a.len(),
        separator(a, Cursor::new(at)).ok() || keyword(
            a,
            spaces(a, Cursor::new(at)),
            Keyword::CloseParen,
        ).ok(),
    ensures
        at < a.len(),
        ends_number(a, at),
        Class::Space.holds(a[at]) || a[at] == ')',
{
    reveal_strlit(")");
    lemma_run_end(a, at, Class::Space);
    if !separator(a, Cursor::new(at)).ok() {
        let q = run_end(a, at, Class::Space);
        lemma_keyword_moved(a, a, 0, q, Keyword::CloseParen);
    }
}

/// A vector of two numbers is read alike wherever the same text stands and
/// ends.
pub proof fn lemma_pair_moved(a: Seq<char>, b: Seq<char>, d: int, p: int)
    requires
        0 <= p <= a.len(),
        pair(a, Cursor::new(p)).1.ok(),
    ensures
        p < pair(a, Cursor::new(p)).1.at <= a.len(),
        a[p] == '(',
        same_text(a, b, d, p, pair(a, Cursor::new(p)).1.at)
            ==> pair(b, Cursor::new(p + d)) == (
            pair(a, Cursor::new(p)).0,
            shifted(pair(a, Cursor::new(p)).1, d),
        ),
{
    reveal_strlit("(");
    reveal_strlit(")");
    let e = pair(a, Cursor::new(p)).1.at;
    lemma_keyword_moved(a, b, d, p, Keyword::OpenParen);
    let c0 = keyword(a, Cursor::new(p), Keyword::OpenParen);
    lemma_spaces_moved(a, b, d, c0.at);
    let c1 = spaces(a, c0);
    lemma_decimal_moved(a, b, d, c1.at);
    let (x, c2) = decimal(a, c1);
    lemma_separator_moved(a, b, d, c2.at);
    let c3 = separator(a, c2);
    lemma_decimal_moved(a, b, d, c3.at);
    let (y, c4) = decimal(a, c3);
    lemma_spaces_moved(a, b, d, c4.at);
    let c5 = spaces(a, c4);
    lemma_keyword_moved(a, b, d, c5.at, Keyword::CloseParen);
    lemma_number_ends_before(a, c2.at);
    lemma_number_ends_before(a, c4.at);
    if same_text(a, b, d, p, e) {
        assert(b[c1.at + d] == a[c1.at]);
        assert(b[c2.at + d] == a[c2.at]);
        assert(b[c3.at + d] == a[c3.at]);
        assert(b[c4.at + d] == a[c4.at]);
        assert(b[c5.at + d] == a[c5.at]);
        assert(keyword(b, Cursor::new(p + d), Keyword::OpenParen) == shifted(c0, d));
        assert(spaces(b, shifted(c0, d)) == shifted(c1, d));
        assert(decimal(b, shifted(c1, d)) == (x, shifted(c2, d)));
        assert(separator(b, shifted(c2, d)) == shifted(c3, d));
        assert(decimal(b, shifted(c3, d)) == (y, shifted(c4, d)));
        assert(spaces(b, shifted(c4, d)) == shifted(c5, d));
    }
}

/// A vector of three numbers is read alike wherever the same text stands and
/// ends.
pub proof fn lemma_triple_moved(a: Seq<char>, b: Seq<char>, d: int, p: int)
    requires
        0 <= p <= a.len(),
        triple(a, Cursor::new(p)).1.ok(),
    ensures
        p < triple(a, Cursor::new(p)).1.at <= a.len(),
        a[p] == '(',
        same_text(a, b, d, p, triple(a, Cursor::new(p)).1.at)
            ==> triple(b, Cursor::new(p + d)) == (
            triple(a, Cursor::new(p)).0,
            shifted(triple(a, Cursor::new(p)).1, d),
        ),
{
    reveal_strlit("(");
    reveal_strlit(")");
    let e = triple(a, Cursor::new(p)).1.at;
    lemma_keyword_moved(a, b, d, p, Keyword::OpenParen);
    let c0 = keyword(a, Cursor::new(p), Keyword::OpenParen);
    lemma_spaces_moved(a, b, d, c0.at);
    let c1 = spaces(a, c0);
    lemma_decimal_moved(a, b, d, c1.at);
    let (x, c2) = decimal(a, c1);
    lemma_separator_moved(a, b, d, c2.at);
    let c3 = separator(a, c2);
    lemma_decimal_moved(a, b, d, c3.at);
    let (y, c4) = decimal(a, c3);
    lemma_separator_moved(a, b, d, c4.at);
    let c5 = separator(a, c4);
    lemma_decimal_moved(a, b, d, c5.at);
    let (z, c6) = decimal(a, c5);
    lemma_spaces_moved(a, b, d, c6.at);
    let c7 = spaces(a, c6);
    lemma_keyword_moved(a, b, d, c7.at, Keyword::CloseParen);
    lemma_number_ends_before(a, c2.at);
    lemma_number_ends_before(a, c4.at);
    lemma_number_ends_before(a, c6.at);
    if same_text(a, b, d, p, e) {
        assert(b[c1.at + d] == a[c1.at]);
        assert(b[c2.at + d] == a[c2.at]);
        assert(b[c3.at + d] == a[c3.at]);
        assert(b[c4.at + d] == a[c4.at]);
        assert(b[c5.at + d] == a[c5.at]);
        assert(b[c6.at + d] == a[c6.at]);
        assert(b[c7.at + d] == a[c7.at]);
        assert(keyword(b, Cursor::new(p + d), Keyword::OpenParen) == shifted(c0, d));
        assert(spaces(b, shifted(c0, d)) == shifted(c1, d));
        assert(decimal(b, shifted(c1, d)) == (x, shifted(c2, d)));
        assert(separator(b, shifted(c2, d)) == shifted(c3, d));
        assert(decimal(b, shifted(c3, d)) == (y, shifted(c4, d)));
        assert(separator(b, shifted(c4, d)) == shifted(c5, d));
        assert(decimal(b, shifted(c5, d)) == (z, shifted(c6, d)));
        assert(spaces(b, shifted(c6, d)) == shifted(c7, d));
    }
}

/// A keyword and its count are read alike wherever the same text stands and
/// ends.
pub proof fn lemma_count_field_moved(a: Seq<char>, b: Seq<char>, d: int, p: int, k: Keyword)
    requires
        0 <= p <= a.len(),
        count_field(a, Cursor::new(p), k).1.ok(),
    ensures
        p < count_field(a, Cursor::new(p), k).1.at <= a.len(),
        0 <= count_field(a, Cursor::new(p), k).0,
        a[p] == k.text()[0],
        stops(a, count_field(a, Cursor::new(p), k).1.at, Class::Digit),
        same_text(a, b, d, p, count_field(a, Cursor::new(p), k).1.at) && stops(
            b,
            count_field(a, Cursor::new(p), k).1.at + d,
            Class::Digit,
        ) ==> count_field(b, Cursor::new(p + d), k) == (
            count_field(a, Cursor::new(p), k).0,
            shifted(count_field(a, Cursor::new(p), k).1, d),
        ),
{
    let e = count_field(a, Cursor::new(p), k).1.at;
    lemma_keyword_moved(a, b, d, p, k);
    let c0 = keyword(a, Cursor::new(p), k);
    lemma_separator_moved(a, b, d, c0.at);
    let c1 = separator(a, c0);
    lemma_unsigned_moved(a, b, d, c1.at, u32::MAX as int);
    if same_text(a, b, d, p, e) && stops(b, e + d, Class::Digit) {
        assert(b[c1.at + d] == a[c1.at]);
        assert(keyword(b, Cursor::new(p + d), k) == shifted(c0, d));
        assert(separator(b, shifted(c0, d)) == shifted(c1, d));
    }
}

/// A keyword and its string are read alike wherever the same text stands and
/// ends.
pub proof fn lemma_string_field_moved(a: Seq<char>, b: Seq<char>, d: int, p: int, k: Keyword)
    requires
        0 <= p <= a.len(),
        string_field(a, Cursor::new(p), k).1.ok(),
    ensures
        p < string_field(a, Cursor::new(p), k).1.at <= a.len(),
        a[p] == k.text()[0],
        same_text(a, b, d, p, string_field(a, Cursor::new(p), k).1.at) ==> string_field(
            b,
            Cursor::new(p + d),
            k,
        ) == (
            string_field(a, Cursor::new(p), k).0,
            shifted(string_field(a, Cursor::new(p), k).1, d),
        ),
{
    let e = string_field(a, Cursor::new(p), k).1.at;
    lemma_keyword_moved(a, b, d, p, k);
    let c0 = keyword(a, Cursor::new(p), k);
    lemma_separator_moved(a, b, d, c0.at);
    let c1 = separator(a, c0);
    lemma_quoted_moved(a, b, d, c1.at);
    if same_text(a, b, d, p, e) {
        assert(b[c1.at + d] == a[c1.at]);
        assert(keyword(b, Cursor::new(p + d), k) == shifted(c0, d));
        assert(separator(b, shifted(c0, d)) == shifted(c1, d));
    }
}


/// No blank line starts at `at`: after optional spaces the document ends,
/// or holds something that is neither a `/` nor a line terminator.
pub open spec fn solid(s: Seq<char>, at: int) -> bool {
    let q = run_end(s, at, Class::Space);
    q >= s.len() || (s[q] != '/' && s[q] != '\n' && s[q] != '\r')
}

/// Where no blank line starts, none is skipped.
pub proof fn lemma_solid_halts(s: Seq<char>, at: int)
    requires
        0 <= at <= s.len(),
        solid(s, at),
    ensures
        !line_end(s, Cursor::new(at)).ok(),
        blank_lines(s, Cursor::new(at)) == Cursor::new(at),
        !sees(s, at, '\n'),
{
    lemma_run_end(s, at, Class::Space);
}

/// A line that starts, after optional spaces, with a keyword is no blank
/// line.
pub proof fn lemma_keyword_is_solid(s: Seq<char>, at: int, k: Keyword)
    requires
        0 <= at <= s.len(),
        keyword(s, spaces(s, Cursor::new(at)), k).ok(),
    ensures
        solid(s, at),
        at <= run_end(s, at, Class::Space) < s.len(),
        s[run_end(s, at, Class::Space)] == k.text()[0],
{
    lemma_run_end(s, at, Class::Space);
    lemma_keyword_shape(k);
    lemma_keyword_moved(s, s, 0, run_end(s, at, Class::Space), k);
}

/// What stands where a line starts decides whether it is a blank line:
/// the same spaces and the same character after them, elsewhere, start no
/// blank line either.
pub proof fn lemma_solid_moved(a: Seq<char>, b: Seq<char>, d: int, at: int)
    requires
        0 <= at <= a.len(),
        solid(a, at),
        run_end(a, at, Class::Space) < a.len(),
        same_text(a, b, d, at, run_end(a, at, Class::Space) + 1),
    ensures
        solid(b, at + d),
        run_end(b, at + d, Class::Space) == run_end(a, at, Class::Space) + d,
{
    let q = run_end(a, at, Class::Space);
    lemma_run_end(a, at, Class::Space);
    assert(b[q + d] == a[q]);
    lemma_run_moved(a, b, d, at, Class::Space);
}

/// The end of a line is read alike wherever the same text stands and ends.
pub proof fn lemma_line_end_moved(a: Seq<char>, b: Seq<char>, d: int, p: int)
    requires
        0 <= p <= a.len(),
        line_end(a, Cursor::new(p)).ok(),
    ensures
        p < line_end(a, Cursor::new(p)).at <= a.len(),
        sees(a, line_end(a, Cursor::new(p)).at - 1, '\r') ==> !sees(
            a,
            line_end(a, Cursor::new(p)).at,
            '\n',
        ),
        same_text(a, b, d, p, line_end(a, Cursor::new(p)).at) && (sees(
            a,
            line_end(a, Cursor::new(p)).at - 1,
            '\r',
        ) ==> !sees(b, line_end(a, Cursor::new(p)).at + d, '\n')) ==> line_end(
            b,
            Cursor::new(p + d),
        ) == shifted(line_end(a, Cursor::new(p)), d),
{
    let e = line_end(a, Cursor::new(p)).at;
    let c1 = spaces(a, Cursor::new(p));
    let c2 = comment(a, c1);
    lemma_spaces_moved(a, b, d, p);
    if sees(a, c1.at, '/') && sees(a, c1.at + 1, '/') {
        lemma_run_moved(a, b, d, c1.at + 2, Class::Comment);
    }
    assert(c1.at <= c2.at < e <= a.len());
    if same_text(a, b, d, p, e) && (sees(a, e - 1, '\r') ==> !sees(b, e + d, '\n')) {
        assert(b[c1.at + d] == a[c1.at]);
        assert(b[c2.at + d] == a[c2.at]);
        assert(spaces(b, Cursor::new(p + d)) == shifted(c1, d));
        if sees(a, c1.at, '/') && sees(a, c1.at + 1, '/') {
            assert(b[c1.at + 1 + d] == a[c1.at + 1]);
        }
        assert(comment(b, shifted(c1, d)) == shifted(c2, d));
        if sees(a, c2.at, '\r') && sees(a, c2.at + 1, '\n') {
            assert(b[c2.at + 1 + d] == a[c2.at + 1]);
        }
    }
}

/// A run of blank lines is read alike wherever the same text stands and ends.
pub proof fn lemma_blank_lines_moved(a: Seq<char>, b: Seq<char>, d: int, p: int)
    requires
        0 <= p <= a.len(),
    ensures
        blank_lines(a, Cursor::new(p)).ok(),
        p <= blank_lines(a, Cursor::new(p)).at <= a.len(),
        same_text(a, b, d, p, blank_lines(a, Cursor::new(p)).at) && solid(
            b,
            blank_lines(a, Cursor::new(p)).at + d,
        ) ==> blank_lines(b, Cursor::new(p + d)) == shifted(blank_lines(a, Cursor::new(p)), d),
    decreases a.len() - p,
{
    let next = line_end(a, Cursor::new(p));
    let e = blank_lines(a, Cursor::new(p)).at;
    if next.ok() {
        lemma_line_end_moved(a, b, d, p);
        lemma_blank_lines_moved(a, b, d, next.at);
        if same_text(a, b, d, p, e) && solid(b, e + d) {
            lemma_solid_halts(b, e + d);
            if next.at < e {
                assert(b[next.at + d] == a[next.at]);
            }
            assert(line_end(b, Cursor::new(p + d)) == shifted(next, d));
        }
    } else {
        if same_text(a, b, d, p, e) && solid(b, e + d) {
            lemma_solid_halts(b, e + d);
        }
    }
}

/// The end of a record is read alike wherever the same text stands and ends.
pub proof fn lemma_record_end_moved(a: Seq<char>, b: Seq<char>, d: int, p: int)
    requires
        0 <= p <= a.len(),
        record_end(a, Cursor::new(p)).ok(),
    ensures
        p < record_end(a, Cursor::new(p)).at <= a.len(),
        stops(a, p, Class::Digit),
        same_text(a, b, d, p, record_end(a, Cursor::new(p)).at) && solid(
            b,
            record_end(a, Cursor::new(p)).at + d,
        ) ==> record_end(b, Cursor::new(p + d)) == shifted(record_end(a, Cursor::new(p)), d),
{
    let next = line_end(a, Cursor::new(p));
    let e = record_end(a, Cursor::new(p)).at;
    assert(next.ok());
    lemma_line_end_moved(a, b, d, p);
    lemma_blank_lines_moved(a, b, d, next.at);
    lemma_run_end(a, p, Class::Space);
    if same_text(a, b, d, p, e) && solid(b, e + d) {
        lemma_solid_halts(b, e + d);
        if next.at < e {
            assert(b[next.at + d] == a[next.at]);
        }
        assert(line_end(b, Cursor::new(p + d)) == shifted(next, d));
    }
}


/// Nothing is read behind a mismatch.
pub proof fn lemma_record_end_sticky(s: Seq<char>, c: Cursor)
    ensures
        !c.ok() ==> record_end(s, c) == c && line_end(s, c) == c && blank_lines(s, c) == c,
        record_end(s, c).ok() ==> c.ok() && line_end(s, c).ok(),
{
}

/// A record is read alike wherever the same text stands and ends.
pub proof fn lemma_record_moved<R: Record>(a: Seq<char>, b: Seq<char>, d: int, p: int)
    requires
        0 <= p <= a.len(),
        record::<R>(a, Cursor::new(p)).1.ok(),
    ensures
        p <= run_end(a, p, Class::Space) < record::<R>(a, Cursor::new(p)).1.at <= a.len(),
        solid(a, p),
        same_text(a, b, d, p, record::<R>(a, Cursor::new(p)).1.at) && solid(
            b,
            record::<R>(a, Cursor::new(p)).1.at + d,
        ) ==> record::<R>(b, Cursor::new(p + d)) == (
            record::<R>(a, Cursor::new(p)).0,
            shifted(record::<R>(a, Cursor::new(p)).1, d),
        ),
{
    let (v, c1) = R::fields(a, Cursor::new(p));
    let e = record::<R>(a, Cursor::new(p)).1.at;
    lemma_record_end_sticky(a, c1);
    R::lemma_fields_moved(a, b, d, p);
    lemma_record_end_moved(a, b, d, c1.at);
    if same_text(a, b, d, p, e) && solid(b, e + d) {
        assert(b[c1.at + d] == a[c1.at]);
        assert(R::fields(b, Cursor::new(p + d)) == (v, shifted(c1, d)));
    }
}

/// A run of records is read alike wherever the same text stands and ends.
pub proof fn lemma_counted_moved<R: Record>(a: Seq<char>, b: Seq<char>, d: int, p: int, n: nat)
    requires
        0 <= p <= a.len(),
        counted::<R>(a, Cursor::new(p), n).1.ok(),
    ensures
        p <= counted::<R>(a, Cursor::new(p), n).1.at <= a.len(),
        n > 0 ==> solid(a, p) && p <= run_end(a, p, Class::Space) < counted::<R>(
            a,
            Cursor::new(p),
            n,
        ).1.at,
        same_text(a, b, d, p, counted::<R>(a, Cursor::new(p), n).1.at) && solid(
            b,
            counted::<R>(a, Cursor::new(p), n).1.at + d,
        ) ==> counted::<R>(b, Cursor::new(p + d), n) == (
            counted::<R>(a, Cursor::new(p), n).0,
            shifted(counted::<R>(a, Cursor::new(p), n).1, d),
        ),
    decreases n,
{
    let e = counted::<R>(a, Cursor::new(p), n).1.at;
    if n > 0 {
        let (first, next) = record::<R>(a, Cursor::new(p));
        let rest = (n - 1) as nat;
        assert(next.ok()) by {
            if !next.ok() {
                assert(counted::<R>(a, next, rest).1 == next);
            }
        }
        lemma_record_moved::<R>(a, b, d, p);
        lemma_counted_moved::<R>(a, b, d, next.at, rest);
        if same_text(a, b, d, p, e) && solid(b, e + d) {
            if rest > 0 {
                lemma_same_text_part(
                    a,
                    b,
                    d,
                    p,
                    e,
                    next.at,
                    run_end(a, next.at, Class::Space) + 1,
                );
                lemma_solid_moved(a, b, d, next.at);
            }
            assert(record::<R>(b, Cursor::new(p + d)) == (first, shifted(next, d)));
        }
    }
}

/// A counted list is read alike wherever the same text stands and ends.
pub proof fn lemma_list_moved<R: Record>(a: Seq<char>, b: Seq<char>, d: int, p: int)
    requires
        0 <= p <= a.len(),
        list::<R>(a, Cursor::new(p)).1.ok(),
    ensures
        p <= run_end(a, p, Class::Space) < list::<R>(a, Cursor::new(p)).1.at <= a.len(),
        solid(a, p),
        same_text(a, b, d, p, list::<R>(a, Cursor::new(p)).1.at) && solid(
            b,
            list::<R>(a, Cursor::new(p)).1.at + d,
        ) ==> list::<R>(b, Cursor::new(p + d)) == (
            list::<R>(a, Cursor::new(p)).0,
            shifted(list::<R>(a, Cursor::new(p)).1, d),
        ),
{
    reveal(list);
    let e = list::<R>(a, Cursor::new(p)).1.at;
    let c0 = spaces(a, Cursor::new(p));
    let (n, c1) = count_field(a, c0, R::count_word());
    let c2 = record_end(a, c1);
    lemma_spaces_moved(a, b, d, p);
    assert(c2.ok()) by {
        if !c2.ok() {
            assert(counted::<R>(a, c2, n as nat).1 == c2);
        }
    }
    lemma_record_end_sticky(a, c1);
    assert(keyword(a, c0, R::count_word()).ok());
    lemma_keyword_is_solid(a, p, R::count_word());
    lemma_count_field_moved(a, b, d, c0.at, R::count_word());
    lemma_record_end_moved(a, b, d, c1.at);
    lemma_counted_moved::<R>(a, b, d, c2.at, n as nat);
    if same_text(a, b, d, p, e) && solid(b, e + d) {
        assert(b[c0.at + d] == a[c0.at]);
        assert(b[c1.at + d] == a[c1.at]);
        if n > 0 {
            lemma_same_text_part(a, b, d, p, e, c2.at, run_end(a, c2.at, Class::Space) + 1);
            lemma_solid_moved(a, b, d, c2.at);
        }
        assert(spaces(b, Cursor::new(p + d)) == shifted(c0, d));
        assert(count_field(b, shifted(c0, d), R::count_word()) == (n, shifted(c1, d)));
        assert(record_end(b, shifted(c1, d)) == shifted(c2, d));
    }
}

/// The fields of a joint are read alike wherever the same text stands and ends.
pub proof fn lemma_joint_fields_moved(a: Seq<char>, b: Seq<char>, d: int, p: int)
    requires
        0 <= p <= a.len(),
        joint_fields(a, Cursor::new(p)).1.ok(),
    ensures
        p <= run_end(a, p, Class::Space) < joint_fields(a, Cursor::new(p)).1.at <= a.len(),
        sees(a, run_end(a, p, Class::Space), '"'),
        same_text(a, b, d, p, joint_fields(a, Cursor::new(p)).1.at) ==> joint_fields(
            b,
            Cursor::new(p + d),
        ) == (joint_fields(a, Cursor::new(p)).0, shifted(joint_fields(a, Cursor::new(p)).1, d)),
{
    reveal(joint_fields);
    let e = joint_fields(a, Cursor::new(p)).1.at;
    lemma_spaces_moved(a, b, d, p);
    let c0 = spaces(a, Cursor::new(p));
    lemma_quoted_moved(a, b, d, c0.at);
    let (name, c1) = quoted(a, c0);
    lemma_separator_moved(a, b, d, c1.at);
    let c2 = separator(a, c1);
    lemma_signed_moved(a, b, d, c2.at);
    let (parent, c3) = signed(a, c2);
    lemma_separator_moved(a, b, d, c3.at);
    let c4 = separator(a, c3);
    lemma_triple_moved(a, b, d, c4.at);
    let (position, c5) = triple(a, c4);
    lemma_separator_moved(a, b, d, c5.at);
    let c6 = separator(a, c5);
    lemma_triple_moved(a, b, d, c6.at);
    lemma_run_end(a, c3.at, Class::Space);
    if same_text(a, b, d, p, e) {
        assert(b[c0.at + d] == a[c0.at]);
        assert(b[c1.at + d] == a[c1.at]);
        assert(b[c2.at + d] == a[c2.at]);
        assert(b[c3.at + d] == a[c3.at]);
        assert(b[c4.at + d] == a[c4.at]);
        assert(b[c5.at + d] == a[c5.at]);
        assert(b[c6.at + d] == a[c6.at]);
        assert(spaces(b, Cursor::new(p + d)) == shifted(c0, d));
        assert(quoted(b, shifted(c0, d)) == (name, shifted(c1, d)));
        assert(separator(b, shifted(c1, d)) == shifted(c2, d));
        assert(signed(b, shifted(c2, d)) == (parent, shifted(c3, d)));
        assert(separator(b, shifted(c3, d)) == shifted(c4, d));
        assert(triple(b, shifted(c4, d)) == (position, shifted(c5, d)));
        assert(separator(b, shifted(c5, d)) == shifted(c6, d));
    }
}

/// A joint is read alike wherever the same text stands and ends.
pub proof fn lemma_joint_record_moved(a: Seq<char>, b: Seq<char>, d: int, p: int)
    requires
        0 <= p <= a.len(),
        joint_record(a, Cursor::new(p)).1.ok(),
    ensures
        p <= run_end(a, p, Class::Space) < joint_record(a, Cursor::new(p)).1.at <= a.len(),
        sees(a, run_end(a, p, Class::Space), '"'),
        same_text(a, b, d, p, joint_record(a, Cursor::new(p)).1.at) && solid(
            b,
            joint_record(a, Cursor::new(p)).1.at + d,
        ) ==> joint_record(b, Cursor::new(p + d)) == (
            joint_record(a, Cursor::new(p)).0,
            shifted(joint_record(a, Cursor::new(p)).1, d),
        ),
{
    let (v, c1) = joint_fields(a, Cursor::new(p));
    let e = joint_record(a, Cursor::new(p)).1.at;
    lemma_record_end_sticky(a, c1);
    lemma_joint_fields_moved(a, b, d, p);
    lemma_record_end_moved(a, b, d, c1.at);
    if same_text(a, b, d, p, e) && solid(b, e + d) {
        assert(joint_fields(b, Cursor::new(p + d)) == (v, shifted(c1, d)));
    }
}

/// The joints end where a line starts with something else than a `"`.
pub open spec fn ends_joints(s: Seq<char>, at: int) -> bool {
    solid(s, at) && !sees(s, run_end(s, at, Class::Space), '"')
}

/// A run of joints is read alike wherever the same text stands and ends.
pub proof fn lemma_joint_records_moved(a: Seq<char>, b: Seq<char>, d: int, p: int)
    requires
        0 <= p <= a.len(),
        joint_records(a, Cursor::new(p)).1.ok(),
    ensures
        p <= joint_records(a, Cursor::new(p)).1.at <= a.len(),
        sees(a, run_end(a, p, Class::Space), '"') ==> run_end(a, p, Class::Space) < joint_records(
            a,
            Cursor::new(p),
        ).1.at,
        same_text(a, b, d, p, joint_records(a, Cursor::new(p)).1.at) && ends_joints(
            b,
            joint_records(a, Cursor::new(p)).1.at + d,
        ) ==> joint_records(b, Cursor::new(p + d)) == (
            joint_records(a, Cursor::new(p)).0,
            shifted(joint_records(a, Cursor::new(p)).1, d),
        ),
    decreases a.len() - p,
{
    let e = joint_records(a, Cursor::new(p)).1.at;
    let q = run_end(a, p, Class::Space);
    if sees(a, q, '"') {
        let (first, next) = joint_record(a, Cursor::new(p));
        assert(next.ok());
        lemma_run_end(a, p, Class::Space);
        lemma_joint_record_moved(a, b, d, p);
        lemma_joint_records_moved(a, b, d, next.at);
        if same_text(a, b, d, p, e) && ends_joints(b, e + d) {
            let q2 = run_end(a, next.at, Class::Space);
            if sees(a, q2, '"') {
                assert(joint_record(a, next).1.ok());
                lemma_joint_record_moved(a, b, d, next.at);
                lemma_same_text_part(a, b, d, p, e, next.at, q2 + 1);
                lemma_solid_moved(a, b, d, next.at);
            }
            assert(b[q + d] == a[q]);
            lemma_run_moved(a, b, d, p, Class::Space);
            assert(joint_record(b, Cursor::new(p + d)) == (first, shifted(next, d)));
        }
    }
}

/// The `joints` block is read alike wherever the same text stands and ends.
pub proof fn lemma_joints_moved(a: Seq<char>, b: Seq<char>, d: int, p: int)
    requires
        0 <= p <= a.len(),
        joints(a, Cursor::new(p)).1.ok(),
    ensures
        p < joints(a, Cursor::new(p)).1.at <= a.len(),
        solid(a, p),
        same_text(a, b, d, p, joints(a, Cursor::new(p)).1.at) && solid(
            b,
            joints(a, Cursor::new(p)).1.at + d,
        ) ==> joints(b, Cursor::new(p + d)) == (
            joints(a, Cursor::new(p)).0,
            shifted(joints(a, Cursor::new(p)).1, d),
        ),
{
    let e = joints(a, Cursor::new(p)).1.at;
    let c0 = keyword(a, Cursor::new(p), Keyword::Joints);
    let c1 = record_end(a, c0);
    let (items, c2) = joint_records(a, c1);
    let c3 = spaces(a, c2);
    let c4 = keyword(a, c3, Keyword::Close);
    lemma_record_end_sticky(a, c4);
    lemma_record_end_sticky(a, c0);
    assert(c2.ok());
    assert(c1.ok()) by {
        if !c1.ok() {
            assert(joint_records(a, c1).1 == c1);
        }
    }
    lemma_keyword_moved(a, b, d, p, Keyword::Joints);
    lemma_keyword_shape(Keyword::Joints);
    lemma_keyword_shape(Keyword::Close);
    lemma_run_end(a, p, Class::Space);
    lemma_record_end_moved(a, b, d, c0.at);
    lemma_joint_records_moved(a, b, d, c1.at);
    lemma_spaces_moved(a, b, d, c2.at);
    lemma_keyword_moved(a, b, d, c3.at, Keyword::Close);
    lemma_keyword_is_solid(a, c2.at, Keyword::Close);
    lemma_record_end_moved(a, b, d, c4.at);
    if same_text(a, b, d, p, e) && solid(b, e + d) {
        lemma_same_text_part(a, b, d, p, e, c2.at, c3.at + 1);
        lemma_solid_moved(a, b, d, c2.at);
        assert(b[c3.at + d] == a[c3.at]);
        assert(ends_joints(b, c2.at + d));
        let q1 = run_end(a, c1.at, Class::Space);
        lemma_run_end(a, c1.at, Class::Space);
        if sees(a, q1, '"') {
            assert(joint_record(a, c1).1.ok());
            lemma_joint_record_moved(a, b, d, c1.at);
        } else {
            assert(c2 == c1);
        }
        lemma_same_text_part(a, b, d, p, e, c1.at, q1 + 1);
        lemma_solid_moved(a, b, d, c1.at);
        assert(keyword(b, Cursor::new(p + d), Keyword::Joints) == shifted(c0, d));
        assert(record_end(b, shifted(c0, d)) == shifted(c1, d));
        assert(joint_records(b, shifted(c1, d)) == (items, shifted(c2, d)));
        assert(spaces(b, shifted(c2, d)) == shifted(c3, d));
        assert(keyword(b, shifted(c3, d), Keyword::Close) == shifted(c4, d));
    }
}


/// A mesh is read alike wherever the same text stands and ends.
pub proof fn lemma_mesh_moved(a: Seq<char>, b: Seq<char>, d: int, p: int)
    requires
        0 <= p <= a.len(),
        mesh(a, Cursor::new(p)).1.ok(),
    ensures
        p < mesh(a, Cursor::new(p)).1.at <= a.len(),
        a[p] == Keyword::Mesh.text()[0],
        same_text(a, b, d, p, mesh(a, Cursor::new(p)).1.at) ==> mesh(b, Cursor::new(p + d)) == (
            mesh(a, Cursor::new(p)).0,
            shifted(mesh(a, Cursor::new(p)).1, d),
        ),
{
    reveal(mesh);
    let e = mesh(a, Cursor::new(p)).1.at;
    let c0 = keyword(a, Cursor::new(p), Keyword::Mesh);
    let c1 = record_end(a, c0);
    let c2 = spaces(a, c1);
    let (shader, c3) = string_field(a, c2, Keyword::Shader);
    let c4 = record_end(a, c3);
    let (verts, c5) = list::<Vert>(a, c4);
    let (tris, c6) = list::<Tri>(a, c5);
    let (weights, c7) = list::<Weight>(a, c6);
    let c8 = spaces(a, c7);
    lemma_list_sticky::<Weight>(a, c6);
    lemma_list_sticky::<Tri>(a, c5);
    lemma_list_sticky::<Vert>(a, c4);
    assert(c7.ok() && c6.ok() && c5.ok() && c4.ok());
    lemma_record_end_sticky(a, c3);
    assert(c2.ok());
    lemma_record_end_sticky(a, c0);
    lemma_keyword_moved(a, b, d, p, Keyword::Mesh);
    lemma_record_end_moved(a, b, d, c0.at);
    lemma_spaces_moved(a, b, d, c1.at);
    lemma_keyword_is_solid(a, c1.at, Keyword::Shader);
    lemma_string_field_moved(a, b, d, c2.at, Keyword::Shader);
    lemma_record_end_moved(a, b, d, c3.at);
    lemma_list_moved::<Vert>(a, b, d, c4.at);
    lemma_list_moved::<Tri>(a, b, d, c5.at);
    lemma_list_moved::<Weight>(a, b, d, c6.at);
    lemma_spaces_moved(a, b, d, c7.at);
    lemma_keyword_is_solid(a, c7.at, Keyword::Close);
    lemma_keyword_moved(a, b, d, c8.at, Keyword::Close);
    if same_text(a, b, d, p, e) {
        lemma_same_text_part(a, b, d, p, e, c1.at, run_end(a, c1.at, Class::Space) + 1);
        lemma_solid_moved(a, b, d, c1.at);
        lemma_same_text_part(a, b, d, p, e, c4.at, run_end(a, c4.at, Class::Space) + 1);
        lemma_solid_moved(a, b, d, c4.at);
        lemma_same_text_part(a, b, d, p, e, c5.at, run_end(a, c5.at, Class::Space) + 1);
        lemma_solid_moved(a, b, d, c5.at);
        lemma_same_text_part(a, b, d, p, e, c6.at, run_end(a, c6.at, Class::Space) + 1);
        lemma_solid_moved(a, b, d, c6.at);
        lemma_same_text_part(a, b, d, p, e, c7.at, run_end(a, c7.at, Class::Space) + 1);
        lemma_solid_moved(a, b, d, c7.at);
        assert(keyword(b, Cursor::new(p + d), Keyword::Mesh) == shifted(c0, d));
        assert(record_end(b, shifted(c0, d)) == shifted(c1, d));
        assert(spaces(b, shifted(c1, d)) == shifted(c2, d));
        assert(string_field(b, shifted(c2, d), Keyword::Shader) == (shader, shifted(c3, d)));
        assert(record_end(b, shifted(c3, d)) == shifted(c4, d));
        assert(list::<Vert>(b, shifted(c4, d)) == (verts, shifted(c5, d)));
        assert(list::<Tri>(b, shifted(c5, d)) == (tris, shifted(c6, d)));
        assert(list::<Weight>(b, shifted(c6, d)) == (weights, shifted(c7, d)));
        assert(spaces(b, shifted(c7, d)) == shifted(c8, d));
    }
}

/// A mesh and the blank lines behind it are read alike wherever the same text
/// stands and ends.
pub proof fn lemma_mesh_block_moved(a: Seq<char>, b: Seq<char>, d: int, p: int)
    requires
        0 <= p <= a.len(),
        mesh_block(a, Cursor::new(p)).1.ok(),
    ensures
        p < mesh_block(a, Cursor::new(p)).1.at <= a.len(),
        solid(a, p),
        run_end(a, p, Class::Space) == p,
        same_text(a, b, d, p, mesh_block(a, Cursor::new(p)).1.at) && solid(
            b,
            mesh_block(a, Cursor::new(p)).1.at + d,
        ) ==> mesh_block(b, Cursor::new(p + d)) == (
            mesh_block(a, Cursor::new(p)).0,
            shifted(mesh_block(a, Cursor::new(p)).1, d),
        ),
{
    reveal(mesh_block);
    let (m, c1) = mesh(a, Cursor::new(p));
    let e = mesh_block(a, Cursor::new(p)).1.at;
    lemma_record_end_sticky(a, c1);
    lemma_mesh_moved(a, b, d, p);
    lemma_blank_lines_moved(a, b, d, c1.at);
    lemma_keyword_shape(Keyword::Mesh);
    lemma_run_end(a, p, Class::Space);
    if same_text(a, b, d, p, e) && solid(b, e + d) {
        assert(mesh(b, Cursor::new(p + d)) == (m, shifted(c1, d)));
    }
}

/// The meshes of a document are read alike wherever the same text stands and
/// ends.
pub proof fn lemma_meshes_moved(a: Seq<char>, b: Seq<char>, d: int, p: int)
    requires
        0 <= p <= a.len(),
        meshes(a, Cursor::new(p)).1.ok(),
    ensures
        meshes(a, Cursor::new(p)).1.at == a.len(),
        same_text(a, b, d, p, a.len() as int) && a.len() + d == b.len() ==> meshes(
            b,
            Cursor::new(p + d),
        ) == (meshes(a, Cursor::new(p)).0, shifted(meshes(a, Cursor::new(p)).1, d)),
    decreases a.len() - p,
{
    if p < a.len() {
        let (first, next) = mesh_block(a, Cursor::new(p));
        assert(next.ok());
        lemma_mesh_block_moved(a, b, d, p);
        lemma_meshes_moved(a, b, d, next.at);
        if same_text(a, b, d, p, a.len() as int) && a.len() + d == b.len() {
            if next.at < a.len() {
                assert(mesh_block(a, next).1.ok());
                lemma_mesh_block_moved(a, b, d, next.at);
                lemma_run_end(a, next.at, Class::Space);
                lemma_same_text_part(
                    a,
                    b,
                    d,
                    p,
                    a.len() as int,
                    next.at,
                    run_end(a, next.at, Class::Space) + 1,
                );
                lemma_solid_moved(a, b, d, next.at);
            } else {
                lemma_run_end(b, b.len() as int, Class::Space);
            }
            assert(mesh_block(b, Cursor::new(p + d)) == (first, shifted(next, d)));
        }
    }
}

/// Where a lone `\r` ends the text that was read, no `\n` follows it.
pub open spec fn ends_line_break(a: Seq<char>, e: int, b: Seq<char>, at: int) -> bool {
    sees(a, e - 1, '\r') ==> !sees(b, at, '\n')
}

/// A line with a keyword and its count is read alike wherever the same text
/// stands and ends.
pub proof fn lemma_count_line_moved(a: Seq<char>, b: Seq<char>, d: int, p: int, k: Keyword)
    requires
        0 <= p <= a.len(),
        count_line(a, Cursor::new(p), k).1.ok(),
    ensures
        p < count_line(a, Cursor::new(p), k).1.at <= a.len(),
        a[p] == k.text()[0],
        ends_line_break(
            a,
            count_line(a, Cursor::new(p), k).1.at,
            a,
            count_line(a, Cursor::new(p), k).1.at,
        ),
        same_text(a, b, d, p, count_line(a, Cursor::new(p), k).1.at) && ends_line_break(
            a,
            count_line(a, Cursor::new(p), k).1.at,
            b,
            count_line(a, Cursor::new(p), k).1.at + d,
        ) ==> count_line(b, Cursor::new(p + d), k) == (
            count_line(a, Cursor::new(p), k).0,
            shifted(count_line(a, Cursor::new(p), k).1, d),
        ),
{
    let e = count_line(a, Cursor::new(p), k).1.at;
    let (v, c1) = count_field(a, Cursor::new(p), k);
    lemma_count_field_moved(a, b, d, p, k);
    lemma_line_end_moved(a, b, d, c1.at);
    lemma_run_end(a, c1.at, Class::Space);
    if same_text(a, b, d, p, e) && ends_line_break(a, e, b, e + d) {
        assert(b[c1.at + d] == a[c1.at]);
        assert(count_field(b, Cursor::new(p + d), k) == (v, shifted(c1, d)));
    }
}

/// A line with a keyword and its string is read alike wherever the same text
/// stands and ends.
pub proof fn lemma_string_line_moved(a: Seq<char>, b: Seq<char>, d: int, p: int, k: Keyword)
    requires
        0 <= p <= a.len(),
        string_line(a, Cursor::new(p), k).1.ok(),
    ensures
        p < string_line(a, Cursor::new(p), k).1.at <= a.len(),
        a[p] == k.text()[0],
        ends_line_break(
            a,
            string_line(a, Cursor::new(p), k).1.at,
            a,
            string_line(a, Cursor::new(p), k).1.at,
        ),
        same_text(a, b, d, p, string_line(a, Cursor::new(p), k).1.at) && ends_line_break(
            a,
            string_line(a, Cursor::new(p), k).1.at,
            b,
            string_line(a, Cursor::new(p), k).1.at + d,
        ) ==> string_line(b, Cursor::new(p + d), k) == (
            string_line(a, Cursor::new(p), k).0,
            shifted(string_line(a, Cursor::new(p), k).1, d),
        ),
{
    let e = string_line(a, Cursor::new(p), k).1.at;
    let (v, c1) = string_field(a, Cursor::new(p), k);
    lemma_string_field_moved(a, b, d, p, k);
    lemma_line_end_moved(a, b, d, c1.at);
    if same_text(a, b, d, p, e) && ends_line_break(a, e, b, e + d) {
        assert(string_field(b, Cursor::new(p + d), k) == (v, shifted(c1, d)));
    }
}

/// A line that starts with a keyword is no blank line, and no `\n`.
pub proof fn lemma_keyword_starts_line(s: Seq<char>, at: int, k: Keyword)
    requires
        0 <= at <= s.len(),
        keyword(s, Cursor::new(at), k).ok(),
    ensures
        solid(s, at),
        at < s.len(),
        run_end(s, at, Class::Space) == at,
        !sees(s, at, '\n'),
        !line_end(s, Cursor::new(at)).ok(),
{
    lemma_keyword_moved(s, s, 0, at, k);
    lemma_keyword_shape(k);
    lemma_run_end(s, at, Class::Space);
    lemma_solid_halts(s, at);
}

/// The optional blank line of the header ends inside the document.
pub proof fn lemma_optional_line_end_bounds(a: Seq<char>, p: int)
    requires
        0 <= p <= a.len(),
    ensures
        optional_line_end(a, Cursor::new(p)).ok(),
        p <= optional_line_end(a, Cursor::new(p)).at <= a.len(),
{
    if line_end(a, Cursor::new(p)).ok() {
        lemma_line_end_moved(a, a, 0, p);
    }
}

/// The optional blank line of the header is read alike wherever the same text
/// stands and ends.
pub proof fn lemma_optional_line_end_moved(
    a: Seq<char>,
    b: Seq<char>,
    d: int,
    p: int,
    k: Keyword,
    hi: int,
)
    requires
        0 <= p <= a.len(),
        keyword(a, optional_line_end(a, Cursor::new(p)), k).ok(),
        same_text(a, b, d, p, hi),
        optional_line_end(a, Cursor::new(p)).at < hi,
    ensures
        p <= optional_line_end(a, Cursor::new(p)).at,
        optional_line_end(b, Cursor::new(p + d)) == shifted(
            optional_line_end(a, Cursor::new(p)),
            d,
        ),
{
    let n = optional_line_end(a, Cursor::new(p));
    lemma_keyword_starts_line(a, n.at, k);
    if line_end(a, Cursor::new(p)).ok() {
        lemma_line_end_moved(a, b, d, p);
    }
    lemma_same_text_part(a, b, d, p, hi, n.at, n.at + 1);
    lemma_solid_moved(a, b, d, n.at);
    lemma_solid_halts(b, n.at + d);
    lemma_same_text_part(a, b, d, p, hi, p, n.at);
}

/// The header is read alike wherever the same text stands and ends.
pub proof fn lemma_header_moved(a: Seq<char>, b: Seq<char>, d: int, p: int)
    requires
        0 <= p <= a.len(),
        header(a, Cursor::new(p)).1.ok(),
    ensures
        p < header(a, Cursor::new(p)).1.at <= a.len(),
        ends_line_break(a, header(a, Cursor::new(p)).1.at, a, header(a, Cursor::new(p)).1.at),
        same_text(a, b, d, p, header(a, Cursor::new(p)).1.at) && ends_line_break(
            a,
            header(a, Cursor::new(p)).1.at,
            b,
            header(a, Cursor::new(p)).1.at + d,
        ) ==> header(b, Cursor::new(p + d)) == (
            header(a, Cursor::new(p)).0,
            shifted(header(a, Cursor::new(p)).1, d),
        ),
{
    let e = header(a, Cursor::new(p)).1.at;
    let (version, c1) = count_line(a, Cursor::new(p), Keyword::Version);
    let (command, c2) = string_line(a, c1, Keyword::CommandLine);
    let c3 = optional_line_end(a, c2);
    let (nj, c4) = count_line(a, c3, Keyword::NumJoints);
    let (nm, c5) = count_line(a, c4, Keyword::NumMeshes);
    assert(c4.ok() && c3.ok() && c2.ok() && c1.ok());
    lemma_count_line_moved(a, b, d, p, Keyword::Version);
    lemma_string_line_moved(a, b, d, c1.at, Keyword::CommandLine);
    lemma_count_line_moved(a, b, d, c3.at, Keyword::NumJoints);
    lemma_count_line_moved(a, b, d, c4.at, Keyword::NumMeshes);
    lemma_keyword_starts_line(a, c1.at, Keyword::CommandLine);
    lemma_keyword_starts_line(a, c3.at, Keyword::NumJoints);
    lemma_keyword_starts_line(a, c4.at, Keyword::NumMeshes);
    lemma_optional_line_end_bounds(a, c2.at);
    if same_text(a, b, d, p, e) && ends_line_break(a, e, b, e + d) {
        lemma_same_text_part(a, b, d, p, e, c2.at, e);
        lemma_optional_line_end_moved(a, b, d, c2.at, Keyword::NumJoints, e);
        assert(b[c1.at + d] == a[c1.at]);
        assert(b[c2.at + d] == a[c2.at]);
        assert(b[c4.at + d] == a[c4.at]);
        assert(count_line(b, Cursor::new(p + d), Keyword::Version) == (version, shifted(c1, d)));
        assert(string_line(b, shifted(c1, d), Keyword::CommandLine) == (command, shifted(c2, d)));
        assert(count_line(b, shifted(c3, d), Keyword::NumJoints) == (nj, shifted(c4, d)));
    }
}

} // verus!
