//! The vertices of a mesh.
use vstd::prelude::*;
use crate::error::{Keyword, SyntaxError};
use crate::geometry::{pair, vector2};
use crate::lexical::{
    count_field, expect_record_end, expect_separator, read_count_field, separator, skip_space,
    spaces, unsigned, unsigned_integer, Class, Cursor,
};
use crate::locality::{
    lemma_count_field_moved, lemma_keyword_is_solid, lemma_keyword_shape, lemma_pair_moved,
    lemma_separator_moved, lemma_spaces_moved, lemma_unsigned_moved, same_text, shifted, stops,
};
use crate::mesh::Record;
use crate::model::{Vert, VertView};
use crate::writing::{
    count_field_text, digits_of, is_count, lemma_count_and_space_read, lemma_count_field_read,
    lemma_digits_of, lemma_digits_read, lemma_has_at_split, lemma_newline_read, lemma_pair_read,
    lemma_pair_writable, lemma_space_read, lemma_tab_read, numbers, pair_text,
};

verus! {

/// `vert`, the declared index, the texture coordinates in parentheses, the
/// first weight and the number of weights.
#[verifier::opaque]
pub open spec fn vert_fields(s: Seq<char>, c: Cursor) -> (VertView, Cursor) {
    let (index, c1) = count_field(s, spaces(s, c), Keyword::Vert);
    let (uv, c2) = pair(s, separator(s, c1));
    let (weight_ix_start, c3) = unsigned(s, separator(s, c2), u32::MAX as int);
    let (weight_ix_count, c4) = unsigned(s, separator(s, c3), u32::MAX as int);
    (VertView { index, uv, weight_ix_start, weight_ix_count }, c4)
}

impl Record for Vert {
    open spec fn count_word() -> Keyword {
        Keyword::NumVerts
    }

    open spec fn fields(s: Seq<char>, c: Cursor) -> (VertView, Cursor) {
        vert_fields(s, c)
    }

    fn count_keyword() -> (k: Keyword) {
        Keyword::NumVerts
    }

    proof fn lemma_fields_moved(a: Seq<char>, b: Seq<char>, d: int, p: int) {
        reveal(vert_fields);
        let e = vert_fields(a, Cursor::new(p)).1.at;
        lemma_spaces_moved(a, b, d, p);
        let c0 = spaces(a, Cursor::new(p));
        lemma_count_field_moved(a, b, d, c0.at, Keyword::Vert);
        lemma_keyword_is_solid(a, p, Keyword::Vert);
        let (index, c1) = count_field(a, c0, Keyword::Vert);
        lemma_separator_moved(a, b, d, c1.at);
        let c2 = separator(a, c1);
        lemma_pair_moved(a, b, d, c2.at);
        let (uv, c3) = pair(a, c2);
        lemma_separator_moved(a, b, d, c3.at);
        let c4 = separator(a, c3);
        lemma_unsigned_moved(a, b, d, c4.at, u32::MAX as int);
        let (start, c5) = unsigned(a, c4, u32::MAX as int);
        lemma_separator_moved(a, b, d, c5.at);
        let c6 = separator(a, c5);
        lemma_unsigned_moved(a, b, d, c6.at, u32::MAX as int);
        if same_text(a, b, d, p, e) && stops(b, e + d, Class::Digit) {
            assert(b[c0.at + d] == a[c0.at]);
            assert(b[c1.at + d] == a[c1.at]);
            assert(b[c2.at + d] == a[c2.at]);
            assert(b[c3.at + d] == a[c3.at]);
            assert(b[c4.at + d] == a[c4.at]);
            assert(b[c5.at + d] == a[c5.at]);
            assert(b[c6.at + d] == a[c6.at]);
            assert(spaces(b, Cursor::new(p + d)) == shifted(c0, d));
            assert(count_field(b, shifted(c0, d), Keyword::Vert) == (index, shifted(c1, d)));
            assert(separator(b, shifted(c1, d)) == shifted(c2, d));
            assert(pair(b, shifted(c2, d)) == (uv, shifted(c3, d)));
            assert(separator(b, shifted(c3, d)) == shifted(c4, d));
            assert(unsigned(b, shifted(c4, d), u32::MAX as int) == (start, shifted(c5, d)));
            assert(separator(b, shifted(c5, d)) == shifted(c6, d));
        }
    }

    open spec fn writable(value: VertView) -> bool {
        &&& is_count(value.index)
        &&& numbers(value.uv, 2)
        &&& is_count(value.weight_ix_start)
        &&& is_count(value.weight_ix_count)
    }

    open spec fn fields_text(value: VertView) -> Seq<char> {
        count_field_text(Keyword::Vert, value.index) + (seq![' '] + (pair_text(value.uv) + (seq![
            ' ',
        ] + (digits_of(value.weight_ix_start as nat) + (seq![' '] + digits_of(
            value.weight_ix_count as nat,
        ))))))
    }

    proof fn lemma_fields_read(s: Seq<char>, p: int, value: VertView, rest: Seq<char>) {
        reveal(vert_fields);
        reveal_strlit("(");
        let t3 = digits_of(value.weight_ix_count as nat);
        let t2 = digits_of(value.weight_ix_start as nat) + (seq![' '] + t3);
        let t1 = pair_text(value.uv) + (seq![' '] + t2);
        let head = count_field_text(Keyword::Vert, value.index);
        lemma_digits_of(value.weight_ix_count as nat);
        lemma_digits_of(value.weight_ix_start as nat);
        lemma_keyword_shape(Keyword::OpenParen);
        lemma_keyword_shape(Keyword::Vert);
        lemma_tab_read(s, p, Self::fields_text(value) + (seq!['\n'] + rest));
        let at0 = p + 1;
        lemma_has_at_split(s, at0, Self::fields_text(value), seq!['\n'] + rest);
        lemma_newline_read(s, at0 + Self::fields_text(value).len(), rest);
        lemma_has_at_split(s, at0, head, seq![' '] + t1);
        let at1 = at0 + head.len();
        lemma_space_read(s, at1, t1);
        lemma_count_field_read(s, at0, Keyword::Vert, value.index);
        let at2 = at1 + 1;
        lemma_has_at_split(s, at2, pair_text(value.uv), seq![' '] + t2);
        lemma_pair_read(s, at2, value.uv);
        let at3 = at2 + pair_text(value.uv).len();
        lemma_space_read(s, at3, t2);
        let at4 = at3 + 1;
        lemma_count_and_space_read(s, at4, value.weight_ix_start, t3);
        let at5 = at4 + digits_of(value.weight_ix_start as nat).len() + 1;
        lemma_digits_read(s, at5, value.weight_ix_count as nat, u32::MAX as int);
    }

    proof fn lemma_fields_writable(s: Seq<char>, p: int) {
        reveal(vert_fields);
        lemma_spaces_moved(s, s, 0, p);
        let c0 = spaces(s, Cursor::new(p));
        lemma_count_field_moved(s, s, 0, c0.at, Keyword::Vert);
        let c1 = count_field(s, c0, Keyword::Vert).1;
        lemma_separator_moved(s, s, 0, c1.at);
        let c2 = separator(s, c1);
        lemma_pair_moved(s, s, 0, c2.at);
        lemma_pair_writable(s, c2.at);
        let c3 = pair(s, c2).1;
        lemma_separator_moved(s, s, 0, c3.at);
        let c4 = separator(s, c3);
        lemma_unsigned_moved(s, s, 0, c4.at, u32::MAX as int);
        let c5 = unsigned(s, c4, u32::MAX as int).1;
        lemma_separator_moved(s, s, 0, c5.at);
        let c6 = separator(s, c5);
        lemma_unsigned_moved(s, s, 0, c6.at, u32::MAX as int);
    }

    fn parse(input: &[char], pos: usize) -> (r: Result<(Vert, usize), SyntaxError>) {
        reveal(vert_fields);
        let (index, after_index) = read_count_field(input, skip_space(input, pos), Keyword::Vert)?;
        let (uv, after_uv) = vector2(input, expect_separator(input, after_index)?)?;
        let (start, after_start) = unsigned_integer(
            input,
            expect_separator(input, after_uv)?,
            u32::MAX,
        )?;
        let (count, after_count) = unsigned_integer(
            input,
            expect_separator(input, after_start)?,
            u32::MAX,
        )?;
        let end = expect_record_end(input, after_count)?;
        Ok(
            (
                Vert {
                    index: index as usize,
                    uv,
                    weight_ix_start: start as usize,
                    weight_ix_count: count as usize,
                },
                end,
            ),
        )
    }
}

} // verus!
