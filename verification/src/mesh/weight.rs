//! The weights of a mesh.
use vstd::prelude::*;
use crate::error::{Keyword, SyntaxError};
use crate::geometry::{triple, vector3};
use crate::lexical::{
    count_field, decimal, expect_record_end, expect_separator, position, read_count_field,
    separator, signed_float, skip_space, spaces, unsigned, unsigned_integer, Cursor,
};
use crate::locality::{
    lemma_count_field_moved, lemma_decimal_moved, lemma_keyword_is_solid, lemma_keyword_shape,
    lemma_number_ends_before, lemma_separator_moved, lemma_spaces_moved, lemma_triple_moved,
    lemma_unsigned_moved, same_text, shifted,
};
use crate::mesh::Record;
use crate::model::{Weight, WeightView};
use crate::writing::{
    count_field_text, decimal_text, digits_of, is_count, is_number, lemma_count_and_space_read,
    lemma_count_field_read, lemma_decimal_text, lemma_decimal_writable, lemma_digits_of,
    lemma_has_at_split, lemma_number_and_space_read, lemma_space_read, lemma_tab_read,
    lemma_triple_read, lemma_triple_writable, numbers, triple_text,
};

verus! {

/// `weight`, the declared index, the joint's index, the bias, and the
/// position in parentheses.
#[verifier::opaque]
pub open spec fn weight_fields(s: Seq<char>, c: Cursor) -> (WeightView, Cursor) {
    let (index, c1) = count_field(s, spaces(s, c), Keyword::Weight);
    let (joint, c2) = unsigned(s, separator(s, c1), u32::MAX as int);
    let (bias, c3) = decimal(s, separator(s, c2));
    let (pos, c4) = triple(s, separator(s, c3));
    (WeightView { index, joint, bias, pos }, c4)
}

impl Record for Weight {
    open spec fn count_word() -> Keyword {
        Keyword::NumWeights
    }

    open spec fn fields(s: Seq<char>, c: Cursor) -> (WeightView, Cursor) {
        weight_fields(s, c)
    }

    fn count_keyword() -> (k: Keyword) {
        Keyword::NumWeights
    }

    proof fn lemma_fields_moved(a: Seq<char>, b: Seq<char>, d: int, p: int) {
        reveal(weight_fields);
        let e = weight_fields(a, Cursor::new(p)).1.at;
        lemma_spaces_moved(a, b, d, p);
        let c0 = spaces(a, Cursor::new(p));
        lemma_count_field_moved(a, b, d, c0.at, Keyword::Weight);
        lemma_keyword_is_solid(a, p, Keyword::Weight);
        let (index, c1) = count_field(a, c0, Keyword::Weight);
        lemma_separator_moved(a, b, d, c1.at);
        let c2 = separator(a, c1);
        lemma_unsigned_moved(a, b, d, c2.at, u32::MAX as int);
        let (joint, c3) = unsigned(a, c2, u32::MAX as int);
        lemma_separator_moved(a, b, d, c3.at);
        let c4 = separator(a, c3);
        lemma_decimal_moved(a, b, d, c4.at);
        let (bias, c5) = decimal(a, c4);
        lemma_separator_moved(a, b, d, c5.at);
        lemma_number_ends_before(a, c5.at);
        let c6 = separator(a, c5);
        lemma_triple_moved(a, b, d, c6.at);
        if same_text(a, b, d, p, e) {
            assert(b[c0.at + d] == a[c0.at]);
            assert(b[c1.at + d] == a[c1.at]);
            assert(b[c2.at + d] == a[c2.at]);
            assert(b[c3.at + d] == a[c3.at]);
            assert(b[c4.at + d] == a[c4.at]);
            assert(b[c5.at + d] == a[c5.at]);
            assert(b[c6.at + d] == a[c6.at]);
            assert(spaces(b, Cursor::new(p + d)) == shifted(c0, d));
            assert(count_field(b, shifted(c0, d), Keyword::Weight) == (index, shifted(c1, d)));
            assert(separator(b, shifted(c1, d)) == shifted(c2, d));
            assert(unsigned(b, shifted(c2, d), u32::MAX as int) == (joint, shifted(c3, d)));
            assert(separator(b, shifted(c3, d)) == shifted(c4, d));
            assert(decimal(b, shifted(c4, d)) == (bias, shifted(c5, d)));
            assert(separator(b, shifted(c5, d)) == shifted(c6, d));
        }
    }

    open spec fn writable(value: WeightView) -> bool {
        &&& is_count(value.index)
        &&& is_count(value.joint)
        &&& is_number(value.bias.literal)
        &&& numbers(value.pos, 3)
    }

    open spec fn fields_text(value: WeightView) -> Seq<char> {
        count_field_text(Keyword::Weight, value.index) + (seq![' '] + (digits_of(
            value.joint as nat,
        ) + (seq![' '] + (decimal_text(value.bias) + (seq![' '] + triple_text(value.pos))))))
    }

    proof fn lemma_fields_read(s: Seq<char>, p: int, value: WeightView, rest: Seq<char>) {
        reveal(weight_fields);
        reveal_strlit("(");
        let t3 = triple_text(value.pos);
        let t2 = decimal_text(value.bias) + (seq![' '] + t3);
        let t1 = digits_of(value.joint as nat) + (seq![' '] + t2);
        let head = count_field_text(Keyword::Weight, value.index);
        lemma_digits_of(value.joint as nat);
        lemma_decimal_text(value.bias);
        lemma_keyword_shape(Keyword::OpenParen);
        lemma_keyword_shape(Keyword::Weight);
        lemma_tab_read(s, p, Self::fields_text(value) + (seq!['\n'] + rest));
        let at0 = p + 1;
        lemma_has_at_split(s, at0, Self::fields_text(value), seq!['\n'] + rest);
        lemma_has_at_split(s, at0, head, seq![' '] + t1);
        let at1 = at0 + head.len();
        lemma_space_read(s, at1, t1);
        lemma_count_field_read(s, at0, Keyword::Weight, value.index);
        let at2 = at1 + 1;
        lemma_count_and_space_read(s, at2, value.joint, t2);
        let at3 = at2 + digits_of(value.joint as nat).len() + 1;
        lemma_number_and_space_read(s, at3, value.bias, t3);
        let at4 = at3 + decimal_text(value.bias).len() + 1;
        lemma_triple_read(s, at4, value.pos);
    }

    proof fn lemma_fields_writable(s: Seq<char>, p: int) {
        reveal(weight_fields);
        lemma_spaces_moved(s, s, 0, p);
        let c0 = spaces(s, Cursor::new(p));
        lemma_count_field_moved(s, s, 0, c0.at, Keyword::Weight);
        let c1 = count_field(s, c0, Keyword::Weight).1;
        lemma_separator_moved(s, s, 0, c1.at);
        let c2 = separator(s, c1);
        lemma_unsigned_moved(s, s, 0, c2.at, u32::MAX as int);
        let c3 = unsigned(s, c2, u32::MAX as int).1;
        lemma_separator_moved(s, s, 0, c3.at);
        let c4 = separator(s, c3);
        lemma_decimal_moved(s, s, 0, c4.at);
        lemma_decimal_writable(s, c4.at);
        let c5 = decimal(s, c4).1;
        lemma_separator_moved(s, s, 0, c5.at);
        let c6 = separator(s, c5);
        lemma_triple_writable(s, c6.at);
    }

    fn parse(input: &[char], pos: usize) -> (r: Result<(Weight, usize), SyntaxError>) {
        reveal(weight_fields);
        let (index, after_index) = read_count_field(
            input,
            skip_space(input, pos),
            Keyword::Weight,
        )?;
        let (joint, after_joint) = unsigned_integer(
            input,
            expect_separator(input, after_index)?,
            u32::MAX,
        )?;
        let (bias, after_bias) = signed_float(input, expect_separator(input, after_joint)?)?;
        let (pos, after_pos) = vector3(input, expect_separator(input, after_bias)?)?;
        let end = expect_record_end(input, after_pos)?;
        Ok((Weight { index: index as usize, joint: joint as usize, bias, pos }, end))
    }
}

} // verus!
