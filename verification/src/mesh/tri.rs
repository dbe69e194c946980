//! The triangles of a mesh.
use vstd::prelude::*;
use crate::error::{Keyword, SyntaxError};
use crate::lexical::{
    count_field, expect_record_end, expect_separator, read_count_field, separator, skip_space,
    spaces, unsigned, unsigned_integer, Class, Cursor,
};
use crate::locality::{
    lemma_count_field_moved, lemma_keyword_is_solid, lemma_keyword_shape, lemma_separator_moved,
    lemma_spaces_moved, lemma_unsigned_moved, same_text, shifted, stops,
};
use crate::mesh::Record;
use crate::model::{Tri, TriView};
use crate::writing::{
    count_field_text, digits_of, is_count, lemma_count_and_space_read, lemma_count_field_read,
    lemma_digits_of, lemma_digits_read, lemma_has_at_split, lemma_newline_read, lemma_space_read,
    lemma_tab_read,
};

verus! {

/// `tri`, the declared index, and the indices of three vertices.
#[verifier::opaque]
pub open spec fn tri_fields(s: Seq<char>, c: Cursor) -> (TriView, Cursor) {
    let (index, c1) = count_field(s, spaces(s, c), Keyword::Tri);
    let (vert_index_1, c2) = unsigned(s, separator(s, c1), u32::MAX as int);
    let (vert_index_2, c3) = unsigned(s, separator(s, c2), u32::MAX as int);
    let (vert_index_3, c4) = unsigned(s, separator(s, c3), u32::MAX as int);
    (TriView { index, vert_index_1, vert_index_2, vert_index_3 }, c4)
}

impl Record for Tri {
    open spec fn count_word() -> Keyword {
        Keyword::NumTris
    }

    open spec fn fields(s: Seq<char>, c: Cursor) -> (TriView, Cursor) {
        tri_fields(s, c)
    }

    fn count_keyword() -> (k: Keyword) {
        Keyword::NumTris
    }

    proof fn lemma_fields_moved(a: Seq<char>, b: Seq<char>, d: int, p: int) {
        reveal(tri_fields);
        let e = tri_fields(a, Cursor::new(p)).1.at;
        lemma_spaces_moved(a, b, d, p);
        let c0 = spaces(a, Cursor::new(p));
        lemma_count_field_moved(a, b, d, c0.at, Keyword::Tri);
        lemma_keyword_is_solid(a, p, Keyword::Tri);
        let (index, c1) = count_field(a, c0, Keyword::Tri);
        lemma_separator_moved(a, b, d, c1.at);
        let c2 = separator(a, c1);
        lemma_unsigned_moved(a, b, d, c2.at, u32::MAX as int);
        let (v1, c3) = unsigned(a, c2, u32::MAX as int);
        lemma_separator_moved(a, b, d, c3.at);
        let c4 = separator(a, c3);
        lemma_unsigned_moved(a, b, d, c4.at, u32::MAX as int);
        let (v2, c5) = unsigned(a, c4, u32::MAX as int);
        lemma_separator_moved(a, b, d, c5.at);
        let c6 = separator(a, c5);
        lemma_unsigned_moved(a, b, d, c6.at, u32::MAX as int);
        if same_text(a, b, d, p, e) && stops(b, e + d, Class::Digit) {
            assert(b[c0.at + d] == a[c0.at]);
            assert(b[c1.at + d] == a[c1.at]);
            assert(b[c2.at + d] == a[c2.at]);
            assert(b[c3.at + d] == a[c3.at]);
            assert(b[c4.at + d] == a[c4.at]);
            assert(b[c5.at + d] == a[c5.at]);
            assert(b[c6.at + d] == a[c6.at]);
            assert(spaces(b, Cursor::new(p + d)) == shifted(c0, d));
            assert(count_field(b, shifted(c0, d), Keyword::Tri) == (index, shifted(c1, d)));
            assert(separator(b, shifted(c1, d)) == shifted(c2, d));
            assert(unsigned(b, shifted(c2, d), u32::MAX as int) == (v1, shifted(c3, d)));
            assert(separator(b, shifted(c3, d)) == shifted(c4, d));
            assert(unsigned(b, shifted(c4, d), u32::MAX as int) == (v2, shifted(c5, d)));
            assert(separator(b, shifted(c5, d)) == shifted(c6, d));
        }
    }

    open spec fn writable(value: TriView) -> bool {
        &&& is_count(value.index)
        &&& is_count(value.vert_index_1)
        &&& is_count(value.vert_index_2)
        &&& is_count(value.vert_index_3)
    }

    open spec fn fields_text(value: TriView) -> Seq<char> {
        count_field_text(Keyword::Tri, value.index) + (seq![' '] + (digits_of(
            value.vert_index_1 as nat,
        ) + (seq![' '] + (digits_of(value.vert_index_2 as nat) + (seq![' '] + digits_of(
            value.vert_index_3 as nat,
        ))))))
    }

    proof fn lemma_fields_read(s: Seq<char>, p: int, value: TriView, rest: Seq<char>) {
        reveal(tri_fields);
        let t3 = digits_of(value.vert_index_3 as nat);
        let t2 = digits_of(value.vert_index_2 as nat) + (seq![' '] + t3);
        let t1 = digits_of(value.vert_index_1 as nat) + (seq![' '] + t2);
        let head = count_field_text(Keyword::Tri, value.index);
        lemma_digits_of(value.vert_index_1 as nat);
        lemma_digits_of(value.vert_index_2 as nat);
        lemma_digits_of(value.vert_index_3 as nat);
        lemma_keyword_shape(Keyword::Tri);
        lemma_tab_read(s, p, Self::fields_text(value) + (seq!['\n'] + rest));
        let at0 = p + 1;
        lemma_has_at_split(s, at0, Self::fields_text(value), seq!['\n'] + rest);
        lemma_newline_read(s, at0 + Self::fields_text(value).len(), rest);
        lemma_has_at_split(s, at0, head, seq![' '] + t1);
        let at1 = at0 + head.len();
        lemma_space_read(s, at1, t1);
        lemma_count_field_read(s, at0, Keyword::Tri, value.index);
        let at2 = at1 + 1;
        lemma_count_and_space_read(s, at2, value.vert_index_1, t2);
        let at3 = at2 + digits_of(value.vert_index_1 as nat).len() + 1;
        lemma_count_and_space_read(s, at3, value.vert_index_2, t3);
        let at4 = at3 + digits_of(value.vert_index_2 as nat).len() + 1;
        lemma_digits_read(s, at4, value.vert_index_3 as nat, u32::MAX as int);
    }

    proof fn lemma_fields_writable(s: Seq<char>, p: int) {
        reveal(tri_fields);
        lemma_spaces_moved(s, s, 0, p);
        let c0 = spaces(s, Cursor::new(p));
        lemma_count_field_moved(s, s, 0, c0.at, Keyword::Tri);
        let c1 = count_field(s, c0, Keyword::Tri).1;
        lemma_separator_moved(s, s, 0, c1.at);
        let c2 = separator(s, c1);
        lemma_unsigned_moved(s, s, 0, c2.at, u32::MAX as int);
        let c3 = unsigned(s, c2, u32::MAX as int).1;
        lemma_separator_moved(s, s, 0, c3.at);
        let c4 = separator(s, c3);
        lemma_unsigned_moved(s, s, 0, c4.at, u32::MAX as int);
        let c5 = unsigned(s, c4, u32::MAX as int).1;
        lemma_separator_moved(s, s, 0, c5.at);
        let c6 = separator(s, c5);
        lemma_unsigned_moved(s, s, 0, c6.at, u32::MAX as int);
    }

    fn parse(input: &[char], pos: usize) -> (r: Result<(Tri, usize), SyntaxError>) {
        reveal(tri_fields);
        let (index, after_index) = read_count_field(input, skip_space(input, pos), Keyword::Tri)?;
        let (v1, after_1) = unsigned_integer(
            input,
            expect_separator(input, after_index)?,
            u32::MAX,
        )?;
        let (v2, after_2) = unsigned_integer(input, expect_separator(input, after_1)?, u32::MAX)?;
        let (v3, after_3) = unsigned_integer(input, expect_separator(input, after_2)?, u32::MAX)?;
        let end = expect_record_end(input, after_3)?;
        Ok(
            (
                Tri {
                    index: index as usize,
                    vert_index_1: v1 as usize,
                    vert_index_2: v2 as usize,
                    vert_index_3: v3 as usize,
                },
                end,
            ),
        )
    }
}

} // verus!
