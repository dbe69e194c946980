//! The `mesh { .. }` block: a material and three counted lists, of
//! vertices, triangles and weights.
use vstd::prelude::*;
use crate::error::{Keyword, SyntaxError};
use crate::lexical::{
    count_field, expect_keyword, expect_record_end, has_at, keyword, lands, position,
    read_count_field, read_string_field, record_end, run_end, skip_space, spaces, string_field,
    Class, Cursor,
};
use crate::locality::{same_text, shifted, solid, stops};
use crate::model::{
    lemma_append_first, lemma_views_push, views, MD5Mesh, MeshView, Tri, Vert, Weight,
};
use crate::writing::opens_keyword;

pub mod tri;
pub mod vert;
pub mod weight;

verus! {

/// The shape of the records of a counted list.
pub trait Record: View + Sized {
    /// The keyword before the number of records.
    spec fn count_word() -> Keyword;

    /// The fields of one record, from the start of its line to the end of
    /// its last field.
    spec fn fields(s: Seq<char>, c: Cursor) -> (Self::V, Cursor);

    /// The keyword before the number of records.
    fn count_keyword() -> (k: Keyword)
        ensures
            k == Self::count_word(),
    ;

    /// The fields of a record start with a keyword, after optional spaces,
    /// and read the same wherever the same text stands with no digit behind
    /// it.
    proof fn lemma_fields_moved(a: Seq<char>, b: Seq<char>, d: int, p: int)
        requires
            0 <= p <= a.len(),
            Self::fields(a, Cursor::new(p)).1.ok(),
        ensures
            p <= run_end(a, p, Class::Space) < Self::fields(a, Cursor::new(p)).1.at <= a.len(),
            solid(a, p),
            same_text(a, b, d, p, Self::fields(a, Cursor::new(p)).1.at) && stops(
                b,
                Self::fields(a, Cursor::new(p)).1.at + d,
                Class::Digit,
            ) ==> Self::fields(b, Cursor::new(p + d)) == (
                Self::fields(a, Cursor::new(p)).0,
                shifted(Self::fields(a, Cursor::new(p)).1, d),
            ),
    ;

    /// `true` where a record with these values can be written: its numbers
    /// are numbers of the format, and its integers fit their fields.
    spec fn writable(value: Self::V) -> bool;

    /// The fields of a record as they are written: one space between each
    /// two.
    spec fn fields_text(value: Self::V) -> Seq<char>;

    /// The fields of a record, written after a tab and before a `\n`, are
    /// read as the record.
    proof fn lemma_fields_read(s: Seq<char>, p: int, value: Self::V, rest: Seq<char>)
        requires
            has_at(s, p, seq!['\t'] + (Self::fields_text(value) + (seq!['\n'] + rest))),
            Self::writable(value),
        ensures
            Self::fields(s, Cursor::new(p)) == (
                value,
                Cursor::new(p + 1 + Self::fields_text(value).len()),
            ),
            Self::fields_text(value).len() >= 1,
            opens_keyword(Self::fields_text(value)[0]),
    ;

    /// What is read as a record can be written.
    proof fn lemma_fields_writable(s: Seq<char>, p: int)
        requires
            0 <= p <= s.len(),
            Self::fields(s, Cursor::new(p)).1.ok(),
        ensures
            Self::writable(Self::fields(s, Cursor::new(p)).0),
    ;

    /// Reads one record.
    fn parse(input: &[char], pos: usize) -> (r: Result<(Self, usize), SyntaxError>)
        requires
            pos <= input.len(),
        ensures
            lands(
                input@,
                position(r),
                record_end(input@, Self::fields(input@, Cursor::new(pos as int)).1),
            ),
            r matches Ok((item, next)) ==> item@ == Self::fields(
                input@,
                Cursor::new(pos as int),
            ).0 && pos < next <= input.len(),
    ;
}

/// One record: its fields, then the end of the record.
pub open spec fn record<R: Record>(s: Seq<char>, c: Cursor) -> (R::V, Cursor) {
    let (value, c1) = R::fields(s, c);
    (value, record_end(s, c1))
}

/// Exactly `n` records, one after the other.
pub open spec fn counted<R: Record>(s: Seq<char>, c: Cursor, n: nat) -> (Seq<R::V>, Cursor)
    decreases n,
{
    if n == 0 || !c.ok() {
        (Seq::empty(), c)
    } else {
        let (first, next) = record::<R>(s, c);
        let (rest, end) = counted::<R>(s, next, (n - 1) as nat);
        (seq![first] + rest, end)
    }
}

/// A counted list: the line that gives the number of records, then as many
/// records as it says. The index that a record declares is kept as it is
/// written: the records stand in the list in the order of the document,
/// whatever their indices say.
#[verifier::opaque]
pub open spec fn list<R: Record>(s: Seq<char>, c: Cursor) -> (Seq<R::V>, Cursor) {
    let (n, c1) = count_field(s, spaces(s, c), R::count_word());
    counted::<R>(s, record_end(s, c1), n as nat)
}

/// Nothing is read as a list behind a mismatch.
pub proof fn lemma_list_sticky<R: Record>(s: Seq<char>, c: Cursor)
    ensures
        !c.ok() ==> list::<R>(s, c).1 == c,
{
    reveal(list);
    if !c.ok() {
        assert(counted::<R>(s, c, 0).1 == c);
    }
}

/// Reads a counted list. Text after the last record of the count is left
/// for what follows the list.
#[verifier::loop_isolation(false)]
pub fn parse_list<R: Record>(input: &[char], pos: usize) -> (r: Result<
    (Vec<R>, usize),
    SyntaxError,
>)
    requires
        pos <= input.len(),
    ensures
        lands(input@, position(r), list::<R>(input@, Cursor::new(pos as int)).1),
        r matches Ok((items, next)) ==> views(items@) == list::<R>(
            input@,
            Cursor::new(pos as int),
        ).0 && pos < next <= input.len(),
{
    reveal(list);
    let (n, after_count) = read_count_field(input, skip_space(input, pos), R::count_keyword())?;
    let first = expect_record_end(input, after_count)?;
    let mut items: Vec<R> = Vec::new();
    let mut at: usize = first;
    let mut done: u32 = 0;
    assert(views(items@) + counted::<R>(input@, Cursor::new(at as int), n as nat).0 =~= counted::<
        R,
    >(input@, Cursor::new(at as int), n as nat).0);
    while done < n
        invariant
            done <= n,
            first <= at <= input.len(),
            counted::<R>(input@, Cursor::new(first as int), n as nat).0 == views(items@)
                + counted::<R>(input@, Cursor::new(at as int), (n - done) as nat).0,
            counted::<R>(input@, Cursor::new(first as int), n as nat).1 == counted::<R>(
                input@,
                Cursor::new(at as int),
                (n - done) as nat,
            ).1,
        decreases n - done,
    {
        match R::parse(input, at) {
            Ok((item, next)) => {
                proof {
                    lemma_views_push(items@, item);
                    lemma_append_first(
                        views(items@),
                        item@,
                        counted::<R>(input@, Cursor::new(next as int), (n - done - 1) as nat).0,
                    );
                }
                items.push(item);
                at = next;
                done += 1;
            },
            Err(e) => {
                assert(counted::<R>(
                    input@,
                    record::<R>(input@, Cursor::new(at as int)).1,
                    (n - done - 1) as nat,
                ).1 == record::<R>(input@, Cursor::new(at as int)).1);
                return Err(e);
            },
        }
    }
    assert(views(items@) + Seq::<R::V>::empty() =~= views(items@));
    Ok((items, at))
}

/// `mesh {`, the `shader` line, the three lists, and `}`.
#[verifier::opaque]
pub open spec fn mesh(s: Seq<char>, c: Cursor) -> (MeshView, Cursor) {
    let c1 = record_end(s, keyword(s, c, Keyword::Mesh));
    let (shader, c2) = string_field(s, spaces(s, c1), Keyword::Shader);
    let (verts, c3) = list::<Vert>(s, record_end(s, c2));
    let (tris, c4) = list::<Tri>(s, c3);
    let (weights, c5) = list::<Weight>(s, c4);
    (MeshView { shader, verts, tris, weights }, keyword(s, spaces(s, c5), Keyword::Close))
}

/// Reads one `mesh { .. }` block.
pub fn parse_mesh(input: &[char], pos: usize) -> (r: Result<(MD5Mesh, usize), SyntaxError>)
    requires
        pos <= input.len(),
    ensures
        lands(input@, position(r), mesh(input@, Cursor::new(pos as int)).1),
        r matches Ok((m, next)) ==> m@ == mesh(input@, Cursor::new(pos as int)).0 && pos < next
            <= input.len(),
{
    reveal(mesh);
    proof {
        assert forall|c: Cursor| !c.ok() implies (#[trigger] list::<Vert>(input@, c)).1 == c by {
            lemma_list_sticky::<Vert>(input@, c);
        }
        assert forall|c: Cursor| !c.ok() implies (#[trigger] list::<Tri>(input@, c)).1 == c by {
            lemma_list_sticky::<Tri>(input@, c);
        }
        assert forall|c: Cursor| !c.ok() implies (#[trigger] list::<Weight>(input@, c)).1 == c by {
            lemma_list_sticky::<Weight>(input@, c);
        }
    }
    let open = expect_keyword(input, pos, Keyword::Mesh)?;
    let line = expect_record_end(input, open)?;
    let (shader, after_shader) = read_string_field(
        input,
        skip_space(input, line),
        Keyword::Shader,
    )?;
    let (verts, after_verts) = parse_list::<Vert>(input, expect_record_end(input, after_shader)?)?;
    let (tris, after_tris) = parse_list::<Tri>(input, after_verts)?;
    let (weights, after_weights) = parse_list::<Weight>(input, after_tris)?;
    let close = expect_keyword(input, skip_space(input, after_weights), Keyword::Close)?;
    Ok((MD5Mesh { shader, verts, tris, weights }, close))
}

} // verus!
