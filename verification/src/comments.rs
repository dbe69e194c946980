//! Comments change nothing: a comment put behind the fields of a record,
//! before the line terminator, leaves the scene that the document describes
//! as it was.
use vstd::prelude::*;
use crate::error::{Keyword, ParseError};
use crate::header::{count_line, header, optional_line_end, string_line};
use crate::joints::{joint_fields, joint_record, joint_records, joints};
use crate::lexical::{
    blank_lines, comment, count_field, keyword, lemma_run_end, lemma_run_end_is, line_end,
    record_end, run_end, sees, spaces, string_field, Class, Cursor,
};
use crate::locality::{
    ends_joints, ends_line_break, lemma_blank_lines_moved, lemma_count_field_moved,
    lemma_count_line_moved, lemma_counted_moved, lemma_header_moved, lemma_joint_fields_moved,
    lemma_joint_record_moved, lemma_joint_records_moved, lemma_joints_moved,
    lemma_keyword_is_solid, lemma_keyword_moved, lemma_keyword_shape, lemma_keyword_starts_line,
    lemma_list_moved, lemma_mesh_block_moved, lemma_mesh_moved, lemma_meshes_moved,
    lemma_optional_line_end_bounds, lemma_optional_line_end_moved, lemma_record_end_moved,
    lemma_record_end_sticky, lemma_record_moved, lemma_run_moved, lemma_same_text_part,
    lemma_solid_moved, lemma_spaces_moved, lemma_string_field_moved, lemma_string_line_moved,
    same_text, shifted, solid, stops,
};
use crate::mesh::{counted, lemma_list_sticky, list, mesh, record, Record};
use crate::model::{SceneView, Tri, Vert, Weight};
use crate::scene::{document, lemma_one_outcome, mesh_block, meshes, parses_to};

verus! {

/// The text of a comment: `//`, then anything but a line terminator.
pub open spec fn is_comment(x: Seq<char>) -> bool {
    &&& x.len() >= 2
    &&& x[0] == '/'
    &&& x[1] == '/'
    &&& forall|i: int| 0 <= i < x.len() ==> Class::Comment.holds(#[trigger] x[i])
}

/// The document `s` with the text `x` put in before position `k`.
#[verifier::opaque]
pub open spec fn inserted(s: Seq<char>, k: int, x: Seq<char>) -> Seq<char> {
    s.subrange(0, k) + x + s.subrange(k, s.len() as int)
}

/// What stands where in a document with a text put in.
pub proof fn lemma_inserted(s: Seq<char>, k: int, x: Seq<char>)
    requires
        0 <= k <= s.len(),
    ensures
        inserted(s, k, x).len() == s.len() + x.len(),
        same_text(s, inserted(s, k, x), 0, 0, k),
        same_text(s, inserted(s, k, x), x.len() as int, k, s.len() as int),
        forall|i: int| 0 <= i < x.len() ==> inserted(s, k, x)[k + i] == #[trigger] x[i],
{
    reveal(inserted);
}

/// `at` lies on the rest of the line whose fields end at `fields_end`: not
/// before the end of the fields, and not behind the place of the line
/// terminator.
pub open spec fn on_rest_of_line(s: Seq<char>, fields_end: int, at: int) -> bool {
    fields_end <= at <= comment(s, spaces(s, Cursor::new(fields_end))).at
}

/// What starts no blank line before a text is put in starts none behind it.
pub proof fn lemma_solid_behind(s: Seq<char>, k: int, x: Seq<char>, at: int)
    requires
        0 <= k <= at <= s.len(),
        solid(s, at),
    ensures
        solid(inserted(s, k, x), at + x.len()),
{
    let t = inserted(s, k, x);
    let d = x.len() as int;
    let q = run_end(s, at, Class::Space);
    lemma_inserted(s, k, x);
    lemma_run_end(s, at, Class::Space);
    if q < s.len() {
        lemma_same_text_part(s, t, d, k, s.len() as int, at, q + 1);
        lemma_solid_moved(s, t, d, at);
    } else {
        lemma_same_text_part(s, t, d, k, s.len() as int, at, q);
        lemma_run_moved(s, t, d, at, Class::Space);
    }
}

/// The characters of a line's rest, with a comment put in, are still
/// those of a line's rest: nothing in them ends the line.
proof fn lemma_rest_stays_rest(s: Seq<char>, f: int, b: int, k: int, x: Seq<char>, j: int)
    requires
        0 <= f <= k <= b < s.len(),
        forall|i: int| f <= i < b ==> Class::Comment.holds(#[trigger] s[i]),
        is_comment(x),
        f <= j < b + x.len(),
    ensures
        Class::Comment.holds(inserted(s, k, x)[j]),
{
    let t = inserted(s, k, x);
    lemma_inserted(s, k, x);
    if j < k {
        assert(s[j] == t[j + 0]);
    } else if j < k + x.len() {
        assert(t[k + (j - k)] == x[j - k]);
    } else {
        assert(s[j - x.len()] == t[j - x.len() + x.len()]);
    }
}

/// The end of a line is found behind a comment that is put in on the rest
/// of the line.
pub proof fn lemma_line_end_commented(s: Seq<char>, f: int, k: int, x: Seq<char>)
    requires
        0 <= f <= s.len(),
        line_end(s, Cursor::new(f)).ok(),
        on_rest_of_line(s, f, k),
        is_comment(x),
    ensures
        f <= k < line_end(s, Cursor::new(f)).at <= s.len(),
        line_end(inserted(s, k, x), Cursor::new(f)) == shifted(
            line_end(s, Cursor::new(f)),
            x.len() as int,
        ),
{
    let t = inserted(s, k, x);
    let d = x.len() as int;
    let c1 = spaces(s, Cursor::new(f));
    let c2 = comment(s, c1);
    let a = c1.at;
    let b = c2.at;
    lemma_run_end(s, f, Class::Space);
    if sees(s, a, '/') && sees(s, a + 1, '/') {
        lemma_run_end(s, a + 2, Class::Comment);
    }
    assert(f <= a <= b < s.len());
    assert(forall|i: int| f <= i < b ==> Class::Comment.holds(#[trigger] s[i]));
    lemma_inserted(s, k, x);
    assert(s[b] == t[b + d]);
    assert forall|j: int| f <= j < b + d implies Class::Comment.holds(#[trigger] t[j]) by {
        lemma_rest_stays_rest(s, f, b, k, x, j);
    }
    let start = if k <= a { k } else { a };
    assert forall|j: int| f <= j < start implies Class::Space.holds(#[trigger] t[j]) by {
        assert(s[j] == t[j + 0]);
    }
    assert(t[start] == '/' && t[start + 1] == '/') by {
        if k <= a {
            assert(t[k + 0] == x[0]);
            assert(t[k + 1] == x[1]);
        } else {
            assert(s[a] == t[a + 0]);
            if k == a + 1 {
                assert(t[k + 0] == x[0]);
            } else {
                assert(s[a + 1] == t[a + 1 + 0]);
            }
        }
    }
    lemma_run_end_is(t, f, Class::Space, start);
    lemma_run_end_is(t, start + 2, Class::Comment, b + d);
    assert(comment(t, spaces(t, Cursor::new(f))) == Cursor::new(b + d));
    if b + 1 < s.len() {
        assert(s[b + 1] == t[b + 1 + d]);
    }
}

/// The end of a record is found behind a comment that is put in on the
/// rest of its line.
pub proof fn lemma_record_end_commented(s: Seq<char>, f: int, k: int, x: Seq<char>)
    requires
        0 <= f <= s.len(),
        record_end(s, Cursor::new(f)).ok(),
        on_rest_of_line(s, f, k),
        solid(s, record_end(s, Cursor::new(f)).at),
        is_comment(x),
    ensures
        k < record_end(s, Cursor::new(f)).at <= s.len(),
        record_end(inserted(s, k, x), Cursor::new(f)) == shifted(
            record_end(s, Cursor::new(f)),
            x.len() as int,
        ),
{
    let t = inserted(s, k, x);
    let d = x.len() as int;
    let next = line_end(s, Cursor::new(f));
    let e = record_end(s, Cursor::new(f)).at;
    lemma_record_end_sticky(s, Cursor::new(f));
    lemma_inserted(s, k, x);
    lemma_line_end_commented(s, f, k, x);
    lemma_blank_lines_moved(s, t, d, next.at);
    lemma_solid_behind(s, k, x, e);
    lemma_same_text_part(s, t, d, k, s.len() as int, next.at, e);
}


/// What starts no blank line, and is read before the place where a text is
/// put in, starts no blank line afterwards.
pub proof fn lemma_solid_before(s: Seq<char>, k: int, x: Seq<char>, at: int)
    requires
        0 <= at <= s.len(),
        0 <= k <= s.len(),
        solid(s, at),
        run_end(s, at, Class::Space) < k,
    ensures
        solid(inserted(s, k, x), at),
        run_end(inserted(s, k, x), at, Class::Space) == run_end(s, at, Class::Space),
{
    let t = inserted(s, k, x);
    lemma_inserted(s, k, x);
    lemma_run_end(s, at, Class::Space);
    lemma_same_text_part(s, t, 0, 0, k, at, run_end(s, at, Class::Space) + 1);
    lemma_solid_moved(s, t, 0, at);
}

/// No digit stands at `f` once a comment is put in at or behind `f`, if
/// none stood there before.
pub proof fn lemma_no_digit_before(s: Seq<char>, k: int, x: Seq<char>, f: int)
    requires
        0 <= f <= k <= s.len(),
        stops(s, f, Class::Digit),
        is_comment(x),
    ensures
        stops(inserted(s, k, x), f, Class::Digit),
{
    let t = inserted(s, k, x);
    lemma_inserted(s, k, x);
    if f < k {
        assert(t[f] == s[f]);
    } else {
        assert(t[k] == x[0]);
    }
}

/// `k` lies on the rest of the line of the record that starts at `p`.
pub open spec fn record_rest<R: Record>(s: Seq<char>, p: int, k: int) -> bool {
    on_rest_of_line(s, R::fields(s, Cursor::new(p)).1.at, k)
}

/// A comment on the rest of a line of a record leaves what is read as it is,
/// and moves its end on by the length of the comment.
pub proof fn lemma_record_commented<R: Record>(s: Seq<char>, p: int, k: int, x: Seq<char>)
    requires
        0 <= p <= s.len(),
        0 <= k <= s.len(),
        record::<R>(s, Cursor::new(p)).1.ok(),
        record_rest::<R>(s, p, k),
        solid(s, record::<R>(s, Cursor::new(p)).1.at),
        is_comment(x),
    ensures
        p <= run_end(s, p, Class::Space) < k < record::<R>(s, Cursor::new(p)).1.at <= s.len(),
        record::<R>(inserted(s, k, x), Cursor::new(p)) == (
            record::<R>(s, Cursor::new(p)).0,
            shifted(record::<R>(s, Cursor::new(p)).1, x.len() as int),
        ),
{
    let t = inserted(s, k, x);
    let (v, c1) = R::fields(s, Cursor::new(p));
    lemma_record_end_sticky(s, c1);
    lemma_inserted(s, k, x);
    R::lemma_fields_moved(s, t, 0, p);
    lemma_record_end_moved(s, t, 0, c1.at);
    lemma_record_end_commented(s, c1.at, k, x);
    lemma_same_text_part(s, t, 0, 0, k, p, c1.at);
    lemma_no_digit_before(s, k, x, c1.at);
    assert(R::fields(t, Cursor::new(p)) == (v, c1));
}

/// `k` lies on the rest of the line of one of the `n` records that start
/// at `p`.
pub open spec fn counted_rest<R: Record>(s: Seq<char>, p: int, n: nat, k: int) -> bool
    decreases n,
{
    n > 0 && (record_rest::<R>(s, p, k) || counted_rest::<R>(
        s,
        record::<R>(s, Cursor::new(p)).1.at,
        (n - 1) as nat,
        k,
    ))
}

/// A comment on the rest of a line of a run of records leaves what is read as
/// it is,
/// and moves its end on by the length of the comment.
pub proof fn lemma_counted_commented<R: Record>(
    s: Seq<char>,
    p: int,
    n: nat,
    k: int,
    x: Seq<char>,
)
    requires
        0 <= p <= s.len(),
        0 <= k <= s.len(),
        counted::<R>(s, Cursor::new(p), n).1.ok(),
        counted_rest::<R>(s, p, n, k),
        solid(s, counted::<R>(s, Cursor::new(p), n).1.at),
        is_comment(x),
    ensures
        p <= run_end(s, p, Class::Space) < k < counted::<R>(s, Cursor::new(p), n).1.at <= s.len(),
        counted::<R>(inserted(s, k, x), Cursor::new(p), n) == (
            counted::<R>(s, Cursor::new(p), n).0,
            shifted(counted::<R>(s, Cursor::new(p), n).1, x.len() as int),
        ),
    decreases n,
{
    let t = inserted(s, k, x);
    let d = x.len() as int;
    let e = counted::<R>(s, Cursor::new(p), n).1.at;
    let (first, next) = record::<R>(s, Cursor::new(p));
    let rest = (n - 1) as nat;
    assert(next.ok()) by {
        if !next.ok() {
            assert(counted::<R>(s, next, rest).1 == next);
        }
    }
    lemma_inserted(s, k, x);
    lemma_record_moved::<R>(s, t, 0, p);
    lemma_counted_moved::<R>(s, t, d, next.at, rest);
    if record_rest::<R>(s, p, k) {
        lemma_record_commented::<R>(s, p, k, x);
        lemma_solid_behind(s, k, x, e);
        lemma_same_text_part(s, t, d, k, s.len() as int, next.at, e);
        assert(record::<R>(t, Cursor::new(p)) == (first, shifted(next, d)));
    } else {
        lemma_counted_commented::<R>(s, next.at, rest, k, x);
        lemma_solid_before(s, k, x, next.at);
        lemma_same_text_part(s, t, 0, 0, k, p, next.at);
        assert(record::<R>(t, Cursor::new(p)) == (first, next));
    }
}

/// `k` lies on the rest of a line of the counted list that starts at `p`:
/// of the line that gives the count, or of one of the records.
pub open spec fn list_rest<R: Record>(s: Seq<char>, p: int, k: int) -> bool {
    let (n, c1) = count_field(s, spaces(s, Cursor::new(p)), R::count_word());
    on_rest_of_line(s, c1.at, k) || counted_rest::<R>(s, record_end(s, c1).at, n as nat, k)
}

/// A comment on the rest of a line of a counted list leaves what is read as it
/// is,
/// and moves its end on by the length of the comment.
pub proof fn lemma_list_commented<R: Record>(s: Seq<char>, p: int, k: int, x: Seq<char>)
    requires
        0 <= p <= s.len(),
        0 <= k <= s.len(),
        list::<R>(s, Cursor::new(p)).1.ok(),
        list_rest::<R>(s, p, k),
        solid(s, list::<R>(s, Cursor::new(p)).1.at),
        is_comment(x),
    ensures
        p <= run_end(s, p, Class::Space) < k < list::<R>(s, Cursor::new(p)).1.at <= s.len(),
        list::<R>(inserted(s, k, x), Cursor::new(p)) == (
            list::<R>(s, Cursor::new(p)).0,
            shifted(list::<R>(s, Cursor::new(p)).1, x.len() as int),
        ),
{
    reveal(list);
    let t = inserted(s, k, x);
    let d = x.len() as int;
    let e = list::<R>(s, Cursor::new(p)).1.at;
    let c0 = spaces(s, Cursor::new(p));
    let (n, c1) = count_field(s, c0, R::count_word());
    let c2 = record_end(s, c1);
    assert(c2.ok()) by {
        if !c2.ok() {
            assert(counted::<R>(s, c2, n as nat).1 == c2);
        }
    }
    lemma_record_end_sticky(s, c1);
    assert(keyword(s, c0, R::count_word()).ok());
    lemma_inserted(s, k, x);
    lemma_spaces_moved(s, t, 0, p);
    lemma_keyword_is_solid(s, p, R::count_word());
    lemma_count_field_moved(s, t, 0, c0.at, R::count_word());
    lemma_record_end_moved(s, t, 0, c1.at);
    lemma_counted_moved::<R>(s, t, d, c2.at, n as nat);
    if on_rest_of_line(s, c1.at, k) {
        lemma_record_end_commented(s, c1.at, k, x);
        lemma_no_digit_before(s, k, x, c1.at);
        lemma_solid_behind(s, k, x, e);
        lemma_same_text_part(s, t, d, k, s.len() as int, c2.at, e);
    } else {
        lemma_counted_commented::<R>(s, c2.at, n as nat, k, x);
        lemma_solid_before(s, k, x, c2.at);
        assert(t[c1.at] == s[c1.at]);
    }
    lemma_same_text_part(s, t, 0, 0, k, p, c1.at);
    assert(t[c0.at] == s[c0.at]);
    assert(spaces(t, Cursor::new(p)) == c0);
    assert(count_field(t, c0, R::count_word()) == (n, c1));
}


/// A comment on the rest of a line of a joint leaves what is read as it is,
/// and moves its end on by the length of the comment.
pub proof fn lemma_joint_record_commented(s: Seq<char>, p: int, k: int, x: Seq<char>)
    requires
        0 <= p <= s.len(),
        0 <= k <= s.len(),
        joint_record(s, Cursor::new(p)).1.ok(),
        on_rest_of_line(s, joint_fields(s, Cursor::new(p)).1.at, k),
        solid(s, joint_record(s, Cursor::new(p)).1.at),
        is_comment(x),
    ensures
        p <= run_end(s, p, Class::Space) < k < joint_record(s, Cursor::new(p)).1.at <= s.len(),
        joint_record(inserted(s, k, x), Cursor::new(p)) == (
            joint_record(s, Cursor::new(p)).0,
            shifted(joint_record(s, Cursor::new(p)).1, x.len() as int),
        ),
{
    let t = inserted(s, k, x);
    let (v, c1) = joint_fields(s, Cursor::new(p));
    lemma_record_end_sticky(s, c1);
    lemma_inserted(s, k, x);
    lemma_joint_fields_moved(s, t, 0, p);
    lemma_record_end_commented(s, c1.at, k, x);
    lemma_same_text_part(s, t, 0, 0, k, p, c1.at);
    assert(joint_fields(t, Cursor::new(p)) == (v, c1));
}

/// `k` lies on the rest of the line of one of the joints that start at
/// `p`.
pub open spec fn joint_records_rest(s: Seq<char>, p: int, k: int) -> bool
    decreases s.len() - p,
{
    let next = joint_record(s, Cursor::new(p)).1;
    sees(s, run_end(s, p, Class::Space), '"') && (on_rest_of_line(
        s,
        joint_fields(s, Cursor::new(p)).1.at,
        k,
    ) || (next.ok() && p < next.at <= s.len() && joint_records_rest(s, next.at, k)))
}

/// A comment on the rest of a line of a run of joints leaves what is read as it
/// is,
/// and moves its end on by the length of the comment.
pub proof fn lemma_joint_records_commented(s: Seq<char>, p: int, k: int, x: Seq<char>)
    requires
        0 <= p <= s.len(),
        0 <= k <= s.len(),
        joint_records(s, Cursor::new(p)).1.ok(),
        joint_records_rest(s, p, k),
        ends_joints(s, joint_records(s, Cursor::new(p)).1.at),
        is_comment(x),
    ensures
        p <= run_end(s, p, Class::Space) < k < joint_records(s, Cursor::new(p)).1.at <= s.len(),
        joint_records(inserted(s, k, x), Cursor::new(p)) == (
            joint_records(s, Cursor::new(p)).0,
            shifted(joint_records(s, Cursor::new(p)).1, x.len() as int),
        ),
    decreases s.len() - p,
{
    let t = inserted(s, k, x);
    let d = x.len() as int;
    let e = joint_records(s, Cursor::new(p)).1.at;
    let q = run_end(s, p, Class::Space);
    let (first, next) = joint_record(s, Cursor::new(p));
    assert(next.ok());
    lemma_run_end(s, p, Class::Space);
    lemma_inserted(s, k, x);
    lemma_joint_record_moved(s, t, 0, p);
    lemma_joint_records_moved(s, t, d, next.at);
    let q2 = run_end(s, next.at, Class::Space);
    if sees(s, q2, '"') {
        assert(joint_record(s, next).1.ok());
        lemma_joint_record_moved(s, t, 0, next.at);
    }
    assert(solid(s, next.at));
    if on_rest_of_line(s, joint_fields(s, Cursor::new(p)).1.at, k) {
        lemma_joint_record_commented(s, p, k, x);
        lemma_solid_behind(s, k, x, e);
        lemma_same_text_part(s, t, d, k, s.len() as int, next.at, e);
        lemma_run_end(s, e, Class::Space);
        let qe = run_end(s, e, Class::Space);
        lemma_same_text_part(s, t, d, k, s.len() as int, e, qe);
        lemma_run_moved(s, t, d, e, Class::Space);
        if qe < s.len() {
            assert(s[qe] == t[qe + d]);
        }
        assert(ends_joints(t, e + d));
        assert(joint_record(t, Cursor::new(p)) == (first, shifted(next, d)));
    } else {
        lemma_joint_records_commented(s, next.at, k, x);
        lemma_solid_before(s, k, x, next.at);
        lemma_same_text_part(s, t, 0, 0, k, p, next.at);
        assert(joint_record(t, Cursor::new(p)) == (first, next));
    }
    assert(s[q] == t[q + 0]);
    lemma_same_text_part(s, t, 0, 0, k, p, q);
    lemma_run_moved(s, t, 0, p, Class::Space);
}

/// `k` lies on the rest of a line of the `joints` block that starts at
/// `p`: of the line that opens it, of a joint, or of the line that closes
/// it.
pub open spec fn joints_rest(s: Seq<char>, p: int, k: int) -> bool {
    let c0 = keyword(s, Cursor::new(p), Keyword::Joints);
    let c1 = record_end(s, c0);
    let c2 = joint_records(s, c1).1;
    let c4 = keyword(s, spaces(s, c2), Keyword::Close);
    on_rest_of_line(s, c0.at, k) || joint_records_rest(s, c1.at, k) || on_rest_of_line(
        s,
        c4.at,
        k,
    )
}

/// A comment on the rest of a line of the `joints` block leaves what is read as
/// it is,
/// and moves its end on by the length of the comment.
#[verifier::rlimit(50)]
pub proof fn lemma_joints_commented(s: Seq<char>, p: int, k: int, x: Seq<char>)
    requires
        0 <= p <= s.len(),
        0 <= k <= s.len(),
        joints(s, Cursor::new(p)).1.ok(),
        joints_rest(s, p, k),
        solid(s, joints(s, Cursor::new(p)).1.at),
        is_comment(x),
    ensures
        p < k < joints(s, Cursor::new(p)).1.at <= s.len(),
        joints(inserted(s, k, x), Cursor::new(p)) == (
            joints(s, Cursor::new(p)).0,
            shifted(joints(s, Cursor::new(p)).1, x.len() as int),
        ),
{
    let t = inserted(s, k, x);
    let d = x.len() as int;
    let e = joints(s, Cursor::new(p)).1.at;
    let c0 = keyword(s, Cursor::new(p), Keyword::Joints);
    let c1 = record_end(s, c0);
    let (items, c2) = joint_records(s, c1);
    let c3 = spaces(s, c2);
    let c4 = keyword(s, c3, Keyword::Close);
    lemma_record_end_sticky(s, c4);
    lemma_record_end_sticky(s, c0);
    assert(c2.ok());
    assert(c1.ok()) by {
        if !c1.ok() {
            assert(joint_records(s, c1).1 == c1);
        }
    }
    lemma_inserted(s, k, x);
    lemma_keyword_moved(s, t, 0, p, Keyword::Joints);
    lemma_keyword_shape(Keyword::Joints);
    lemma_keyword_shape(Keyword::Close);
    lemma_record_end_moved(s, t, 0, c0.at);
    lemma_record_end_moved(s, t, d, c4.at);
    lemma_joint_records_moved(s, t, 0, c1.at);
    lemma_joint_records_moved(s, t, d, c1.at);
    lemma_spaces_moved(s, t, 0, c2.at);
    lemma_spaces_moved(s, t, d, c2.at);
    lemma_keyword_moved(s, t, 0, c3.at, Keyword::Close);
    lemma_keyword_moved(s, t, d, c3.at, Keyword::Close);
    lemma_keyword_is_solid(s, c2.at, Keyword::Close);
    assert(ends_joints(s, c2.at));
    let q1 = run_end(s, c1.at, Class::Space);
    lemma_run_end(s, c1.at, Class::Space);
    if sees(s, q1, '"') {
        assert(joint_record(s, c1).1.ok());
        lemma_joint_record_moved(s, t, 0, c1.at);
    } else {
        assert(c2 == c1);
    }
    assert(solid(s, c1.at));
    if on_rest_of_line(s, c0.at, k) {
        lemma_record_end_commented(s, c0.at, k, x);
        lemma_solid_behind(s, k, x, e);
        lemma_same_text_part(s, t, 0, 0, k, p, c0.at);
        lemma_same_text_part(s, t, d, k, s.len() as int, c1.at, c2.at);
        lemma_same_text_part(s, t, d, k, s.len() as int, c2.at, c3.at);
        lemma_same_text_part(s, t, d, k, s.len() as int, c3.at, c4.at);
        lemma_same_text_part(s, t, d, k, s.len() as int, c4.at, e);
        lemma_solid_behind(s, k, x, c2.at);
        assert(s[c3.at] == t[c3.at + d]);
        assert(ends_joints(t, c2.at + d));
        assert(keyword(t, Cursor::new(p), Keyword::Joints) == c0);
        assert(record_end(t, c0) == shifted(c1, d));
        assert(joint_records(t, shifted(c1, d)) == (items, shifted(c2, d)));
        assert(spaces(t, shifted(c2, d)) == shifted(c3, d));
        assert(keyword(t, shifted(c3, d), Keyword::Close) == shifted(c4, d));
        assert(record_end(t, shifted(c4, d)) == Cursor::new(e + d));
    } else if joint_records_rest(s, c1.at, k) {
        lemma_joint_records_commented(s, c1.at, k, x);
        lemma_solid_behind(s, k, x, e);
        lemma_solid_before(s, k, x, c1.at);
        lemma_same_text_part(s, t, 0, 0, k, p, c0.at);
        lemma_same_text_part(s, t, 0, 0, k, c0.at, c1.at);
        lemma_same_text_part(s, t, d, k, s.len() as int, c2.at, c3.at);
        lemma_same_text_part(s, t, d, k, s.len() as int, c3.at, c4.at);
        lemma_same_text_part(s, t, d, k, s.len() as int, c4.at, e);
        assert(s[c3.at] == t[c3.at + d]);
        assert(keyword(t, Cursor::new(p), Keyword::Joints) == c0);
        assert(record_end(t, c0) == c1);
        assert(joint_records(t, c1) == (items, shifted(c2, d)));
        assert(spaces(t, shifted(c2, d)) == shifted(c3, d));
        assert(keyword(t, shifted(c3, d), Keyword::Close) == shifted(c4, d));
        assert(record_end(t, shifted(c4, d)) == Cursor::new(e + d));
    } else {
        lemma_record_end_commented(s, c4.at, k, x);
        lemma_solid_before(s, k, x, c1.at);
        lemma_solid_before(s, k, x, c2.at);
        lemma_same_text_part(s, t, 0, 0, k, p, c0.at);
        lemma_same_text_part(s, t, 0, 0, k, c0.at, c1.at);
        lemma_same_text_part(s, t, 0, 0, k, c1.at, c2.at);
        lemma_same_text_part(s, t, 0, 0, k, c2.at, c3.at);
        lemma_same_text_part(s, t, 0, 0, k, c3.at, c4.at);
        assert(s[c3.at] == t[c3.at + 0]);
        assert(ends_joints(t, c2.at));
        assert(keyword(t, Cursor::new(p), Keyword::Joints) == c0);
        assert(record_end(t, c0) == c1);
        assert(joint_records(t, c1) == (items, c2));
        assert(spaces(t, c2) == c3);
        assert(keyword(t, c3, Keyword::Close) == c4);
        assert(record_end(t, c4) == Cursor::new(e + d));
    }
}


/// The same text stands before the place where a text is put in.
pub proof fn lemma_before(s: Seq<char>, k: int, x: Seq<char>, lo: int, hi: int)
    requires
        0 <= lo <= hi <= k <= s.len(),
    ensures
        same_text(s, inserted(s, k, x), 0, lo, hi),
{
    lemma_inserted(s, k, x);
    lemma_same_text_part(s, inserted(s, k, x), 0, 0, k, lo, hi);
}

/// The same text stands behind the place where a text is put in, further
/// on by the length of that text.
pub proof fn lemma_behind(s: Seq<char>, k: int, x: Seq<char>, lo: int, hi: int)
    requires
        0 <= k <= lo <= hi <= s.len(),
    ensures
        same_text(s, inserted(s, k, x), x.len() as int, lo, hi),
{
    lemma_inserted(s, k, x);
    lemma_same_text_part(s, inserted(s, k, x), x.len() as int, k, s.len() as int, lo, hi);
}

/// Where part `i` of the mesh that starts at `p` ends: part 0 is the
/// keyword that opens it, part 3 the `shader` field, part 4 the end of that
/// line, parts 5, 6 and 7 the lists of vertices, triangles and weights.
pub open spec fn mesh_part(s: Seq<char>, p: int, i: int) -> Cursor {
    let c0 = keyword(s, Cursor::new(p), Keyword::Mesh);
    let c3 = string_field(s, spaces(s, record_end(s, c0)), Keyword::Shader).1;
    let c4 = record_end(s, c3);
    let c5 = list::<Vert>(s, c4).1;
    let c6 = list::<Tri>(s, c5).1;
    if i == 0 {
        c0
    } else if i == 3 {
        c3
    } else if i == 4 {
        c4
    } else if i == 5 {
        c5
    } else if i == 6 {
        c6
    } else {
        list::<Weight>(s, c6).1
    }
}

/// `k` lies on the rest of a line of the mesh that starts at `p`: of the
/// line that opens it, of the `shader` line, or of a line of one of its
/// three lists.
pub open spec fn mesh_rest(s: Seq<char>, p: int, k: int) -> bool {
    ||| on_rest_of_line(s, mesh_part(s, p, 0).at, k)
    ||| on_rest_of_line(s, mesh_part(s, p, 3).at, k)
    ||| list_rest::<Vert>(s, mesh_part(s, p, 4).at, k)
    ||| list_rest::<Tri>(s, mesh_part(s, p, 5).at, k)
    ||| list_rest::<Weight>(s, mesh_part(s, p, 6).at, k)
}

/// The cursors between the parts of a mesh that matches the grammar, and
/// what starts each of its lines.
proof fn lemma_mesh_parts(s: Seq<char>, p: int)
    requires
        0 <= p <= s.len(),
        mesh(s, Cursor::new(p)).1.ok(),
    ensures
        ({
            let c0 = keyword(s, Cursor::new(p), Keyword::Mesh);
            let c1 = record_end(s, c0);
            let c2 = spaces(s, c1);
            let c3 = string_field(s, c2, Keyword::Shader).1;
            let c4 = record_end(s, c3);
            let c5 = list::<Vert>(s, c4).1;
            let c6 = list::<Tri>(s, c5).1;
            let c7 = list::<Weight>(s, c6).1;
            let c8 = spaces(s, c7);
            let c9 = keyword(s, c8, Keyword::Close);
            &&& c0.ok() && c1.ok() && c2.ok() && c3.ok() && c4.ok() && c5.ok() && c6.ok()
                && c7.ok() && c8.ok() && c9.ok()
            &&& p < c0.at < c1.at <= c2.at < c3.at < c4.at < c5.at < c6.at < c7.at <= c8.at
                < c9.at <= s.len()
            &&& solid(s, c1.at) && solid(s, c4.at) && solid(s, c5.at) && solid(s, c6.at) && solid(
                s,
                c7.at,
            )
            &&& run_end(s, c1.at, Class::Space) == c2.at
            &&& c4.at <= run_end(s, c4.at, Class::Space) < c5.at
            &&& c5.at <= run_end(s, c5.at, Class::Space) < c6.at
            &&& c6.at <= run_end(s, c6.at, Class::Space) < c7.at
            &&& run_end(s, c7.at, Class::Space) == c8.at
            &&& !Class::Space.holds(s[c2.at])
            &&& !Class::Space.holds(s[c8.at])
        }),
{
    reveal(mesh);
    let c0 = keyword(s, Cursor::new(p), Keyword::Mesh);
    let c1 = record_end(s, c0);
    let c2 = spaces(s, c1);
    let (shader, c3) = string_field(s, c2, Keyword::Shader);
    let c4 = record_end(s, c3);
    let (verts, c5) = list::<Vert>(s, c4);
    let (tris, c6) = list::<Tri>(s, c5);
    let (weights, c7) = list::<Weight>(s, c6);
    let c8 = spaces(s, c7);
    lemma_list_sticky::<Weight>(s, c6);
    lemma_list_sticky::<Tri>(s, c5);
    lemma_list_sticky::<Vert>(s, c4);
    assert(c7.ok() && c6.ok() && c5.ok() && c4.ok());
    lemma_record_end_sticky(s, c3);
    assert(c2.ok());
    lemma_record_end_sticky(s, c0);
    lemma_keyword_moved(s, s, 0, p, Keyword::Mesh);
    lemma_record_end_moved(s, s, 0, c0.at);
    lemma_spaces_moved(s, s, 0, c1.at);
    lemma_keyword_is_solid(s, c1.at, Keyword::Shader);
    lemma_keyword_shape(Keyword::Shader);
    lemma_keyword_shape(Keyword::Close);
    lemma_string_field_moved(s, s, 0, c2.at, Keyword::Shader);
    lemma_record_end_moved(s, s, 0, c3.at);
    lemma_list_moved::<Vert>(s, s, 0, c4.at);
    lemma_list_moved::<Tri>(s, s, 0, c5.at);
    lemma_list_moved::<Weight>(s, s, 0, c6.at);
    lemma_spaces_moved(s, s, 0, c7.at);
    lemma_keyword_is_solid(s, c7.at, Keyword::Close);
    lemma_keyword_moved(s, s, 0, c8.at, Keyword::Close);
}

/// A comment on the line that opens a mesh.
#[verifier::rlimit(50)]
proof fn lemma_mesh_commented_open(s: Seq<char>, p: int, k: int, x: Seq<char>)
    requires
        0 <= p <= s.len(),
        0 <= k <= s.len(),
        mesh(s, Cursor::new(p)).1.ok(),
        on_rest_of_line(s, mesh_part(s, p, 0).at, k),
        is_comment(x),
    ensures
        p < k < mesh(s, Cursor::new(p)).1.at <= s.len(),
        mesh(inserted(s, k, x), Cursor::new(p)) == (
            mesh(s, Cursor::new(p)).0,
            shifted(mesh(s, Cursor::new(p)).1, x.len() as int),
        ),
{
    reveal(mesh);
    let t = inserted(s, k, x);
    let d = x.len() as int;
    let e = mesh(s, Cursor::new(p)).1.at;
    let c0 = keyword(s, Cursor::new(p), Keyword::Mesh);
    let c1 = record_end(s, c0);
    let c2 = spaces(s, c1);
    let (shader, c3) = string_field(s, c2, Keyword::Shader);
    let c4 = record_end(s, c3);
    let (verts, c5) = list::<Vert>(s, c4);
    let (tris, c6) = list::<Tri>(s, c5);
    let (weights, c7) = list::<Weight>(s, c6);
    let c8 = spaces(s, c7);
    lemma_mesh_parts(s, p);
    lemma_inserted(s, k, x);
    lemma_record_end_commented(s, c0.at, k, x);
    lemma_before(s, k, x, p, c0.at);
    lemma_keyword_moved(s, t, 0, p, Keyword::Mesh);
    assert(keyword(t, Cursor::new(p), Keyword::Mesh) == c0);
    assert(record_end(t, c0) == shifted(c1, d));
    lemma_behind(s, k, x, c1.at, c2.at);
    lemma_spaces_moved(s, t, d, c1.at);
    assert(s[c2.at] == t[c2.at + d]);
    assert(spaces(t, shifted(c1, d)) == shifted(c2, d));
    lemma_behind(s, k, x, c2.at, c3.at);
    lemma_string_field_moved(s, t, d, c2.at, Keyword::Shader);
    assert(string_field(t, shifted(c2, d), Keyword::Shader) == (shader, shifted(c3, d)));
    lemma_behind(s, k, x, c3.at, c4.at);
    lemma_record_end_moved(s, t, d, c3.at);
    lemma_solid_behind(s, k, x, c4.at);
    assert(record_end(t, shifted(c3, d)) == shifted(c4, d));
    lemma_behind(s, k, x, c4.at, c5.at);
    lemma_list_moved::<Vert>(s, t, d, c4.at);
    lemma_solid_behind(s, k, x, c5.at);
    assert(list::<Vert>(t, shifted(c4, d)) == (verts, shifted(c5, d)));
    lemma_behind(s, k, x, c5.at, c6.at);
    lemma_list_moved::<Tri>(s, t, d, c5.at);
    lemma_solid_behind(s, k, x, c6.at);
    assert(list::<Tri>(t, shifted(c5, d)) == (tris, shifted(c6, d)));
    lemma_behind(s, k, x, c6.at, c7.at);
    lemma_list_moved::<Weight>(s, t, d, c6.at);
    lemma_solid_behind(s, k, x, c7.at);
    assert(list::<Weight>(t, shifted(c6, d)) == (weights, shifted(c7, d)));
    lemma_behind(s, k, x, c7.at, c8.at);
    lemma_spaces_moved(s, t, d, c7.at);
    assert(s[c8.at] == t[c8.at + d]);
    assert(spaces(t, shifted(c7, d)) == shifted(c8, d));
    lemma_behind(s, k, x, c8.at, e);
    lemma_keyword_moved(s, t, d, c8.at, Keyword::Close);
    assert(keyword(t, shifted(c8, d), Keyword::Close) == Cursor::new(e + d));
}

/// A comment on the `shader` line of a mesh.
#[verifier::rlimit(50)]
proof fn lemma_mesh_commented_shader(s: Seq<char>, p: int, k: int, x: Seq<char>)
    requires
        0 <= p <= s.len(),
        0 <= k <= s.len(),
        mesh(s, Cursor::new(p)).1.ok(),
        on_rest_of_line(s, mesh_part(s, p, 3).at, k),
        is_comment(x),
    ensures
        p < k < mesh(s, Cursor::new(p)).1.at <= s.len(),
        mesh(inserted(s, k, x), Cursor::new(p)) == (
            mesh(s, Cursor::new(p)).0,
            shifted(mesh(s, Cursor::new(p)).1, x.len() as int),
        ),
{
    reveal(mesh);
    let t = inserted(s, k, x);
    let d = x.len() as int;
    let e = mesh(s, Cursor::new(p)).1.at;
    let c0 = keyword(s, Cursor::new(p), Keyword::Mesh);
    let c1 = record_end(s, c0);
    let c2 = spaces(s, c1);
    let (shader, c3) = string_field(s, c2, Keyword::Shader);
    let c4 = record_end(s, c3);
    let (verts, c5) = list::<Vert>(s, c4);
    let (tris, c6) = list::<Tri>(s, c5);
    let (weights, c7) = list::<Weight>(s, c6);
    let c8 = spaces(s, c7);
    lemma_mesh_parts(s, p);
    lemma_inserted(s, k, x);
    lemma_record_end_commented(s, c3.at, k, x);
    lemma_before(s, k, x, p, c0.at);
    lemma_keyword_moved(s, t, 0, p, Keyword::Mesh);
    assert(keyword(t, Cursor::new(p), Keyword::Mesh) == c0);
    lemma_before(s, k, x, c0.at, c1.at);
    lemma_record_end_moved(s, t, 0, c0.at);
    lemma_solid_before(s, k, x, c1.at);
    assert(record_end(t, c0) == c1);
    lemma_before(s, k, x, c1.at, c2.at);
    lemma_spaces_moved(s, t, 0, c1.at);
    assert(s[c2.at] == t[c2.at + 0]);
    assert(spaces(t, c1) == c2);
    lemma_before(s, k, x, c2.at, c3.at);
    lemma_string_field_moved(s, t, 0, c2.at, Keyword::Shader);
    assert(string_field(t, c2, Keyword::Shader) == (shader, c3));
    assert(record_end(t, c3) == shifted(c4, d));
    lemma_behind(s, k, x, c4.at, c5.at);
    lemma_list_moved::<Vert>(s, t, d, c4.at);
    lemma_solid_behind(s, k, x, c5.at);
    assert(list::<Vert>(t, shifted(c4, d)) == (verts, shifted(c5, d)));
    lemma_behind(s, k, x, c5.at, c6.at);
    lemma_list_moved::<Tri>(s, t, d, c5.at);
    lemma_solid_behind(s, k, x, c6.at);
    assert(list::<Tri>(t, shifted(c5, d)) == (tris, shifted(c6, d)));
    lemma_behind(s, k, x, c6.at, c7.at);
    lemma_list_moved::<Weight>(s, t, d, c6.at);
    lemma_solid_behind(s, k, x, c7.at);
    assert(list::<Weight>(t, shifted(c6, d)) == (weights, shifted(c7, d)));
    lemma_behind(s, k, x, c7.at, c8.at);
    lemma_spaces_moved(s, t, d, c7.at);
    assert(s[c8.at] == t[c8.at + d]);
    assert(spaces(t, shifted(c7, d)) == shifted(c8, d));
    lemma_behind(s, k, x, c8.at, e);
    lemma_keyword_moved(s, t, d, c8.at, Keyword::Close);
    assert(keyword(t, shifted(c8, d), Keyword::Close) == Cursor::new(e + d));
}

/// A comment on a line of the vertices of a mesh.
#[verifier::rlimit(50)]
proof fn lemma_mesh_commented_verts(s: Seq<char>, p: int, k: int, x: Seq<char>)
    requires
        0 <= p <= s.len(),
        0 <= k <= s.len(),
        mesh(s, Cursor::new(p)).1.ok(),
        list_rest::<Vert>(s, mesh_part(s, p, 4).at, k),
        is_comment(x),
    ensures
        p < k < mesh(s, Cursor::new(p)).1.at <= s.len(),
        mesh(inserted(s, k, x), Cursor::new(p)) == (
            mesh(s, Cursor::new(p)).0,
            shifted(mesh(s, Cursor::new(p)).1, x.len() as int),
        ),
{
    reveal(mesh);
    let t = inserted(s, k, x);
    let d = x.len() as int;
    let e = mesh(s, Cursor::new(p)).1.at;
    let c0 = keyword(s, Cursor::new(p), Keyword::Mesh);
    let c1 = record_end(s, c0);
    let c2 = spaces(s, c1);
    let (shader, c3) = string_field(s, c2, Keyword::Shader);
    let c4 = record_end(s, c3);
    let (verts, c5) = list::<Vert>(s, c4);
    let (tris, c6) = list::<Tri>(s, c5);
    let (weights, c7) = list::<Weight>(s, c6);
    let c8 = spaces(s, c7);
    lemma_mesh_parts(s, p);
    lemma_inserted(s, k, x);
    lemma_list_commented::<Vert>(s, c4.at, k, x);
    lemma_before(s, k, x, p, c0.at);
    lemma_keyword_moved(s, t, 0, p, Keyword::Mesh);
    assert(keyword(t, Cursor::new(p), Keyword::Mesh) == c0);
    lemma_before(s, k, x, c0.at, c1.at);
    lemma_record_end_moved(s, t, 0, c0.at);
    lemma_solid_before(s, k, x, c1.at);
    assert(record_end(t, c0) == c1);
    lemma_before(s, k, x, c1.at, c2.at);
    lemma_spaces_moved(s, t, 0, c1.at);
    assert(s[c2.at] == t[c2.at + 0]);
    assert(spaces(t, c1) == c2);
    lemma_before(s, k, x, c2.at, c3.at);
    lemma_string_field_moved(s, t, 0, c2.at, Keyword::Shader);
    assert(string_field(t, c2, Keyword::Shader) == (shader, c3));
    lemma_before(s, k, x, c3.at, c4.at);
    lemma_record_end_moved(s, t, 0, c3.at);
    lemma_solid_before(s, k, x, c4.at);
    assert(record_end(t, c3) == c4);
    assert(list::<Vert>(t, c4) == (verts, shifted(c5, d)));
    lemma_behind(s, k, x, c5.at, c6.at);
    lemma_list_moved::<Tri>(s, t, d, c5.at);
    lemma_solid_behind(s, k, x, c6.at);
    assert(list::<Tri>(t, shifted(c5, d)) == (tris, shifted(c6, d)));
    lemma_behind(s, k, x, c6.at, c7.at);
    lemma_list_moved::<Weight>(s, t, d, c6.at);
    lemma_solid_behind(s, k, x, c7.at);
    assert(list::<Weight>(t, shifted(c6, d)) == (weights, shifted(c7, d)));
    lemma_behind(s, k, x, c7.at, c8.at);
    lemma_spaces_moved(s, t, d, c7.at);
    assert(s[c8.at] == t[c8.at + d]);
    assert(spaces(t, shifted(c7, d)) == shifted(c8, d));
    lemma_behind(s, k, x, c8.at, e);
    lemma_keyword_moved(s, t, d, c8.at, Keyword::Close);
    assert(keyword(t, shifted(c8, d), Keyword::Close) == Cursor::new(e + d));
}

/// A comment on a line of the triangles of a mesh.
#[verifier::rlimit(50)]
proof fn lemma_mesh_commented_tris(s: Seq<char>, p: int, k: int, x: Seq<char>)
    requires
        0 <= p <= s.len(),
        0 <= k <= s.len(),
        mesh(s, Cursor::new(p)).1.ok(),
        list_rest::<Tri>(s, mesh_part(s, p, 5).at, k),
        is_comment(x),
    ensures
        p < k < mesh(s, Cursor::new(p)).1.at <= s.len(),
        mesh(inserted(s, k, x), Cursor::new(p)) == (
            mesh(s, Cursor::new(p)).0,
            shifted(mesh(s, Cursor::new(p)).1, x.len() as int),
        ),
{
    reveal(mesh);
    let t = inserted(s, k, x);
    let d = x.len() as int;
    let e = mesh(s, Cursor::new(p)).1.at;
    let c0 = keyword(s, Cursor::new(p), Keyword::Mesh);
    let c1 = record_end(s, c0);
    let c2 = spaces(s, c1);
    let (shader, c3) = string_field(s, c2, Keyword::Shader);
    let c4 = record_end(s, c3);
    let (verts, c5) = list::<Vert>(s, c4);
    let (tris, c6) = list::<Tri>(s, c5);
    let (weights, c7) = list::<Weight>(s, c6);
    let c8 = spaces(s, c7);
    lemma_mesh_parts(s, p);
    lemma_inserted(s, k, x);
    lemma_list_commented::<Tri>(s, c5.at, k, x);
    lemma_before(s, k, x, p, c0.at);
    lemma_keyword_moved(s, t, 0, p, Keyword::Mesh);
    assert(keyword(t, Cursor::new(p), Keyword::Mesh) == c0);
    lemma_before(s, k, x, c0.at, c1.at);
    lemma_record_end_moved(s, t, 0, c0.at);
    lemma_solid_before(s, k, x, c1.at);
    assert(record_end(t, c0) == c1);
    lemma_before(s, k, x, c1.at, c2.at);
    lemma_spaces_moved(s, t, 0, c1.at);
    assert(s[c2.at] == t[c2.at + 0]);
    assert(spaces(t, c1) == c2);
    lemma_before(s, k, x, c2.at, c3.at);
    lemma_string_field_moved(s, t, 0, c2.at, Keyword::Shader);
    assert(string_field(t, c2, Keyword::Shader) == (shader, c3));
    lemma_before(s, k, x, c3.at, c4.at);
    lemma_record_end_moved(s, t, 0, c3.at);
    lemma_solid_before(s, k, x, c4.at);
    assert(record_end(t, c3) == c4);
    lemma_before(s, k, x, c4.at, c5.at);
    lemma_list_moved::<Vert>(s, t, 0, c4.at);
    lemma_solid_before(s, k, x, c5.at);
    assert(list::<Vert>(t, c4) == (verts, c5));
    assert(list::<Tri>(t, c5) == (tris, shifted(c6, d)));
    lemma_behind(s, k, x, c6.at, c7.at);
    lemma_list_moved::<Weight>(s, t, d, c6.at);
    lemma_solid_behind(s, k, x, c7.at);
    assert(list::<Weight>(t, shifted(c6, d)) == (weights, shifted(c7, d)));
    lemma_behind(s, k, x, c7.at, c8.at);
    lemma_spaces_moved(s, t, d, c7.at);
    assert(s[c8.at] == t[c8.at + d]);
    assert(spaces(t, shifted(c7, d)) == shifted(c8, d));
    lemma_behind(s, k, x, c8.at, e);
    lemma_keyword_moved(s, t, d, c8.at, Keyword::Close);
    assert(keyword(t, shifted(c8, d), Keyword::Close) == Cursor::new(e + d));
}

/// A comment on a line of the weights of a mesh.
#[verifier::rlimit(50)]
proof fn lemma_mesh_commented_weights(s: Seq<char>, p: int, k: int, x: Seq<char>)
    requires
        0 <= p <= s.len(),
        0 <= k <= s.len(),
        mesh(s, Cursor::new(p)).1.ok(),
        list_rest::<Weight>(s, mesh_part(s, p, 6).at, k),
        is_comment(x),
    ensures
        p < k < mesh(s, Cursor::new(p)).1.at <= s.len(),
        mesh(inserted(s, k, x), Cursor::new(p)) == (
            mesh(s, Cursor::new(p)).0,
            shifted(mesh(s, Cursor::new(p)).1, x.len() as int),
        ),
{
    reveal(mesh);
    let t = inserted(s, k, x);
    let d = x.len() as int;
    let e = mesh(s, Cursor::new(p)).1.at;
    let c0 = keyword(s, Cursor::new(p), Keyword::Mesh);
    let c1 = record_end(s, c0);
    let c2 = spaces(s, c1);
    let (shader, c3) = string_field(s, c2, Keyword::Shader);
    let c4 = record_end(s, c3);
    let (verts, c5) = list::<Vert>(s, c4);
    let (tris, c6) = list::<Tri>(s, c5);
    let (weights, c7) = list::<Weight>(s, c6);
    let c8 = spaces(s, c7);
    lemma_mesh_parts(s, p);
    lemma_inserted(s, k, x);
    lemma_list_commented::<Weight>(s, c6.at, k, x);
    lemma_before(s, k, x, p, c0.at);
    lemma_keyword_moved(s, t, 0, p, Keyword::Mesh);
    assert(keyword(t, Cursor::new(p), Keyword::Mesh) == c0);
    lemma_before(s, k, x, c0.at, c1.at);
    lemma_record_end_moved(s, t, 0, c0.at);
    lemma_solid_before(s, k, x, c1.at);
    assert(record_end(t, c0) == c1);
    lemma_before(s, k, x, c1.at, c2.at);
    lemma_spaces_moved(s, t, 0, c1.at);
    assert(s[c2.at] == t[c2.at + 0]);
    assert(spaces(t, c1) == c2);
    lemma_before(s, k, x, c2.at, c3.at);
    lemma_string_field_moved(s, t, 0, c2.at, Keyword::Shader);
    assert(string_field(t, c2, Keyword::Shader) == (shader, c3));
    lemma_before(s, k, x, c3.at, c4.at);
    lemma_record_end_moved(s, t, 0, c3.at);
    lemma_solid_before(s, k, x, c4.at);
    assert(record_end(t, c3) == c4);
    lemma_before(s, k, x, c4.at, c5.at);
    lemma_list_moved::<Vert>(s, t, 0, c4.at);
    lemma_solid_before(s, k, x, c5.at);
    assert(list::<Vert>(t, c4) == (verts, c5));
    lemma_before(s, k, x, c5.at, c6.at);
    lemma_list_moved::<Tri>(s, t, 0, c5.at);
    lemma_solid_before(s, k, x, c6.at);
    assert(list::<Tri>(t, c5) == (tris, c6));
    assert(list::<Weight>(t, c6) == (weights, shifted(c7, d)));
    lemma_behind(s, k, x, c7.at, c8.at);
    lemma_spaces_moved(s, t, d, c7.at);
    assert(s[c8.at] == t[c8.at + d]);
    assert(spaces(t, shifted(c7, d)) == shifted(c8, d));
    lemma_behind(s, k, x, c8.at, e);
    lemma_keyword_moved(s, t, d, c8.at, Keyword::Close);
    assert(keyword(t, shifted(c8, d), Keyword::Close) == Cursor::new(e + d));
}

/// A comment on the rest of a line of a mesh leaves what is read as it is,
/// and moves its end on by the length of the comment.
pub proof fn lemma_mesh_commented(s: Seq<char>, p: int, k: int, x: Seq<char>)
    requires
        0 <= p <= s.len(),
        0 <= k <= s.len(),
        mesh(s, Cursor::new(p)).1.ok(),
        mesh_rest(s, p, k),
        is_comment(x),
    ensures
        p < k < mesh(s, Cursor::new(p)).1.at <= s.len(),
        mesh(inserted(s, k, x), Cursor::new(p)) == (
            mesh(s, Cursor::new(p)).0,
            shifted(mesh(s, Cursor::new(p)).1, x.len() as int),
        ),
{
    if on_rest_of_line(s, mesh_part(s, p, 0).at, k) {
        lemma_mesh_commented_open(s, p, k, x);
    } else if on_rest_of_line(s, mesh_part(s, p, 3).at, k) {
        lemma_mesh_commented_shader(s, p, k, x);
    } else if list_rest::<Vert>(s, mesh_part(s, p, 4).at, k) {
        lemma_mesh_commented_verts(s, p, k, x);
    } else if list_rest::<Tri>(s, mesh_part(s, p, 5).at, k) {
        lemma_mesh_commented_tris(s, p, k, x);
    } else {
        lemma_mesh_commented_weights(s, p, k, x);
    }
}

/// A comment on the rest of a line of a line with a keyword and its count
/// leaves what is read as it is,
/// and moves its end on by the length of the comment.
pub proof fn lemma_count_line_commented(s: Seq<char>, p: int, k: int, x: Seq<char>, w: Keyword)
    requires
        0 <= p <= s.len(),
        0 <= k <= s.len(),
        count_line(s, Cursor::new(p), w).1.ok(),
        on_rest_of_line(s, count_field(s, Cursor::new(p), w).1.at, k),
        is_comment(x),
    ensures
        p < k < count_line(s, Cursor::new(p), w).1.at <= s.len(),
        count_line(inserted(s, k, x), Cursor::new(p), w) == (
            count_line(s, Cursor::new(p), w).0,
            shifted(count_line(s, Cursor::new(p), w).1, x.len() as int),
        ),
{
    let t = inserted(s, k, x);
    let (v, c1) = count_field(s, Cursor::new(p), w);
    lemma_count_field_moved(s, t, 0, p, w);
    lemma_no_digit_before(s, k, x, c1.at);
    lemma_before(s, k, x, p, c1.at);
    lemma_line_end_commented(s, c1.at, k, x);
    assert(count_field(t, Cursor::new(p), w) == (v, c1));
}

/// A comment on the rest of a line of a line with a keyword and its string
/// leaves what is read as it is,
/// and moves its end on by the length of the comment.
pub proof fn lemma_string_line_commented(s: Seq<char>, p: int, k: int, x: Seq<char>, w: Keyword)
    requires
        0 <= p <= s.len(),
        0 <= k <= s.len(),
        string_line(s, Cursor::new(p), w).1.ok(),
        on_rest_of_line(s, string_field(s, Cursor::new(p), w).1.at, k),
        is_comment(x),
    ensures
        p < k < string_line(s, Cursor::new(p), w).1.at <= s.len(),
        string_line(inserted(s, k, x), Cursor::new(p), w) == (
            string_line(s, Cursor::new(p), w).0,
            shifted(string_line(s, Cursor::new(p), w).1, x.len() as int),
        ),
{
    let t = inserted(s, k, x);
    let (v, c1) = string_field(s, Cursor::new(p), w);
    lemma_string_field_moved(s, t, 0, p, w);
    lemma_before(s, k, x, p, c1.at);
    lemma_line_end_commented(s, c1.at, k, x);
    assert(string_field(t, Cursor::new(p), w) == (v, c1));
}

/// Behind the place where a text is put in, a lone `\r` that ended a line
/// still ends it.
pub proof fn lemma_line_break_behind(s: Seq<char>, k: int, x: Seq<char>, e: int)
    requires
        0 <= k <= e <= s.len(),
        ends_line_break(s, e, s, e),
    ensures
        ends_line_break(s, e, inserted(s, k, x), e + x.len()),
{
    lemma_inserted(s, k, x);
    if e < s.len() {
        assert(s[e] == inserted(s, k, x)[e + x.len()]);
    }
}

/// Before the place where a text is put in, a lone `\r` that ended a line
/// still ends it.
pub proof fn lemma_line_break_before(s: Seq<char>, k: int, x: Seq<char>, e: int)
    requires
        0 <= e < k <= s.len(),
        ends_line_break(s, e, s, e),
    ensures
        ends_line_break(s, e, inserted(s, k, x), e),
{
    lemma_inserted(s, k, x);
    assert(s[e] == inserted(s, k, x)[e + 0]);
}

/// `k` lies on the rest of one of the four lines of the header that starts
/// at `p`.
pub open spec fn header_rest(s: Seq<char>, p: int, k: int) -> bool {
    let c1 = count_line(s, Cursor::new(p), Keyword::Version).1;
    let c2 = string_line(s, c1, Keyword::CommandLine).1;
    let c3 = optional_line_end(s, c2);
    let c4 = count_line(s, c3, Keyword::NumJoints).1;
    ||| on_rest_of_line(s, count_field(s, Cursor::new(p), Keyword::Version).1.at, k)
    ||| on_rest_of_line(s, string_field(s, c1, Keyword::CommandLine).1.at, k)
    ||| on_rest_of_line(s, count_field(s, c3, Keyword::NumJoints).1.at, k)
    ||| on_rest_of_line(s, count_field(s, c4, Keyword::NumMeshes).1.at, k)
}

/// A comment on the rest of a line of the header leaves what is read as it is,
/// and moves its end on by the length of the comment.
#[verifier::rlimit(50)]
pub proof fn lemma_header_commented(s: Seq<char>, p: int, k: int, x: Seq<char>)
    requires
        0 <= p <= s.len(),
        0 <= k <= s.len(),
        header(s, Cursor::new(p)).1.ok(),
        header_rest(s, p, k),
        is_comment(x),
    ensures
        p < k < header(s, Cursor::new(p)).1.at <= s.len(),
        header(inserted(s, k, x), Cursor::new(p)) == (
            header(s, Cursor::new(p)).0,
            shifted(header(s, Cursor::new(p)).1, x.len() as int),
        ),
{
    let t = inserted(s, k, x);
    let d = x.len() as int;
    let e = header(s, Cursor::new(p)).1.at;
    let (version, c1) = count_line(s, Cursor::new(p), Keyword::Version);
    let (command, c2) = string_line(s, c1, Keyword::CommandLine);
    let c3 = optional_line_end(s, c2);
    let (nj, c4) = count_line(s, c3, Keyword::NumJoints);
    let (nm, c5) = count_line(s, c4, Keyword::NumMeshes);
    assert(c4.ok() && c3.ok() && c2.ok() && c1.ok());
    lemma_inserted(s, k, x);
    lemma_count_line_moved(s, t, 0, p, Keyword::Version);
    lemma_string_line_moved(s, t, 0, c1.at, Keyword::CommandLine);
    lemma_string_line_moved(s, t, d, c1.at, Keyword::CommandLine);
    lemma_count_line_moved(s, t, 0, c3.at, Keyword::NumJoints);
    lemma_count_line_moved(s, t, d, c3.at, Keyword::NumJoints);
    lemma_count_line_moved(s, t, d, c4.at, Keyword::NumMeshes);
    lemma_keyword_starts_line(s, c1.at, Keyword::CommandLine);
    lemma_keyword_starts_line(s, c3.at, Keyword::NumJoints);
    lemma_keyword_starts_line(s, c4.at, Keyword::NumMeshes);
    lemma_optional_line_end_bounds(s, c2.at);
    if on_rest_of_line(s, count_field(s, Cursor::new(p), Keyword::Version).1.at, k) {
        lemma_count_line_commented(s, p, k, x, Keyword::Version);
        lemma_behind(s, k, x, c1.at, c2.at);
        lemma_behind(s, k, x, c2.at, e);
        lemma_behind(s, k, x, c3.at, c4.at);
        lemma_behind(s, k, x, c4.at, e);
        lemma_line_break_behind(s, k, x, c2.at);
        lemma_line_break_behind(s, k, x, c4.at);
        lemma_line_break_behind(s, k, x, e);
        lemma_optional_line_end_moved(s, t, d, c2.at, Keyword::NumJoints, e);
        assert(count_line(t, Cursor::new(p), Keyword::Version) == (version, shifted(c1, d)));
        assert(string_line(t, shifted(c1, d), Keyword::CommandLine) == (command, shifted(c2, d)));
        assert(optional_line_end(t, shifted(c2, d)) == shifted(c3, d));
        assert(count_line(t, shifted(c3, d), Keyword::NumJoints) == (nj, shifted(c4, d)));
        assert(count_line(t, shifted(c4, d), Keyword::NumMeshes) == (nm, shifted(c5, d)));
    } else if on_rest_of_line(s, string_field(s, c1, Keyword::CommandLine).1.at, k) {
        lemma_string_line_commented(s, c1.at, k, x, Keyword::CommandLine);
        lemma_before(s, k, x, p, c1.at);
        lemma_line_break_before(s, k, x, c1.at);
        lemma_behind(s, k, x, c2.at, e);
        lemma_behind(s, k, x, c3.at, c4.at);
        lemma_behind(s, k, x, c4.at, e);
        lemma_line_break_behind(s, k, x, c4.at);
        lemma_line_break_behind(s, k, x, e);
        lemma_optional_line_end_moved(s, t, d, c2.at, Keyword::NumJoints, e);
        assert(count_line(t, Cursor::new(p), Keyword::Version) == (version, c1));
        assert(string_line(t, c1, Keyword::CommandLine) == (command, shifted(c2, d)));
        assert(optional_line_end(t, shifted(c2, d)) == shifted(c3, d));
        assert(count_line(t, shifted(c3, d), Keyword::NumJoints) == (nj, shifted(c4, d)));
        assert(count_line(t, shifted(c4, d), Keyword::NumMeshes) == (nm, shifted(c5, d)));
    } else if on_rest_of_line(s, count_field(s, c3, Keyword::NumJoints).1.at, k) {
        lemma_count_line_commented(s, c3.at, k, x, Keyword::NumJoints);
        lemma_before(s, k, x, p, c1.at);
        lemma_before(s, k, x, c1.at, c2.at);
        lemma_before(s, k, x, c2.at, k);
        lemma_line_break_before(s, k, x, c1.at);
        lemma_line_break_before(s, k, x, c2.at);
        lemma_behind(s, k, x, c4.at, e);
        lemma_line_break_behind(s, k, x, e);
        lemma_optional_line_end_moved(s, t, 0, c2.at, Keyword::NumJoints, k);
        assert(count_line(t, Cursor::new(p), Keyword::Version) == (version, c1));
        assert(string_line(t, c1, Keyword::CommandLine) == (command, c2));
        assert(optional_line_end(t, c2) == c3);
        assert(count_line(t, c3, Keyword::NumJoints) == (nj, shifted(c4, d)));
        assert(count_line(t, shifted(c4, d), Keyword::NumMeshes) == (nm, shifted(c5, d)));
    } else {
        lemma_count_line_commented(s, c4.at, k, x, Keyword::NumMeshes);
        lemma_before(s, k, x, p, c1.at);
        lemma_before(s, k, x, c1.at, c2.at);
        lemma_before(s, k, x, c2.at, k);
        lemma_before(s, k, x, c3.at, c4.at);
        lemma_line_break_before(s, k, x, c1.at);
        lemma_line_break_before(s, k, x, c2.at);
        lemma_line_break_before(s, k, x, c4.at);
        lemma_optional_line_end_moved(s, t, 0, c2.at, Keyword::NumJoints, k);
        assert(count_line(t, Cursor::new(p), Keyword::Version) == (version, c1));
        assert(string_line(t, c1, Keyword::CommandLine) == (command, c2));
        assert(optional_line_end(t, c2) == c3);
        assert(count_line(t, c3, Keyword::NumJoints) == (nj, c4));
        assert(count_line(t, c4, Keyword::NumMeshes) == (nm, shifted(c5, d)));
    }
}

/// `k` lies on the rest of a line of the mesh that starts at `p`, or of
/// the line that closes it, if that line has a terminator.
pub open spec fn mesh_block_rest(s: Seq<char>, p: int, k: int) -> bool {
    let c1 = mesh(s, Cursor::new(p)).1;
    mesh_rest(s, p, k) || (line_end(s, c1).ok() && on_rest_of_line(s, c1.at, k))
}

/// A comment on the rest of a line of a mesh and the blank lines behind it
/// leaves what is read as it is,
/// and moves its end on by the length of the comment.
pub proof fn lemma_mesh_block_commented(s: Seq<char>, p: int, k: int, x: Seq<char>)
    requires
        0 <= p <= s.len(),
        0 <= k <= s.len(),
        mesh_block(s, Cursor::new(p)).1.ok(),
        mesh_block_rest(s, p, k),
        solid(s, mesh_block(s, Cursor::new(p)).1.at),
        is_comment(x),
    ensures
        p < k < mesh_block(s, Cursor::new(p)).1.at <= s.len(),
        mesh_block(inserted(s, k, x), Cursor::new(p)) == (
            mesh_block(s, Cursor::new(p)).0,
            shifted(mesh_block(s, Cursor::new(p)).1, x.len() as int),
        ),
{
    reveal(mesh_block);
    let t = inserted(s, k, x);
    let d = x.len() as int;
    let (m, c1) = mesh(s, Cursor::new(p));
    let e = mesh_block(s, Cursor::new(p)).1.at;
    lemma_record_end_sticky(s, c1);
    lemma_inserted(s, k, x);
    lemma_mesh_moved(s, t, 0, p);
    lemma_blank_lines_moved(s, t, d, c1.at);
    if mesh_rest(s, p, k) {
        lemma_mesh_commented(s, p, k, x);
        lemma_behind(s, k, x, c1.at, e);
        lemma_solid_behind(s, k, x, e);
    } else {
        lemma_record_end_commented(s, c1.at, k, x);
        lemma_before(s, k, x, p, c1.at);
        lemma_line_end_commented(s, c1.at, k, x);
        assert(mesh(t, Cursor::new(p)) == (m, c1));
        assert(blank_lines(t, c1) == record_end(t, c1));
    }
}

/// `k` lies on the rest of a line of one of the meshes that start at `p`.
pub open spec fn meshes_rest(s: Seq<char>, p: int, k: int) -> bool
    decreases s.len() - p,
{
    let next = mesh_block(s, Cursor::new(p)).1;
    p < s.len() && (mesh_block_rest(s, p, k) || (next.ok() && p < next.at <= s.len()
        && meshes_rest(s, next.at, k)))
}

/// What follows the meshes read so far is the end of the document or
/// another mesh, and no blank line.
pub proof fn lemma_meshes_start_solid(s: Seq<char>, p: int)
    requires
        0 <= p <= s.len(),
        meshes(s, Cursor::new(p)).1.ok(),
    ensures
        solid(s, p),
        p < s.len() ==> run_end(s, p, Class::Space) == p,
{
    if p < s.len() {
        assert(mesh_block(s, Cursor::new(p)).1.ok());
        lemma_mesh_block_moved(s, s, 0, p);
    } else {
        lemma_run_end(s, p, Class::Space);
    }
}

/// A comment on the rest of a line of the meshes of a document leaves what is
/// read as it is,
/// and moves its end on by the length of the comment.
pub proof fn lemma_meshes_commented(s: Seq<char>, p: int, k: int, x: Seq<char>)
    requires
        0 <= p <= s.len(),
        0 <= k <= s.len(),
        meshes(s, Cursor::new(p)).1.ok(),
        meshes_rest(s, p, k),
        is_comment(x),
    ensures
        p < k < s.len(),
        run_end(s, p, Class::Space) == p,
        meshes(inserted(s, k, x), Cursor::new(p)) == (
            meshes(s, Cursor::new(p)).0,
            shifted(meshes(s, Cursor::new(p)).1, x.len() as int),
        ),
    decreases s.len() - p,
{
    let t = inserted(s, k, x);
    let d = x.len() as int;
    let (first, next) = mesh_block(s, Cursor::new(p));
    assert(next.ok());
    lemma_inserted(s, k, x);
    lemma_mesh_block_moved(s, t, 0, p);
    lemma_meshes_moved(s, t, d, next.at);
    lemma_meshes_start_solid(s, next.at);
    if mesh_block_rest(s, p, k) {
        lemma_mesh_block_commented(s, p, k, x);
        lemma_behind(s, k, x, next.at, s.len() as int);
        assert(mesh_block(t, Cursor::new(p)) == (first, shifted(next, d)));
    } else {
        lemma_meshes_commented(s, next.at, k, x);
        lemma_solid_before(s, k, x, next.at);
        lemma_before(s, k, x, p, next.at);
        assert(mesh_block(t, Cursor::new(p)) == (first, next));
    }
}

/// `k` lies behind the fields of a record of the document `s`, and not
/// behind the terminator of the record's line: on the rest of a line of
/// the header, of the `joints` block, or of a mesh.
pub open spec fn after_record(s: Seq<char>, k: int) -> bool {
    let c1 = blank_lines(s, header(s, Cursor::new(0)).1);
    let c2 = joints(s, c1).1;
    &&& 0 <= k <= s.len()
    &&& header_rest(s, 0, k) || joints_rest(s, c1.at, k) || meshes_rest(s, c2.at, k)
}

/// A comment behind the fields of a record, before the terminator of its
/// line, changes nothing in what the grammar reads: a document that matches
/// the grammar still matches it with the comment put in, and describes the
/// same scene.
#[verifier::rlimit(50)]
pub proof fn lemma_comment_keeps_scene(s: Seq<char>, k: int, x: Seq<char>)
    requires
        document(s).1.ok(),
        after_record(s, k),
        is_comment(x),
    ensures
        document(inserted(s, k, x)).1.ok(),
        document(inserted(s, k, x)).0 == document(s).0,
{
    let t = inserted(s, k, x);
    let d = x.len() as int;
    let (h, c0) = header(s, Cursor::new(0));
    let c1 = blank_lines(s, c0);
    let (js, c2) = joints(s, c1);
    let (ms, c3) = meshes(s, c2);
    assert(c2.ok());
    assert(c1.ok());
    assert(c0.ok()) by {
        lemma_record_end_sticky(s, c0);
    }
    lemma_inserted(s, k, x);
    lemma_header_moved(s, t, 0, 0);
    lemma_blank_lines_moved(s, t, 0, c0.at);
    lemma_blank_lines_moved(s, t, d, c0.at);
    lemma_joints_moved(s, t, 0, c1.at);
    lemma_joints_moved(s, t, d, c1.at);
    lemma_meshes_moved(s, t, d, c2.at);
    lemma_meshes_start_solid(s, c2.at);
    assert(keyword(s, c1, Keyword::Joints).ok()) by {
        lemma_record_end_sticky(s, keyword(s, c1, Keyword::Joints));
        if !keyword(s, c1, Keyword::Joints).ok() {
            assert(joint_records(s, keyword(s, c1, Keyword::Joints)).1 == keyword(
                s,
                c1,
                Keyword::Joints,
            ));
        }
    }
    lemma_keyword_starts_line(s, c1.at, Keyword::Joints);
    if header_rest(s, 0, k) {
        lemma_header_commented(s, 0, k, x);
        lemma_behind(s, k, x, c0.at, c1.at);
        lemma_behind(s, k, x, c1.at, c2.at);
        lemma_behind(s, k, x, c2.at, s.len() as int);
        lemma_solid_behind(s, k, x, c1.at);
        lemma_solid_behind(s, k, x, c2.at);
        assert(header(t, Cursor::new(0)) == (h, shifted(c0, d)));
        assert(blank_lines(t, shifted(c0, d)) == shifted(c1, d));
        assert(joints(t, shifted(c1, d)) == (js, shifted(c2, d)));
        assert(meshes(t, shifted(c2, d)) == (ms, shifted(c3, d)));
    } else if joints_rest(s, c1.at, k) {
        lemma_joints_commented(s, c1.at, k, x);
        lemma_before(s, k, x, 0, c0.at);
        lemma_before(s, k, x, c0.at, c1.at);
        lemma_line_break_before(s, k, x, c0.at);
        lemma_solid_before(s, k, x, c1.at);
        lemma_behind(s, k, x, c2.at, s.len() as int);
        assert(header(t, Cursor::new(0)) == (h, c0));
        assert(blank_lines(t, c0) == c1);
        assert(joints(t, c1) == (js, shifted(c2, d)));
        assert(meshes(t, shifted(c2, d)) == (ms, shifted(c3, d)));
    } else {
        lemma_meshes_commented(s, c2.at, k, x);
        lemma_before(s, k, x, 0, c0.at);
        lemma_before(s, k, x, c0.at, c1.at);
        lemma_before(s, k, x, c1.at, c2.at);
        lemma_line_break_before(s, k, x, c0.at);
        lemma_solid_before(s, k, x, c1.at);
        lemma_solid_before(s, k, x, c2.at);
        assert(header(t, Cursor::new(0)) == (h, c0));
        assert(blank_lines(t, c0) == c1);
        assert(joints(t, c1) == (js, c2));
        assert(meshes(t, c2) == (ms, shifted(c3, d)));
    }
}

/// Comments are tolerated: a document that matches the grammar parses to
/// the same outcome, be it a scene or a broken rule, with a comment put in
/// behind the fields of any of its records, before the line's terminator.
pub proof fn lemma_comment_changes_nothing(
    s: Seq<char>,
    k: int,
    x: Seq<char>,
    plain: Result<SceneView, ParseError>,
    commented: Result<SceneView, ParseError>,
)
    requires
        document(s).1.ok(),
        after_record(s, k),
        is_comment(x),
        parses_to(s, plain),
        parses_to(inserted(s, k, x), commented),
    ensures
        commented == plain,
{
    lemma_comment_keeps_scene(s, k, x);
    assert(parses_to(inserted(s, k, x), plain));
    lemma_one_outcome(inserted(s, k, x), plain, commented);
}

} // verus!
