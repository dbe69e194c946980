//! The `joints { .. }` block: the skeleton, one joint on each line.
use vstd::prelude::*;
use crate::error::{Keyword, SyntaxError};
use crate::geometry::{triple, vector3};
use crate::lexical::{
    expect_keyword, expect_record_end, expect_separator, keyword, lands, peek, position, quoted,
    quoted_string, record_end, sees, separator, signed, signed_integer, skip_space, spaces, Cursor,
};
use crate::model::{lemma_append_first, lemma_views_push, views, Joint, JointView};

verus! {

/// The fields of one joint: a quoted name, the parent's index, the
/// position and the orientation.
#[verifier::opaque]
pub open spec fn joint_fields(s: Seq<char>, c: Cursor) -> (JointView, Cursor) {
    let (name, c1) = quoted(s, spaces(s, c));
    let (parent_ix, c2) = signed(s, separator(s, c1));
    let (position, c3) = triple(s, separator(s, c2));
    let (orientation, c4) = triple(s, separator(s, c3));
    (JointView { name, parent_ix, position, orientation }, c4)
}

/// One joint: its fields, then the end of the record.
pub open spec fn joint_record(s: Seq<char>, c: Cursor) -> (JointView, Cursor) {
    let (joint, c1) = joint_fields(s, c);
    (joint, record_end(s, c1))
}

/// Zero or more joints: as long as a line starts, after optional spaces,
/// with a `"`, it must hold a joint.
pub open spec fn joint_records(s: Seq<char>, c: Cursor) -> (Seq<JointView>, Cursor)
    decreases s.len() - c.at,
{
    let (joint, next) = joint_record(s, c);
    if !c.ok() || !sees(s, spaces(s, c).at, '"') {
        (Seq::empty(), c)
    } else if next.ok() && c.at < next.at <= s.len() {
        let (rest, end) = joint_records(s, next);
        (seq![joint] + rest, end)
    } else {
        (Seq::empty(), next)
    }
}

/// `joints {`, the joints, and `}` on a line of its own.
pub open spec fn joints(s: Seq<char>, c: Cursor) -> (Seq<JointView>, Cursor) {
    let (list, c1) = joint_records(s, record_end(s, keyword(s, c, Keyword::Joints)));
    (list, record_end(s, keyword(s, spaces(s, c1), Keyword::Close)))
}

/// Reads one joint.
pub fn parse_joint(input: &[char], pos: usize) -> (r: Result<(Joint, usize), SyntaxError>)
    requires
        pos <= input.len(),
    ensures
        lands(input@, position(r), joint_record(input@, Cursor::new(pos as int)).1),
        r matches Ok((joint, next)) ==> joint@ == joint_record(input@, Cursor::new(pos as int)).0
            && pos < next <= input.len(),
{
    reveal(joint_fields);
    let (name, after_name) = quoted_string(input, skip_space(input, pos))?;
    let (parent, after_parent) = signed_integer(input, expect_separator(input, after_name)?)?;
    let (position, after_position) = vector3(input, expect_separator(input, after_parent)?)?;
    let (orientation, after_orientation) = vector3(
        input,
        expect_separator(input, after_position)?,
    )?;
    let end = expect_record_end(input, after_orientation)?;
    Ok((Joint { name, parent_ix: parent as isize, position, orientation }, end))
}

/// Reads the `joints { .. }` block.
#[verifier::loop_isolation(false)]
pub fn parse_joints(input: &[char], pos: usize) -> (r: Result<(Vec<Joint>, usize), SyntaxError>)
    requires
        pos <= input.len(),
    ensures
        lands(input@, position(r), joints(input@, Cursor::new(pos as int)).1),
        r matches Ok((list, next)) ==> views(list@) == joints(input@, Cursor::new(pos as int)).0
            && pos < next <= input.len(),
{
    let open = expect_keyword(input, pos, Keyword::Joints)?;
    let first = expect_record_end(input, open)?;
    let mut list: Vec<Joint> = Vec::new();
    let mut at: usize = first;
    assert(views(list@) + joint_records(input@, Cursor::new(at as int)).0 =~= joint_records(
        input@,
        Cursor::new(at as int),
    ).0);
    loop
        invariant
            first <= at <= input.len(),
            joint_records(input@, Cursor::new(first as int)).0 == views(list@) + joint_records(
                input@,
                Cursor::new(at as int),
            ).0,
            joint_records(input@, Cursor::new(first as int)).1 == joint_records(
                input@,
                Cursor::new(at as int),
            ).1,
        decreases input.len() - at,
    {
        let indent = skip_space(input, at);
        if !peek(input, indent, '"') {
            break ;
        }
        match parse_joint(input, at) {
            Ok((joint, next)) => {
                proof {
                    lemma_views_push(list@, joint);
                    lemma_append_first(
                        views(list@),
                        joint@,
                        joint_records(input@, Cursor::new(next as int)).0,
                    );
                }
                list.push(joint);
                at = next;
            },
            Err(e) => {
                return Err(e);
            },
        }
    }
    let close = expect_keyword(input, skip_space(input, at), Keyword::Close)?;
    let end = expect_record_end(input, close)?;
    assert(views(list@) + Seq::<JointView>::empty() =~= views(list@));
    Ok((list, end))
}

} // verus!
