//! The head of a document: four labelled fields in a fixed order.
use vstd::prelude::*;
use crate::error::{Keyword, SyntaxError};
use crate::lexical::{
    count_field, lands, line_end, position, read_count_field, read_string_field,
    skip_optional_trailing_comment_and_newline, string_field, Cursor,
};
use crate::model::{HeaderView, MD5MeshHeader};

verus! {

/// The end of a line where one stands here; else nothing.
pub open spec fn optional_line_end(s: Seq<char>, c: Cursor) -> Cursor {
    if line_end(s, c).ok() {
        line_end(s, c)
    } else {
        c
    }
}

/// A line that holds a keyword and a count, and nothing else but an
/// optional comment.
pub open spec fn count_line(s: Seq<char>, c: Cursor, k: Keyword) -> (int, Cursor) {
    let (value, c1) = count_field(s, c, k);
    (value, line_end(s, c1))
}

/// A line that holds a keyword and a quoted string, and nothing else but
/// an optional comment.
pub open spec fn string_line(s: Seq<char>, c: Cursor, k: Keyword) -> (Seq<char>, Cursor) {
    let (value, c1) = string_field(s, c, k);
    (value, line_end(s, c1))
}

/// `MD5Version`, `commandline`, `numJoints` and `numMeshes`, each on a line
/// of its own, in this order. One blank or comment-only line may follow the
/// `commandline` line, and no other.
pub open spec fn header(s: Seq<char>, c: Cursor) -> (HeaderView, Cursor) {
    let (md5_version, c1) = count_line(s, c, Keyword::Version);
    let (command_line, c2) = string_line(s, c1, Keyword::CommandLine);
    let (num_joints, c3) = count_line(s, optional_line_end(s, c2), Keyword::NumJoints);
    let (num_meshes, c4) = count_line(s, c3, Keyword::NumMeshes);
    (HeaderView { md5_version, command_line, num_joints, num_meshes }, c4)
}

/// Reads the head of a document.
pub fn parse_header(input: &[char], pos: usize) -> (r: Result<(MD5MeshHeader, usize), SyntaxError>)
    requires
        pos <= input.len(),
    ensures
        lands(input@, position(r), header(input@, Cursor::new(pos as int)).1),
        r matches Ok((h, next)) ==> h@ == header(input@, Cursor::new(pos as int)).0 && pos < next
            <= input.len(),
{
    let (md5_version, after_version) = read_count_field(input, pos, Keyword::Version)?;
    let line2 = skip_optional_trailing_comment_and_newline(input, after_version)?;
    let (command_line, after_command) = read_string_field(input, line2, Keyword::CommandLine)?;
    let line3 = skip_optional_trailing_comment_and_newline(input, after_command)?;
    let line3 = match skip_optional_trailing_comment_and_newline(input, line3) {
        Ok(next) => next,
        Err(_) => line3,
    };
    let (num_joints, after_joints) = read_count_field(input, line3, Keyword::NumJoints)?;
    let line4 = skip_optional_trailing_comment_and_newline(input, after_joints)?;
    let (num_meshes, after_meshes) = read_count_field(input, line4, Keyword::NumMeshes)?;
    let end = skip_optional_trailing_comment_and_newline(input, after_meshes)?;
    Ok((MD5MeshHeader { md5_version, command_line, num_joints, num_meshes }, end))
}

} // verus!
