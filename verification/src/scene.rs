//! The whole document: the header, the skeleton, then meshes until the
//! text ends; and the parser's entry point.
use vstd::prelude::*;
use crate::error::{ParseError, SyntaxError};
use crate::header::{header, parse_header};
use crate::joints::{joints, parse_joints};
use crate::lexical::{blank_lines, lands, position, sees, skip_blank_lines, Cursor};
use crate::mesh::{mesh, parse_mesh};
use crate::model::{
    lemma_append_first, lemma_views_push, views, MD5Mesh, MD5Scene, MeshView, SceneView,
};
use crate::validate::{lemma_consistent_is_clear, lemma_first_violation_is_one, validate};
use crate::writing::{lemma_read_is_writable, writable};

verus! {

/// One mesh and the blank lines after it.
#[verifier::opaque]
pub open spec fn mesh_block(s: Seq<char>, c: Cursor) -> (MeshView, Cursor) {
    let (m, after) = mesh(s, c);
    (m, blank_lines(s, after))
}

/// Zero or more meshes: as long as text is left, it must hold a mesh.
pub open spec fn meshes(s: Seq<char>, c: Cursor) -> (Seq<MeshView>, Cursor)
    decreases s.len() - c.at,
{
    let (first, next) = mesh_block(s, c);
    if !c.ok() || c.at >= s.len() {
        (Seq::empty(), c)
    } else if next.ok() && c.at < next.at <= s.len() {
        let (rest, end) = meshes(s, next);
        (seq![first] + rest, end)
    } else {
        (Seq::empty(), next)
    }
}

/// A document: the header, optional blank lines, the `joints` block, and
/// the meshes.
pub open spec fn document(s: Seq<char>) -> (SceneView, Cursor) {
    let (header, c1) = header(s, Cursor::new(0));
    let (joint_list, c2) = joints(s, blank_lines(s, c1));
    let (mesh_list, c3) = meshes(s, c2);
    (SceneView { header, joint_list, mesh_list }, c3)
}

/// `true` where a line ends with the character at `i`: a `\n`, or a `\r`
/// that no `\n` follows.
pub open spec fn ends_line(s: Seq<char>, i: int) -> bool {
    sees(s, i, '\n') || (sees(s, i, '\r') && !sees(s, i + 1, '\n'))
}

/// How many lines end before `at`.
pub open spec fn lines_before(s: Seq<char>, at: int) -> nat
    decreases at,
{
    if at <= 0 {
        0
    } else if ends_line(s, at - 1) {
        lines_before(s, at - 1) + 1
    } else {
        lines_before(s, at - 1)
    }
}

/// What parsing the text `s` gives: the scene that the grammar reads from
/// it, where it matches the grammar and the scene is consistent; the place
/// and kind of the first mismatch, where it does not match; the first rule
/// that is broken, where it matches and the scene is not consistent.
pub open spec fn parses_to(s: Seq<char>, r: Result<SceneView, ParseError>) -> bool {
    let (scene, end) = document(s);
    match r {
        Ok(parsed) => end.ok() && parsed == scene && scene.consistent(),
        Err(ParseError::Syntax { expected, offset, line }) => {
            &&& end == Cursor::fail(offset as int, expected)
            &&& line == lines_before(s, offset as int)
        },
        Err(ParseError::Validation(v)) => end.ok() && v.first_in(scene),
    }
}

/// A text has one outcome: whatever two parses of the same text return is
/// the same scene, or the same error.
pub proof fn lemma_one_outcome(
    s: Seq<char>,
    first: Result<SceneView, ParseError>,
    second: Result<SceneView, ParseError>,
)
    requires
        parses_to(s, first),
        parses_to(s, second),
    ensures
        first == second,
{
    let scene = document(s).0;
    match (first, second) {
        (Ok(_), Err(ParseError::Validation(v))) => {
            lemma_consistent_is_clear(scene, v);
        },
        (Err(ParseError::Validation(v)), Ok(_)) => {
            lemma_consistent_is_clear(scene, v);
        },
        (Err(ParseError::Validation(v)), Err(ParseError::Validation(w))) => {
            lemma_first_violation_is_one(scene, v, w);
        },
        _ => {},
    }
}

/// A text that matches the grammar and describes a consistent scene parses
/// to that scene, and whatever a parse returns as a scene holds as many
/// joints and as many meshes as its header declares.
pub proof fn lemma_declared_counts_kept(s: Seq<char>, r: Result<SceneView, ParseError>)
    requires
        parses_to(s, r),
    ensures
        document(s).1.ok() && document(s).0.consistent() ==> r == Ok::<SceneView, ParseError>(
            document(s).0,
        ),
        r matches Ok(scene) ==> scene.joint_list.len() == scene.header.num_joints
            && scene.mesh_list.len() == scene.header.num_meshes,
{
    if let Err(ParseError::Validation(v)) = r {
        if document(s).0.consistent() {
            lemma_consistent_is_clear(document(s).0, v);
        }
    }
}

/// A triangle that names a vertex which its mesh does not have is never
/// let through: the parse of a text that matches the grammar and holds such
/// a triangle ends in a validation error.
pub proof fn lemma_stray_vertex_is_rejected(
    s: Seq<char>,
    r: Result<SceneView, ParseError>,
    m: int,
    t: int,
)
    requires
        parses_to(s, r),
        document(s).1.ok(),
        0 <= m < document(s).0.mesh_list.len(),
        0 <= t < document(s).0.mesh_list[m].tris.len(),
        !document(s).0.tri_in_range(m, t),
    ensures
        r is Err,
        r->Err_0 is Validation,
{
}

/// A joint whose parent index is its own position in the list or a later
/// one is never let through: the parse of a text that matches the grammar
/// and holds such a joint ends in a validation error.
pub proof fn lemma_forward_parent_is_rejected(
    s: Seq<char>,
    r: Result<SceneView, ParseError>,
    j: int,
)
    requires
        parses_to(s, r),
        document(s).1.ok(),
        0 <= j < document(s).0.joint_list.len(),
        document(s).0.joint_list[j].parent_ix >= j,
    ensures
        r is Err,
        r->Err_0 is Validation,
{
    if r is Ok {
        assert(document(s).0.parent_in_range(j) && document(s).0.parent_earlier(j));
    }
}

/// The view of an outcome: that of the scene, and the error as it is.
pub open spec fn outcome(r: Result<MD5Scene, ParseError>) -> Result<SceneView, ParseError> {
    match r {
        Ok(scene) => Ok(scene@),
        Err(e) => Err(e),
    }
}

/// The characters of a text, one by one.
pub fn characters(text: &str) -> (chars: Vec<char>)
    ensures
        chars@ == text@,
{
    let mut chars: Vec<char> = Vec::new();
    for c in it: text.chars()
        invariant
            chars@ == it.seq().take(it.index()),
    {
        chars.push(c);
    }
    chars
}

/// Counts the lines that end before `at`.
pub fn count_lines(input: &[char], at: usize) -> (n: usize)
    requires
        at <= input.len(),
    ensures
        n == lines_before(input@, at as int),
        n <= at,
{
    let mut n: usize = 0;
    let mut i: usize = 0;
    while i < at
        invariant
            i <= at <= input.len(),
            n == lines_before(input@, i as int),
            n <= i,
        decreases at - i,
    {
        let c = input[i];
        if c == '\n' || (c == '\r' && !(i + 1 < input.len() && input[i + 1] == '\n')) {
            n += 1;
        }
        i += 1;
    }
    n
}

/// Reads a whole document, without checking what it says.
#[verifier::loop_isolation(false)]
pub fn parse_document(input: &[char]) -> (r: Result<MD5Scene, SyntaxError>)
    ensures
        match r {
            Ok(scene) => document(input@).1.ok() && scene@ == document(input@).0,
            Err(e) => lands(input@, Err(e), document(input@).1),
        },
{
    let (header, after_header) = parse_header(input, 0)?;
    let (joint_list, after_joints) = parse_joints(input, skip_blank_lines(input, after_header))?;
    let mut mesh_list: Vec<MD5Mesh> = Vec::new();
    let mut at: usize = after_joints;
    assert(views(mesh_list@) + meshes(input@, Cursor::new(at as int)).0 =~= meshes(
        input@,
        Cursor::new(at as int),
    ).0);
    while at < input.len()
        invariant
            after_joints <= at <= input.len(),
            meshes(input@, Cursor::new(after_joints as int)).0 == views(mesh_list@) + meshes(
                input@,
                Cursor::new(at as int),
            ).0,
            meshes(input@, Cursor::new(after_joints as int)).1 == meshes(
                input@,
                Cursor::new(at as int),
            ).1,
        decreases input.len() - at,
    {
        proof {
            reveal(mesh_block);
        }
        match parse_mesh(input, at) {
            Ok((m, after)) => {
                let next = skip_blank_lines(input, after);
                proof {
                    lemma_views_push(mesh_list@, m);
                    lemma_append_first(
                        views(mesh_list@),
                        m@,
                        meshes(input@, Cursor::new(next as int)).0,
                    );
                }
                mesh_list.push(m);
                at = next;
            },
            Err(e) => {
                return Err(e);
            },
        }
    }
    assert(views(mesh_list@) + Seq::<MeshView>::empty() =~= views(mesh_list@));
    Ok(MD5Scene::new(header, joint_list, mesh_list))
}

/// Parses the text of one document into a scene.
///
/// The result is `Ok` exactly if the text matches the grammar and the scene
/// that it describes is consistent. No partial scene is ever returned. A
/// mismatch is reported where it stands in the text; a scene that is
/// returned can be written out again.
pub fn parse(text: String) -> (r: Result<MD5Scene, ParseError>)
    ensures
        parses_to(text@, outcome(r)),
        r matches Ok(scene) ==> writable(scene@),
        r matches Err(ParseError::Syntax { offset, line, .. }) ==> line <= offset <= text@.len(),
{
    let chars = characters(text.as_str());
    match parse_document(chars.as_slice()) {
        Ok(scene) => match validate(&scene) {
            Ok(()) => {
                proof {
                    lemma_read_is_writable(text@);
                }
                Ok(scene)
            },
            Err(v) => Err(ParseError::Validation(v)),
        },
        Err(e) => Err(
            ParseError::Syntax {
                expected: e.expected,
                offset: e.offset,
                line: count_lines(chars.as_slice(), e.offset),
            },
        ),
    }
}

} // verus!
