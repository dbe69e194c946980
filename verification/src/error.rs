//! What a parse can fail with: a mismatch against the grammar, or a document
//! that reads well and contradicts itself.
use vstd::prelude::*;

verus! {

/// The fixed words and punctuation of the format.
#[derive(Clone, Copy, Debug, PartialEq, Eq, Structural)]
pub enum Keyword {
    Version,
    CommandLine,
    NumJoints,
    NumMeshes,
    Joints,
    Mesh,
    Close,
    Shader,
    NumVerts,
    Vert,
    NumTris,
    Tri,
    NumWeights,
    Weight,
    OpenParen,
    CloseParen,
}

impl Keyword {
    /// The characters that spell the keyword in a document.
    pub open spec fn text(self) -> Seq<char> {
        match self {
            Keyword::Version => "MD5Version"@,
            Keyword::CommandLine => "commandline"@,
            Keyword::NumJoints => "numJoints"@,
            Keyword::NumMeshes => "numMeshes"@,
            Keyword::Joints => "joints {"@,
            Keyword::Mesh => "mesh {"@,
            Keyword::Close => "}"@,
            Keyword::Shader => "shader"@,
            Keyword::NumVerts => "numverts"@,
            Keyword::Vert => "vert"@,
            Keyword::NumTris => "numtris"@,
            Keyword::Tri => "tri"@,
            Keyword::NumWeights => "numweights"@,
            Keyword::Weight => "weight"@,
            Keyword::OpenParen => "("@,
            Keyword::CloseParen => ")"@,
        }
    }

    /// The keyword as it is spelled.
    pub fn as_str(self) -> (r: &'static str)
        ensures
            r@ == self.text(),
    {
        match self {
            Keyword::Version => "MD5Version",
            Keyword::CommandLine => "commandline",
            Keyword::NumJoints => "numJoints",
            Keyword::NumMeshes => "numMeshes",
            Keyword::Joints => "joints {",
            Keyword::Mesh => "mesh {",
            Keyword::Close => "}",
            Keyword::Shader => "shader",
            Keyword::NumVerts => "numverts",
            Keyword::Vert => "vert",
            Keyword::NumTris => "numtris",
            Keyword::Tri => "tri",
            Keyword::NumWeights => "numweights",
            Keyword::Weight => "weight",
            Keyword::OpenParen => "(",
            Keyword::CloseParen => ")",
        }
    }
}

/// The construct that the parser was looking for where matching stopped.
#[derive(Clone, Copy, Debug, PartialEq, Eq, Structural)]
pub enum Expected {
    /// One of the format's fixed words.
    Keyword(Keyword),
    /// At least one space or tab between two fields.
    Space,
    /// A line terminator, after optional spaces and an optional comment.
    LineEnd,
    /// A decimal digit that starts an integer.
    Digit,
    /// An integer small enough for its field: the digits were there, the
    /// value is too large.
    InRange,
    /// A number with an optional fraction and exponent.
    Number,
    /// The `"` that opens a string.
    Quote,
    /// The `"` that closes a string, before the end of the document.
    ClosingQuote,
}

/// A mismatch between document and grammar.
#[derive(Clone, Copy, Debug, PartialEq, Eq, Structural)]
pub struct SyntaxError {
    pub expected: Expected,
    /// How many characters of the document precede the mismatch.
    pub offset: usize,
}


/// A cross-reference that a well-read document breaks: which rule, and the
/// entity that breaks it.
#[derive(Clone, Copy, Debug, PartialEq, Eq, Structural)]
pub enum Violation {
    /// The header declares `declared` joints; the document holds `found`.
    JointCount { declared: u32, found: usize },
    /// The header declares `declared` meshes; the document holds `found`.
    MeshCount { declared: u32, found: usize },
    /// The parent index of joint `joint` is below `-1`, or not below the
    /// number of joints.
    ParentOutOfRange { joint: usize },
    /// The parent of joint `joint` is the joint itself or a later one.
    ParentNotEarlier { joint: usize },
    /// Triangle `tri` of mesh `mesh` names a vertex that the mesh does not
    /// have.
    VertexOutOfRange { mesh: usize, tri: usize },
    /// The weights of vertex `vert` of mesh `mesh` reach beyond the mesh's
    /// weight list.
    WeightsOutOfRange { mesh: usize, vert: usize },
    /// Weight `weight` of mesh `mesh` names a joint that the skeleton does
    /// not have.
    JointOutOfRange { mesh: usize, weight: usize },
}

/// Why a document was not turned into a scene.
#[derive(Clone, Copy, Debug, PartialEq, Eq, Structural)]
pub enum ParseError {
    /// The document does not match the grammar at `offset`.
    Syntax {
        /// What the grammar asks for at `offset`.
        expected: Expected,
        /// How many characters of the document precede the mismatch.
        offset: usize,
        /// How many line terminators precede the mismatch: 0 on the first
        /// line.
        line: usize,
    },
    /// The document matches the grammar and breaks a cross-reference.
    Validation(Violation),
}

} // verus!
