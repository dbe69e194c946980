//! A parser for the MD5 mesh text format: a skeleton of named, parented
//! joints in bind pose and the sub-meshes skinned to it.
//!
//! [`parse`] turns the text of one document into an [`MD5Scene`], or says
//! why it cannot: the text does not match the grammar, or it matches and
//! contradicts itself.
//!
//! The grammar is written down twice. Each module first gives its part of
//! it as functions on the document's characters that only proofs can call,
//! then the executable parser, whose contract says that it returns what
//! those functions return.
//!
//! - [`model`]: the scene and the mathematical view of each of its parts.
//! - [`error`]: what a parse can fail with.
//! - [`lexical`], [`geometry`]: spaces, line ends, comments, keywords,
//!   strings, numbers and vectors.
//! - [`header`], [`joints`], [`mesh`]: the three parts of a document.
//! - [`scene`]: the whole document, and [`parse`].
//! - [`validate`]: the rules that tie the parts of a scene together.
//!
//! Three modules hold no executable code, only what is proved of the
//! grammar:
//!
//! - [`locality`]: a parser's result depends on nothing but the text that
//!   it reads.
//! - [`comments`]: a comment behind a record changes nothing.
//! - [`writing`]: a scene written out as text is read back as it was.
//!
//! Numbers with a fraction are kept as the document writes them, sign and
//! digits: the library holds no floating-point value.
pub mod comments;
pub mod error;
pub mod geometry;
pub mod header;
pub mod joints;
pub mod lexical;
pub mod locality;
pub mod mesh;
pub mod model;
pub mod scene;
pub mod validate;
pub mod writing;

pub use crate::error::{Expected, Keyword, ParseError, SyntaxError, Violation};
pub use crate::model::{Decimal, Joint, MD5Mesh, MD5MeshHeader, MD5Scene, Tri, Vert, Weight};
pub use crate::scene::parse;
pub use crate::validate::validate;
