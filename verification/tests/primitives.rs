use md5mesh::header::parse_header;
use md5mesh::joints::{parse_joint, parse_joints};
use md5mesh::lexical::{read_count_field, read_string_field};
use md5mesh::mesh::{parse_list, parse_mesh, Record};
use md5mesh::scene::parse_document;
use md5mesh::validate::{check_joints, check_mesh};
use md5mesh::geometry::{vector2, vector3};
use md5mesh::lexical::{
    collect, expect_keyword, expect_record_end, expect_separator, number_extent, quoted_string,
    scan, signed_float, signed_integer, skip_blank_lines, skip_optional_trailing_comment_and_newline,
    skip_space, unsigned_integer, Class,
};
use md5mesh::scene::{characters, count_lines};
use md5mesh::{validate, Expected, Keyword, SyntaxError, Violation};
use md5mesh::{Decimal, Joint, MD5Mesh, MD5MeshHeader, MD5Scene, Tri, Vert, Weight};

fn chars(text: &str) -> Vec<char> {
    text.chars().collect()
}

fn fail<T>(expected: Expected, offset: usize) -> Result<T, SyntaxError> {
    Err(SyntaxError { expected, offset })
}

#[test]
fn characters_are_those_of_the_text() {
    assert_eq!(characters("a\u{e9}\u{1f9b4}\n"), vec!['a', '\u{e9}', '\u{1f9b4}', '\n']);
    assert_eq!(characters(""), Vec::<char>::new());
}

#[test]
fn collect_copies_a_range() {
    let input = chars("joints {");
    assert_eq!(collect(&input, 0, 6), "joints");
    assert_eq!(collect(&input, 7, 8), "{");
    assert_eq!(collect(&input, 3, 3), "");
}

#[test]
fn runs_end_at_the_first_character_outside_the_class() {
    let input = chars("  \t12ab\"c\r\n");
    assert_eq!(scan(&input, 0, Class::Space), 3);
    assert_eq!(scan(&input, 3, Class::Space), 3);
    assert_eq!(scan(&input, 3, Class::Digit), 5);
    assert_eq!(scan(&input, 0, Class::Quoted), 7);
    assert_eq!(scan(&input, 0, Class::Comment), 9);
    assert_eq!(scan(&input, 10, Class::Comment), 10);
    assert_eq!(scan(&input, 11, Class::Digit), 11);
    assert_eq!(skip_space(&input, 1), 3);
}

#[test]
fn separators_are_mandatory() {
    let input = chars("a \t b");
    assert_eq!(expect_separator(&input, 1), Ok(4));
    assert_eq!(expect_separator(&input, 0), fail(Expected::Space, 0));
    assert_eq!(expect_separator(&input, 5), fail(Expected::Space, 5));
}

#[test]
fn keywords_match_letter_for_letter() {
    let input = chars("numverts numVerts mesh { mesh  { vert");
    assert_eq!(expect_keyword(&input, 0, Keyword::NumVerts), Ok(8));
    assert_eq!(expect_keyword(&input, 9, Keyword::NumVerts), fail(Expected::Keyword(Keyword::NumVerts), 9));
    assert_eq!(expect_keyword(&input, 18, Keyword::Mesh), Ok(24));
    assert_eq!(expect_keyword(&input, 25, Keyword::Mesh), fail(Expected::Keyword(Keyword::Mesh), 25));
    assert_eq!(expect_keyword(&input, 33, Keyword::Vert), Ok(37));
    assert_eq!(expect_keyword(&input, 34, Keyword::Vert), fail(Expected::Keyword(Keyword::Vert), 34));
    assert_eq!(expect_keyword(&input, 3, Keyword::Vert), Ok(7));
    for k in [
        Keyword::Version,
        Keyword::CommandLine,
        Keyword::NumJoints,
        Keyword::NumMeshes,
        Keyword::Joints,
        Keyword::Mesh,
        Keyword::Close,
        Keyword::Shader,
        Keyword::NumVerts,
        Keyword::Vert,
        Keyword::NumTris,
        Keyword::Tri,
        Keyword::NumWeights,
        Keyword::Weight,
        Keyword::OpenParen,
        Keyword::CloseParen,
    ] {
        let word = chars(k.as_str());
        assert_eq!(expect_keyword(&word, 0, k), Ok(word.len()));
    }
}

#[test]
fn line_ends() {
    let input = chars("a \t// note\r\nb\n\rc\r");
    assert_eq!(skip_optional_trailing_comment_and_newline(&input, 1), Ok(12));
    assert_eq!(skip_optional_trailing_comment_and_newline(&input, 3), Ok(12));
    assert_eq!(skip_optional_trailing_comment_and_newline(&input, 6), fail(Expected::LineEnd, 6));
    assert_eq!(skip_optional_trailing_comment_and_newline(&input, 10), Ok(12));
    assert_eq!(skip_optional_trailing_comment_and_newline(&input, 11), Ok(12));
    assert_eq!(skip_optional_trailing_comment_and_newline(&input, 13), Ok(14));
    assert_eq!(skip_optional_trailing_comment_and_newline(&input, 14), Ok(15));
    assert_eq!(skip_optional_trailing_comment_and_newline(&input, 16), Ok(17));
    assert_eq!(skip_optional_trailing_comment_and_newline(&input, 0), fail(Expected::LineEnd, 0));
    assert_eq!(skip_optional_trailing_comment_and_newline(&input, 17), fail(Expected::LineEnd, 17));
    let slash = chars("a / b\n");
    assert_eq!(skip_optional_trailing_comment_and_newline(&slash, 1), fail(Expected::LineEnd, 2));
    let open = chars("a // b");
    assert_eq!(skip_optional_trailing_comment_and_newline(&open, 1), fail(Expected::LineEnd, 6));
}

#[test]
fn blank_lines_are_skipped_and_others_left_whole() {
    let input = chars("1\n\n  \n// c\n\t// d\r\n  vert\n");
    assert_eq!(skip_blank_lines(&input, 2), 18);
    assert_eq!(skip_blank_lines(&input, 18), 18);
    assert_eq!(skip_blank_lines(&input, 0), 0);
    assert_eq!(expect_record_end(&input, 1), Ok(18));
    assert_eq!(expect_record_end(&input, 0), fail(Expected::LineEnd, 0));
    assert_eq!(expect_record_end(&input, 24), Ok(25));
    assert_eq!(skip_blank_lines(&input, 25), 25);
}

#[test]
fn quoted_strings() {
    let input = chars("\"a b\" \"\" \"open");
    assert_eq!(quoted_string(&input, 0), Ok(("a b".to_string(), 5)));
    assert_eq!(quoted_string(&input, 6), Ok((String::new(), 8)));
    assert_eq!(quoted_string(&input, 5), fail(Expected::Quote, 5));
    assert_eq!(quoted_string(&input, 9), fail(Expected::ClosingQuote, 14));
    assert_eq!(quoted_string(&input, 14), fail(Expected::Quote, 14));
}

#[test]
fn unsigned_integers() {
    let input = chars("0 007 255 256 x");
    assert_eq!(unsigned_integer(&input, 0, 255), Ok((0, 1)));
    assert_eq!(unsigned_integer(&input, 2, 255), Ok((7, 5)));
    assert_eq!(unsigned_integer(&input, 6, 255), Ok((255, 9)));
    assert_eq!(unsigned_integer(&input, 10, 255), fail(Expected::InRange, 10));
    assert_eq!(unsigned_integer(&input, 10, 256), Ok((256, 13)));
    assert_eq!(unsigned_integer(&input, 11, 255), Ok((56, 13)));
    assert_eq!(unsigned_integer(&input, 14, 255), fail(Expected::Digit, 14));
    assert_eq!(unsigned_integer(&input, 15, 255), fail(Expected::Digit, 15));
    assert_eq!(unsigned_integer(&input, 0, 0), Ok((0, 1)));
    assert_eq!(unsigned_integer(&input, 2, 6), fail(Expected::InRange, 2));
}

#[test]
fn signed_integers() {
    let input = chars("-12 34 - 5 -0");
    assert_eq!(signed_integer(&input, 0), Ok((-12, 3)));
    assert_eq!(signed_integer(&input, 1), Ok((12, 3)));
    assert_eq!(signed_integer(&input, 4), Ok((34, 6)));
    assert_eq!(signed_integer(&input, 7), fail(Expected::Digit, 8));
    assert_eq!(signed_integer(&input, 11), Ok((0, 13)));
    let most = chars("2147483647 -2147483647");
    assert_eq!(signed_integer(&most, 0), Ok((i32::MAX, 10)));
    assert_eq!(signed_integer(&most, 11), Ok((-i32::MAX, 22)));
}

#[test]
fn where_numbers_end() {
    for (text, end) in [
        ("0", Some(1)),
        ("12.", Some(3)),
        ("12.5", Some(4)),
        (".5", Some(2)),
        ("1e5", Some(3)),
        ("1E+05x", Some(5)),
        ("1.e-7", Some(5)),
        ("1.5e", Some(3)),
        ("1.5e+", Some(3)),
        ("1.5ex", Some(3)),
        ("1..5", Some(2)),
        ("1-2", Some(1)),
        (".", None),
        (".e5", None),
        ("e5", None),
        ("-1", None),
        ("+1", None),
        ("", None),
        ("nan", None),
        ("inf", None),
    ] {
        assert_eq!(number_extent(&chars(text), 0), end, "{:?}", text);
    }
}

#[test]
fn signed_floats() {
    let input = chars("-1.5 2 -x");
    assert_eq!(
        signed_float(&input, 0),
        Ok((Decimal { negative: true, literal: "1.5".to_string() }, 4))
    );
    assert_eq!(
        signed_float(&input, 5),
        Ok((Decimal { negative: false, literal: "2".to_string() }, 6))
    );
    assert_eq!(signed_float(&input, 7), fail(Expected::Number, 8));
    assert_eq!(signed_float(&input, 4), fail(Expected::Number, 4));
}

#[test]
fn vectors() {
    let input = chars("( 1 -2 ) (1 2 3)");
    let (uv, next) = vector2(&input, 0).unwrap();
    assert_eq!(next, 8);
    assert_eq!(uv[0], Decimal { negative: false, literal: "1".to_string() });
    assert_eq!(uv[1], Decimal { negative: true, literal: "2".to_string() });
    let (p, next) = vector3(&input, 9).unwrap();
    assert_eq!(next, 16);
    assert_eq!(p[2], Decimal { negative: false, literal: "3".to_string() });
    assert_eq!(vector3(&input, 0), fail(Expected::Number, 7));
    assert_eq!(vector3(&chars("( 1 2)"), 0), fail(Expected::Space, 5));
    assert_eq!(vector2(&input, 9), fail(Expected::Keyword(Keyword::CloseParen), 14));
    assert_eq!(vector2(&input, 8), fail(Expected::Keyword(Keyword::OpenParen), 8));
}

#[test]
fn counting_lines() {
    let input = chars("a\nb\r\nc\rd\n\n");
    let counts: Vec<usize> = (0..=input.len()).map(|at| count_lines(&input, at)).collect();
    assert_eq!(counts, vec![0, 0, 1, 1, 1, 2, 2, 3, 3, 4, 5]);
}

fn zero() -> Decimal {
    Decimal { negative: false, literal: "0".to_string() }
}

fn joint(parent_ix: isize) -> Joint {
    Joint {
        name: "j".to_string(),
        parent_ix,
        position: [zero(), zero(), zero()],
        orientation: [zero(), zero(), zero()],
    }
}

fn scene(joints: Vec<isize>, meshes: Vec<MD5Mesh>) -> MD5Scene {
    MD5Scene::new(
        MD5MeshHeader {
            md5_version: 10,
            command_line: String::new(),
            num_joints: joints.len() as u32,
            num_meshes: meshes.len() as u32,
        },
        joints.into_iter().map(joint).collect(),
        meshes,
    )
}

fn mesh(verts: Vec<(usize, usize)>, tris: Vec<[usize; 3]>, weights: Vec<usize>) -> MD5Mesh {
    MD5Mesh {
        shader: String::new(),
        verts: verts
            .into_iter()
            .enumerate()
            .map(|(index, (start, count))| Vert {
                index,
                uv: [zero(), zero()],
                weight_ix_start: start,
                weight_ix_count: count,
            })
            .collect(),
        tris: tris
            .into_iter()
            .enumerate()
            .map(|(index, v)| Tri {
                index,
                vert_index_1: v[0],
                vert_index_2: v[1],
                vert_index_3: v[2],
            })
            .collect(),
        weights: weights
            .into_iter()
            .enumerate()
            .map(|(index, joint)| Weight { index, joint, bias: zero(), pos: [zero(), zero(), zero()] })
            .collect(),
    }
}

#[test]
fn new_keeps_its_parts() {
    let s = scene(vec![-1, 0], vec![mesh(vec![], vec![], vec![])]);
    assert_eq!(s.header.num_joints, 2);
    assert_eq!(s.joint_list.len(), 2);
    assert_eq!(s.joint_list[1].parent_ix, 0);
    assert_eq!(s.mesh_list.len(), 1);
}

#[test]
fn validate_accepts_a_forest() {
    assert_eq!(validate(&scene(vec![], vec![])), Ok(()));
    assert_eq!(validate(&scene(vec![-1, 0, 0, 2, -1, 4], vec![])), Ok(()));
    let m = mesh(vec![(0, 2), (2, 0), (1, 1)], vec![[0, 1, 2], [2, 2, 2]], vec![0, 1]);
    assert_eq!(validate(&scene(vec![-1, 0], vec![m])), Ok(()));
}

#[test]
fn validate_reports_the_first_broken_rule() {
    let mut s = scene(vec![-1], vec![]);
    s.header.num_joints = 0;
    s.header.num_meshes = 5;
    assert_eq!(validate(&s), Err(Violation::JointCount { declared: 0, found: 1 }));
    s.header.num_joints = 1;
    assert_eq!(validate(&s), Err(Violation::MeshCount { declared: 5, found: 0 }));

    assert_eq!(
        validate(&scene(vec![-1, 0, 5, 3], vec![])),
        Err(Violation::ParentOutOfRange { joint: 2 })
    );
    assert_eq!(
        validate(&scene(vec![-1, 0, 3, 3], vec![])),
        Err(Violation::ParentNotEarlier { joint: 2 })
    );
    assert_eq!(
        validate(&scene(vec![-1, isize::MIN], vec![])),
        Err(Violation::ParentOutOfRange { joint: 1 })
    );
    assert_eq!(
        validate(&scene(vec![-1, isize::MAX], vec![])),
        Err(Violation::ParentOutOfRange { joint: 1 })
    );

    let good = || mesh(vec![(0, 1)], vec![[0, 0, 0]], vec![0]);
    let bad_tri = mesh(vec![(0, 2)], vec![[0, 0, 0], [0, 1, 0]], vec![9]);
    assert_eq!(
        validate(&scene(vec![-1], vec![good(), bad_tri])),
        Err(Violation::VertexOutOfRange { mesh: 1, tri: 1 })
    );
    let bad_vert = mesh(vec![(0, 1), (1, 1)], vec![[0, 1, 0]], vec![9]);
    assert_eq!(
        validate(&scene(vec![-1], vec![good(), bad_vert])),
        Err(Violation::WeightsOutOfRange { mesh: 1, vert: 1 })
    );
    let overflowing = mesh(vec![(usize::MAX, usize::MAX)], vec![], vec![0]);
    assert_eq!(
        validate(&scene(vec![-1], vec![overflowing])),
        Err(Violation::WeightsOutOfRange { mesh: 0, vert: 0 })
    );
    let bad_weight = mesh(vec![(0, 2)], vec![[0, 0, 0]], vec![0, 1]);
    assert_eq!(
        validate(&scene(vec![-1], vec![good(), bad_weight, bad_tri_again()])),
        Err(Violation::JointOutOfRange { mesh: 1, weight: 1 })
    );
}

fn bad_tri_again() -> MD5Mesh {
    mesh(vec![], vec![[0, 0, 0]], vec![])
}

#[test]
fn labelled_fields() {
    let input = chars("numverts 12 shader \"a b\" numverts\t\t7x numverts");
    assert_eq!(read_count_field(&input, 0, Keyword::NumVerts), Ok((12, 11)));
    assert_eq!(read_string_field(&input, 12, Keyword::Shader), Ok(("a b".to_string(), 24)));
    assert_eq!(read_count_field(&input, 25, Keyword::NumVerts), Ok((7, 36)));
    assert_eq!(read_count_field(&input, 12, Keyword::NumVerts), fail(Expected::Keyword(Keyword::NumVerts), 12));
    assert_eq!(read_count_field(&input, 38, Keyword::NumVerts), fail(Expected::Space, 46));
    assert_eq!(read_string_field(&input, 0, Keyword::NumVerts), fail(Expected::Quote, 9));
}

#[test]
fn headers() {
    let input = chars("MD5Version 10 // ten\ncommandline \"x\"\n\nnumJoints 3\nnumMeshes 4\njoints {");
    let (header, next) = parse_header(&input, 0).unwrap();
    assert_eq!(
        header,
        MD5MeshHeader {
            md5_version: 10,
            command_line: "x".to_string(),
            num_joints: 3,
            num_meshes: 4
        }
    );
    assert_eq!(next, input.len() - 8);
    assert_eq!(parse_header(&input, 1), fail(Expected::Keyword(Keyword::Version), 1));
}

#[test]
fn joint_blocks() {
    let input = chars("joints {\n \"a\" -1 ( 0 0 0 ) ( 0 0 0 )\n\"b\" 0 (1 1 1) (2 2 2) // a\n\n  }\nrest");
    let (joints, next) = parse_joints(&input, 0).unwrap();
    assert_eq!(next, input.len() - 4);
    assert_eq!(joints.len(), 2);
    assert_eq!(joints[0].name, "a");
    assert_eq!(joints[0].parent_ix, -1);
    assert_eq!(joints[1].name, "b");
    assert_eq!(joints[1].parent_ix, 0);
    assert_eq!(joints[1].orientation[2].literal, "2");
    let (joint, next) = parse_joint(&input, 9).unwrap();
    assert_eq!(joint, joints[0]);
    assert_eq!(next, 37);
    assert_eq!(parse_joint(&input, 0), fail(Expected::Quote, 0));
    let empty = chars("joints {\n}\n");
    assert_eq!(parse_joints(&empty, 0), Ok((vec![], 11)));
    let open = chars("joints {\n\"a\" 0 ( 0 0 0 ) ( 0 0 0 )\n");
    assert_eq!(parse_joints(&open, 0), fail(Expected::Keyword(Keyword::Close), open.len()));
}

#[test]
fn counted_lists() {
    let input = chars("\tnumtris 2\n\ttri 0 0 1 2\n\ttri 1 3 4 5\n\ttri 2 6 7 8\n");
    let (tris, next) = parse_list::<Tri>(&input, 0).unwrap();
    assert_eq!(
        tris,
        vec![
            Tri { index: 0, vert_index_1: 0, vert_index_2: 1, vert_index_3: 2 },
            Tri { index: 1, vert_index_1: 3, vert_index_2: 4, vert_index_3: 5 },
        ]
    );
    assert_eq!(next, 37);
    let (third, next) = Tri::parse(&input, 37).unwrap();
    assert_eq!(third, Tri { index: 2, vert_index_1: 6, vert_index_2: 7, vert_index_3: 8 });
    assert_eq!(next, input.len());
    assert_eq!(Tri::count_keyword(), Keyword::NumTris);
    assert_eq!(Vert::count_keyword(), Keyword::NumVerts);
    assert_eq!(Weight::count_keyword(), Keyword::NumWeights);
    assert_eq!(parse_list::<Vert>(&input, 0), fail(Expected::Keyword(Keyword::NumVerts), 1));
    let short = chars("numtris 3\ntri 0 0 1 2\ntri 1 3 4 5\n}");
    assert_eq!(parse_list::<Tri>(&short, 0), fail(Expected::Keyword(Keyword::Tri), short.len() - 1));
    let none = chars("numweights 0\n}");
    assert_eq!(parse_list::<Weight>(&none, 0), Ok((vec![], 13)));
    let one = chars("numverts 1\nvert 9 ( 0.5 1 ) 3 4\n");
    let (verts, _) = parse_list::<Vert>(&one, 0).unwrap();
    assert_eq!(verts[0].index, 9);
    assert_eq!(verts[0].uv[0].literal, "0.5");
    assert_eq!(verts[0].weight_ix_start, 3);
    assert_eq!(verts[0].weight_ix_count, 4);
    let w = chars("weight 1 2 -0.5 ( 1 2 3 )\n");
    let (weight, _) = Weight::parse(&w, 0).unwrap();
    assert_eq!(weight.index, 1);
    assert_eq!(weight.joint, 2);
    assert_eq!(weight.bias, Decimal { negative: true, literal: "0.5".to_string() });
    assert_eq!(weight.pos[1].literal, "2");
}

#[test]
fn meshes_and_documents() {
    let text = "mesh {\nshader \"s\"\nnumverts 0\nnumtris 0\nnumweights 0\n}";
    let input = chars(text);
    let (mesh, next) = parse_mesh(&input, 0).unwrap();
    assert_eq!(next, input.len());
    assert_eq!(mesh.shader, "s");
    assert!(mesh.verts.is_empty() && mesh.tris.is_empty() && mesh.weights.is_empty());
    assert_eq!(parse_mesh(&input, 1), fail(Expected::Keyword(Keyword::Mesh), 1));

    let whole = format!("MD5Version 10\ncommandline \"\"\nnumJoints 5\nnumMeshes 0\njoints {{\n}}\n{}", text);
    let scene = parse_document(&chars(&whole)).unwrap();
    assert_eq!(scene.header.num_joints, 5);
    assert_eq!(scene.joint_list.len(), 0);
    assert_eq!(scene.mesh_list.len(), 1);
    assert_eq!(validate(&scene), Err(Violation::JointCount { declared: 5, found: 0 }));
    let broken = whole.replace("numtris", "numTris");
    assert_eq!(
        parse_document(&chars(&broken)),
        fail(Expected::Keyword(Keyword::NumTris), broken.find("numTris").unwrap())
    );
}

#[test]
fn checks_of_one_part() {
    let good = mesh(vec![(0, 1)], vec![[0, 0, 0]], vec![0]);
    let bad = mesh(vec![(0, 1)], vec![[0, 0, 1]], vec![0]);
    let s = scene(vec![-1, 0, 2], vec![good, bad]);
    assert_eq!(check_joints(&s), Err(Violation::ParentNotEarlier { joint: 2 }));
    assert_eq!(check_mesh(&s, 0), Ok(()));
    assert_eq!(check_mesh(&s, 1), Err(Violation::VertexOutOfRange { mesh: 1, tri: 0 }));
    let s = scene(vec![-1, 0, 1], vec![]);
    assert_eq!(check_joints(&s), Ok(()));
}
