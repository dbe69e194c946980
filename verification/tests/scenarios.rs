use md5mesh::{parse, Decimal, Expected, Keyword, MD5Scene, ParseError, Violation};

fn number(d: &Decimal) -> f32 {
    let magnitude: f32 = d.literal.parse().unwrap();
    if d.negative {
        -magnitude
    } else {
        magnitude
    }
}

fn syntax(expected: Expected, offset: usize, line: usize) -> Result<MD5Scene, ParseError> {
    Err(ParseError::Syntax { expected, offset, line })
}

/// The mismatch `expected`, `skip` characters into the first occurrence of
/// `marker` in `text`. The texts that use this hold ASCII only and end
/// their lines with `\n`.
fn mismatch(
    text: &str,
    marker: &str,
    skip: usize,
    expected: Expected,
) -> Result<MD5Scene, ParseError> {
    let offset = text.find(marker).unwrap() + skip;
    let line = text[..offset].matches('\n').count();
    syntax(expected, offset, line)
}

const ORIGIN_ONLY: &str = "MD5Version 10\ncommandline \"\"\nnumJoints 1\nnumMeshes 0\n\njoints {\n  \"origin\" -1 ( 0 0 0 ) ( 0 0 0 )\n}\n";

const BOB: &str = "MD5Version 10\n\
commandline \"mesh models/bob.mb -dest models/bob.md5mesh\"\n\
\n\
numJoints 3\n\
numMeshes 2\n\
\n\
joints {\n\
\t\"origin\"\t-1 ( 0 0 0 ) ( -0.5 -0.5 -0.5 )\t\t// \n\
\t\"hips\"\t0 ( 0.25 1.5 -3e-2 ) ( 0 0.6 0.8 )\t\t// origin\n\
\t\"spine\"\t1 ( 1 2 3 ) ( .1 2. 0.0 )\t\t// hips\n\
}\n\
\n\
mesh {\n\
\tshader \"models/bob/skin\"\n\
\n\
\tnumverts 3\n\
\tvert 0 ( 0.5 0.25 ) 0 1\n\
\tvert 1 ( 1 0 ) 1 2\n\
\tvert 2 ( 0 1 ) 3 1\n\
\n\
\tnumtris 1\n\
\ttri 0 2 1 0\n\
\n\
\tnumweights 4\n\
\tweight 0 0 1 ( 1 2 3 )\n\
\tweight 1 1 0.5 ( -1 -2 -3 )\n\
\tweight 2 2 0.5 ( 0.5 0 0 )\n\
\tweight 3 2 1.0 ( 0 0 1E2 )\n\
}\n\
\n\
mesh {\n\
\tshader \"\"\n\
\tnumverts 0\n\
\tnumtris 0\n\
\tnumweights 0\n\
}\n";

#[test]
fn one_root_joint_and_no_mesh() {
    let scene = parse(ORIGIN_ONLY.to_string()).unwrap();
    assert_eq!(scene.header.md5_version, 10);
    assert_eq!(scene.header.command_line, "");
    assert_eq!(scene.header.num_joints, 1);
    assert_eq!(scene.header.num_meshes, 0);
    assert_eq!(scene.joint_list.len(), 1);
    assert_eq!(scene.mesh_list.len(), 0);
    let joint = &scene.joint_list[0];
    assert_eq!(joint.name, "origin");
    assert_eq!(joint.parent_ix, -1);
    for c in joint.position.iter() {
        assert_eq!(c.literal, "0");
        assert!(!c.negative);
        assert_eq!(number(c), 0.0);
    }
    for c in joint.orientation.iter() {
        assert_eq!(number(c), 0.0);
    }
}

#[test]
fn declared_joint_count_must_match() {
    let text = ORIGIN_ONLY.replace("numJoints 1", "numJoints 2");
    assert_eq!(
        parse(text),
        Err(ParseError::Validation(Violation::JointCount { declared: 2, found: 1 }))
    );
}

#[test]
fn declared_mesh_count_must_match() {
    let text = ORIGIN_ONLY.replace("numMeshes 0", "numMeshes 1");
    assert_eq!(
        parse(text),
        Err(ParseError::Validation(Violation::MeshCount { declared: 1, found: 0 }))
    );
    let text = BOB.replace("numMeshes 2", "numMeshes 3");
    assert_eq!(
        parse(text),
        Err(ParseError::Validation(Violation::MeshCount { declared: 3, found: 2 }))
    );
}

#[test]
fn joint_count_is_checked_before_mesh_count() {
    let text = ORIGIN_ONLY.replace("numJoints 1", "numJoints 7").replace("numMeshes 0", "numMeshes 9");
    assert_eq!(
        parse(text),
        Err(ParseError::Validation(Violation::JointCount { declared: 7, found: 1 }))
    );
}

#[test]
fn a_full_document() {
    let scene = parse(BOB.to_string()).unwrap();
    assert_eq!(scene.header.md5_version, 10);
    assert_eq!(scene.header.command_line, "mesh models/bob.mb -dest models/bob.md5mesh");
    assert_eq!(scene.header.num_joints, 3);
    assert_eq!(scene.header.num_meshes, 2);

    assert_eq!(scene.joint_list.len(), 3);
    let names: Vec<&str> = scene.joint_list.iter().map(|j| j.name.as_str()).collect();
    assert_eq!(names, vec!["origin", "hips", "spine"]);
    let parents: Vec<isize> = scene.joint_list.iter().map(|j| j.parent_ix).collect();
    assert_eq!(parents, vec![-1, 0, 1]);
    let hips = &scene.joint_list[1];
    assert_eq!(hips.position[0], Decimal { negative: false, literal: "0.25".to_string() });
    assert_eq!(hips.position[1], Decimal { negative: false, literal: "1.5".to_string() });
    assert_eq!(hips.position[2], Decimal { negative: true, literal: "3e-2".to_string() });
    assert_eq!(number(&hips.position[2]), -0.03);
    let origin = &scene.joint_list[0];
    assert_eq!(origin.orientation[0], Decimal { negative: true, literal: "0.5".to_string() });
    let spine = &scene.joint_list[2];
    assert_eq!(spine.orientation[0].literal, ".1");
    assert_eq!(spine.orientation[1].literal, "2.");
    assert_eq!(spine.orientation[2].literal, "0.0");
    assert_eq!(number(&spine.orientation[0]), 0.1);
    assert_eq!(number(&spine.orientation[1]), 2.0);

    assert_eq!(scene.mesh_list.len(), 2);
    let skin = &scene.mesh_list[0];
    assert_eq!(skin.shader, "models/bob/skin");
    assert_eq!(skin.verts.len(), 3);
    assert_eq!(skin.tris.len(), 1);
    assert_eq!(skin.weights.len(), 4);
    assert_eq!(skin.verts[1].index, 1);
    assert_eq!(number(&skin.verts[0].uv[0]), 0.5);
    assert_eq!(number(&skin.verts[0].uv[1]), 0.25);
    assert_eq!(skin.verts[1].weight_ix_start, 1);
    assert_eq!(skin.verts[1].weight_ix_count, 2);
    assert_eq!(skin.verts[2].weight_ix_start, 3);
    assert_eq!(skin.verts[2].weight_ix_count, 1);
    assert_eq!(skin.tris[0].index, 0);
    assert_eq!(skin.tris[0].vert_index_1, 2);
    assert_eq!(skin.tris[0].vert_index_2, 1);
    assert_eq!(skin.tris[0].vert_index_3, 0);
    assert_eq!(skin.weights[1].index, 1);
    assert_eq!(skin.weights[1].joint, 1);
    assert_eq!(number(&skin.weights[1].bias), 0.5);
    assert_eq!(number(&skin.weights[1].pos[0]), -1.0);
    assert_eq!(number(&skin.weights[1].pos[2]), -3.0);
    assert_eq!(skin.weights[3].pos[2].literal, "1E2");
    assert_eq!(number(&skin.weights[3].pos[2]), 100.0);

    let empty = &scene.mesh_list[1];
    assert_eq!(empty.shader, "");
    assert!(empty.verts.is_empty() && empty.tris.is_empty() && empty.weights.is_empty());
}

#[test]
fn the_same_text_gives_the_same_scene() {
    let first = parse(BOB.to_string());
    let second = parse(BOB.to_string());
    assert!(first.is_ok());
    assert_eq!(first, second);
    let broken = BOB.replace("numtris 1", "numtris 2");
    assert!(parse(broken.clone()).is_err());
    assert_eq!(parse(broken.clone()), parse(broken));
}

#[test]
fn generated_documents_keep_their_counts() {
    for joints in 0..5usize {
        for meshes in 0..4usize {
            let mut text = format!(
                "MD5Version 10\ncommandline \"\"\nnumJoints {}\nnumMeshes {}\n\njoints {{\n",
                joints, meshes
            );
            for j in 0..joints {
                text.push_str(&format!(
                    "\t\"bone{}\"\t{} ( {} 0 0 ) ( 0 0 0 )\n",
                    j,
                    j as isize - 1,
                    j
                ));
            }
            text.push_str("}\n\n");
            for m in 0..meshes {
                text.push_str(&format!(
                    "mesh {{\n\tshader \"m{}\"\n\tnumverts 0\n\tnumtris 0\n\tnumweights 0\n}}\n\n",
                    m
                ));
            }
            let scene = parse(text).unwrap();
            assert_eq!(scene.joint_list.len(), joints);
            assert_eq!(scene.mesh_list.len(), meshes);
            assert_eq!(scene.header.num_joints as usize, joints);
            assert_eq!(scene.header.num_meshes as usize, meshes);
        }
    }
}

#[test]
fn a_triangle_must_name_vertices_of_its_mesh() {
    for bad in ["tri 0 3 1 0", "tri 0 2 3 0", "tri 0 2 1 3", "tri 0 2 1 4294967295"] {
        let text = BOB.replace("tri 0 2 1 0", bad);
        assert_eq!(
            parse(text),
            Err(ParseError::Validation(Violation::VertexOutOfRange { mesh: 0, tri: 0 }))
        );
    }
    let text = BOB.replace("numverts 0\n\tnumtris 0\n", "numverts 0\n\tnumtris 1\n\ttri 0 0 0 0\n");
    assert_eq!(
        parse(text),
        Err(ParseError::Validation(Violation::VertexOutOfRange { mesh: 1, tri: 0 }))
    );
}

#[test]
fn a_parent_must_stand_before_its_child() {
    let own = BOB.replace("\"hips\"\t0", "\"hips\"\t1");
    assert_eq!(
        parse(own),
        Err(ParseError::Validation(Violation::ParentNotEarlier { joint: 1 }))
    );
    let later = BOB.replace("\"hips\"\t0", "\"hips\"\t2");
    assert_eq!(
        parse(later),
        Err(ParseError::Validation(Violation::ParentNotEarlier { joint: 1 }))
    );
    let root_of_itself = ORIGIN_ONLY.replace("-1", "0");
    assert_eq!(
        parse(root_of_itself),
        Err(ParseError::Validation(Violation::ParentNotEarlier { joint: 0 }))
    );
}

#[test]
fn a_parent_must_be_a_joint_or_minus_one() {
    let beyond = BOB.replace("\"hips\"\t0", "\"hips\"\t3");
    assert_eq!(
        parse(beyond),
        Err(ParseError::Validation(Violation::ParentOutOfRange { joint: 1 }))
    );
    let below = BOB.replace("\"spine\"\t1", "\"spine\"\t-2");
    assert_eq!(
        parse(below),
        Err(ParseError::Validation(Violation::ParentOutOfRange { joint: 2 }))
    );
    let two_roots = BOB.replace("\"spine\"\t1", "\"spine\"\t-1");
    assert!(parse(two_roots).is_ok());
}

#[test]
fn the_weights_of_a_vertex_must_lie_in_the_list() {
    let text = BOB.replace("vert 2 ( 0 1 ) 3 1", "vert 2 ( 0 1 ) 3 2");
    assert_eq!(
        parse(text),
        Err(ParseError::Validation(Violation::WeightsOutOfRange { mesh: 0, vert: 2 }))
    );
    let text = BOB.replace("vert 2 ( 0 1 ) 3 1", "vert 2 ( 0 1 ) 4294967295 4294967295");
    assert_eq!(
        parse(text),
        Err(ParseError::Validation(Violation::WeightsOutOfRange { mesh: 0, vert: 2 }))
    );
    let to_the_end = BOB.replace("vert 2 ( 0 1 ) 3 1", "vert 2 ( 0 1 ) 4 0");
    assert!(parse(to_the_end).is_ok());
    let text = BOB.replace("vert 2 ( 0 1 ) 3 1", "vert 2 ( 0 1 ) 5 0");
    assert_eq!(
        parse(text),
        Err(ParseError::Validation(Violation::WeightsOutOfRange { mesh: 0, vert: 2 }))
    );
}

#[test]
fn a_weight_must_name_a_joint() {
    let text = BOB.replace("weight 2 2 0.5", "weight 2 3 0.5");
    assert_eq!(
        parse(text),
        Err(ParseError::Validation(Violation::JointOutOfRange { mesh: 0, weight: 2 }))
    );
}

#[test]
fn the_first_broken_rule_is_reported() {
    let text = BOB
        .replace("weight 2 2 0.5", "weight 2 3 0.5")
        .replace("vert 2 ( 0 1 ) 3 1", "vert 2 ( 0 1 ) 3 2")
        .replace("tri 0 2 1 0", "tri 0 2 1 3");
    assert_eq!(
        parse(text.clone()),
        Err(ParseError::Validation(Violation::VertexOutOfRange { mesh: 0, tri: 0 }))
    );
    let text = text.replace("tri 0 2 1 3", "tri 0 2 1 0");
    assert_eq!(
        parse(text.clone()),
        Err(ParseError::Validation(Violation::WeightsOutOfRange { mesh: 0, vert: 2 }))
    );
    let text = text.replace("\"spine\"\t1", "\"spine\"\t2");
    assert_eq!(
        parse(text),
        Err(ParseError::Validation(Violation::ParentNotEarlier { joint: 2 }))
    );
}

#[test]
fn declared_indices_are_kept_as_written() {
    let text = BOB.replace("vert 1 ( 1 0 ) 1 2", "vert 7 ( 1 0 ) 1 2");
    let scene = parse(text).unwrap();
    let indices: Vec<usize> = scene.mesh_list[0].verts.iter().map(|v| v.index).collect();
    assert_eq!(indices, vec![0, 7, 2]);
}

#[test]
fn a_comment_after_a_record_changes_nothing() {
    let plain = parse(BOB.to_string()).unwrap();
    let lines: Vec<&str> = BOB.split('\n').collect();
    for i in 0..lines.len() {
        if lines[i].trim().is_empty() {
            continue;
        }
        for comment in ["// arbitrary text", " // \"quoted\" } mesh { 12", "//", "\t//\t//"] {
            let mut changed: Vec<String> = lines.iter().map(|l| l.to_string()).collect();
            changed[i].push_str(comment);
            assert_eq!(parse(changed.join("\n")).as_ref(), Ok(&plain), "line {}", i);
        }
    }
}

#[test]
fn comment_only_lines_between_records() {
    let text = BOB
        .replace("\tnumtris 1\n", "\t// the faces\n   \n\tnumtris 1 // one\n\t// none yet\n")
        .replace("joints {\n", "joints { // skeleton\n// first the root\n");
    assert_eq!(parse(text), parse(BOB.to_string()));
}

#[test]
fn all_three_line_terminators() {
    let plain = parse(BOB.to_string()).unwrap();
    assert_eq!(parse(BOB.replace('\n', "\r\n")), Ok(plain.clone()));
    assert_eq!(parse(BOB.replace('\n', "\r")), Ok(plain));
}

#[test]
fn one_blank_line_after_the_command_line_and_no_other() {
    let none = "MD5Version 10\ncommandline \"\"\nnumJoints 0\nnumMeshes 0\njoints {\n}\n";
    assert!(parse(none.to_string()).is_ok());
    let one = none.replace("\"\"\n", "\"\"\n\n");
    assert!(parse(one).is_ok());
    let comment = none.replace("\"\"\n", "\"\"\n  // made by hand\n");
    assert!(parse(comment).is_ok());
    let two = none.replace("\"\"\n", "\"\"\n\n\n");
    assert_eq!(parse(two.clone()), mismatch(&two, "\nnumJoints", 0, Expected::Keyword(Keyword::NumJoints)));
    assert_eq!(parse(two), syntax(Expected::Keyword(Keyword::NumJoints), 30, 3));
    let after_version = none.replace("10\n", "10\n\n");
    assert_eq!(parse(after_version), syntax(Expected::Keyword(Keyword::CommandLine), 14, 1));
    let after_joints = none.replace("numJoints 0\n", "numJoints 0\n\n");
    assert_eq!(
        parse(after_joints.clone()),
        mismatch(&after_joints, "\nnumMeshes", 0, Expected::Keyword(Keyword::NumMeshes))
    );
}

#[test]
fn the_header_names_what_it_misses() {
    assert_eq!(parse(String::new()), syntax(Expected::Keyword(Keyword::Version), 0, 0));
    assert_eq!(
        parse("MD5Version 10\nnumJoints 1\n".to_string()),
        syntax(Expected::Keyword(Keyword::CommandLine), 14, 1)
    );
    let text = ORIGIN_ONLY.replace("numJoints", "numBones");
    assert_eq!(parse(text), syntax(Expected::Keyword(Keyword::NumJoints), 29, 2));
    let text = ORIGIN_ONLY.replace("numMeshes", "nummeshes");
    assert_eq!(parse(text), syntax(Expected::Keyword(Keyword::NumMeshes), 41, 3));
    let text = ORIGIN_ONLY.replace("joints {", "joints{");
    assert_eq!(parse(text), syntax(Expected::Keyword(Keyword::Joints), 54, 5));
}

#[test]
fn every_kind_of_mismatch() {
    let text = ORIGIN_ONLY.replace("MD5Version 10", "MD5Version10");
    assert_eq!(parse(text), syntax(Expected::Space, 10, 0));
    let text = ORIGIN_ONLY.replace("MD5Version 10", "MD5Version ten");
    assert_eq!(parse(text), syntax(Expected::Digit, 11, 0));
    let text = ORIGIN_ONLY.replace("MD5Version 10", "MD5Version 10 11");
    assert_eq!(parse(text), syntax(Expected::LineEnd, 14, 0));
    let text = ORIGIN_ONLY.replace("commandline \"\"", "commandline none");
    assert_eq!(parse(text.clone()), mismatch(&text, "none", 0, Expected::Quote));
    let text = ORIGIN_ONLY.replace("( 0 0 0 ) ( 0 0 0 )", "( 0 0 0 ) ( 0 zero 0 )");
    assert_eq!(parse(text.clone()), mismatch(&text, "zero", 0, Expected::Number));
    let text = ORIGIN_ONLY.replace("( 0 0 0 ) ( 0 0 0 )", "( 0 0 0 ) ( 0 0 )");
    assert_eq!(parse(text.clone()), mismatch(&text, ")\n", 0, Expected::Number));
    let text = ORIGIN_ONLY.replace("( 0 0 0 ) ( 0 0 0 )", "( 0 0 0 ) ( 0 0 0 7 )");
    assert_eq!(
        parse(text.clone()),
        mismatch(&text, "7", 0, Expected::Keyword(Keyword::CloseParen))
    );
    let text = ORIGIN_ONLY.replace("( 0 0 0 ) ( 0 0 0 )", "( 0 0 0 ) 5 0 0");
    assert_eq!(
        parse(text.clone()),
        mismatch(&text, "5 0 0", 0, Expected::Keyword(Keyword::OpenParen))
    );
    let text = ORIGIN_ONLY.replace("\"origin\"", "\"origin");
    assert_eq!(parse(text.clone()), syntax(Expected::ClosingQuote, text.len(), 8));
    let text = ORIGIN_ONLY.replace("}\n", "");
    assert_eq!(parse(text.clone()), syntax(Expected::Keyword(Keyword::Close), text.len(), 7));
    let text = ORIGIN_ONLY.replace("}\n", "}");
    assert_eq!(parse(text.clone()), syntax(Expected::LineEnd, text.len(), 7));
}

#[test]
fn numbers_too_large_are_errors() {
    let text = ORIGIN_ONLY.replace("MD5Version 10", "MD5Version 4294967295");
    assert_eq!(parse(text).unwrap().header.md5_version, 4294967295);
    let text = ORIGIN_ONLY.replace("MD5Version 10", "MD5Version 4294967296");
    assert_eq!(parse(text), syntax(Expected::InRange, 11, 0));
    let text = ORIGIN_ONLY.replace("MD5Version 10", "MD5Version 99999999999999999999999999");
    assert_eq!(parse(text), syntax(Expected::InRange, 11, 0));
    let text = ORIGIN_ONLY.replace("MD5Version 10", "MD5Version 000000000000000000000000010");
    assert_eq!(parse(text).unwrap().header.md5_version, 10);
    let text = ORIGIN_ONLY.replace("-1", "-2147483647");
    assert_eq!(
        parse(text),
        Err(ParseError::Validation(Violation::ParentOutOfRange { joint: 0 }))
    );
    let text = ORIGIN_ONLY.replace("-1", "-2147483648");
    assert_eq!(parse(text.clone()), mismatch(&text, "-2147483648", 1, Expected::InRange));
    let text = ORIGIN_ONLY.replace("-1", "2147483648");
    assert_eq!(parse(text.clone()), mismatch(&text, "2147483648", 0, Expected::InRange));
    let text = ORIGIN_ONLY.replace("-1", "2147483647");
    assert_eq!(
        parse(text),
        Err(ParseError::Validation(Violation::ParentOutOfRange { joint: 0 }))
    );
}

#[test]
fn the_sign_stands_apart_from_the_magnitude() {
    let text = ORIGIN_ONLY.replace("( 0 0 0 ) ( 0 0 0 )", "( -0 -1.5e+3 -.5 ) ( 0 0 0 )");
    let scene = parse(text).unwrap();
    let p = &scene.joint_list[0].position;
    assert_eq!(p[0], Decimal { negative: true, literal: "0".to_string() });
    assert_eq!(p[1], Decimal { negative: true, literal: "1.5e+3".to_string() });
    assert_eq!(p[2], Decimal { negative: true, literal: ".5".to_string() });
    assert_eq!(number(&p[1]), -1500.0);
    let text = ORIGIN_ONLY.replace("( 0 0 0 ) ( 0 0 0 )", "( --1 0 0 ) ( 0 0 0 )");
    assert_eq!(parse(text.clone()), mismatch(&text, "--1", 1, Expected::Number));
    let text = ORIGIN_ONLY.replace("( 0 0 0 ) ( 0 0 0 )", "( +1 0 0 ) ( 0 0 0 )");
    assert_eq!(parse(text.clone()), mismatch(&text, "+1", 0, Expected::Number));
    let text = ORIGIN_ONLY.replace("-1", "--1");
    assert_eq!(parse(text.clone()), mismatch(&text, "--1", 1, Expected::Digit));
    let text = ORIGIN_ONLY.replace("( 0 0 0 ) ( 0 0 0 )", "( 1e 0 0 ) ( 0 0 0 )");
    assert_eq!(parse(text.clone()), mismatch(&text, "1e", 1, Expected::Space));
    let text = ORIGIN_ONLY.replace("( 0 0 0 ) ( 0 0 0 )", "( . 0 0 ) ( 0 0 0 )");
    assert_eq!(parse(text.clone()), mismatch(&text, ". 0", 0, Expected::Number));
}

#[test]
fn vectors_take_optional_space_inside_the_parentheses() {
    let text = ORIGIN_ONLY.replace("( 0 0 0 ) ( 0 0 0 )", "(1 2 3) (\t4  5\t 6   )");
    let scene = parse(text).unwrap();
    let j = &scene.joint_list[0];
    let p: Vec<f32> = j.position.iter().map(number).collect();
    let o: Vec<f32> = j.orientation.iter().map(number).collect();
    assert_eq!(p, vec![1.0, 2.0, 3.0]);
    assert_eq!(o, vec![4.0, 5.0, 6.0]);
    let text = ORIGIN_ONLY.replace("( 0 0 0 ) ( 0 0 0 )", "( 0 0 0 )( 0 0 0 )");
    assert_eq!(parse(text.clone()), mismatch(&text, ")(", 1, Expected::Space));
}

#[test]
fn fewer_records_than_declared() {
    let text = BOB.replace("\tvert 2 ( 0 1 ) 3 1\n", "");
    assert_eq!(
        parse(text.clone()),
        mismatch(&text, "numtris", 0, Expected::Keyword(Keyword::Vert))
    );
    let text = BOB.replace("numtris 1", "numtris 2");
    assert!(matches!(
        parse(text),
        Err(ParseError::Syntax { expected: Expected::Keyword(Keyword::Tri), .. })
    ));
    let text = BOB.replace("numweights 4", "numweights 5");
    assert!(matches!(
        parse(text),
        Err(ParseError::Syntax { expected: Expected::Keyword(Keyword::Weight), .. })
    ));
}

#[test]
fn more_records_than_declared_are_left_for_what_follows() {
    let text = BOB.replace("numverts 3", "numverts 2");
    assert!(matches!(
        parse(text),
        Err(ParseError::Syntax { expected: Expected::Keyword(Keyword::NumTris), .. })
    ));
}

#[test]
fn text_after_the_last_mesh_must_be_a_mesh() {
    let text = format!("{}joints {{\n}}\n", BOB);
    assert!(matches!(
        parse(text),
        Err(ParseError::Syntax { expected: Expected::Keyword(Keyword::Mesh), .. })
    ));
    let no_final_newline = BOB.trim_end().to_string();
    assert!(no_final_newline.ends_with('}'));
    assert_eq!(parse(no_final_newline), parse(BOB.to_string()));
}

#[test]
fn strings_have_no_escapes() {
    let text = ORIGIN_ONLY.replace("\"origin\"", "\"a\\\" -1");
    assert!(matches!(parse(text), Err(ParseError::Syntax { .. })));
    let text = ORIGIN_ONLY.replace("\"origin\"", "\"tail // not a comment\"");
    assert_eq!(parse(text).unwrap().joint_list[0].name, "tail // not a comment");
    let text = ORIGIN_ONLY.replace("\"origin\"", "\"b\u{f6}ne \u{1f9b4}\"");
    assert_eq!(parse(text).unwrap().joint_list[0].name, "b\u{f6}ne \u{1f9b4}");
}

#[test]
fn offsets_count_characters() {
    let text = ORIGIN_ONLY.replace("commandline \"\"", "commandline \"\u{1f9b4}\" x");
    assert_eq!(text.find(" x").unwrap(), 32);
    assert_eq!(parse(text), syntax(Expected::LineEnd, 30, 1));
}

#[test]
fn lines_are_counted_by_their_terminators() {
    let text = "MD5Version 10\r\ncommandline \"\"\r\n\r\nnumJoints 1\rnumMeshes 0\n\njoints {\n}\nmesh";
    assert_eq!(
        parse(text.to_string()),
        syntax(Expected::Keyword(Keyword::Mesh), text.len() - 4, 8)
    );
}

#[test]
fn a_document_in_the_plainest_form() {
    let text = "MD5Version 10\n\
commandline \"\"\n\
numJoints 2\n\
numMeshes 1\n\
joints {\n\
\t\"root\" -1 ( 0 0 0 ) ( -0.5 0.5 0 )\n\
\t\"tip\" 0 ( 1 2.5 -3 ) ( 0 0 1 )\n\
}\n\
mesh {\n\
\tshader \"skin\"\n\
\tnumverts 1\n\
\tvert 0 ( 0 1 ) 0 1\n\
\tnumtris 1\n\
\ttri 0 0 0 0\n\
\tnumweights 1\n\
\tweight 0 1 1 ( 0.5 0 0 )\n\
}\n";
    let scene = parse(text.to_string()).unwrap();
    assert_eq!(scene.joint_list.len(), 2);
    assert_eq!(scene.joint_list[1].name, "tip");
    assert_eq!(scene.joint_list[1].parent_ix, 0);
    assert_eq!(number(&scene.joint_list[1].position[1]), 2.5);
    assert_eq!(number(&scene.joint_list[1].position[2]), -3.0);
    assert_eq!(number(&scene.joint_list[0].orientation[0]), -0.5);
    assert_eq!(scene.mesh_list.len(), 1);
    assert_eq!(scene.mesh_list[0].shader, "skin");
    assert_eq!(scene.mesh_list[0].weights[0].joint, 1);
    assert_eq!(number(&scene.mesh_list[0].weights[0].pos[0]), 0.5);
}

#[test]
fn every_number_that_is_read_is_a_number() {
    let scene = parse(BOB.to_string()).unwrap();
    let mut literals: Vec<&Decimal> = Vec::new();
    for j in scene.joint_list.iter() {
        literals.extend(j.position.iter());
        literals.extend(j.orientation.iter());
    }
    for m in scene.mesh_list.iter() {
        for v in m.verts.iter() {
            literals.extend(v.uv.iter());
        }
        for w in m.weights.iter() {
            literals.push(&w.bias);
            literals.extend(w.pos.iter());
        }
    }
    assert_eq!(literals.len(), 18 + 6 + 16);
    for d in literals {
        assert!(!d.literal.is_empty());
        assert!(d.literal.chars().all(|c| c.is_ascii_digit() || ".eE+-".contains(c)));
        assert!(!d.literal.starts_with('-') && !d.literal.starts_with('+'));
        assert!(d.literal.parse::<f32>().is_ok(), "{:?}", d.literal);
    }
}

#[test]
fn names_hold_no_quote() {
    let scene = parse(BOB.to_string()).unwrap();
    assert!(!scene.header.command_line.contains('"'));
    assert!(scene.joint_list.iter().all(|j| !j.name.contains('"')));
    assert!(scene.mesh_list.iter().all(|m| !m.shader.contains('"')));
}

#[test]
fn every_number_that_is_read_converts_whole() {
    let text = ORIGIN_ONLY.replace(
        "( 0 0 0 ) ( 0 0 0 )",
        "( 0 12. .5 ) ( 1.25e2 1E-3 0.10000000149011612 )",
    );
    let scene = parse(text).unwrap();
    let joint = &scene.joint_list[0];
    let expected = [0.0f32, 12.0, 0.5, 125.0, 0.001, 0.1];
    for (d, want) in joint.position.iter().chain(joint.orientation.iter()).zip(expected) {
        let read: nom::IResult<&str, f32> = nom::number::complete::float(d.literal.as_str());
        let (rest, value) = read.unwrap();
        assert_eq!(rest, "");
        assert_eq!(value, want);
        assert_eq!(value, number(d));
    }
}

#[test]
fn a_document_as_exporters_write_it() {
    let text = "MD5Version 10\r\n\
commandline \"mesh maps/fred/body.mb -dest models/md5/body.md5mesh -game Doom -prefix BODY_\"\r\n\
\r\n\
numJoints 2\r\n\
numMeshes 1\r\n\
\r\n\
joints {\r\n\
\t\"origin\"\t-1 ( 0 0 0 ) ( -0.7071067095 0 0 )\t\t// \r\n\
\t\"Body\"\t0 ( 0.0000300407 51.0200042725 -0.0000085831 ) ( -0.7071067095 0 0 )\t\t// origin\r\n\
}\r\n\
\r\n\
mesh {\r\n\
\t// meshes: bodymesh\r\n\
\tshader \"models/characters/body\"\r\n\
\r\n\
\tnumverts 3\r\n\
\tvert 0 ( 0.683594 0.455078 ) 0 1\r\n\
\tvert 1 ( 0.773438 0.439453 ) 1 1\r\n\
\tvert 2 ( 0.738281 0.464844 ) 2 2\r\n\
\r\n\
\tnumtris 1\r\n\
\ttri 0 0 2 1\r\n\
\r\n\
\tnumweights 4\r\n\
\tweight 0 1 1 ( -2.4230087996 -4.0805000067 -6.3290581703 )\r\n\
\tweight 1 1 1 ( -2.0576849937 -4.4237208366 -5.9078259468 )\r\n\
\tweight 2 1 0.75 ( -2.0406084061 -3.9771283388 -6.4898958206 )\r\n\
\tweight 3 0 0.25 ( 1 1 1 )\r\n\
}\r\n\
\r\n";
    let scene = parse(text.to_string()).unwrap();
    assert_eq!(scene.header.num_joints, 2);
    assert_eq!(
        scene.header.command_line,
        "mesh maps/fred/body.mb -dest models/md5/body.md5mesh -game Doom -prefix BODY_"
    );
    assert_eq!(scene.joint_list[1].name, "Body");
    assert_eq!(scene.joint_list[1].position[1].literal, "51.0200042725");
    assert!(scene.joint_list[1].orientation[0].negative);
    assert_eq!(scene.joint_list[1].orientation[0].literal, "0.7071067095");
    let mesh = &scene.mesh_list[0];
    assert_eq!(mesh.shader, "models/characters/body");
    assert_eq!(mesh.verts.len(), 3);
    assert_eq!(mesh.verts[2].weight_ix_start, 2);
    assert_eq!(mesh.verts[2].weight_ix_count, 2);
    assert_eq!(mesh.tris[0].vert_index_2, 2);
    assert_eq!(mesh.weights.len(), 4);
    assert_eq!(number(&mesh.weights[2].bias), 0.75);
    assert_eq!(number(&mesh.weights[0].pos[2]), -6.3290581703);
}

#[test]
fn every_chain_of_parents_ends_at_a_root() {
    let mut text = String::from("MD5Version 10\ncommandline \"\"\nnumJoints 9\nnumMeshes 0\njoints {\n");
    let parents: [isize; 9] = [-1, 0, 1, 1, -1, 4, 2, 6, 0];
    for (j, p) in parents.iter().enumerate() {
        text.push_str(&format!("\t\"j{}\" {} ( 0 0 0 ) ( 0 0 0 )\n", j, p));
    }
    text.push_str("}\n");
    let scene = parse(text).unwrap();
    let roots: Vec<usize> = (0..scene.joint_list.len())
        .map(|start| {
            let mut at = start;
            let mut steps = 0;
            while scene.joint_list[at].parent_ix != -1 {
                let parent = scene.joint_list[at].parent_ix as usize;
                assert!(parent < at);
                at = parent;
                steps += 1;
                assert!(steps <= start);
            }
            at
        })
        .collect();
    assert_eq!(roots, vec![0, 0, 0, 0, 4, 4, 0, 0, 0]);
}
