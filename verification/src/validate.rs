//! The checks that the grammar cannot make: declared counts against what
//! was read, and every index against the list it points into.
use vstd::prelude::*;
use crate::error::Violation;
use crate::model::{MD5Scene, SceneView};

verus! {

/// The order in which the rules are checked: a stage, then the mesh, the
/// list within the mesh, and the entity within the list.
pub struct Place {
    pub stage: int,
    pub mesh: int,
    pub list: int,
    pub index: int,
}

impl Place {
    /// `true` where what is checked at `self` is checked before what is
    /// checked at `other`.
    pub open spec fn before(self, other: Place) -> bool {
        self.stage < other.stage || (self.stage == other.stage && (self.mesh < other.mesh || (
        self.mesh == other.mesh && (self.list < other.list || (self.list == other.list
            && self.index < other.index)))))
    }
}

/// The place at which a count is checked: the joints' is count 0, the
/// meshes' count 1.
pub open spec fn count_place(count: int) -> Place {
    Place { stage: count, mesh: 0, list: 0, index: 0 }
}

/// The place at which joint `j` is checked.
pub open spec fn joint_place(j: int) -> Place {
    Place { stage: 2, mesh: 0, list: 0, index: j }
}

/// The place at which entry `i` of list `list` of mesh `m` is checked. The
/// triangles are list 0, the vertices list 1, the weights list 2.
pub open spec fn mesh_place(m: int, list: int, i: int) -> Place {
    Place { stage: 3, mesh: m, list, index: i }
}

/// The place after every check.
pub open spec fn end_place() -> Place {
    Place { stage: 4, mesh: 0, list: 0, index: 0 }
}

impl Violation {
    /// `true` where the scene holds the entity that `self` names and the
    /// entity breaks the rule that `self` names.
    pub open spec fn occurs_in(self, scene: SceneView) -> bool {
        match self {
            Violation::JointCount { declared, found } => {
                &&& declared == scene.header.num_joints
                &&& found == scene.joint_list.len()
                &&& declared != found
            },
            Violation::MeshCount { declared, found } => {
                &&& declared == scene.header.num_meshes
                &&& found == scene.mesh_list.len()
                &&& declared != found
            },
            Violation::ParentOutOfRange { joint } => {
                &&& joint < scene.joint_list.len()
                &&& !scene.parent_in_range(joint as int)
            },
            Violation::ParentNotEarlier { joint } => {
                &&& joint < scene.joint_list.len()
                &&& scene.parent_in_range(joint as int)
                &&& !scene.parent_earlier(joint as int)
            },
            Violation::VertexOutOfRange { mesh, tri } => {
                &&& mesh < scene.mesh_list.len()
                &&& tri < scene.mesh_list[mesh as int].tris.len()
                &&& !scene.tri_in_range(mesh as int, tri as int)
            },
            Violation::WeightsOutOfRange { mesh, vert } => {
                &&& mesh < scene.mesh_list.len()
                &&& vert < scene.mesh_list[mesh as int].verts.len()
                &&& !scene.vert_in_range(mesh as int, vert as int)
            },
            Violation::JointOutOfRange { mesh, weight } => {
                &&& mesh < scene.mesh_list.len()
                &&& weight < scene.mesh_list[mesh as int].weights.len()
                &&& !scene.weight_in_range(mesh as int, weight as int)
            },
        }
    }

    /// Where the rule is checked: the counts first, then the joints in
    /// order, then the meshes in order, and of each mesh the triangles, the
    /// vertices and the weights.
    pub open spec fn place(self) -> Place {
        match self {
            Violation::JointCount { .. } => count_place(0),
            Violation::MeshCount { .. } => count_place(1),
            Violation::ParentOutOfRange { joint } => joint_place(joint as int),
            Violation::ParentNotEarlier { joint } => joint_place(joint as int),
            Violation::VertexOutOfRange { mesh, tri } => mesh_place(mesh as int, 0, tri as int),
            Violation::WeightsOutOfRange { mesh, vert } => mesh_place(mesh as int, 1, vert as int),
            Violation::JointOutOfRange { mesh, weight } => mesh_place(
                mesh as int,
                2,
                weight as int,
            ),
        }
    }

    /// `true` where `self` occurs in the scene and nothing that is checked
    /// before it does.
    pub open spec fn first_in(self, scene: SceneView) -> bool {
        self.occurs_in(scene) && clear_before(scene, self.place())
    }
}

/// `true` where no rule that is checked before `bound` is broken.
pub open spec fn clear_before(scene: SceneView, bound: Place) -> bool {
    forall|w: Violation| #[trigger] w.occurs_in(scene) ==> !w.place().before(bound)
}

/// A scene breaks at most one rule first: two violations that both occur
/// in it, with nothing checked before either, are the same.
pub proof fn lemma_first_violation_is_one(scene: SceneView, v: Violation, w: Violation)
    requires
        v.first_in(scene),
        w.first_in(scene),
    ensures
        v == w,
{
    assert(!v.place().before(w.place()));
    assert(!w.place().before(v.place()));
}

/// Every rule that is checked before `bound` holds.
pub open spec fn consistent_before(scene: SceneView, bound: Place) -> bool {
    &&& count_place(0).before(bound) ==> scene.header.num_joints == scene.joint_list.len()
    &&& count_place(1).before(bound) ==> scene.header.num_meshes == scene.mesh_list.len()
    &&& forall|j: int|
        #![trigger scene.parent_in_range(j)]
        #![trigger scene.parent_earlier(j)]
        0 <= j < scene.joint_list.len() && joint_place(j).before(bound) ==> scene.parent_in_range(j)
            && scene.parent_earlier(j)
    &&& forall|m: int, t: int|
        0 <= m < scene.mesh_list.len() && 0 <= t < scene.mesh_list[m].tris.len() && mesh_place(
            m,
            0,
            t,
        ).before(bound) ==> #[trigger] scene.tri_in_range(m, t)
    &&& forall|m: int, v: int|
        0 <= m < scene.mesh_list.len() && 0 <= v < scene.mesh_list[m].verts.len() && mesh_place(
            m,
            1,
            v,
        ).before(bound) ==> #[trigger] scene.vert_in_range(m, v)
    &&& forall|m: int, w: int|
        0 <= m < scene.mesh_list.len() && 0 <= w < scene.mesh_list[m].weights.len()
            && mesh_place(m, 2, w).before(bound) ==> #[trigger] scene.weight_in_range(m, w)
}

/// Where every rule before `bound` holds, no violation before `bound`
/// occurs.
pub proof fn lemma_clear_before(scene: SceneView, bound: Place)
    requires
        consistent_before(scene, bound),
    ensures
        clear_before(scene, bound),
{
    assert forall|w: Violation| #[trigger] w.occurs_in(scene) implies !w.place().before(bound) by {
        if w.place().before(bound) {
            match w {
                Violation::JointCount { .. } => {},
                Violation::MeshCount { .. } => {},
                Violation::ParentOutOfRange { joint } => {
                    assert(joint_place(joint as int).before(bound));
                    assert(scene.parent_in_range(joint as int));
                },
                Violation::ParentNotEarlier { joint } => {
                    assert(joint_place(joint as int).before(bound));
                    assert(scene.parent_in_range(joint as int));
                },
                Violation::VertexOutOfRange { mesh, tri } => {
                    assert(mesh_place(mesh as int, 0, tri as int).before(bound));
                    assert(scene.tri_in_range(mesh as int, tri as int));
                },
                Violation::WeightsOutOfRange { mesh, vert } => {
                    assert(mesh_place(mesh as int, 1, vert as int).before(bound));
                    assert(scene.vert_in_range(mesh as int, vert as int));
                },
                Violation::JointOutOfRange { mesh, weight } => {
                    assert(mesh_place(mesh as int, 2, weight as int).before(bound));
                    assert(scene.weight_in_range(mesh as int, weight as int));
                },
            }
        }
    }
}

/// A scene is consistent exactly if every rule holds before the end.
pub proof fn lemma_consistent_at_end(scene: SceneView)
    ensures
        scene.consistent() <==> consistent_before(scene, end_place()),
{
    if consistent_before(scene, end_place()) {
        assert forall|j: int|
            0 <= j < scene.joint_list.len() implies #[trigger] scene.parent_in_range(j)
            && scene.parent_earlier(j) by {
            assert(joint_place(j).before(end_place()));
        }
        assert forall|m: int, t: int|
            0 <= m < scene.mesh_list.len() && 0 <= t
                < scene.mesh_list[m].tris.len() implies #[trigger] scene.tri_in_range(m, t) by {
            assert(mesh_place(m, 0, t).before(end_place()));
        }
        assert forall|m: int, v: int|
            0 <= m < scene.mesh_list.len() && 0 <= v
                < scene.mesh_list[m].verts.len() implies #[trigger] scene.vert_in_range(m, v) by {
            assert(mesh_place(m, 1, v).before(end_place()));
        }
        assert forall|m: int, w: int|
            0 <= m < scene.mesh_list.len() && 0 <= w
                < scene.mesh_list[m].weights.len() implies #[trigger] scene.weight_in_range(
            m,
            w,
        ) by {
            assert(mesh_place(m, 2, w).before(end_place()));
        }
    }
}

/// In a consistent scene no violation occurs.
pub proof fn lemma_consistent_is_clear(scene: SceneView, w: Violation)
    requires
        scene.consistent(),
    ensures
        !w.occurs_in(scene),
{
    lemma_consistent_at_end(scene);
    lemma_clear_before(scene, end_place());
    if w.occurs_in(scene) {
        assert(!w.place().before(end_place()));
    }
}

/// The joint at the top of the chain of parents that starts at joint `j`.
pub open spec fn root_of(scene: SceneView, j: int) -> int
    decreases j,
{
    if 0 <= j < scene.joint_list.len() && 0 <= scene.joint_list[j].parent_ix < j {
        root_of(scene, scene.joint_list[j].parent_ix)
    } else {
        j
    }
}

/// The skeleton of a consistent scene is a forest: the chain of parents
/// that starts at any joint goes through earlier joints only, so it never
/// comes back to a joint, and it ends at a joint without a parent.
pub proof fn lemma_skeleton_is_a_forest(scene: SceneView, j: int)
    requires
        scene.consistent(),
        0 <= j < scene.joint_list.len(),
    ensures
        0 <= root_of(scene, j) <= j,
        scene.joint_list[root_of(scene, j)].parent_ix == -1,
        scene.joint_list[j].parent_ix != -1 ==> root_of(scene, j) < j,
    decreases j,
{
    assert(scene.parent_in_range(j) && scene.parent_earlier(j));
    if 0 <= scene.joint_list[j].parent_ix {
        lemma_skeleton_is_a_forest(scene, scene.joint_list[j].parent_ix);
    }
}

/// Checks the parent of every joint, in order.
#[verifier::loop_isolation(false)]
pub fn check_joints(scene: &MD5Scene) -> (r: Result<(), Violation>)
    requires
        consistent_before(scene@, joint_place(0)),
    ensures
        r is Ok ==> consistent_before(scene@, mesh_place(0, 0, 0)),
        r matches Err(v) ==> v.first_in(scene@),
{
    let n = scene.joint_list.len();
    let mut j: usize = 0;
    while j < n
        invariant
            j <= n,
            consistent_before(scene@, joint_place(j as int)),
        decreases n - j,
    {
        let parent = scene.joint_list[j].parent_ix;
        assert(scene@.joint_list[j as int].parent_ix == parent);
        if parent < -1 || (parent >= 0 && parent as usize >= n) {
            proof {
                lemma_clear_before(scene@, joint_place(j as int));
            }
            return Err(Violation::ParentOutOfRange { joint: j });
        }
        if parent >= 0 && parent as usize >= j {
            proof {
                lemma_clear_before(scene@, joint_place(j as int));
            }
            return Err(Violation::ParentNotEarlier { joint: j });
        }
        assert(scene@.parent_in_range(j as int) && scene@.parent_earlier(j as int));
        j += 1;
    }
    Ok(())
}

/// Checks the lists of mesh `m`: the triangles, the vertices, the weights.
#[verifier::loop_isolation(false)]
pub fn check_mesh(scene: &MD5Scene, m: usize) -> (r: Result<(), Violation>)
    requires
        m < scene.mesh_list.len(),
        consistent_before(scene@, mesh_place(m as int, 0, 0)),
    ensures
        r is Ok ==> consistent_before(scene@, mesh_place(m + 1, 0, 0)),
        r matches Err(v) ==> v.first_in(scene@),
{
    let mesh = &scene.mesh_list[m];
    let joints = scene.joint_list.len();
    let verts = mesh.verts.len();
    let weights = mesh.weights.len();
    assert(scene@.mesh_list[m as int] == mesh@);
    let mut t: usize = 0;
    while t < mesh.tris.len()
        invariant
            t <= mesh.tris.len(),
            consistent_before(scene@, mesh_place(m as int, 0, t as int)),
        decreases mesh.tris.len() - t,
    {
        let tri = mesh.tris[t];
        assert(mesh@.tris[t as int] == tri@);
        if tri.vert_index_1 >= verts || tri.vert_index_2 >= verts || tri.vert_index_3 >= verts {
            proof {
                lemma_clear_before(scene@, mesh_place(m as int, 0, t as int));
            }
            return Err(Violation::VertexOutOfRange { mesh: m, tri: t });
        }
        assert(scene@.tri_in_range(m as int, t as int));
        t += 1;
    }
    let mut v: usize = 0;
    while v < verts
        invariant
            v <= verts,
            consistent_before(scene@, mesh_place(m as int, 1, v as int)),
        decreases verts - v,
    {
        let start = mesh.verts[v].weight_ix_start;
        let count = mesh.verts[v].weight_ix_count;
        assert(mesh@.verts[v as int] == mesh.verts@[v as int]@);
        if count > weights || start > weights - count {
            proof {
                lemma_clear_before(scene@, mesh_place(m as int, 1, v as int));
            }
            return Err(Violation::WeightsOutOfRange { mesh: m, vert: v });
        }
        assert(scene@.vert_in_range(m as int, v as int));
        v += 1;
    }
    let mut w: usize = 0;
    while w < weights
        invariant
            w <= weights,
            consistent_before(scene@, mesh_place(m as int, 2, w as int)),
        decreases weights - w,
    {
        let joint = mesh.weights[w].joint;
        assert(mesh@.weights[w as int] == mesh.weights@[w as int]@);
        if joint >= joints {
            proof {
                lemma_clear_before(scene@, mesh_place(m as int, 2, w as int));
            }
            return Err(Violation::JointOutOfRange { mesh: m, weight: w });
        }
        assert(scene@.weight_in_range(m as int, w as int));
        w += 1;
    }
    Ok(())
}

/// Checks a scene against the rules that tie its parts together, in a
/// fixed order, and reports the first rule that is broken.
#[verifier::loop_isolation(false)]
pub fn validate(scene: &MD5Scene) -> (r: Result<(), Violation>)
    ensures
        r is Ok <==> scene@.consistent(),
        r matches Err(v) ==> v.first_in(scene@),
{
    let joints = scene.joint_list.len();
    let meshes = scene.mesh_list.len();
    proof {
        lemma_consistent_at_end(scene@);
        if scene@.consistent() {
            assert forall|w: Violation| !w.occurs_in(scene@) by {
                lemma_consistent_is_clear(scene@, w);
            }
        }
    }
    if scene.header.num_joints as usize != joints {
        proof {
            lemma_clear_before(scene@, count_place(0));
        }
        return Err(Violation::JointCount { declared: scene.header.num_joints, found: joints });
    }
    if scene.header.num_meshes as usize != meshes {
        proof {
            lemma_clear_before(scene@, count_place(1));
        }
        return Err(Violation::MeshCount { declared: scene.header.num_meshes, found: meshes });
    }
    check_joints(scene)?;
    let mut m: usize = 0;
    while m < meshes
        invariant
            m <= meshes,
            consistent_before(scene@, mesh_place(m as int, 0, 0)),
        decreases meshes - m,
    {
        check_mesh(scene, m)?;
        m += 1;
    }
    Ok(())
}

} // verus!
