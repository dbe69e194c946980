//! The scene that a document describes, and the mathematical view of each
//! of its parts.
//!
//! Numbers with a fraction are kept as the document writes them (see
//! [`Decimal`]); every other field is an integer or a string.
use vstd::prelude::*;

verus! {

/// The views of the items of a sequence, in the same order.
pub open spec fn views<T: View>(items: Seq<T>) -> Seq<T::V> {
    items.map_values(|item: T| item@)
}

/// Appending an item appends its view.
pub proof fn lemma_views_push<T: View>(items: Seq<T>, item: T)
    ensures
        views(items.push(item)) == views(items).push(item@),
{
    assert(views(items.push(item)) =~= views(items).push(item@));
}

/// A list, one item and a list make the same list whether the item is taken
/// as the end of the first or as the start of the second.
pub proof fn lemma_append_first<T>(front: Seq<T>, item: T, back: Seq<T>)
    ensures
        front.push(item) + back == front + (seq![item] + back),
{
    assert(front.push(item) + back =~= front + (seq![item] + back));
}

/// What a [`Decimal`] holds, as mathematical values: its sign, and the
/// characters of its magnitude.
pub struct DecimalView {
    pub negative: bool,
    pub literal: Seq<char>,
}

/// A number with an optional fraction and exponent. The library never turns
/// it into a binary fraction: it keeps the sign and the digits as written,
/// so that nothing is rounded here.
#[derive(Clone, Debug, PartialEq, Eq)]
pub struct Decimal {
    /// Whether a `-` stood before the magnitude.
    pub negative: bool,
    /// The magnitude: digits, an optional fraction, an optional exponent.
    pub literal: String,
}

impl View for Decimal {
    type V = DecimalView;

    open spec fn view(&self) -> DecimalView {
        DecimalView { negative: self.negative, literal: self.literal@ }
    }
}

/// What a [`MD5MeshHeader`] holds, as mathematical values.
pub struct HeaderView {
    pub md5_version: int,
    pub command_line: Seq<char>,
    pub num_joints: int,
    pub num_meshes: int,
}

/// What the head of a document declares.
#[derive(Clone, Debug, PartialEq, Eq)]
pub struct MD5MeshHeader {
    /// The version of the format.
    pub md5_version: u32,
    /// The command line that produced the document; the library does not
    /// look into it.
    pub command_line: String,
    /// How many joints the document says it holds.
    pub num_joints: u32,
    /// How many meshes the document says it holds.
    pub num_meshes: u32,
}

impl View for MD5MeshHeader {
    type V = HeaderView;

    open spec fn view(&self) -> HeaderView {
        HeaderView {
            md5_version: self.md5_version as int,
            command_line: self.command_line@,
            num_joints: self.num_joints as int,
            num_meshes: self.num_meshes as int,
        }
    }
}

/// What a [`Joint`] holds, as mathematical values.
pub struct JointView {
    pub name: Seq<char>,
    pub parent_ix: int,
    pub position: Seq<DecimalView>,
    pub orientation: Seq<DecimalView>,
}

/// One bone of the skeleton, in bind pose.
#[derive(Clone, Debug, PartialEq, Eq)]
pub struct Joint {
    pub name: String,
    /// The position of the parent in the joint list; `-1` for a root.
    pub parent_ix: isize,
    /// Where the joint stands in bind pose: three components.
    pub position: [Decimal; 3],
    /// The x, y and z of the unit quaternion that gives the orientation.
    /// The document does not hold the fourth component.
    pub orientation: [Decimal; 3],
}

impl View for Joint {
    type V = JointView;

    open spec fn view(&self) -> JointView {
        JointView {
            name: self.name@,
            parent_ix: self.parent_ix as int,
            position: views(self.position@),
            orientation: views(self.orientation@),
        }
    }
}

/// What a [`Vert`] holds, as mathematical values.
pub struct VertView {
    pub index: int,
    pub uv: Seq<DecimalView>,
    pub weight_ix_start: int,
    pub weight_ix_count: int,
}

/// One vertex of a mesh.
#[derive(Clone, Debug, PartialEq, Eq)]
pub struct Vert {
    /// The index that the record declares.
    pub index: usize,
    /// The texture coordinates: two components.
    pub uv: [Decimal; 2],
    /// The first of the vertex's weights in the mesh's weight list.
    pub weight_ix_start: usize,
    /// How many weights the vertex has, from `weight_ix_start` on.
    pub weight_ix_count: usize,
}

impl View for Vert {
    type V = VertView;

    open spec fn view(&self) -> VertView {
        VertView {
            index: self.index as int,
            uv: views(self.uv@),
            weight_ix_start: self.weight_ix_start as int,
            weight_ix_count: self.weight_ix_count as int,
        }
    }
}

/// What a [`Tri`] holds, as mathematical values.
pub struct TriView {
    pub index: int,
    pub vert_index_1: int,
    pub vert_index_2: int,
    pub vert_index_3: int,
}

/// One triangle of a mesh.
#[derive(Clone, Copy, Debug, PartialEq, Eq)]
pub struct Tri {
    /// The index that the record declares.
    pub index: usize,
    pub vert_index_1: usize,
    pub vert_index_2: usize,
    pub vert_index_3: usize,
}

impl View for Tri {
    type V = TriView;

    open spec fn view(&self) -> TriView {
        TriView {
            index: self.index as int,
            vert_index_1: self.vert_index_1 as int,
            vert_index_2: self.vert_index_2 as int,
            vert_index_3: self.vert_index_3 as int,
        }
    }
}

/// What a [`Weight`] holds, as mathematical values.
pub struct WeightView {
    pub index: int,
    pub joint: int,
    pub bias: DecimalView,
    pub pos: Seq<DecimalView>,
}

/// The influence of one joint on one vertex.
#[derive(Clone, Debug, PartialEq, Eq)]
pub struct Weight {
    /// The index that the record declares.
    pub index: usize,
    /// The position of the joint in the joint list.
    pub joint: usize,
    /// How much the joint contributes.
    pub bias: Decimal,
    /// The vertex's position in the joint's space: three components.
    pub pos: [Decimal; 3],
}

impl View for Weight {
    type V = WeightView;

    open spec fn view(&self) -> WeightView {
        WeightView {
            index: self.index as int,
            joint: self.joint as int,
            bias: self.bias@,
            pos: views(self.pos@),
        }
    }
}

/// What a [`MD5Mesh`] holds, as mathematical values.
pub struct MeshView {
    pub shader: Seq<char>,
    pub verts: Seq<VertView>,
    pub tris: Seq<TriView>,
    pub weights: Seq<WeightView>,
}

/// One mesh: a material and the lists that refer to one another by
/// position.
#[derive(Clone, Debug, PartialEq, Eq)]
pub struct MD5Mesh {
    /// The name of the material.
    pub shader: String,
    pub verts: Vec<Vert>,
    pub tris: Vec<Tri>,
    pub weights: Vec<Weight>,
}

impl View for MD5Mesh {
    type V = MeshView;

    open spec fn view(&self) -> MeshView {
        MeshView {
            shader: self.shader@,
            verts: views(self.verts@),
            tris: views(self.tris@),
            weights: views(self.weights@),
        }
    }
}

/// What a [`MD5Scene`] holds, as mathematical values.
pub struct SceneView {
    pub header: HeaderView,
    pub joint_list: Seq<JointView>,
    pub mesh_list: Seq<MeshView>,
}

/// A whole document: the header, the skeleton and the meshes, in the order
/// of the document.
#[derive(Clone, Debug, PartialEq, Eq)]
pub struct MD5Scene {
    pub header: MD5MeshHeader,
    pub joint_list: Vec<Joint>,
    pub mesh_list: Vec<MD5Mesh>,
}

impl View for MD5Scene {
    type V = SceneView;

    open spec fn view(&self) -> SceneView {
        SceneView {
            header: self.header@,
            joint_list: views(self.joint_list@),
            mesh_list: views(self.mesh_list@),
        }
    }
}

impl SceneView {
    /// The parent index of joint `j` is `-1` or the index of a joint.
    pub open spec fn parent_in_range(self, j: int) -> bool {
        -1 <= self.joint_list[j].parent_ix < self.joint_list.len()
    }

    /// The parent of joint `j`, where it has one, stands before it.
    pub open spec fn parent_earlier(self, j: int) -> bool {
        self.joint_list[j].parent_ix < j
    }

    /// The three corners of triangle `t` of mesh `m` are vertices of that
    /// mesh.
    pub open spec fn tri_in_range(self, m: int, t: int) -> bool {
        let mesh = self.mesh_list[m];
        &&& 0 <= mesh.tris[t].vert_index_1 < mesh.verts.len()
        &&& 0 <= mesh.tris[t].vert_index_2 < mesh.verts.len()
        &&& 0 <= mesh.tris[t].vert_index_3 < mesh.verts.len()
    }

    /// The weights of vertex `v` of mesh `m` lie in that mesh's weight
    /// list.
    pub open spec fn vert_in_range(self, m: int, v: int) -> bool {
        let mesh = self.mesh_list[m];
        &&& 0 <= mesh.verts[v].weight_ix_start
        &&& 0 <= mesh.verts[v].weight_ix_count
        &&& mesh.verts[v].weight_ix_start + mesh.verts[v].weight_ix_count <= mesh.weights.len()
    }

    /// Weight `w` of mesh `m` names a joint of the skeleton.
    pub open spec fn weight_in_range(self, m: int, w: int) -> bool {
        0 <= self.mesh_list[m].weights[w].joint < self.joint_list.len()
    }

    /// The scene keeps what its header declares, and every index in it
    /// points at something: the counts match, each parent is `-1` or an
    /// earlier joint, and the lists of each mesh refer to one another in
    /// range.
    pub open spec fn consistent(self) -> bool {
        &&& self.header.num_joints == self.joint_list.len()
        &&& self.header.num_meshes == self.mesh_list.len()
        &&& forall|j: int|
            #![trigger self.parent_in_range(j)]
            #![trigger self.parent_earlier(j)]
            0 <= j < self.joint_list.len() ==> self.parent_in_range(j) && self.parent_earlier(j)
        &&& forall|m: int, t: int|
            0 <= m < self.mesh_list.len() && 0 <= t < self.mesh_list[m].tris.len()
                ==> #[trigger] self.tri_in_range(m, t)
        &&& forall|m: int, v: int|
            0 <= m < self.mesh_list.len() && 0 <= v < self.mesh_list[m].verts.len()
                ==> #[trigger] self.vert_in_range(m, v)
        &&& forall|m: int, w: int|
            0 <= m < self.mesh_list.len() && 0 <= w < self.mesh_list[m].weights.len()
                ==> #[trigger] self.weight_in_range(m, w)
    }
}

impl MD5Scene {
    /// Puts the three parts of a scene together, as they are.
    pub fn new(header: MD5MeshHeader, joint_list: Vec<Joint>, mesh_list: Vec<MD5Mesh>) -> (scene:
        MD5Scene)
        ensures
            scene.header == header,
            scene.joint_list == joint_list,
            scene.mesh_list == mesh_list,
    {
        MD5Scene { header, joint_list, mesh_list }
    }
}

} // verus!
