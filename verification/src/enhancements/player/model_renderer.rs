//! A character model: the names of its bones, the order of its triangles
//! on the screen, and which movement drives each joint.

use vstd::prelude::*;
use crate::enhancements::geometry::Point;
use crate::enhancements::grid::GRID_LIMIT;
use crate::enhancements::grid::Shift;
use crate::enhancements::grid::Vector;
use crate::enhancements::grid::Wide;
use crate::enhancements::grid::area_limit;
use crate::enhancements::grid::floor_root;
use crate::enhancements::grid::isqrt;
use crate::enhancements::grid::lemma_mul_bounds;
use crate::enhancements::grid::span_limit;
use crate::enhancements::grid::wide_cross;
use crate::enhancements::grid::wide_diff;
use crate::enhancements::grid::wide_dot;
use crate::text::lowercase;
use crate::text::same;
use crate::text::strip;
use crate::text::to_lowercase;
use crate::text::without_prefix;

verus! {

/// A lower-case bone name without the prefix of the tool that named it.
pub open spec fn bare_name(lower: Seq<char>) -> Seq<char> {
    without_prefix(
        without_prefix(without_prefix(lower, "mixamorig:"@), "valvebiped."@),
        "bip01_"@,
    )
}

/// The name that the skeleton uses for a bone that other conventions call
/// `bare`; `bare` itself where no convention is recognised.
pub open spec fn skeleton_name(bare: Seq<char>) -> Seq<char> {
    if bare == "hips"@ || bare == "pelvis"@ {
        "pelvis"@
    } else if bare == "spine"@ || bare == "spine1"@ || bare == "spine_01"@ {
        "spine_1"@
    } else if bare == "spine2"@ || bare == "spine_02"@ {
        "spine_2"@
    } else if bare == "spine3"@ || bare == "spine_03"@ {
        "spine_3"@
    } else if bare == "neck"@ || bare == "neck1"@ {
        "neck_0"@
    } else if bare == "head"@ {
        "head_0"@
    } else if bare == "leftarm"@ || bare == "l_upperarm"@ || bare == "upperarm_l"@ {
        "arm_upper_L"@
    } else if bare == "leftforearm"@ || bare == "l_forearm"@ || bare == "forearm_l"@ {
        "arm_lower_L"@
    } else if bare == "lefthand"@ || bare == "l_hand"@ || bare == "hand_l"@ {
        "hand_L"@
    } else if bare == "rightarm"@ || bare == "r_upperarm"@ || bare == "upperarm_r"@ {
        "arm_upper_R"@
    } else if bare == "rightforearm"@ || bare == "r_forearm"@ || bare == "forearm_r"@ {
        "arm_lower_R"@
    } else if bare == "righthand"@ || bare == "r_hand"@ || bare == "hand_r"@ {
        "hand_R"@
    } else if bare == "leftupleg"@ || bare == "l_thigh"@ || bare == "thigh_l"@ {
        "leg_upper_L"@
    } else if bare == "leftleg"@ || bare == "l_calf"@ || bare == "calf_l"@ {
        "leg_lower_L"@
    } else if bare == "leftfoot"@ || bare == "l_foot"@ || bare == "foot_l"@ {
        "ankle_L"@
    } else if bare == "rightupleg"@ || bare == "r_thigh"@ || bare == "thigh_r"@ {
        "leg_upper_R"@
    } else if bare == "rightleg"@ || bare == "r_calf"@ || bare == "calf_r"@ {
        "leg_lower_R"@
    } else if bare == "rightfoot"@ || bare == "r_foot"@ || bare == "foot_r"@ {
        "ankle_R"@
    } else {
        bare
    }
}

/// The name under which the skeleton knows the bone that a model calls
/// `name`: in lower case, without the prefix of the tool that named it,
/// and by the skeleton's own word where the bone is a known one.
pub open spec fn normalized(name: Seq<char>) -> Seq<char> {
    skeleton_name(bare_name(lowercase(name)))
}

/// Whether a text is one of three.
fn is_one_of(text: &str, a: &str, b: &str, c: &str) -> (yes: bool)
    ensures
        yes == (text@ == a@ || text@ == b@ || text@ == c@),
{
    same(text, a) || same(text, b) || same(text, c)
}

/// The name under which the skeleton knows the bone that a model calls
/// `name`.
pub fn normalize_bone_name(name: &str) -> (out: String)
    ensures
        out@ == normalized(name@),
{
    let lower = to_lowercase(name);
    let bare = strip(strip(strip(lower.as_str(), "mixamorig:"), "valvebiped."), "bip01_");
    let known: &str = if is_one_of(bare, "hips", "pelvis", "pelvis") {
        "pelvis"
    } else if is_one_of(bare, "spine", "spine1", "spine_01") {
        "spine_1"
    } else if is_one_of(bare, "spine2", "spine_02", "spine_02") {
        "spine_2"
    } else if is_one_of(bare, "spine3", "spine_03", "spine_03") {
        "spine_3"
    } else if is_one_of(bare, "neck", "neck1", "neck1") {
        "neck_0"
    } else if same(bare, "head") {
        "head_0"
    } else if is_one_of(bare, "leftarm", "l_upperarm", "upperarm_l") {
        "arm_upper_L"
    } else if is_one_of(bare, "leftforearm", "l_forearm", "forearm_l") {
        "arm_lower_L"
    } else if is_one_of(bare, "lefthand", "l_hand", "hand_l") {
        "hand_L"
    } else if is_one_of(bare, "rightarm", "r_upperarm", "upperarm_r") {
        "arm_upper_R"
    } else if is_one_of(bare, "rightforearm", "r_forearm", "forearm_r") {
        "arm_lower_R"
    } else if is_one_of(bare, "righthand", "r_hand", "hand_r") {
        "hand_R"
    } else if is_one_of(bare, "leftupleg", "l_thigh", "thigh_l") {
        "leg_upper_L"
    } else if is_one_of(bare, "leftleg", "l_calf", "calf_l") {
        "leg_lower_L"
    } else if is_one_of(bare, "leftfoot", "l_foot", "foot_l") {
        "ankle_L"
    } else if is_one_of(bare, "rightupleg", "r_thigh", "thigh_r") {
        "leg_upper_R"
    } else if is_one_of(bare, "rightleg", "r_calf", "calf_r") {
        "leg_lower_R"
    } else if is_one_of(bare, "rightfoot", "r_foot", "foot_r") {
        "ankle_R"
    } else {
        bare
    };
    known.to_owned()
}

/// Why a model could not be put together.
#[derive(Clone, Copy, PartialEq, Eq, Structural, Debug)]
pub enum ModelError {
    /// The file holds no skin.
    NoSkin,
    /// A part of the mesh has no positions.
    NoPositions,
    /// A part of the mesh has no joints.
    NoJoints,
    /// A part of the mesh has no weights.
    NoWeights,
    /// A part of the mesh does not have as many normals, joints or
    /// weights as it has positions.
    Uneven,
    /// An index of a part names no vertex of the part.
    StrayIndex,
    /// The model has more vertices than an index can name.
    TooLarge,
}

/// What one part of a mesh brings: how many of each attribute it has,
/// where it has the attribute at all, and its indices.
pub struct PrimitiveParts {
    pub positions: Option<usize>,
    pub normals: Option<usize>,
    pub joints: Option<usize>,
    pub weights: Option<usize>,
    pub indices: Option<Vec<u32>>,
}

impl PrimitiveParts {
    /// What is wrong with the part, if anything: a missing attribute, in
    /// the order positions, joints, weights; then uneven counts; then an
    /// index beyond the part's vertices.
    pub open spec fn fault(self) -> Option<ModelError> {
        if self.positions is None {
            Some(ModelError::NoPositions)
        } else if self.joints is None {
            Some(ModelError::NoJoints)
        } else if self.weights is None {
            Some(ModelError::NoWeights)
        } else if (self.normals is Some && self.normals->0 != self.positions->0) || self.joints->0
            != self.positions->0 || self.weights->0 != self.positions->0 {
            Some(ModelError::Uneven)
        } else if self.indices is Some && exists|k: int|
            0 <= k < self.indices->0@.len() && #[trigger] self.indices->0@[k]
                >= self.positions->0 {
            Some(ModelError::StrayIndex)
        } else {
            None
        }
    }
}

impl PrimitiveParts {
    /// What is wrong with the part, if anything.
    pub fn check(&self) -> (fault: Option<ModelError>)
        ensures
            fault == self.fault(),
    {
        let count = match self.positions {
            Some(n) => n,
            None => {
                return Some(ModelError::NoPositions);
            },
        };
        let joints = match self.joints {
            Some(n) => n,
            None => {
                return Some(ModelError::NoJoints);
            },
        };
        let weights = match self.weights {
            Some(n) => n,
            None => {
                return Some(ModelError::NoWeights);
            },
        };
        let normals_even = match self.normals {
            Some(n) => n == count,
            None => true,
        };
        if !normals_even || joints != count || weights != count {
            return Some(ModelError::Uneven);
        }
        match &self.indices {
            Some(list) => {
                let mut k: usize = 0;
                while k < list.len()
                    invariant
                        0 <= k <= list@.len(),
                        self.indices == Some(*list),
                        self.positions == Some(count),
                        self.joints == Some(count),
                        self.weights == Some(count),
                        self.normals is Some ==> self.normals->0 == count,
                        forall|j: int| 0 <= j < k ==> #[trigger] list@[j] < count,
                    decreases list@.len() - k,
                {
                    if list[k] as usize >= count {
                        assert(self.indices->0@[k as int] >= self.positions->0);
                        return Some(ModelError::StrayIndex);
                    }
                    k = k + 1;
                }
            },
            None => {},
        }
        None
    }
}

/// The shape of a rigged mesh: how many vertices it has, the triangles as
/// triples of vertex indices, the name of the bone that drives each joint,
/// and for how many joints a bind matrix is known.
///
/// The vertices themselves, the weights and the matrices are the
/// caller's; they are numbered as here.
pub struct SkinnedMesh {
    pub vertex_count: u32,
    pub indices: Vec<u32>,
    pub joint_names: Vec<Option<String>>,
    pub bind_count: usize,
}

impl SkinnedMesh {
    /// Every index names a vertex.
    pub open spec fn well_formed(self) -> bool {
        forall|k: int| 0 <= k < self.indices@.len() ==> #[trigger] self.indices@[k] < self.vertex_count
    }

    /// A mesh without vertices, with the given joints.
    pub fn new(joint_names: Vec<Option<String>>, bind_count: usize) -> (mesh: SkinnedMesh)
        ensures
            mesh.vertex_count == 0,
            mesh.indices@.len() == 0,
            mesh.joint_names == joint_names,
            mesh.bind_count == bind_count,
            mesh.well_formed(),
    {
        SkinnedMesh { vertex_count: 0, indices: Vec::new(), joint_names, bind_count }
    }

    /// The mesh for the first skin of a file, without vertices yet. `joints`
    /// are the names of the skin's joints as the file has them, and
    /// `bind_count` is the number of its bind matrices. Each joint is named
    /// as the skeleton names its bone. A file without a skin gives no
    /// mesh.
    pub fn for_skin(joints: Option<&Vec<Option<String>>>, bind_count: usize) -> (out: Result<
        SkinnedMesh,
        ModelError,
    >)
        ensures
            match joints {
                None => out is Err && out->Err_0 == ModelError::NoSkin,
                Some(raw) => {
                    &&& out is Ok
                    &&& out->Ok_0.well_formed()
                    &&& out->Ok_0.vertex_count == 0
                    &&& out->Ok_0.indices@.len() == 0
                    &&& out->Ok_0.bind_count == bind_count
                    &&& out->Ok_0.joint_names@.len() == raw@.len()
                    &&& forall|j: int|
                        0 <= j < raw@.len() ==> match #[trigger] raw@[j] {
                            Some(name) => out->Ok_0.joint_names@[j] is Some
                                && out->Ok_0.joint_names@[j]->0@ == normalized(name@),
                            None => out->Ok_0.joint_names@[j] is None,
                        }
                },
            },
    {
        let raw = match joints {
            Some(raw) => raw,
            None => {
                return Err(ModelError::NoSkin);
            },
        };
        let mut names: Vec<Option<String>> = Vec::new();
        let mut j: usize = 0;
        while j < raw.len()
            invariant
                0 <= j <= raw@.len(),
                names@.len() == j,
                forall|i: int|
                    0 <= i < j ==> match #[trigger] raw@[i] {
                        Some(name) => names@[i] is Some && names@[i]->0@ == normalized(name@),
                        None => names@[i] is None,
                    },
            decreases raw@.len() - j,
        {
            let named = match &raw[j] {
                Some(name) => Some(normalize_bone_name(name.as_str())),
                None => None,
            };
            names.push(named);
            j = j + 1;
        }
        Ok(SkinnedMesh::new(names, bind_count))
    }

    /// Takes one more part into the mesh. The part's vertices follow those
    /// that the mesh has, and its indices are shifted by as many.
    ///
    /// A part with a fault is not taken, nor one that would bring the mesh
    /// to more vertices than an index can name; the mesh stays as it is.
    #[verifier::rlimit(40)]
    pub fn add_primitive(&mut self, parts: &PrimitiveParts) -> (done: Result<(), ModelError>)
        requires
            old(self).well_formed(),
        ensures
            final(self).well_formed(),
            final(self).joint_names == old(self).joint_names,
            final(self).bind_count == old(self).bind_count,
            match parts.fault() {
                Some(e) => done == Err::<(), ModelError>(e) && *final(self) == *old(self),
                None => if old(self).vertex_count + parts.positions->0 > u32::MAX {
                    done == Err::<(), ModelError>(ModelError::TooLarge) && *final(self) == *old(self)
                } else {
                    &&& done is Ok
                    &&& final(self).vertex_count == old(self).vertex_count + parts.positions->0
                    &&& final(self).indices@ == old(self).indices@ + shifted_indices(
                        parts.indices,
                        old(self).vertex_count,
                    )
                },
            },
    {
        match parts.check() {
            Some(e) => {
                return Err(e);
            },
            None => {},
        }
        let count = match parts.positions {
            Some(n) => n,
            None => 0,
        };
        let base = self.vertex_count;
        if count > (u32::MAX - base) as usize {
            return Err(ModelError::TooLarge);
        }
        let ghost before = self.indices@;
        match &parts.indices {
            Some(list) => {
                let mut k: usize = 0;
                while k < list.len()
                    invariant
                        0 <= k <= list@.len(),
                        base + count <= u32::MAX,
                        base == self.vertex_count,
                        self.joint_names == old(self).joint_names,
                        self.bind_count == old(self).bind_count,
                        forall|j: int| 0 <= j < list@.len() ==> #[trigger] list@[j] < count,
                        self.indices@ == before + shifted_indices(
                            Some(*list),
                            base,
                        ).subrange(0, k as int),
                    decreases list@.len() - k,
                {
                    self.indices.push(list[k] + base);
                    k = k + 1;
                    assert(self.indices@ =~= before + shifted_indices(Some(*list), base).subrange(
                        0,
                        k as int,
                    ));
                }
                assert(shifted_indices(Some(*list), base).subrange(0, k as int) =~= shifted_indices(
                    Some(*list),
                    base,
                ));
            },
            None => {
                assert(self.indices@ =~= before + shifted_indices(None, base));
            },
        }
        self.vertex_count = base + count as u32;
        Ok(())
    }
}

/// The indices of a part, each shifted by `base`; none for a part without
/// indices.
pub open spec fn shifted_indices(indices: Option<Vec<u32>>, base: u32) -> Seq<u32> {
    match indices {
        Some(list) => Seq::new(list@.len(), |k: int| (list@[k] + base) as u32),
        None => Seq::empty(),
    }
}

/// The place of the first of `names` that is `wanted`.
pub open spec fn first_named(names: Seq<String>, wanted: Seq<char>, from: int) -> Option<int>
    decreases names.len() - from,
{
    if from < 0 || from >= names.len() {
        None
    } else if names[from]@ == wanted {
        Some(from)
    } else {
        first_named(names, wanted, from + 1)
    }
}

/// The place of the first of `names` that is `wanted`.
pub fn find_bone(names: &Vec<String>, wanted: &str) -> (at: Option<usize>)
    ensures
        match first_named(names@, wanted@, 0) {
            Some(k) => at == Some(k as usize) && 0 <= k < names@.len() && names@[k]@ == wanted@,
            None => at is None,
        },
        at is Some ==> at->0 < names@.len() && names@[at->0 as int]@ == wanted@,
        at is None ==> forall|k: int| 0 <= k < names@.len() ==> (#[trigger] names@[k])@ != wanted@,
{
    let mut k: usize = 0;
    while k < names.len()
        invariant
            0 <= k <= names@.len(),
            first_named(names@, wanted@, 0) == first_named(names@, wanted@, k as int),
            forall|j: int| 0 <= j < k ==> (#[trigger] names@[j])@ != wanted@,
        decreases names@.len() - k,
    {
        if same(names[k].as_str(), wanted) {
            return Some(k);
        }
        k = k + 1;
    }
    None
}

/// What drives a joint.
#[derive(Clone, Copy, PartialEq, Eq, Structural, Debug)]
pub enum JointSource {
    /// The movement of the bone at this place among the movements that
    /// the caller has.
    Bone(usize),
    /// The movement that stands in for a bone that the caller has no
    /// movement of.
    Fallback,
    /// Nothing: the joint has no name and stays as the model has it.
    Unnamed,
}

/// What stands in for the movement of a missing bone.
#[derive(Clone, Copy, PartialEq, Eq, Structural, Debug)]
pub enum FallbackSource {
    /// The movement of the pelvis, at this place.
    Pelvis(usize),
    /// The movement of the root, at this place.
    Root(usize),
    /// No movement at all.
    Identity,
}

/// What stands in for the movement of a missing bone: the pelvis where
/// the caller has it, else the root, else nothing.
pub open spec fn fallback_of(names: Seq<String>) -> FallbackSource {
    match first_named(names, "pelvis"@, 0) {
        Some(k) => FallbackSource::Pelvis(k as usize),
        None => match first_named(names, "root"@, 0) {
            Some(k) => FallbackSource::Root(k as usize),
            None => FallbackSource::Identity,
        },
    }
}

/// What stands in for the movement of a missing bone.
pub fn fallback_source(names: &Vec<String>) -> (source: FallbackSource)
    ensures
        source == fallback_of(names@),
{
    match find_bone(names, "pelvis") {
        Some(k) => FallbackSource::Pelvis(k),
        None => match find_bone(names, "root") {
            Some(k) => FallbackSource::Root(k),
            None => FallbackSource::Identity,
        },
    }
}

/// What drives the joint with the given name.
pub open spec fn source_of(name: Option<String>, names: Seq<String>) -> JointSource {
    match name {
        None => JointSource::Unnamed,
        Some(n) => match first_named(names, n@, 0) {
            Some(k) => JointSource::Bone(k as usize),
            None => JointSource::Fallback,
        },
    }
}

/// One of the first `count` joints has the given name and falls back,
/// because the caller has no movement of that name.
pub open spec fn falls_back(
    joint_names: Seq<Option<String>>,
    names: Seq<String>,
    name: Seq<char>,
    count: int,
) -> bool {
    exists|i: int|
        0 <= i < count && source_of(#[trigger] joint_names[i], names) == JointSource::Fallback
            && joint_names[i]->0@ == name
}

/// The names that were found missing, each once.
pub struct MissingBones {
    pub names: Vec<String>,
}

impl MissingBones {
    /// No name is held twice.
    pub open spec fn well_formed(self) -> bool {
        forall|i: int, j: int|
            0 <= i < j < self.names@.len() ==> (#[trigger] self.names@[i])@ != (
            #[trigger] self.names@[j])@
    }

    /// The name is held.
    pub open spec fn holds(self, name: Seq<char>) -> bool {
        exists|k: int| 0 <= k < self.names@.len() && (#[trigger] self.names@[k])@ == name
    }

    /// No name is held yet.
    pub fn new() -> (out: MissingBones)
        ensures
            out.names@.len() == 0,
            out.well_formed(),
    {
        MissingBones { names: Vec::new() }
    }

    /// Notes that a bone is missing, and says whether that is news.
    pub fn record(&mut self, name: &str) -> (news: bool)
        requires
            old(self).well_formed(),
        ensures
            final(self).well_formed(),
            news == !old(self).holds(name@),
            final(self).holds(name@),
            !news ==> final(self).names@ == old(self).names@,
            news ==> final(self).names@.len() == old(self).names@.len() + 1 && final(self).names@.subrange(0, old(self).names@.len() as int) == old(self).names@ && final(self).names@[old(self).names@.len() as int]@ == name@,
    {
        match find_bone(&self.names, name) {
            Some(k) => {
                assert(self.names@[k as int]@ == name@);
                false
            },
            None => {
                let ghost before = self.names@;
                self.names.push(name.to_owned());
                assert(self.names@.subrange(0, before.len() as int) =~= before);
                assert(self.names@[before.len() as int]@ == name@);
                true
            },
        }
    }
}

impl SkinnedMesh {
    /// Finds for every joint what drives it: the bone of its name among
    /// the movements that the caller has, by their names; the fallback
    /// where the caller has none of that name; nothing where the joint
    /// has no name. Every name without a movement is noted as missing.
    #[verifier::rlimit(40)]
    pub fn resolve_joints(&self, names: &Vec<String>, missing: &mut MissingBones) -> (out: Vec<
        JointSource,
    >)
        requires
            old(missing).well_formed(),
        ensures
            final(missing).well_formed(),
            out@.len() == self.joint_names@.len(),
            forall|j: int|
                0 <= j < out@.len() ==> #[trigger] out@[j] == source_of(
                    self.joint_names@[j],
                    names@,
                ),
            forall|j: int|
                0 <= j < out@.len() && (#[trigger] out@[j]) == JointSource::Fallback ==> final(missing).holds(self.joint_names@[j]->0@),
            forall|name: Seq<char>| old(missing).holds(name) ==> final(missing).holds(name),
            forall|name: Seq<char>|
                final(missing).holds(name) ==> old(missing).holds(name) || falls_back(
                    self.joint_names@,
                    names@,
                    name,
                    self.joint_names@.len() as int,
                ),
    {
        let mut out: Vec<JointSource> = Vec::new();
        let mut j: usize = 0;
        while j < self.joint_names.len()
            invariant
                0 <= j <= self.joint_names@.len(),
                missing.well_formed(),
                out@.len() == j,
                forall|i: int|
                    0 <= i < j ==> #[trigger] out@[i] == source_of(self.joint_names@[i], names@),
                forall|i: int|
                    0 <= i < j && (#[trigger] out@[i]) == JointSource::Fallback ==> missing.holds(
                        self.joint_names@[i]->0@,
                    ),
                forall|name: Seq<char>| old(missing).holds(name) ==> missing.holds(name),
                forall|name: Seq<char>|
                    missing.holds(name) ==> old(missing).holds(name) || falls_back(
                        self.joint_names@,
                        names@,
                        name,
                        j as int,
                    ),
            decreases self.joint_names@.len() - j,
        {
            let ghost held = *missing;
            let source = match &self.joint_names[j] {
                None => JointSource::Unnamed,
                Some(name) => match find_bone(names, name.as_str()) {
                    Some(k) => JointSource::Bone(k),
                    None => {
                        missing.record(name.as_str());
                        JointSource::Fallback
                    },
                },
            };
            proof {
                assert forall|name: Seq<char>|
                    missing.holds(name) implies old(missing).holds(name) || falls_back(
                    self.joint_names@,
                    names@,
                    name,
                    j + 1,
                ) by {
                    let k = choose|k: int|
                        0 <= k < missing.names@.len() && (#[trigger] missing.names@[k])@ == name;
                    if k < held.names@.len() {
                        if missing.names@.len() > held.names@.len() {
                            assert(missing.names@.subrange(0, held.names@.len() as int)[k]
                                == missing.names@[k]);
                        }
                        assert(held.names@[k]@ == name);
                        assert(held.holds(name));
                        if !old(missing).holds(name) {
                            let i = choose|i: int|
                                0 <= i < j && source_of(#[trigger] self.joint_names@[i], names@)
                                    == JointSource::Fallback && self.joint_names@[i]->0@ == name;
                            assert(source_of(self.joint_names@[i], names@) == JointSource::Fallback);
                        }
                    } else {
                        assert(source_of(self.joint_names@[j as int], names@)
                            == JointSource::Fallback);
                        assert(self.joint_names@[j as int]->0@ == name);
                    }
                }
                assert forall|name: Seq<char>| held.holds(name) implies missing.holds(name) by {
                    let k = choose|k: int|
                        0 <= k < held.names@.len() && (#[trigger] held.names@[k])@ == name;
                    if missing.names@.len() > held.names@.len() {
                        assert(missing.names@.subrange(0, held.names@.len() as int)[k]
                            == missing.names@[k]);
                    }
                    assert(missing.names@[k]@ == name);
                }
            }
            out.push(source);
            j = j + 1;
        }
        out
    }
}

/// A point of the screen.
#[derive(Clone, Copy, PartialEq, Eq, Structural, Debug)]
pub struct ScreenPoint {
    pub x: i32,
    pub y: i32,
}

/// A triangle as it is drawn: its corners on the screen, and how far it is
/// from the camera.
#[derive(Clone, Copy, PartialEq, Eq, Structural, Debug)]
pub struct RenderTri {
    pub p0: ScreenPoint,
    pub p1: ScreenPoint,
    pub p2: ScreenPoint,
    /// The squared distances of the three corners from the camera, added
    /// up: three times their mean.
    pub z: u64,
    /// How brightly the triangle is lit, from 0 for not at all to 255 for
    /// fully.
    pub light: u8,
}

/// How the triangles of a model are lit.
#[derive(Clone, Copy, PartialEq, Eq, Structural, Debug)]
pub enum Shading {
    /// Not at all: every triangle shows the colour as it is.
    Tint,
    /// By one far light: a triangle is the brighter the more it faces
    /// the direction to the light.
    Lit { toward_light: Shift },
}

/// How brightly a surface with the normal `n` is lit from the direction
/// `l`: by the cosine of the angle between the two, in 255ths, and not at
/// all from behind. The two lengths are rounded down, and what comes out
/// brighter than fully lit for that is fully lit.
pub open spec fn light_from(n: Vector, l: Vector) -> int {
    let facing = if n.dot(l) > 0 {
        n.dot(l)
    } else {
        0
    };
    let scaled = (255 * facing) / (floor_root(n.dot(n)) * floor_root(l.dot(l)));
    if scaled > 255 {
        255
    } else {
        scaled
    }
}

/// How brightly a triangle with the normal `n` is lit. A triangle without
/// an area, and a light without a direction or with one beyond the grid
/// limit, give full light.
pub open spec fn light_on(n: Vector, shading: Shading) -> u8 {
    match shading {
        Shading::Tint => 255,
        Shading::Lit { toward_light } => if n.dot(n) > 0 && toward_light@.dot(toward_light@) > 0
            && toward_light@.within(GRID_LIMIT as int) {
            light_from(n, toward_light@) as u8
        } else {
            255
        },
    }
}

/// How brightly a triangle with the normal `n` is lit.
#[verifier::rlimit(40)]
pub fn light_of(n: &Wide, shading: &Shading) -> (light: u8)
    requires
        n@.within(area_limit()),
    ensures
        light == light_on(n@, *shading),
{
    let l = match shading {
        Shading::Tint => {
            return 255;
        },
        Shading::Lit { toward_light } => *toward_light,
    };
    if l.x < -GRID_LIMIT || l.x > GRID_LIMIT || l.y < -GRID_LIMIT || l.y > GRID_LIMIT || l.z
        < -GRID_LIMIT || l.z > GRID_LIMIT {
        return 255;
    }
    proof {
        lemma_mul_bounds(n.x as int, n.x as int, area_limit(), area_limit());
        lemma_mul_bounds(n.y as int, n.y as int, area_limit(), area_limit());
        lemma_mul_bounds(n.z as int, n.z as int, area_limit(), area_limit());
        lemma_mul_bounds(l.x as int, l.x as int, GRID_LIMIT as int, GRID_LIMIT as int);
        lemma_mul_bounds(l.y as int, l.y as int, GRID_LIMIT as int, GRID_LIMIT as int);
        lemma_mul_bounds(l.z as int, l.z as int, GRID_LIMIT as int, GRID_LIMIT as int);
        lemma_mul_bounds(n.x as int, l.x as int, area_limit(), GRID_LIMIT as int);
        lemma_mul_bounds(n.y as int, l.y as int, area_limit(), GRID_LIMIT as int);
        lemma_mul_bounds(n.z as int, l.z as int, area_limit(), GRID_LIMIT as int);
        assert(n.x * n.x >= 0 && n.y * n.y >= 0 && n.z * n.z >= 0) by (nonlinear_arith);
        assert(l.x * l.x >= 0 && l.y * l.y >= 0 && l.z * l.z >= 0) by (nonlinear_arith);
    }
    let (nx, ny, nz) = (n.x as i128, n.y as i128, n.z as i128);
    let (lx, ly, lz) = (l.x as i128, l.y as i128, l.z as i128);
    let nn: i128 = nx * nx + ny * ny + nz * nz;
    let ll: i128 = lx * lx + ly * ly + lz * lz;
    if nn == 0 || ll == 0 {
        return 255;
    }
    let n_len = isqrt(nn as u128);
    let l_len = isqrt(ll as u128);
    let along: i128 = nx * lx + ny * ly + nz * lz;
    let facing: i128 = if along > 0 {
        along
    } else {
        0
    };
    proof {
        let (a, b) = (n_len as int, l_len as int);
        assert(a >= 1) by (nonlinear_arith)
            requires
                a >= 0,
                (a + 1) * (a + 1) > 1,
        ;
        assert(b >= 1) by (nonlinear_arith)
            requires
                b >= 0,
                (b + 1) * (b + 1) > 1,
        ;
        assert(a <= 0x1_0000_0000_0000) by (nonlinear_arith)
            requires
                a >= 0,
                a * a <= 3 * (2199023255552 * 2199023255552),
        ;
        assert(b <= 0x10_0000) by (nonlinear_arith)
            requires
                b >= 0,
                b * b <= 3 * (524288 * 524288),
        ;
        lemma_mul_bounds(a, b, 0x1_0000_0000_0000, 0x10_0000);
        assert(a * b >= 1) by (nonlinear_arith)
            requires
                a >= 1,
                b >= 1,
        ;
    }
    let den: i128 = (n_len as i128) * (l_len as i128);
    let scaled: i128 = (255 * facing) / den;
    if scaled > 255 {
        255
    } else {
        proof {
            vstd::arithmetic::div_mod::lemma_div_pos_is_pos(255 * facing as int, den as int);
        }
        scaled as u8
    }
}

/// The squared distance between two points.
pub open spec fn apart_squared(a: Point, b: Point) -> int {
    a.at().minus(b.at()).dot(a.at().minus(b.at()))
}

/// The triangle shows its front to the camera: its face normal points
/// against the line from the camera to the triangle.
pub open spec fn faces_camera(v0: Point, v1: Point, v2: Point, camera: Point) -> bool {
    v1.at().minus(v0.at()).cross(v2.at().minus(v0.at())).dot(v0.at().minus(camera.at())) < 0
}

/// What is drawn for the triangle with the corners `i0`, `i1` and `i2`:
/// nothing where it shows its back to the camera or a corner is not on the
/// screen.
pub open spec fn drawn(
    world: Seq<Point>,
    screen: Seq<Option<ScreenPoint>>,
    camera: Point,
    shading: Shading,
    i0: int,
    i1: int,
    i2: int,
) -> Option<RenderTri> {
    if faces_camera(world[i0], world[i1], world[i2], camera) && screen[i0] is Some && screen[i1]
        is Some && screen[i2] is Some {
        Some(
            RenderTri {
                p0: screen[i0]->0,
                p1: screen[i1]->0,
                p2: screen[i2]->0,
                z: (apart_squared(world[i0], camera) + apart_squared(world[i1], camera)
                    + apart_squared(world[i2], camera)) as u64,
                light: light_on(
                    world[i1].at().minus(world[i0].at()).cross(
                        world[i2].at().minus(world[i0].at()),
                    ),
                    shading,
                ),
            },
        )
    } else {
        None
    }
}

/// What is drawn for the first `count` triples of indices, in their
/// order.
pub open spec fn assembled(
    indices: Seq<u32>,
    world: Seq<Point>,
    screen: Seq<Option<ScreenPoint>>,
    camera: Point,
    shading: Shading,
    count: int,
) -> Seq<RenderTri>
    decreases count,
{
    if count <= 0 {
        Seq::empty()
    } else {
        let before = assembled(indices, world, screen, camera, shading, count - 1);
        let at = 3 * (count - 1);
        match drawn(
            world,
            screen,
            camera,
            shading,
            indices[at] as int,
            indices[at + 1] as int,
            indices[at + 2] as int,
        ) {
            Some(t) => before.push(t),
            None => before,
        }
    }
}

/// The far triangles come first.
pub open spec fn far_first(tris: Seq<RenderTri>) -> bool {
    forall|i: int, j: int| 0 <= i < j < tris.len() ==> (#[trigger] tris[i]).z >= (#[trigger] tris[j]).z
}

/// Puts the far triangles first.
///
/// This is `sort_unstable_by_key` of the standard library's slices, with
/// the distance in reverse as the key: the triangles stay the same, and
/// none comes before one that is farther. The order of triangles that are
/// equally far is left open.
#[verifier::external_body]
fn sort_far_first(tris: &mut Vec<RenderTri>)
    ensures
        final(tris)@.to_multiset() == old(tris)@.to_multiset(),
        final(tris)@.len() == old(tris)@.len(),
        far_first(final(tris)@),
{
    tris.sort_unstable_by_key(|t| core::cmp::Reverse(t.z));
}

/// The squared distance between two points of the grid.
fn squared_apart(a: &Point, b: &Point) -> (d: u64)
    requires
        a.in_grid(),
        b.in_grid(),
    ensures
        d == apart_squared(*a, *b),
        d <= 3 * (span_limit() * span_limit()),
{
    let w = wide_diff(a, b);
    proof {
        lemma_mul_bounds(w.x as int, w.x as int, span_limit(), span_limit());
        lemma_mul_bounds(w.y as int, w.y as int, span_limit(), span_limit());
        lemma_mul_bounds(w.z as int, w.z as int, span_limit(), span_limit());
        assert(w.x * w.x >= 0 && w.y * w.y >= 0 && w.z * w.z >= 0) by (nonlinear_arith);
    }
    (w.x * w.x + w.y * w.y + w.z * w.z) as u64
}

/// What is drawn for one triangle.
#[verifier::rlimit(40)]
fn draw_one(
    world: &Vec<Point>,
    screen: &Vec<Option<ScreenPoint>>,
    camera: &Point,
    shading: &Shading,
    i0: usize,
    i1: usize,
    i2: usize,
) -> (out: Option<RenderTri>)
    requires
        world@.len() == screen@.len(),
        i0 < world@.len(),
        i1 < world@.len(),
        i2 < world@.len(),
        camera.in_grid(),
        world@[i0 as int].in_grid(),
        world@[i1 as int].in_grid(),
        world@[i2 as int].in_grid(),
    ensures
        out == drawn(world@, screen@, *camera, *shading, i0 as int, i1 as int, i2 as int),
{
    let v0 = world[i0];
    let v1 = world[i1];
    let v2 = world[i2];
    let e1 = wide_diff(&v1, &v0);
    let e2 = wide_diff(&v2, &v0);
    let normal = wide_cross(&e1, &e2);
    let view = wide_diff(&v0, camera);
    if wide_dot(&view, &normal) >= 0 {
        proof {
            assert(view@.dot(normal@) == normal@.dot(view@)) by (nonlinear_arith)
                requires
                    view@.dot(normal@) == view@.x * normal@.x + view@.y * normal@.y + view@.z
                        * normal@.z,
                    normal@.dot(view@) == normal@.x * view@.x + normal@.y * view@.y + normal@.z
                        * view@.z,
            ;
        }
        return None;
    }
    proof {
        assert(view@.dot(normal@) == normal@.dot(view@)) by (nonlinear_arith)
            requires
                view@.dot(normal@) == view@.x * normal@.x + view@.y * normal@.y + view@.z
                    * normal@.z,
                normal@.dot(view@) == normal@.x * view@.x + normal@.y * view@.y + normal@.z
                    * view@.z,
        ;
    }
    match (screen[i0], screen[i1], screen[i2]) {
        (Some(p0), Some(p1), Some(p2)) => {
            let z = squared_apart(&v0, camera) + squared_apart(&v1, camera) + squared_apart(
                &v2,
                camera,
            );
            Some(RenderTri { p0, p1, p2, z, light: light_of(&normal, shading) })
        },
        _ => None,
    }
}

/// Every point is on the grid.
pub open spec fn all_in_grid(points: Seq<Point>) -> bool {
    forall|k: int| 0 <= k < points.len() ==> (#[trigger] points[k]).in_grid()
}

/// Whether every point is on the grid.
pub fn points_fit_grid(points: &Vec<Point>) -> (ok: bool)
    ensures
        ok == all_in_grid(points@),
{
    let mut k: usize = 0;
    while k < points.len()
        invariant
            0 <= k <= points@.len(),
            forall|j: int| 0 <= j < k ==> (#[trigger] points@[j]).in_grid(),
        decreases points@.len() - k,
    {
        if !points[k].is_in_grid() {
            return false;
        }
        k = k + 1;
    }
    true
}

impl SkinnedMesh {
    /// How many triangles the mesh has: the indices in threes, without
    /// what is left over.
    pub open spec fn triangle_count(self) -> int {
        self.indices@.len() as int / 3
    }

    /// The triangles of the mesh as they are drawn, in the order of the
    /// mesh: of each triple of indices the triangle, unless it shows its
    /// back to the camera or a corner is not on the screen.
    ///
    /// `world` holds where each vertex is and `screen` where it is seen,
    /// if it is.
    pub fn assemble(
        &self,
        world: &Vec<Point>,
        screen: &Vec<Option<ScreenPoint>>,
        camera: &Point,
        shading: &Shading,
    ) -> (out: Vec<RenderTri>)
        requires
            self.well_formed(),
            world@.len() == self.vertex_count,
            screen@.len() == self.vertex_count,
            all_in_grid(world@),
            camera.in_grid(),
        ensures
            out@ == assembled(
                self.indices@,
                world@,
                screen@,
                *camera,
                *shading,
                self.triangle_count(),
            ),
    {
        let mut out: Vec<RenderTri> = Vec::new();
        let count = self.indices.len() / 3;
        let mut k: usize = 0;
        while k < count
            invariant
                0 <= k <= count,
                count == self.triangle_count(),
                3 * count <= self.indices@.len() <= usize::MAX,
                self.well_formed(),
                world@.len() == self.vertex_count,
                screen@.len() == self.vertex_count,
                all_in_grid(world@),
                camera.in_grid(),
                out@ == assembled(self.indices@, world@, screen@, *camera, *shading, k as int),
            decreases count - k,
        {
            let i0 = self.indices[3 * k] as usize;
            let i1 = self.indices[3 * k + 1] as usize;
            let i2 = self.indices[3 * k + 2] as usize;
            match draw_one(world, screen, camera, shading, i0, i1, i2) {
                Some(t) => {
                    out.push(t);
                },
                None => {},
            }
            k = k + 1;
        }
        out
    }

    /// The triangles of the mesh as they are drawn, the far ones first, so
    /// that a near triangle is painted over a far one.
    pub fn render_order(
        &self,
        world: &Vec<Point>,
        screen: &Vec<Option<ScreenPoint>>,
        camera: &Point,
        shading: &Shading,
    ) -> (out: Vec<RenderTri>)
        requires
            self.well_formed(),
            world@.len() == self.vertex_count,
            screen@.len() == self.vertex_count,
            all_in_grid(world@),
            camera.in_grid(),
        ensures
            out@.to_multiset() == assembled(
                self.indices@,
                world@,
                screen@,
                *camera,
                *shading,
                self.triangle_count(),
            ).to_multiset(),
            far_first(out@),
    {
        let mut out = self.assemble(world, screen, camera, shading);
        sort_far_first(&mut out);
        out
    }
}

/// The least of three numbers.
pub open spec fn least3(a: i32, b: i32, c: i32) -> i32 {
    if a <= b && a <= c {
        a
    } else if b <= c {
        b
    } else {
        c
    }
}

/// The greatest of three numbers.
pub open spec fn most3(a: i32, b: i32, c: i32) -> i32 {
    if a >= b && a >= c {
        a
    } else if b >= c {
        b
    } else {
        c
    }
}

/// A box on the screen.
#[derive(Clone, Copy, PartialEq, Eq, Structural, Debug)]
pub struct ScreenBox {
    pub min: ScreenPoint,
    pub max: ScreenPoint,
}

impl ScreenBox {
    /// The box that just holds the triangle.
    pub open spec fn around(t: RenderTri) -> ScreenBox {
        ScreenBox {
            min: ScreenPoint {
                x: least3(t.p0.x, t.p1.x, t.p2.x),
                y: least3(t.p0.y, t.p1.y, t.p2.y),
            },
            max: ScreenPoint {
                x: most3(t.p0.x, t.p1.x, t.p2.x),
                y: most3(t.p0.y, t.p1.y, t.p2.y),
            },
        }
    }

    /// The box that just holds both boxes.
    pub open spec fn with(self, other: ScreenBox) -> ScreenBox {
        ScreenBox {
            min: ScreenPoint {
                x: if self.min.x <= other.min.x {
                    self.min.x
                } else {
                    other.min.x
                },
                y: if self.min.y <= other.min.y {
                    self.min.y
                } else {
                    other.min.y
                },
            },
            max: ScreenPoint {
                x: if self.max.x >= other.max.x {
                    self.max.x
                } else {
                    other.max.x
                },
                y: if self.max.y >= other.max.y {
                    self.max.y
                } else {
                    other.max.y
                },
            },
        }
    }
}

/// The box that just holds the first `count` triangles; none where there
/// is no triangle.
pub open spec fn bounds_of_drawn(tris: Seq<RenderTri>, count: int) -> Option<ScreenBox>
    decreases count,
{
    if count <= 0 {
        None
    } else {
        let this = ScreenBox::around(tris[count - 1]);
        match bounds_of_drawn(tris, count - 1) {
            Some(b) => Some(b.with(this)),
            None => Some(this),
        }
    }
}

/// The lesser of two numbers.
fn lesser_of(a: i32, b: i32) -> (m: i32)
    ensures
        m == (if a <= b {
            a
        } else {
            b
        }),
{
    if a <= b {
        a
    } else {
        b
    }
}

/// The greater of two numbers.
fn greater_of(a: i32, b: i32) -> (m: i32)
    ensures
        m == (if a >= b {
            a
        } else {
            b
        }),
{
    if a >= b {
        a
    } else {
        b
    }
}

/// The box on the screen that just holds what is drawn; none where
/// nothing is drawn.
pub fn screen_bounds(tris: &Vec<RenderTri>) -> (bounds: Option<ScreenBox>)
    ensures
        bounds == bounds_of_drawn(tris@, tris@.len() as int),
        bounds is None <==> tris@.len() == 0,
{
    let mut bounds: Option<ScreenBox> = None;
    let mut k: usize = 0;
    while k < tris.len()
        invariant
            0 <= k <= tris@.len(),
            bounds == bounds_of_drawn(tris@, k as int),
            bounds is None <==> k == 0,
        decreases tris@.len() - k,
    {
        let t = tris[k];
        let this = ScreenBox {
            min: ScreenPoint {
                x: lesser_of(t.p0.x, lesser_of(t.p1.x, t.p2.x)),
                y: lesser_of(t.p0.y, lesser_of(t.p1.y, t.p2.y)),
            },
            max: ScreenPoint {
                x: greater_of(t.p0.x, greater_of(t.p1.x, t.p2.x)),
                y: greater_of(t.p0.y, greater_of(t.p1.y, t.p2.y)),
            },
        };
        assert(this == ScreenBox::around(t));
        bounds = match bounds {
            Some(b) => Some(
                ScreenBox {
                    min: ScreenPoint {
                        x: lesser_of(b.min.x, this.min.x),
                        y: lesser_of(b.min.y, this.min.y),
                    },
                    max: ScreenPoint {
                        x: greater_of(b.max.x, this.max.x),
                        y: greater_of(b.max.y, this.max.y),
                    },
                },
            ),
            None => Some(this),
        };
        k = k + 1;
    }
    bounds
}

} // verus!
