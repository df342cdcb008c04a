//! Skin binding: the ancestor chain of each bone in the authored bone
//! hierarchy, from which a bone's global transform is composed, and the
//! joints of each skinned mesh.
//!
//! A bone's global transform is the product, in chain order, of the local
//! transforms of the bones of its chain: the root-most bone first, the bone
//! itself last. Its inverse bind matrix is the inverse of that product.
use vstd::prelude::*;
use vstd::string::StringExecFns;

verus! {

/// A bone of one loaded directory, as authored.
pub struct BoneRecord {
    /// The bone's name.
    pub name: String,
    /// The name of its parent bone; empty for a root bone.
    pub parent: String,
    /// The node the bone was placed as.
    pub node: u64,
}

/// Where one joint of a skinned mesh is bound.
#[derive(Clone, Copy, PartialEq, Eq, Structural, Debug)]
pub enum JointSlot {
    /// Bound to the placed node of `bones[bone]`, with that bone's inverse
    /// bind matrix.
    Bound { node: u64, bone: usize },
    /// The declared bone cannot be bound: the slot takes the "no node"
    /// placeholder and the identity matrix.
    Unbound,
}

/// The first bone named `name`.
pub open spec fn bone_index(bones: Seq<BoneRecord>, name: Seq<char>) -> Option<int>
    decreases bones.len(),
{
    if bones.len() == 0 {
        None
    } else {
        match bone_index(bones.drop_last(), name) {
            Some(i) => Some(i),
            None => if bones.last().name@ == name {
                Some(bones.len() - 1)
            } else {
                None
            },
        }
    }
}

/// The chain of bone `i` found within `fuel` steps up its parents: the
/// root-most ancestor first, `i` last. A parent name that no bone carries
/// ends the chain as an empty one does.
pub open spec fn chain_within(bones: Seq<BoneRecord>, i: int, fuel: nat) -> Option<Seq<int>>
    decreases fuel,
{
    if fuel == 0 {
        None
    } else if bones[i].parent@.len() == 0 {
        Some(seq![i])
    } else {
        match bone_index(bones, bones[i].parent@) {
            None => Some(seq![i]),
            Some(j) => match chain_within(bones, j, (fuel - 1) as nat) {
                Some(c) => Some(c.push(i)),
                None => None,
            },
        }
    }
}

/// The chain of bone `i`, found within as many steps as there are bones;
/// `None` when the walk up the parents has not ended by then, so that the
/// parent names loop.
pub open spec fn bone_chain(bones: Seq<BoneRecord>, i: int) -> Option<Seq<int>> {
    chain_within(bones, i, bones.len())
}

/// A chain of indices, as integers.
pub open spec fn as_ints(s: Seq<usize>) -> Seq<int> {
    s.map_values(|x: usize| x as int)
}

/// `Some(c + tail)` from `Some(c)`.
pub open spec fn extended(c: Option<Seq<int>>, tail: Seq<int>) -> Option<Seq<int>> {
    match c {
        Some(c) => Some(c + tail),
        None => None,
    }
}

/// True when `chain` is the computed form of `expected`.
pub open spec fn chain_matches(chain: Option<Vec<usize>>, expected: Option<Seq<int>>) -> bool {
    match chain {
        Some(v) => expected == Some(as_ints(v@)),
        None => expected is None,
    }
}

/// What a declared bone name binds to.
pub open spec fn slot_of(bones: Seq<BoneRecord>, name: Seq<char>) -> JointSlot {
    match bone_index(bones, name) {
        Some(j) => if bone_chain(bones, j) is Some {
            JointSlot::Bound { node: bones[j].node, bone: j as usize }
        } else {
            JointSlot::Unbound
        },
        None => JointSlot::Unbound,
    }
}

/// True when a mesh declares at least one bone by a non-empty name.
pub open spec fn is_skinned(declared: Seq<String>) -> bool {
    exists|k: int| 0 <= k < declared.len() && (#[trigger] declared[k])@.len() > 0
}

/// The joints of a mesh that declares `declared`, or `None` for a mesh
/// that is not skinned.
pub open spec fn mesh_joints(bones: Seq<BoneRecord>, declared: Seq<String>) -> Option<
    Seq<JointSlot>,
> {
    if is_skinned(declared) {
        Some(Seq::new(declared.len(), |k: int| slot_of(bones, declared[k]@)))
    } else {
        None
    }
}

proof fn lemma_bone_index_prefix(bones: Seq<BoneRecord>, name: Seq<char>, k: int)
    requires
        0 <= k < bones.len(),
        bone_index(bones.subrange(0, k), name) is None,
    ensures
        bone_index(bones.subrange(0, k + 1), name) == (if bones[k].name@ == name {
            Some(k)
        } else {
            None::<int>
        }),
{
    assert(bones.subrange(0, k + 1).drop_last() =~= bones.subrange(0, k));
}

proof fn lemma_bone_index_in_range(bones: Seq<BoneRecord>, name: Seq<char>)
    ensures
        match bone_index(bones, name) {
            Some(i) => 0 <= i < bones.len() && bones[i].name@ == name,
            None => true,
        },
    decreases bones.len(),
{
    if bones.len() > 0 {
        lemma_bone_index_in_range(bones.drop_last(), name);
    }
}

/// The first bone named `name`.
fn find_bone(bones: &Vec<BoneRecord>, name: &String) -> (r: Option<usize>)
    ensures
        match r {
            Some(i) => bone_index(bones@, name@) == Some(i as int),
            None => bone_index(bones@, name@) is None,
        },
{
    let mut k: usize = 0;
    while k < bones.len()
        invariant
            k <= bones@.len(),
            bone_index(bones@.subrange(0, k as int), name@) is None,
        decreases bones@.len() - k,
    {
        proof {
            lemma_bone_index_prefix(bones@, name@, k as int);
        }
        if bones[k].name == *name {
            proof {
                lemma_bone_index_whole(bones@, name@, k as int + 1);
            }
            return Some(k);
        }
        k = k + 1;
    }
    assert(bones@.subrange(0, k as int) =~= bones@);
    None
}

/// A match found within a prefix is the first match of the whole.
proof fn lemma_bone_index_whole(bones: Seq<BoneRecord>, name: Seq<char>, k: int)
    requires
        0 <= k <= bones.len(),
        bone_index(bones.subrange(0, k), name) is Some,
    ensures
        bone_index(bones, name) == bone_index(bones.subrange(0, k), name),
    decreases bones.len() - k,
{
    if k == bones.len() {
        assert(bones.subrange(0, k) =~= bones);
    } else {
        assert(bones.subrange(0, k + 1).drop_last() =~= bones.subrange(0, k));
        lemma_bone_index_whole(bones, name, k + 1);
    }
}

proof fn lemma_chain_ends_at_bone(bones: Seq<BoneRecord>, i: int, fuel: nat)
    ensures
        chain_within(bones, i, fuel) matches Some(c) ==> c.len() > 0 && c.last() == i,
    decreases fuel,
{
    if fuel > 0 && bones[i].parent@.len() != 0 {
        if let Some(j) = bone_index(bones, bones[i].parent@) {
            lemma_chain_ends_at_bone(bones, j, (fuel - 1) as nat);
        }
    }
}

proof fn lemma_ints_last(v: Seq<usize>, c: Seq<int>, i: int)
    requires
        as_ints(v) == c,
        c.len() > 0,
        c.last() == i,
    ensures
        v.len() > 0,
        v.last() == i,
{
    assert(as_ints(v).len() == v.len());
    assert(as_ints(v)[v.len() - 1] == v[v.len() - 1] as int);
}

/// Computes the chain of bone `i`: its ancestors by declared parent name,
/// root-most first, then `i`.
pub fn compute_bone_chain(bones: &Vec<BoneRecord>, i: usize) -> (r: Option<Vec<usize>>)
    requires
        i < bones@.len(),
    ensures
        chain_matches(r, bone_chain(bones@, i as int)),
        r matches Some(v) ==> v@.len() > 0 && v@.last() == i,
{
    proof {
        lemma_chain_ends_at_bone(bones@, i as int, bones@.len());
    }
    let mut below: Vec<usize> = Vec::new();
    let mut cur: usize = i;
    let mut fuel: usize = bones.len();
    assert(as_ints(below@) =~= Seq::<int>::empty());
    assert(extended(chain_within(bones@, i as int, fuel as nat), Seq::<int>::empty())
        == chain_within(bones@, i as int, fuel as nat)) by {
        match chain_within(bones@, i as int, fuel as nat) {
            Some(c) => assert(c + Seq::<int>::empty() =~= c),
            None => {},
        }
    }
    loop
        invariant
            cur < bones@.len(),
            fuel <= bones@.len(),
            bone_chain(bones@, i as int) == extended(
                chain_within(bones@, cur as int, fuel as nat),
                as_ints(below@),
            ),
        decreases fuel,
    {
        if fuel == 0 {
            return None;
        }
        let ghost tail = as_ints(below@);
        below.insert(0, cur);
        assert(as_ints(below@) =~= seq![cur as int] + tail);
        if bones[cur].parent.as_str().is_empty() {
            proof {
                lemma_ints_last(below@, bone_chain(bones@, i as int)->Some_0, i as int);
            }
            return Some(below);
        }
        match find_bone(bones, &bones[cur].parent) {
            None => {
                proof {
                    lemma_ints_last(below@, bone_chain(bones@, i as int)->Some_0, i as int);
                }
                return Some(below);
            },
            Some(j) => {
                proof {
                    lemma_bone_index_in_range(bones@, bones@[cur as int].parent@);
                    match chain_within(bones@, j as int, (fuel - 1) as nat) {
                        Some(c) => {
                            assert(c.push(cur as int) + tail =~= c + (seq![cur as int] + tail));
                        },
                        None => {},
                    }
                }
                cur = j;
                fuel = fuel - 1;
            },
        }
    }
}

/// The chains of every bone of one directory, computed once and shared
/// by all of the directory's meshes.
pub struct SkinBinder {
    bones: Vec<BoneRecord>,
    chains: Vec<Option<Vec<usize>>>,
}

impl SkinBinder {
    /// The bones this binder was built from.
    pub closed spec fn bones(&self) -> Seq<BoneRecord> {
        self.bones@
    }

    /// True when every stored chain is the chain of its bone.
    pub closed spec fn wf(&self) -> bool {
        &&& self.chains@.len() == self.bones@.len()
        &&& forall|j: int|
            0 <= j < self.bones@.len() ==> chain_matches(
                #[trigger] self.chains@[j],
                bone_chain(self.bones@, j),
            )
    }

    /// Computes the chain of every bone of a directory.
    pub fn new(bones: Vec<BoneRecord>) -> (r: Self)
        ensures
            r.wf(),
            r.bones() == bones@,
    {
        let mut chains: Vec<Option<Vec<usize>>> = Vec::new();
        let mut j: usize = 0;
        while j < bones.len()
            invariant
                j <= bones@.len(),
                chains@.len() == j,
                forall|m: int|
                    0 <= m < j ==> chain_matches(#[trigger] chains@[m], bone_chain(bones@, m)),
            decreases bones@.len() - j,
        {
            let c = compute_bone_chain(&bones, j);
            chains.push(c);
            j = j + 1;
        }
        SkinBinder { bones, chains }
    }

    /// Number of bones.
    pub fn len(&self) -> (r: usize)
        ensures
            r == self.bones().len(),
    {
        self.bones.len()
    }

    /// The chain of bone `j`; `None` when its parent names loop.
    pub fn chain(&self, j: usize) -> (r: Option<Vec<usize>>)
        requires
            self.wf(),
            j < self.bones().len(),
        ensures
            chain_matches(r, bone_chain(self.bones(), j as int)),
            r matches Some(v) ==> v@.len() > 0 && v@.last() == j,
    {
        proof {
            lemma_chain_ends_at_bone(self.bones@, j as int, self.bones@.len());
        }
        match &self.chains[j] {
            Some(c) => Some(c.clone()),
            None => None,
        }
    }

    /// True when `declared` names at least one bone by a non-empty name.
    pub fn is_skinned(declared: &Vec<String>) -> (r: bool)
        ensures
            r == is_skinned(declared@),
    {
        let mut k: usize = 0;
        while k < declared.len()
            invariant
                k <= declared@.len(),
                forall|m: int| 0 <= m < k ==> (#[trigger] declared@[m])@.len() == 0,
            decreases declared@.len() - k,
        {
            if !declared[k].as_str().is_empty() {
                return true;
            }
            k = k + 1;
        }
        false
    }

    /// Where a declared bone name binds.
    pub fn slot(&self, name: &String) -> (r: JointSlot)
        requires
            self.wf(),
        ensures
            r == slot_of(self.bones(), name@),
    {
        match find_bone(&self.bones, name) {
            Some(j) => {
                proof {
                    lemma_bone_index_in_range(self.bones@, name@);
                }
                if self.chains[j].is_some() {
                    JointSlot::Bound { node: self.bones[j].node, bone: j }
                } else {
                    JointSlot::Unbound
                }
            },
            None => JointSlot::Unbound,
        }
    }

    /// Binds the joints of a mesh that declares the bones `declared`, in
    /// order: `None` when the mesh is not skinned. A declared bone that
    /// cannot be bound takes an unbound slot and leaves the others as they
    /// are.
    pub fn bind_mesh(&self, declared: &Vec<String>) -> (r: Option<Vec<JointSlot>>)
        requires
            self.wf(),
        ensures
            match r {
                Some(v) => mesh_joints(self.bones(), declared@) == Some(v@),
                None => mesh_joints(self.bones(), declared@) is None,
            },
    {
        if !SkinBinder::is_skinned(declared) {
            return None;
        }
        let mut slots: Vec<JointSlot> = Vec::new();
        let mut k: usize = 0;
        while k < declared.len()
            invariant
                self.wf(),
                k <= declared@.len(),
                slots@ =~= Seq::new(k as nat, |m: int| slot_of(self.bones(), declared@[m]@)),
            decreases declared@.len() - k,
        {
            let s = self.slot(&declared[k]);
            slots.push(s);
            k = k + 1;
        }
        Some(slots)
    }
}

/// True when no two bones share a name.
pub open spec fn bones_named_uniquely(bones: Seq<BoneRecord>) -> bool {
    forall|i: int, j: int|
        0 <= i < bones.len() && 0 <= j < bones.len() && i != j ==> #[trigger] bones[i].name@
            != #[trigger] bones[j].name@
}

proof fn lemma_bone_index_unique(bones: Seq<BoneRecord>, i: int)
    requires
        bones_named_uniquely(bones),
        0 <= i < bones.len(),
    ensures
        bone_index(bones, bones[i].name@) == Some(i),
    decreases bones.len(),
{
    let name = bones[i].name@;
    if i < bones.len() - 1 {
        let prefix = bones.drop_last();
        assert(bones_named_uniquely(prefix)) by {
            assert forall|a: int, b: int|
                0 <= a < prefix.len() && 0 <= b < prefix.len() && a != b implies
                #[trigger] prefix[a].name@ != #[trigger] prefix[b].name@ by {
                assert(prefix[a] == bones[a] && prefix[b] == bones[b]);
            }
        }
        assert(prefix[i] == bones[i]);
        lemma_bone_index_unique(prefix, i);
    } else {
        lemma_bone_index_absent(bones.drop_last(), name);
    }
}

proof fn lemma_bone_index_absent(bones: Seq<BoneRecord>, name: Seq<char>)
    requires
        forall|j: int| 0 <= j < bones.len() ==> #[trigger] bones[j].name@ != name,
    ensures
        bone_index(bones, name) is None,
    decreases bones.len(),
{
    if bones.len() > 0 {
        let prefix = bones.drop_last();
        assert forall|j: int| 0 <= j < prefix.len() implies #[trigger] prefix[j].name@ != name by {
            assert(prefix[j] == bones[j]);
        }
        lemma_bone_index_absent(prefix, name);
    }
}

/// A bone that declares no parent is its own chain: its global transform
/// is its local transform.
pub proof fn lemma_root_bone_chain(bones: Seq<BoneRecord>, i: int)
    requires
        0 <= i < bones.len(),
        bones[i].parent@.len() == 0,
    ensures
        bone_chain(bones, i) == Some(seq![i]),
{
}

/// For bones A, B and C where C's parent is B, B's parent is A and A has
/// none, the chain of C is A, B, C: the global transform of C is the global
/// transform of A times the local transforms of B and of C, and C's bind
/// matrix is the inverse of that product.
pub proof fn lemma_three_level_chain(bones: Seq<BoneRecord>, a: int, b: int, c: int)
    requires
        bones_named_uniquely(bones),
        0 <= a < bones.len(),
        0 <= b < bones.len(),
        0 <= c < bones.len(),
        bones[a].parent@.len() == 0,
        bones[a].name@.len() > 0,
        bones[b].parent@ == bones[a].name@,
        bones[b].name@.len() > 0,
        bones[c].parent@ == bones[b].name@,
    ensures
        bone_chain(bones, c) == Some(seq![a, b, c]),
        bone_chain(bones, a) == Some(seq![a]),
        bone_chain(bones, c) == Some(bone_chain(bones, a)->Some_0 + seq![b, c]),
{
    lemma_bone_index_unique(bones, a);
    lemma_bone_index_unique(bones, b);
    assert(a != b);
    assert(b != c);
    assert(a != c);
    let n = bones.len();
    assert(chain_within(bones, a, (n - 2) as nat) == Some(seq![a]));
    assert(chain_within(bones, b, (n - 1) as nat) == Some(seq![a].push(b)));
    assert(chain_within(bones, c, n as nat) == Some(seq![a].push(b).push(c)));
    assert(seq![a].push(b).push(c) =~= seq![a, b, c]);
    assert(seq![a] + seq![b, c] =~= seq![a, b, c]);
}

/// A skinned mesh that declares one bone absent from the placed bones still
/// binds: that slot is unbound, and every other slot binds as its own name
/// says; with unique bone names, a slot whose bone is placed and has a chain
/// is bound to that bone's node.
pub proof fn lemma_missing_bone_leaves_others_bound(
    bones: Seq<BoneRecord>,
    declared: Seq<String>,
    k: int,
)
    requires
        0 <= k < declared.len(),
        declared[k]@.len() > 0,
        forall|j: int| 0 <= j < bones.len() ==> #[trigger] bones[j].name@ != declared[k]@,
    ensures
        mesh_joints(bones, declared) is Some,
        mesh_joints(bones, declared)->Some_0.len() == declared.len(),
        mesh_joints(bones, declared)->Some_0[k] == JointSlot::Unbound,
        forall|m: int|
            0 <= m < declared.len() && m != k ==> #[trigger] mesh_joints(bones, declared)->Some_0[m]
                == slot_of(bones, declared[m]@),
        bones_named_uniquely(bones) ==> forall|m: int, j: int|
            #![trigger mesh_joints(bones, declared)->Some_0[m], bones[j]]
            0 <= m < declared.len() && m != k && 0 <= j < bones.len() && bones[j].name@
                == declared[m]@ && bone_chain(bones, j) is Some ==> mesh_joints(
                bones,
                declared,
            )->Some_0[m] == (JointSlot::Bound { node: bones[j].node, bone: j as usize }),
{
    assert(is_skinned(declared));
    lemma_bone_index_absent(bones, declared[k]@);
    if bones_named_uniquely(bones) {
        assert forall|m: int, j: int|
            #![trigger mesh_joints(bones, declared)->Some_0[m], bones[j]]
            0 <= m < declared.len() && m != k && 0 <= j < bones.len() && bones[j].name@
                == declared[m]@ && bone_chain(bones, j) is Some implies mesh_joints(
            bones,
            declared,
        )->Some_0[m] == (JointSlot::Bound { node: bones[j].node, bone: j as usize }) by {
            lemma_bone_index_unique(bones, j);
        }
    }
}

/// True when a loaded directory is a character, whose meshes are skinned
/// once its bones are placed.
pub open spec fn is_character_dir(dir_type: Seq<char>) -> bool {
    dir_type == "Character"@
}

/// Whether loading a directory of type `dir_type` schedules skin binding:
/// exactly when it is a `Character` directory.
pub fn schedules_skin_binding(dir_type: &str) -> (r: bool)
    ensures
        r == is_character_dir(dir_type@),
{
    String::from_str(dir_type) == String::from_str("Character")
}

/// The node of the first bone named `name`.
pub open spec fn node_named(bones: Seq<BoneRecord>, name: Seq<char>) -> Option<u64> {
    match bone_index(bones, name) {
        Some(j) => Some(bones[j].node),
        None => None,
    }
}

/// The twist links of one arm, `(follower, leader)`: the upper twist bone
/// follows the upper arm and the first fore twist bone follows the fore
/// arm. `None` unless all four bones are placed.
pub open spec fn arm_links(
    bones: Seq<BoneRecord>,
    upper_arm: Seq<char>,
    upper_twist: Seq<char>,
    fore_arm: Seq<char>,
    fore_twist: Seq<char>,
) -> Option<Seq<(u64, u64)>> {
    match (
        node_named(bones, upper_arm),
        node_named(bones, upper_twist),
        node_named(bones, fore_arm),
        node_named(bones, fore_twist),
    ) {
        (Some(ua), Some(ut), Some(fa), Some(ft)) => Some(seq![(ut, ua), (ft, fa)]),
        _ => None,
    }
}

/// The twist links of a character: those of the left arm, then, where the
/// left arm has them, those of the right arm.
pub open spec fn twist_links(bones: Seq<BoneRecord>) -> Seq<(u64, u64)> {
    match arm_links(
        bones,
        "bone_L-upperArm.mesh"@,
        "bone_L-upperTwist1.mesh"@,
        "bone_L-foreArm.mesh"@,
        "bone_L-foreTwist1.mesh"@,
    ) {
        None => Seq::empty(),
        Some(left) => match arm_links(
            bones,
            "bone_R-upperArm.mesh"@,
            "bone_R-upperTwist1.mesh"@,
            "bone_R-foreArm.mesh"@,
            "bone_R-foreTwist1.mesh"@,
        ) {
            None => left,
            Some(right) => left + right,
        },
    }
}

/// The node of the first bone named `name`.
fn node_of(bones: &Vec<BoneRecord>, name: &str) -> (r: Option<u64>)
    ensures
        r == node_named(bones@, name@),
{
    let name = String::from_str(name);
    match find_bone(bones, &name) {
        Some(j) => {
            proof {
                lemma_bone_index_in_range(bones@, name@);
            }
            Some(bones[j].node)
        },
        None => None,
    }
}

fn arm_links_exec(
    bones: &Vec<BoneRecord>,
    upper_arm: &str,
    upper_twist: &str,
    fore_arm: &str,
    fore_twist: &str,
) -> (r: Option<Vec<(u64, u64)>>)
    ensures
        match r {
            Some(v) => arm_links(bones@, upper_arm@, upper_twist@, fore_arm@, fore_twist@) == Some(
                v@,
            ),
            None => arm_links(bones@, upper_arm@, upper_twist@, fore_arm@, fore_twist@) is None,
        },
{
    let ua = node_of(bones, upper_arm);
    let ut = node_of(bones, upper_twist);
    let fa = node_of(bones, fore_arm);
    let ft = node_of(bones, fore_twist);
    match (ua, ut, fa, ft) {
        (Some(ua), Some(ut), Some(fa), Some(ft)) => {
            let v = vec![(ut, ua), (ft, fa)];
            assert(v@ =~= seq![(ut, ua), (ft, fa)]);
            Some(v)
        },
        _ => None,
    }
}

/// The twist bones that copy an arm bone's transform, as
/// `(follower, leader)` node pairs: the left arm's when all four of its
/// bones are placed, then the right arm's when the left arm's were found
/// and all four right arm bones are placed.
pub fn twist_bone_links(bones: &Vec<BoneRecord>) -> (r: Vec<(u64, u64)>)
    ensures
        r@ == twist_links(bones@),
{
    let left = arm_links_exec(
        bones,
        "bone_L-upperArm.mesh",
        "bone_L-upperTwist1.mesh",
        "bone_L-foreArm.mesh",
        "bone_L-foreTwist1.mesh",
    );
    match left {
        None => Vec::new(),
        Some(mut links) => {
            let right = arm_links_exec(
                bones,
                "bone_R-upperArm.mesh",
                "bone_R-upperTwist1.mesh",
                "bone_R-foreArm.mesh",
                "bone_R-foreTwist1.mesh",
            );
            match right {
                None => links,
                Some(mut more) => {
                    links.append(&mut more);
                    links
                },
            }
        },
    }
}

} // verus!
