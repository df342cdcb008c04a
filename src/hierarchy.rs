//! Parent resolution: where each newly loaded object goes in the live
//! hierarchy, and the live parent links themselves.
use std::collections::HashMap;
use vstd::prelude::*;

use crate::resources::MiloEntityMap;

verus! {

broadcast use vstd::std_specs::hash::group_hash_axioms;

/// A loaded object that has been placed as a node and now waits for its
/// parent.
pub struct SceneObject {
    /// The node this object was placed as.
    pub node: u64,
    /// The object's name, unique within its load batch.
    pub name: String,
    /// The transform parent named by the object. `None` for kinds that
    /// carry no parent field.
    pub parent: Option<String>,
    /// A parent that the loading code asked for by name.
    pub custom_parent: Option<String>,
    /// Set when another mechanism has fixed this node's parent already.
    pub parent_override: bool,
}

/// What parent resolution decided for one object.
#[derive(Clone, Copy, PartialEq, Eq, Structural, Debug)]
pub enum Placement {
    /// The object carries a parent override: its current parent stays.
    Kept,
    /// The object goes under this node.
    Under(u64),
    /// The object names a parent that is not placed: it goes under the
    /// scene root, and one diagnostic is due for it.
    Orphaned,
}

/// True when `p` names a parent for an object called `own`: an empty name,
/// or the object's own name, names none.
pub open spec fn names_parent(own: Seq<char>, p: Seq<char>) -> bool {
    p.len() > 0 && p != own
}

/// The parent name that counts for `o`: its transform parent if that names
/// one, else its custom parent if that names one.
pub open spec fn declared_parent(o: SceneObject) -> Option<Seq<char>> {
    match o.parent {
        Some(p) if names_parent(o.name@, p@) => Some(p@),
        _ => match o.custom_parent {
            Some(c) if names_parent(o.name@, c@) => Some(c@),
            _ => None,
        },
    }
}

/// Where `o` goes, given the index of every object placed so far.
pub open spec fn placement_of(o: SceneObject, index: Map<Seq<char>, u64>, root: u64) -> Placement {
    if o.parent_override {
        Placement::Kept
    } else {
        match declared_parent(o) {
            None => Placement::Under(root),
            Some(p) => if index.contains_key(p) {
                Placement::Under(index[p])
            } else {
                Placement::Orphaned
            },
        }
    }
}

/// The placements of a whole batch, one per object, in order.
pub open spec fn placements_of(
    objects: Seq<SceneObject>,
    index: Map<Seq<char>, u64>,
    root: u64,
) -> Seq<Placement> {
    Seq::new(objects.len(), |i: int| placement_of(objects[i], index, root))
}

/// The parent a placement gives, if it gives one.
pub open spec fn parent_given(p: Placement, root: u64) -> Option<u64> {
    match p {
        Placement::Kept => None,
        Placement::Under(n) => Some(n),
        Placement::Orphaned => Some(root),
    }
}

impl Placement {
    /// The node that this placement makes the parent; `None` leaves the
    /// current parent as it is.
    pub fn parent_node(&self, root: u64) -> (r: Option<u64>)
        ensures
            r == parent_given(*self, root),
    {
        match self {
            Placement::Kept => None,
            Placement::Under(n) => Some(*n),
            Placement::Orphaned => Some(root),
        }
    }

    /// True when this placement is due a missing-parent diagnostic.
    pub fn is_orphaned(&self) -> (r: bool)
        ensures
            r == (*self == Placement::Orphaned),
    {
        match self {
            Placement::Orphaned => true,
            _ => false,
        }
    }
}

/// True when `p` names a parent for an object called `own`.
fn names_parent_exec(own: &String, p: &String) -> (r: bool)
    ensures
        r == names_parent(own@, p@),
{
    !p.as_str().is_empty() && !(*p == *own)
}

/// The parent name that counts for `o`: its transform parent if that names
/// one, else its custom parent if that names one.
pub fn declared_parent_name(o: &SceneObject) -> (r: Option<&String>)
    ensures
        match r {
            Some(p) => declared_parent(*o) == Some(p@),
            None => declared_parent(*o) is None,
        },
{
    if let Some(p) = &o.parent {
        if names_parent_exec(&o.name, p) {
            return Some(p);
        }
    }
    if let Some(c) = &o.custom_parent {
        if names_parent_exec(&o.name, c) {
            return Some(c);
        }
    }
    None
}

/// Decides where one object goes: under its named parent when that is
/// placed, under `root` when it names none or its parent is missing, and
/// nowhere new when it carries a parent override.
pub fn resolve_parent(o: &SceneObject, index: &MiloEntityMap, root: u64) -> (r: Placement)
    requires
        index.wf(),
    ensures
        r == placement_of(*o, index@, root),
{
    if o.parent_override {
        return Placement::Kept;
    }
    match declared_parent_name(o) {
        None => Placement::Under(root),
        Some(p) => match index.get_entity(p.as_str()) {
            Some(n) => Placement::Under(n),
            None => Placement::Orphaned,
        },
    }
}

/// Resolves a whole batch against one snapshot of the index: the result
/// holds one placement per object, in order, and touches nothing.
pub fn resolve_parents(objects: &Vec<SceneObject>, index: &MiloEntityMap, root: u64) -> (r: Vec<
    Placement,
>)
    requires
        index.wf(),
    ensures
        r@ == placements_of(objects@, index@, root),
{
    let mut r: Vec<Placement> = Vec::new();
    let mut i: usize = 0;
    while i < objects.len()
        invariant
            i <= objects@.len(),
            index.wf(),
            r@ =~= placements_of(objects@.subrange(0, i as int), index@, root),
        decreases objects@.len() - i,
    {
        let p = resolve_parent(&objects[i], index, root);
        r.push(p);
        i = i + 1;
        assert(r@ =~= placements_of(objects@.subrange(0, i as int), index@, root));
    }
    assert(objects@.subrange(0, i as int) =~= objects@);
    r
}

/// True when an object of a character loaded into directory `dir`, whose
/// transform parent is `parent`, belongs under the band placer.
pub open spec fn attaches_to_placer(parent: Seq<char>, dir: Seq<char>) -> bool {
    parent.len() == 0 || parent == dir
}

/// Whether a character's object goes under the band placer: those whose
/// transform parent is empty or is the character's directory itself, that
/// is, the character's top-level objects.
pub fn goes_under_placer(parent: &String, dir: &String) -> (r: bool)
    ensures
        r == attaches_to_placer(parent@, dir@),
{
    parent.as_str().is_empty() || *parent == *dir
}

/// The links after applying `placements` to `objects` in order, over
/// `links`: each placement that gives a parent sets its object's node's
/// parent.
pub open spec fn applied(
    links: Map<u64, u64>,
    objects: Seq<SceneObject>,
    placements: Seq<Placement>,
    root: u64,
) -> Map<u64, u64>
    decreases placements.len(),
{
    if placements.len() == 0 || objects.len() == 0 {
        links
    } else {
        let prev = applied(links, objects.drop_last(), placements.drop_last(), root);
        match parent_given(placements.last(), root) {
            Some(p) => prev.insert(objects.last().node, p),
            None => prev,
        }
    }
}

/// The live parent link of each placed node that has one.
pub struct ParentLinks {
    links: HashMap<u64, u64>,
}

impl View for ParentLinks {
    type V = Map<u64, u64>;

    closed spec fn view(&self) -> Map<u64, u64> {
        self.links@
    }
}

impl ParentLinks {
    /// No links.
    pub fn new() -> (r: Self)
        ensures
            r@ == Map::<u64, u64>::empty(),
    {
        ParentLinks { links: HashMap::new() }
    }

    /// The parent of `node`, if it has one.
    pub fn parent_of(&self, node: u64) -> (r: Option<u64>)
        ensures
            r == (if self@.contains_key(node) {
                Some(self@[node])
            } else {
                None
            }),
    {
        match self.links.get(&node) {
            Some(p) => Some(*p),
            None => None,
        }
    }

    /// Makes `parent` the parent of `node`.
    pub fn set_parent(&mut self, node: u64, parent: u64)
        ensures
            final(self)@ == old(self)@.insert(node, parent),
    {
        self.links.insert(node, parent);
    }

    /// Applies a batch of placements in one pass, after resolution: each
    /// object whose placement gives a parent gets it, the others keep
    /// theirs.
    pub fn apply_placements(
        &mut self,
        objects: &Vec<SceneObject>,
        placements: &Vec<Placement>,
        root: u64,
    )
        requires
            objects@.len() == placements@.len(),
        ensures
            final(self)@ == applied(old(self)@, objects@, placements@, root),
    {
        let ghost start = self@;
        let mut i: usize = 0;
        while i < placements.len()
            invariant
                i <= placements@.len(),
                objects@.len() == placements@.len(),
                self@ == applied(
                    start,
                    objects@.subrange(0, i as int),
                    placements@.subrange(0, i as int),
                    root,
                ),
            decreases placements@.len() - i,
        {
            let ghost prev = self@;
            match placements[i].parent_node(root) {
                Some(p) => self.set_parent(objects[i].node, p),
                None => {},
            }
            i = i + 1;
            proof {
                let os = objects@.subrange(0, i as int);
                let ps = placements@.subrange(0, i as int);
                assert(os.drop_last() =~= objects@.subrange(0, i - 1));
                assert(ps.drop_last() =~= placements@.subrange(0, i - 1));
                assert(os.last() == objects@[i - 1]);
                assert(ps.last() == placements@[i - 1]);
            }
        }
        assert(objects@.subrange(0, i as int) =~= objects@);
        assert(placements@.subrange(0, i as int) =~= placements@);
    }
}

/// True when `o` names a parent that the index does not hold, and no
/// override shields it: such an object is owed a diagnostic.
pub open spec fn missing_parent(o: SceneObject, index: Map<Seq<char>, u64>) -> bool {
    !o.parent_override && match declared_parent(o) {
        Some(p) => !index.contains_key(p),
        None => false,
    }
}

/// An object whose parent names are empty or its own name, and that
/// carries no override, goes under the root.
pub proof fn lemma_unparented_object_goes_under_root(
    o: SceneObject,
    index: Map<Seq<char>, u64>,
    root: u64,
)
    requires
        !o.parent_override,
        o.parent is Some ==> !names_parent(o.name@, o.parent->Some_0@),
        o.custom_parent is Some ==> !names_parent(o.name@, o.custom_parent->Some_0@),
    ensures
        placement_of(o, index, root) == Placement::Under(root),
        parent_given(placement_of(o, index, root), root) == Some(root),
{
}

/// An object whose named parent is in the index goes under that parent's
/// node, whichever batch placed it.
pub proof fn lemma_found_parent_is_used(
    o: SceneObject,
    index: Map<Seq<char>, u64>,
    root: u64,
)
    requires
        !o.parent_override,
        declared_parent(o) is Some,
        index.contains_key(declared_parent(o)->Some_0),
    ensures
        placement_of(o, index, root) == Placement::Under(index[declared_parent(o)->Some_0]),
{
}

/// An object whose named parent is nowhere in the index goes under the
/// root and is orphaned; within a batch, exactly the objects with a
/// missing parent are orphaned, so each of them is owed one diagnostic. For
/// an object without a custom parent, that is exactly when its transform
/// parent names a parent the index lacks.
pub proof fn lemma_missing_parent_falls_back_to_root(
    objects: Seq<SceneObject>,
    index: Map<Seq<char>, u64>,
    root: u64,
)
    ensures
        forall|i: int|
            0 <= i < objects.len() ==> (#[trigger] placements_of(objects, index, root)[i]
                == Placement::Orphaned <==> missing_parent(objects[i], index)),
        forall|i: int|
            0 <= i < objects.len() && missing_parent(objects[i], index) ==> parent_given(
                #[trigger] placements_of(objects, index, root)[i],
                root,
            ) == Some(root),
        forall|i: int|
            0 <= i < objects.len() && !objects[i].parent_override && objects[i].custom_parent is None
                ==> (#[trigger] placements_of(objects, index, root)[i] == Placement::Orphaned <==> (
            objects[i].parent is Some && names_parent(
                objects[i].name@,
                objects[i].parent->Some_0@,
            ) && !index.contains_key(objects[i].parent->Some_0@))),
{
}

/// Where an object goes depends on the object and the index alone: a
/// load split into batches resolves as the whole load does, in any order
/// of the batches.
pub proof fn lemma_batches_resolve_independently(
    first: Seq<SceneObject>,
    second: Seq<SceneObject>,
    index: Map<Seq<char>, u64>,
    root: u64,
)
    ensures
        placements_of(first + second, index, root) == placements_of(first, index, root)
            + placements_of(second, index, root),
        placements_of(second + first, index, root) == placements_of(second, index, root)
            + placements_of(first, index, root),
{
    assert(placements_of(first + second, index, root) =~= placements_of(first, index, root)
        + placements_of(second, index, root));
    assert(placements_of(second + first, index, root) =~= placements_of(second, index, root)
        + placements_of(first, index, root));
}

/// The links that a batch of placements sets, over no links at all.
pub open spec fn edits_of(
    objects: Seq<SceneObject>,
    placements: Seq<Placement>,
    root: u64,
) -> Map<u64, u64> {
    applied(Map::empty(), objects, placements, root)
}

/// Applying a batch overrides the existing links with the batch's edits.
proof fn lemma_applied_overrides(
    links: Map<u64, u64>,
    objects: Seq<SceneObject>,
    placements: Seq<Placement>,
    root: u64,
)
    ensures
        applied(links, objects, placements, root) == links.union_prefer_right(
            edits_of(objects, placements, root),
        ),
    decreases placements.len(),
{
    if placements.len() == 0 || objects.len() == 0 {
        assert(links.union_prefer_right(Map::empty()) =~= links);
    } else {
        lemma_applied_overrides(links, objects.drop_last(), placements.drop_last(), root);
        let prev_edits = edits_of(objects.drop_last(), placements.drop_last(), root);
        match parent_given(placements.last(), root) {
            Some(p) => {
                assert(links.union_prefer_right(prev_edits).insert(objects.last().node, p)
                    =~= links.union_prefer_right(prev_edits.insert(objects.last().node, p)));
            },
            None => {},
        }
    }
}

/// Resolving a batch and applying it a second time, with nothing new
/// placed, changes no parent link.
pub proof fn lemma_resolution_is_idempotent(
    objects: Seq<SceneObject>,
    index: Map<Seq<char>, u64>,
    root: u64,
    links: Map<u64, u64>,
)
    ensures
        ({
            let once = applied(links, objects, placements_of(objects, index, root), root);
            applied(once, objects, placements_of(objects, index, root), root) == once
        }),
{
    let ps = placements_of(objects, index, root);
    let edits = edits_of(objects, ps, root);
    lemma_applied_overrides(links, objects, ps, root);
    let once = applied(links, objects, ps, root);
    lemma_applied_overrides(once, objects, ps, root);
    assert(once.union_prefer_right(edits) =~= once);
}

} // verus!
