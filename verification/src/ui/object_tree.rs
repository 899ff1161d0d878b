//! What the object tree search looks in, how the types it finds are arranged as a tree, and the
//! rows and guide lines the object tree draws.
use vstd::prelude::*;

use crate::ui::git::{first_position, lemma_first_position, lemma_first_position_occurs};

verus! {

/// Which fields the object tree search matches: type paths, names, or both.
#[derive(Debug, Clone, Copy, PartialEq, Eq, Structural)]
pub struct ObjectTreeSearchOptions {
    pub type_paths: bool,
    pub names: bool,
}

impl Default for ObjectTreeSearchOptions {
    /// Type paths only.
    fn default() -> (options: Self)
        ensures
            options == (ObjectTreeSearchOptions { type_paths: true, names: false }),
    {
        ObjectTreeSearchOptions { type_paths: true, names: false }
    }
}

impl ObjectTreeSearchOptions {
    /// The hint shown in the empty search box.
    pub fn hint(self) -> (hint: &'static str)
        ensures
            hint@ == if self.type_paths && self.names {
                "Search type paths or names"@
            } else if self.type_paths {
                "Search type paths"@
            } else if self.names {
                "Search names"@
            } else {
                "Search types"@
            },
    {
        if self.type_paths && self.names {
            "Search type paths or names"
        } else if self.type_paths {
            "Search type paths"
        } else if self.names {
            "Search names"
        } else {
            "Search types"
        }
    }
}

/// A type the search found, with the types above it, nearest first.
#[derive(Debug, Clone, PartialEq, Eq)]
pub struct FoundType {
    pub id: u64,
    pub ancestors: Vec<u64>,
}

pub open spec fn found_ids(found: Seq<FoundType>) -> Seq<u64> {
    found.map_values(|f: FoundType| f.id)
}

/// The nearest of `ancestors` that the search found too.
pub open spec fn nearest_found(ancestors: Seq<u64>, ids: Seq<u64>) -> Option<u64>
    decreases ancestors.len(),
{
    if ancestors.len() == 0 {
        None
    } else if ids.contains(ancestors[0]) {
        Some(ancestors[0])
    } else {
        nearest_found(ancestors.drop_first(), ids)
    }
}

/// The found types shown at the top of the filtered tree: those with no found ancestor, in order.
pub open spec fn roots_in(found: Seq<FoundType>, ids: Seq<u64>) -> Seq<u64>
    decreases found.len(),
{
    if found.len() == 0 {
        Seq::empty()
    } else {
        let earlier = roots_in(found.drop_last(), ids);
        if nearest_found(found.last().ancestors@, ids) is None {
            earlier.push(found.last().id)
        } else {
            earlier
        }
    }
}

/// The found types shown under `parent`: those whose nearest found ancestor it is, in order.
pub open spec fn children_in(found: Seq<FoundType>, ids: Seq<u64>, parent: u64) -> Seq<u64>
    decreases found.len(),
{
    if found.len() == 0 {
        Seq::empty()
    } else {
        let earlier = children_in(found.drop_last(), ids, parent);
        if nearest_found(found.last().ancestors@, ids) == Some(parent) {
            earlier.push(found.last().id)
        } else {
            earlier
        }
    }
}

pub open spec fn child_keys(children: Seq<(u64, Vec<u64>)>) -> Seq<u64> {
    children.map_values(|entry: (u64, Vec<u64>)| entry.0)
}

/// The types listed under `parent`, none when it has no entry.
pub open spec fn children_of(children: Seq<(u64, Vec<u64>)>, parent: u64) -> Seq<u64> {
    match first_position(child_keys(children), parent) {
        Some(k) => children[k].1@,
        None => Seq::empty(),
    }
}

/// The types a search found, arranged as a tree: each under its nearest found ancestor, the
/// others at the top.
#[derive(Debug, Clone, PartialEq, Eq)]
pub struct ObjectTreeFilter {
    pub roots: Vec<u64>,
    pub children: Vec<(u64, Vec<u64>)>,
    pub matches: Vec<u64>,
}

fn contains_id(ids: &Vec<u64>, id: u64) -> (found: bool)
    ensures
        found == ids@.contains(id),
{
    let mut i: usize = 0;
    while i < ids.len()
        invariant
            i <= ids@.len(),
            forall|k: int| 0 <= k < i ==> ids@[k] != id,
        decreases ids.len() - i,
    {
        if ids[i] == id {
            return true;
        }
        i = i + 1;
    }
    false
}

fn nearest(ancestors: &Vec<u64>, ids: &Vec<u64>) -> (parent: Option<u64>)
    ensures
        parent == nearest_found(ancestors@, ids@),
{
    let mut i: usize = 0;
    proof {
        assert(ancestors@.skip(0) =~= ancestors@);
    }
    while i < ancestors.len()
        invariant
            i <= ancestors@.len(),
            nearest_found(ancestors@, ids@) == nearest_found(ancestors@.skip(i as int), ids@),
        decreases ancestors.len() - i,
    {
        proof {
            assert(ancestors@.skip(i as int)[0] == ancestors@[i as int]);
            assert(ancestors@.skip(i as int).drop_first() =~= ancestors@.skip(i + 1));
        }
        if contains_id(ids, ancestors[i]) {
            return Some(ancestors[i]);
        }
        i = i + 1;
    }
    None
}

/// Lists `child` under `parent`.
fn add_child(children: &mut Vec<(u64, Vec<u64>)>, parent: u64, child: u64)
    ensures
        forall|p: u64|
            children_of(final(children)@, p) == if p == parent {
                children_of(old(children)@, p).push(child)
            } else {
                children_of(old(children)@, p)
            },
{
    let ghost before = children@;
    let mut k: usize = 0;
    while k < children.len()
        invariant
            children@ == before,
            before == old(children)@,
            k <= children@.len(),
            forall|j: int| 0 <= j < k ==> child_keys(children@)[j] != parent,
        decreases children.len() - k,
    {
        if children[k].0 == parent {
            proof {
                lemma_first_position(child_keys(before), parent, k as int);
            }
            let mut entry = children.remove(k);
            entry.1.push(child);
            children.insert(k, entry);
            proof {
                assert(child_keys(children@) =~= child_keys(before));
                assert forall|p: u64|
                    children_of(children@, p) == if p == parent {
                        children_of(before, p).push(child)
                    } else {
                        children_of(before, p)
                    } by {
                    lemma_first_position_occurs(child_keys(before), p);
                    match first_position(child_keys(before), p) {
                        Some(j) => {
                            if j == k {
                                assert(p == parent);
                                assert(children@[j].1@ == before[j].1@.push(child));
                            } else {
                                assert(children@[j] == before[j]);
                                assert(p != parent);
                            }
                        },
                        None => {
                            assert(p != parent);
                        },
                    }
                }
            }
            return;
        }
        k = k + 1;
    }
    proof {
        lemma_first_position(child_keys(before), parent, k as int);
    }
    children.push((parent, vec![child]));
    proof {
        let keys = child_keys(children@);
        assert(keys =~= child_keys(before).push(parent));
        assert forall|p: u64|
            children_of(children@, p) == if p == parent {
                children_of(before, p).push(child)
            } else {
                children_of(before, p)
            } by {
            lemma_first_position_occurs(child_keys(before), p);
            if p == parent {
                lemma_first_position(keys, p, before.len() as int);
                assert(children@[before.len() as int].1@ =~= seq![child]);
                assert(Seq::<u64>::empty().push(child) =~= seq![child]);
            } else {
                match first_position(child_keys(before), p) {
                    Some(j) => {
                        assert forall|m: int| 0 <= m < j implies keys[m] != p by {
                            assert(keys[m] == child_keys(before)[m]);
                        }
                        lemma_first_position(keys, p, j);
                        assert(children@[j] == before[j]);
                    },
                    None => {
                        assert forall|m: int| 0 <= m < keys.len() implies keys[m] != p by {
                            if m < before.len() {
                                assert(keys[m] == child_keys(before)[m]);
                                assert(!child_keys(before).contains(p));
                            }
                        }
                        lemma_first_position(keys, p, keys.len() as int);
                    },
                }
            }
        }
    }
}

impl ObjectTreeFilter {
    /// Arranges the types a search found (in the order found) as a tree.
    pub fn new(found: &Vec<FoundType>) -> (filter: Self)
        ensures
            filter.matches@ == found_ids(found@),
            filter.roots@ == roots_in(found@, found_ids(found@)),
            forall|p: u64| children_of(filter.children@, p) == children_in(found@, found_ids(found@), p),
    {
        let mut ids: Vec<u64> = Vec::new();
        let mut i: usize = 0;
        while i < found.len()
            invariant
                i <= found@.len(),
                ids@ == found_ids(found@.take(i as int)),
            decreases found.len() - i,
        {
            ids.push(found[i].id);
            proof {
                assert(found_ids(found@.take(i + 1)) =~= found_ids(found@.take(i as int)).push(
                    found@[i as int].id,
                ));
            }
            i = i + 1;
        }
        proof {
            assert(found@.take(i as int) =~= found@);
        }
        let ghost all = ids@;
        let mut roots: Vec<u64> = Vec::new();
        let mut children: Vec<(u64, Vec<u64>)> = Vec::new();
        let mut i: usize = 0;
        proof {
            assert(found@.take(0).len() == 0);
            assert forall|p: u64| children_of(children@, p) == children_in(found@.take(0), all, p) by {
                lemma_first_position_occurs(child_keys(children@), p);
            }
        }
        while i < found.len()
            invariant
                i <= found@.len(),
                ids@ == all,
                all == found_ids(found@),
                roots@ == roots_in(found@.take(i as int), all),
                forall|p: u64| children_of(children@, p) == children_in(found@.take(i as int), all, p),
            decreases found.len() - i,
        {
            let f = &found[i];
            let parent = nearest(&f.ancestors, &ids);
            proof {
                assert(found@.take(i + 1).drop_last() =~= found@.take(i as int));
                assert(found@.take(i + 1).last() == found@[i as int]);
            }
            match parent {
                Some(p) => add_child(&mut children, p, f.id),
                None => roots.push(f.id),
            }
            i = i + 1;
        }
        proof {
            assert(found@.take(i as int) =~= found@);
        }
        ObjectTreeFilter { roots, children, matches: ids }
    }

    /// Whether the search found nothing to show.
    pub fn is_empty(&self) -> (empty: bool)
        ensures
            empty == (self.roots@.len() == 0),
    {
        self.roots.len() == 0
    }

    /// Whether the search found `id`.
    pub fn contains(&self, id: u64) -> (found: bool)
        ensures
            found == self.matches@.contains(id),
    {
        contains_id(&self.matches, id)
    }

    /// The found types shown under `id`, none when it has no entry.
    pub fn children(&self, id: u64) -> (children: &[u64])
        ensures
            children@ == children_of(self.children@, id),
    {
        let mut k: usize = 0;
        while k < self.children.len()
            invariant
                k <= self.children@.len(),
                forall|j: int| 0 <= j < k ==> child_keys(self.children@)[j] != id,
            decreases self.children.len() - k,
        {
            if self.children[k].0 == id {
                proof {
                    lemma_first_position(child_keys(self.children@), id, k as int);
                }
                return self.children[k].1.as_slice();
            }
            k = k + 1;
        }
        proof {
            lemma_first_position(child_keys(self.children@), id, k as int);
        }
        &[]
    }
}

/// Whether the object tree shows a type or leaves it and its subtypes out.
#[derive(Debug, Clone, Copy, PartialEq, Eq, Structural)]
pub enum ObjectTreeFilterAction {
    Keep,
    Prune,
}

/// The base types whose subtrees the object tree leaves out: the built-in ones switched on, and
/// a custom one.
#[derive(Debug, Clone, Copy, Default, PartialEq, Eq, Structural)]
pub struct ObjectTreeTypeFilter {
    pub atom: Option<u64>,
    pub movable: Option<u64>,
    pub obj: Option<u64>,
    pub turf: Option<u64>,
    pub custom: Option<u64>,
}

/// Whether `base` is switched on and among `lineage`.
pub open spec fn prunes_with(base: Option<u64>, lineage: Seq<u64>) -> bool {
    match base {
        Some(id) => lineage.contains(id),
        None => false,
    }
}

/// What the filter does with a type whose lineage (the type, then its ancestors) is `lineage`:
/// it leaves out the subtypes of every base it holds.
pub open spec fn spec_filter_action(filter: ObjectTreeTypeFilter, lineage: Seq<u64>) -> ObjectTreeFilterAction {
    if prunes_with(filter.atom, lineage) || prunes_with(filter.movable, lineage) || prunes_with(
        filter.obj,
        lineage,
    ) || prunes_with(filter.turf, lineage) || prunes_with(filter.custom, lineage) {
        ObjectTreeFilterAction::Prune
    } else {
        ObjectTreeFilterAction::Keep
    }
}

fn prunes(base: Option<u64>, lineage: &Vec<u64>) -> (pruned: bool)
    ensures
        pruned == prunes_with(base, lineage@),
{
    match base {
        Some(id) => contains_id(lineage, id),
        None => false,
    }
}

impl ObjectTreeTypeFilter {
    /// The filter for the built-in bases switched on (`atom`, `movable`, `obj`, `turf` say which,
    /// `roots` gives their ids when the codebase has them) and a custom base, when switched on
    /// and named.
    pub fn new(
        atom: bool,
        movable: bool,
        obj: bool,
        turf: bool,
        roots: [Option<u64>; 4],
        custom_enabled: bool,
        custom: Option<u64>,
    ) -> (filter: Self)
        ensures
            filter.atom == if atom { roots[0] } else { None },
            filter.movable == if movable { roots[1] } else { None },
            filter.obj == if obj { roots[2] } else { None },
            filter.turf == if turf { roots[3] } else { None },
            filter.custom == if custom_enabled { custom } else { None },
    {
        ObjectTreeTypeFilter {
            atom: if atom { roots[0] } else { None },
            movable: if movable { roots[1] } else { None },
            obj: if obj { roots[2] } else { None },
            turf: if turf { roots[3] } else { None },
            custom: if custom_enabled { custom } else { None },
        }
    }

    /// What the filter does with a type whose lineage (the type, then its ancestors) is
    /// `lineage`.
    pub fn action(self, lineage: &Vec<u64>) -> (action: ObjectTreeFilterAction)
        ensures
            action == spec_filter_action(self, lineage@),
    {
        if prunes(self.atom, lineage) || prunes(self.movable, lineage) || prunes(self.obj, lineage)
            || prunes(self.turf, lineage) || prunes(self.custom, lineage) {
            ObjectTreeFilterAction::Prune
        } else {
            ObjectTreeFilterAction::Keep
        }
    }
}

/// The children the object tree shows: of `children` (in path order, each with its lineage),
/// those the filter keeps.
pub fn visible_type_children(filter: ObjectTreeTypeFilter, children: &Vec<(u64, Vec<u64>)>) -> (visible:
    Vec<u64>)
    ensures
        visible@ == children@.filter(
            |child: (u64, Vec<u64>)| spec_filter_action(filter, child.1@) == ObjectTreeFilterAction::Keep,
        ).map_values(|child: (u64, Vec<u64>)| child.0),
{
    let ghost keep = |child: (u64, Vec<u64>)|
        spec_filter_action(filter, child.1@) == ObjectTreeFilterAction::Keep;
    let mut visible: Vec<u64> = Vec::new();
    let mut i: usize = 0;
    while i < children.len()
        invariant
            i <= children@.len(),
            keep == (|child: (u64, Vec<u64>)|
                spec_filter_action(filter, child.1@) == ObjectTreeFilterAction::Keep),
            visible@ == children@.take(i as int).filter(keep).map_values(
                |child: (u64, Vec<u64>)| child.0,
            ),
        decreases children.len() - i,
    {
        proof {
            assert(children@.take(i + 1) =~= children@.take(i as int).push(children@[i as int]));
            children@.take(i as int).lemma_filter_push(children@[i as int], keep);
        }
        let ghost before = visible@;
        if filter.action(&children[i].1) == ObjectTreeFilterAction::Keep {
            visible.push(children[i].0);
            proof {
                assert(children@.take(i as int).filter(keep).push(children@[i as int]).map_values(
                    |child: (u64, Vec<u64>)| child.0,
                ) =~= before.push(children@[i as int].0));
            }
        }
        i = i + 1;
    }
    proof {
        assert(children@.take(i as int) =~= children@);
    }
    visible
}

} // verus!

verus! {

/// A type as the object tree shows it: its id, whether its node is expanded, and the positions
/// of its (visible) children in the list of nodes.
#[derive(Debug, Clone, PartialEq, Eq)]
pub struct TreeNode {
    pub id: u64,
    pub open: bool,
    pub children: Vec<usize>,
}

/// One drawn row of the object tree: the type, the row of its parent, whether it has no
/// children, and whether it is the last child of its parent (which ends the guide line there).
#[derive(Debug, Clone, Copy, PartialEq, Eq)]
pub struct ObjectTreeRow {
    pub id: u64,
    pub parent: Option<usize>,
    pub leaf: bool,
    pub last_sibling: bool,
}

/// The nodes form a tree listed parents first: every child comes after its parent.
pub open spec fn children_follow(nodes: Seq<TreeNode>) -> bool {
    forall|i: int, k: int|
        0 <= i < nodes.len() && 0 <= k < nodes[i].children@.len() ==> i < #[trigger] nodes[i].children@[k]
            < nodes.len()
}

/// The rows drawn for the node at `i` and, when it is expanded, its descendants, in order:
/// the node's row first, then the rows of each child in turn. `base` is the index of the
/// node's own row.
pub open spec fn node_rows(
    nodes: Seq<TreeNode>,
    i: int,
    parent: Option<usize>,
    last: bool,
    base: int,
) -> Seq<ObjectTreeRow>
    decreases nodes.len() - i + 1, 0int,
{
    if 0 <= i < nodes.len() {
        let node = nodes[i];
        let leaf = node.children@.len() == 0;
        let row = ObjectTreeRow { id: node.id, parent, leaf, last_sibling: last };
        if leaf || !node.open {
            seq![row]
        } else {
            seq![row] + children_rows(nodes, i, node.children@, base, base + 1)
        }
    } else {
        seq![]
    }
}

/// The rows of the children `kids` of the node at `p`, whose row is `parent_row`, starting at
/// row `start`.
pub open spec fn children_rows(
    nodes: Seq<TreeNode>,
    p: int,
    kids: Seq<usize>,
    parent_row: int,
    start: int,
) -> Seq<ObjectTreeRow>
    decreases nodes.len() - p, kids.len(),
{
    if kids.len() == 0 {
        seq![]
    } else if p < kids[0] < nodes.len() {
        let first = node_rows(nodes, kids[0] as int, Some(parent_row as usize), kids.len() == 1, start);
        first + children_rows(nodes, p, kids.drop_first(), parent_row, start + first.len())
    } else {
        children_rows(nodes, p, kids.drop_first(), parent_row, start)
    }
}

fn collect_rows(
    nodes: &Vec<TreeNode>,
    i: usize,
    parent: Option<usize>,
    last: bool,
    rows: &mut Vec<ObjectTreeRow>,
)
    requires
        children_follow(nodes@),
        i < nodes@.len(),
    ensures
        final(rows)@ == old(rows)@ + node_rows(nodes@, i as int, parent, last, old(rows)@.len() as int),
    decreases nodes@.len() - i + 1, 0int,
{
    let ghost base = rows@.len() as int;
    let ghost start = rows@;
    let leaf = nodes[i].children.len() == 0;
    let row = rows.len();
    rows.push(ObjectTreeRow { id: nodes[i].id, parent, leaf, last_sibling: last });
    if leaf || !nodes[i].open {
        return;
    }
    let count = nodes[i].children.len();
    proof {
        let kids = nodes@[i as int].children@;
        let r = ObjectTreeRow { id: nodes@[i as int].id, parent, leaf, last_sibling: last };
        assert(kids.skip(0) =~= kids);
        assert(rows@ == start.push(r));
        assert(node_rows(nodes@, i as int, parent, last, base) == seq![r] + children_rows(
            nodes@,
            i as int,
            kids,
            base,
            base + 1,
        ));
        assert(start.push(r) + children_rows(nodes@, i as int, kids, base, base + 1) =~= start + (seq![
            r,
        ] + children_rows(nodes@, i as int, kids, base, base + 1)));
    }
    let mut k: usize = 0;
    while k < count
        invariant
            children_follow(nodes@),
            i < nodes@.len(),
            count == nodes@[i as int].children@.len(),
            k <= count,
            row as int == base,
            base == start.len(),
            rows@.len() >= base + 1,
            rows@ + children_rows(
                nodes@,
                i as int,
                nodes@[i as int].children@.skip(k as int),
                base,
                rows@.len() as int,
            ) == start + node_rows(nodes@, i as int, parent, last, base),
        decreases count - k,
    {
        let ghost kids = nodes@[i as int].children@.skip(k as int);
        let ghost before = rows@;
        let child = nodes[i].children[k];
        proof {
            assert(kids[0] == child);
            assert(kids.drop_first() =~= nodes@[i as int].children@.skip(k + 1));
            assert(i < child < nodes@.len());
        }
        collect_rows(nodes, child, Some(row), k + 1 == count, rows);
        proof {
            let first = node_rows(nodes@, child as int, Some(row), kids.len() == 1, before.len() as int);
            assert(rows@ == before + first);
            assert(kids.len() == count - k);
            assert(before + (first + children_rows(nodes@, i as int, kids.drop_first(), base, (before.len()
                + first.len()) as int)) =~= rows@ + children_rows(
                nodes@,
                i as int,
                kids.drop_first(),
                base,
                rows@.len() as int,
            ));
        }
        k = k + 1;
    }
    proof {
        assert(nodes@[i as int].children@.skip(k as int) =~= Seq::<usize>::empty());
        assert(rows@ + Seq::<ObjectTreeRow>::empty() =~= rows@);
    }
}

/// The row's parent, if it has one, is drawn before row `index`.
pub open spec fn parent_before(row: ObjectTreeRow, index: int) -> bool {
    match row.parent {
        Some(q) => q < index,
        None => true,
    }
}

proof fn lemma_node_rows_parents(
    nodes: Seq<TreeNode>,
    i: int,
    parent: Option<usize>,
    last: bool,
    base: int,
)
    requires
        0 <= base,
        base + node_rows(nodes, i, parent, last, base).len() <= usize::MAX + 1,
        parent matches Some(p) ==> p < base,
    ensures
        forall|r: int|
            0 <= r < node_rows(nodes, i, parent, last, base).len() ==> parent_before(
                #[trigger] node_rows(nodes, i, parent, last, base)[r],
                base + r,
            ),
    decreases nodes.len() - i + 1, 0int,
{
    if 0 <= i < nodes.len() {
        let node = nodes[i];
        if !(node.children@.len() == 0 || !node.open) {
            let rest = children_rows(nodes, i, node.children@, base, base + 1);
            lemma_children_rows_parents(nodes, i, node.children@, base, base + 1);
            let all = node_rows(nodes, i, parent, last, base);
            assert forall|r: int| 1 <= r < all.len() implies all[r] == rest[r - 1] by {}
        }
    }
}

proof fn lemma_children_rows_parents(
    nodes: Seq<TreeNode>,
    p: int,
    kids: Seq<usize>,
    parent_row: int,
    start: int,
)
    requires
        0 <= parent_row < start,
        start + children_rows(nodes, p, kids, parent_row, start).len() <= usize::MAX + 1,
    ensures
        forall|r: int|
            0 <= r < children_rows(nodes, p, kids, parent_row, start).len() ==> parent_before(
                #[trigger] children_rows(nodes, p, kids, parent_row, start)[r],
                start + r,
            ),
    decreases nodes.len() - p, kids.len(),
{
    if kids.len() > 0 {
        if p < kids[0] < nodes.len() {
            let first = node_rows(nodes, kids[0] as int, Some(parent_row as usize), kids.len() == 1, start);
            let rest = children_rows(nodes, p, kids.drop_first(), parent_row, start + first.len());
            lemma_node_rows_parents(nodes, kids[0] as int, Some(parent_row as usize), kids.len() == 1, start);
            lemma_children_rows_parents(nodes, p, kids.drop_first(), parent_row, start + first.len());
            let all = children_rows(nodes, p, kids, parent_row, start);
            assert(all == first + rest);
            assert forall|r: int| 0 <= r < all.len() implies parent_before(#[trigger] all[r], start + r) by {
                if r < first.len() {
                    assert(all[r] == first[r]);
                } else {
                    assert(all[r] == rest[r - first.len()]);
                }
            }
        } else {
            lemma_children_rows_parents(nodes, p, kids.drop_first(), parent_row, start);
        }
    }
}

/// The rows the object tree draws under the type at `root`: the root, then depth first every
/// descendant whose ancestors are all expanded, each with the row of its parent, which always
/// comes before it.
pub fn object_tree_rows(nodes: &Vec<TreeNode>, root: usize) -> (rows: Vec<ObjectTreeRow>)
    requires
        children_follow(nodes@),
    ensures
        rows@ == node_rows(nodes@, root as int, None, true, 0),
        forall|r: int| 0 <= r < rows@.len() ==> parent_before(#[trigger] rows@[r], r),
{
    let mut rows: Vec<ObjectTreeRow> = Vec::new();
    if root < nodes.len() {
        collect_rows(nodes, root, None, true, &mut rows);
        assert(rows@ =~= node_rows(nodes@, root as int, None, true, 0));
    }
    let count = rows.len();
    proof {
        assert(rows@ =~= node_rows(nodes@, root as int, None, true, 0));
        assert(count == rows@.len());
        lemma_node_rows_parents(nodes@, root as int, None, true, 0);
    }
    rows
}

/// Where the vertical guide line of one indentation level ends on a row: at the middle of the
/// row (the branch of a last child) or at its bottom (the line goes on to a later sibling).
#[derive(Debug, Clone, Copy, PartialEq, Eq, Structural)]
pub enum GuideEnd {
    Middle,
    Bottom,
}

/// The guide line drawn at indentation level `level` of the row `row_index`, whose ancestor
/// rows, root first, are `ancestors`: each level follows the ancestor one level down (the row
/// itself at the last level). A last child's line stops at its branch, and deeper rows under a
/// last child draw nothing at that level.
pub open spec fn spec_guide_line(
    rows: Seq<ObjectTreeRow>,
    ancestors: Seq<usize>,
    row_index: usize,
    level: int,
) -> Option<GuideEnd> {
    let depth = ancestors.len();
    let index = if level + 1 < depth {
        ancestors[level + 1]
    } else {
        row_index
    };
    if index < rows.len() {
        let child = rows[index as int];
        if child.last_sibling && level + 1 < depth {
            None
        } else if child.last_sibling {
            Some(GuideEnd::Middle)
        } else {
            Some(GuideEnd::Bottom)
        }
    } else {
        None
    }
}

/// The guide lines of a row, one per indentation level (none for a root row).
pub fn guide_lines(rows: &Vec<ObjectTreeRow>, ancestors: &Vec<usize>, row_index: usize) -> (lines: Vec<
    Option<GuideEnd>,
>)
    ensures
        lines@.len() == ancestors@.len(),
        forall|level: int|
            0 <= level < lines@.len() ==> #[trigger] lines@[level] == spec_guide_line(
                rows@,
                ancestors@,
                row_index,
                level,
            ),
{
    let depth = ancestors.len();
    let mut lines: Vec<Option<GuideEnd>> = Vec::new();
    let mut level: usize = 0;
    while level < depth
        invariant
            depth == ancestors@.len(),
            level <= depth,
            lines@.len() == level,
            forall|l: int|
                0 <= l < level ==> #[trigger] lines@[l] == spec_guide_line(
                    rows@,
                    ancestors@,
                    row_index,
                    l,
                ),
        decreases depth - level,
    {
        let inner = level + 1 < depth;
        let index = if inner {
            ancestors[level + 1]
        } else {
            row_index
        };
        let line = if index < rows.len() {
            let child = rows[index];
            if child.last_sibling && inner {
                None
            } else if child.last_sibling {
                Some(GuideEnd::Middle)
            } else {
                Some(GuideEnd::Bottom)
            }
        } else {
            None
        };
        lines.push(line);
        level = level + 1;
    }
    lines
}

/// A found type's lineage: the type, then its ancestors, nearest first.
pub open spec fn lineage_of(found: FoundType) -> Seq<u64> {
    seq![found.id] + found.ancestors@
}

/// Whether the filtered tree shows a found type: it is an atom (`atom` is in its lineage) and
/// the type filter keeps it.
pub open spec fn shown_match(found: FoundType, atom: u64, type_filter: ObjectTreeTypeFilter) -> bool {
    lineage_of(found).contains(atom) && spec_filter_action(type_filter, lineage_of(found))
        == ObjectTreeFilterAction::Keep
}

fn lineage_vec(found: &FoundType) -> (lineage: Vec<u64>)
    ensures
        lineage@ == lineage_of(*found),
{
    let mut lineage: Vec<u64> = Vec::new();
    lineage.push(found.id);
    let mut i: usize = 0;
    while i < found.ancestors.len()
        invariant
            i <= found.ancestors@.len(),
            lineage@ == seq![found.id] + found.ancestors@.take(i as int),
        decreases found.ancestors.len() - i,
    {
        lineage.push(found.ancestors[i]);
        i = i + 1;
        assert(lineage@ =~= seq![found.id] + found.ancestors@.take(i as int));
    }
    assert(lineage@ =~= lineage_of(*found));
    lineage
}

/// The matches of a search that the filtered tree shows, in order.
pub fn shown_matches(found: Vec<FoundType>, atom: u64, type_filter: ObjectTreeTypeFilter) -> (shown: Vec<
    FoundType,
>)
    ensures
        shown@ == found@.filter(|f: FoundType| shown_match(f, atom, type_filter)),
{
    let ghost keep = |f: FoundType| shown_match(f, atom, type_filter);
    let ghost all = found@;
    let mut rest = found;
    let mut shown: Vec<FoundType> = Vec::new();
    let mut i: usize = 0;
    proof {
        assert(all.skip(0) =~= all);
    }
    let total = rest.len();
    while rest.len() > 0
        invariant
            total == all.len(),
            i + rest@.len() == all.len(),
            rest@ == all.skip(i as int),
            keep == (|f: FoundType| shown_match(f, atom, type_filter)),
            shown@ == all.take(i as int).filter(keep),
        decreases rest.len(),
    {
        let f = rest.remove(0);
        proof {
            assert(f == all[i as int]);
            assert(all.take(i + 1) =~= all.take(i as int).push(f));
            all.take(i as int).lemma_filter_push(f, keep);
            assert(rest@ =~= all.skip(i + 1));
        }
        let lineage = lineage_vec(&f);
        if contains_id(&lineage, atom) && type_filter.action(&lineage) == ObjectTreeFilterAction::Keep {
            shown.push(f);
        }
        i = i + 1;
    }
    proof {
        assert(all.take(i as int) =~= all);
    }
    shown
}

impl ObjectTreeFilter {
    /// The filtered tree for a search: the matches (in the order found, each with its ancestors)
    /// that are atoms and that the type filter keeps, arranged as a tree.
    pub fn for_search(found: Vec<FoundType>, atom: u64, type_filter: ObjectTreeTypeFilter) -> (filter: Self)
        ensures
            ({
                let shown = found@.filter(|f: FoundType| shown_match(f, atom, type_filter));
                &&& filter.matches@ == found_ids(shown)
                &&& filter.roots@ == roots_in(shown, found_ids(shown))
                &&& forall|p: u64| children_of(filter.children@, p) == children_in(shown, found_ids(shown), p)
            }),
    {
        let shown = shown_matches(found, atom, type_filter);
        ObjectTreeFilter::new(&shown)
    }
}

/// Whether a node opens to show a type that is to be revealed: the target is another type,
/// shown by the search filter when there is one (`shown_by_search`), kept by the type filter
/// (`kept`), and a subtype of the node (`below`).
pub fn reveals_descendant(target: Option<u64>, id: u64, shown_by_search: bool, kept: bool, below: bool) -> (reveals:
    bool)
    ensures
        reveals == (match target {
            Some(t) => t != id && shown_by_search && kept && below,
            None => false,
        }),
{
    match target {
        Some(t) => t != id && shown_by_search && kept && below,
        None => false,
    }
}

/// Whether a node with children is drawn open, and whether its stored open state is set to open
/// first: "expand all", the atom root the first time it is drawn (nothing `stored` yet) and a
/// node over a type to reveal are opened; otherwise the node keeps the state stored for it,
/// closed by default.
pub fn node_opens(expand: bool, atom_root: bool, stored: Option<bool>, reveals: bool) -> (opens: (bool, bool))
    ensures
        opens.1 == (expand || (atom_root && stored is None) || reveals),
        opens.0 == (opens.1 || stored == Some(true)),
{
    let force = expand || (atom_root && stored.is_none()) || reveals;
    let open = force || match stored {
        Some(state) => state,
        None => false,
    };
    (open, force)
}

} // verus!
