//! Where a prefab goes in the stack of a tile, which instances it replaces, and whether placing
//! it changes the tile.
use vstd::prelude::*;

verus! {

/// The three kinds of atoms a map tile stacks: objects first, then the turf, then the area.
#[derive(Debug, Clone, Copy, PartialEq, Eq, Structural)]
pub enum PlacementKind {
    Atom,
    Turf,
    Area,
}

pub open spec fn spec_placement_rank(kind: PlacementKind) -> u8 {
    match kind {
        PlacementKind::Atom => 0,
        PlacementKind::Turf => 1,
        PlacementKind::Area => 2,
    }
}

/// A tile stacks its objects below its turf and its turf below its area.
pub proof fn lemma_objects_below_turf_below_area()
    ensures
        spec_placement_rank(PlacementKind::Atom) < spec_placement_rank(PlacementKind::Turf),
        spec_placement_rank(PlacementKind::Turf) < spec_placement_rank(PlacementKind::Area),
{
}

pub fn placement_rank(kind: PlacementKind) -> (rank: u8)
    ensures
        rank == spec_placement_rank(kind),
{
    match kind {
        PlacementKind::Atom => 0,
        PlacementKind::Turf => 1,
        PlacementKind::Area => 2,
    }
}

/// Whether the stacked prefab of kind `candidate` must stay below a new prefab of kind `kind`.
pub open spec fn ranks_above(candidate: Option<PlacementKind>, kind: PlacementKind) -> bool {
    match candidate {
        Some(c) => spec_placement_rank(c) > spec_placement_rank(kind),
        None => false,
    }
}

/// The first position whose prefab ranks above `kind`, or the end of the stack.
pub open spec fn spec_insertion_index(kinds: Seq<Option<PlacementKind>>, kind: PlacementKind) -> int
    decreases kinds.len(),
{
    if kinds.len() == 0 {
        0
    } else if ranks_above(kinds[0], kind) {
        0
    } else {
        1 + spec_insertion_index(kinds.drop_first(), kind)
    }
}

proof fn lemma_insertion_index(kinds: Seq<Option<PlacementKind>>, kind: PlacementKind)
    ensures
        0 <= spec_insertion_index(kinds, kind) <= kinds.len(),
        forall|k: int| 0 <= k < spec_insertion_index(kinds, kind) ==> !ranks_above(#[trigger] kinds[k], kind),
        spec_insertion_index(kinds, kind) < kinds.len() ==> ranks_above(
            kinds[spec_insertion_index(kinds, kind)],
            kind,
        ),
    decreases kinds.len(),
{
    if kinds.len() > 0 && !ranks_above(kinds[0], kind) {
        lemma_insertion_index(kinds.drop_first(), kind);
        assert forall|k: int| 0 <= k < spec_insertion_index(kinds, kind) implies !ranks_above(#[trigger] kinds[k], kind) by {
            if k > 0 {
                assert(kinds[k] == kinds.drop_first()[k - 1]);
            }
        }
    }
}

/// Where a new prefab of kind `kind` goes in a tile whose stacked prefabs have the kinds
/// `kinds`: before the first one that ranks above it, or at the end.
pub fn insertion_index(kinds: &Vec<Option<PlacementKind>>, kind: PlacementKind) -> (index: usize)
    ensures
        index as int == spec_insertion_index(kinds@, kind),
        index <= kinds@.len(),
        forall|k: int| 0 <= k < index ==> !ranks_above(#[trigger] kinds@[k], kind),
        index < kinds@.len() ==> ranks_above(kinds@[index as int], kind),
{
    proof {
        lemma_insertion_index(kinds@, kind);
    }
    let rank = placement_rank(kind);
    let mut i: usize = 0;
    while i < kinds.len()
        invariant
            rank == spec_placement_rank(kind),
            i <= kinds@.len(),
            forall|k: int| 0 <= k < i ==> !ranks_above(#[trigger] kinds@[k], kind),
        decreases kinds.len() - i,
    {
        let above = match kinds[i] {
            Some(candidate) => placement_rank(candidate) > rank,
            None => false,
        };
        if above {
            proof {
                lemma_first_above(kinds@, kind, i as int);
            }
            return i;
        }
        i = i + 1;
    }
    proof {
        lemma_first_above(kinds@, kind, i as int);
    }
    i
}

proof fn lemma_first_above(kinds: Seq<Option<PlacementKind>>, kind: PlacementKind, i: int)
    requires
        0 <= i <= kinds.len(),
        forall|k: int| 0 <= k < i ==> !ranks_above(#[trigger] kinds[k], kind),
        i < kinds.len() ==> ranks_above(kinds[i], kind),
    ensures
        spec_insertion_index(kinds, kind) == i,
    decreases kinds.len(),
{
    if i > 0 {
        assert forall|k: int| 0 <= k < i - 1 implies !ranks_above(#[trigger] kinds.drop_first()[k], kind) by {
            assert(kinds.drop_first()[k] == kinds[k + 1]);
        }
        assert(!ranks_above(kinds[0], kind));
        lemma_first_above(kinds.drop_first(), kind, i - 1);
    }
}

/// The positions in `kinds` that hold `kind`, in order.
pub open spec fn positions_of(kinds: Seq<Option<PlacementKind>>, kind: PlacementKind) -> Seq<int>
    decreases kinds.len(),
{
    if kinds.len() == 0 {
        seq![]
    } else {
        let front = positions_of(kinds.drop_last(), kind);
        if kinds.last() == Some(kind) {
            front.push(kinds.len() - 1)
        } else {
            front
        }
    }
}

proof fn lemma_positions_of(kinds: Seq<Option<PlacementKind>>, kind: PlacementKind)
    ensures
        forall|k: int|
            0 <= k < positions_of(kinds, kind).len() ==> 0 <= #[trigger] positions_of(kinds, kind)[k]
                < kinds.len() && kinds[positions_of(kinds, kind)[k]] == Some(kind),
        forall|a: int, b: int|
            0 <= a < b < positions_of(kinds, kind).len() ==> #[trigger] positions_of(kinds, kind)[a]
                < #[trigger] positions_of(kinds, kind)[b],
        forall|i: int|
            0 <= i < kinds.len() && kinds[i] == Some(kind) ==> positions_of(kinds, kind).contains(
                i,
            ),
    decreases kinds.len(),
{
    if kinds.len() > 0 {
        let front = kinds.drop_last();
        lemma_positions_of(front, kind);
        let p = positions_of(kinds, kind);
        let fp = positions_of(front, kind);
        assert forall|i: int| 0 <= i < kinds.len() && kinds[i] == Some(kind) implies p.contains(i) by {
            if i < kinds.len() - 1 {
                assert(front[i] == kinds[i]);
                let k = choose|k: int| 0 <= k < fp.len() && fp[k] == i;
                assert(p[k] == i);
            } else {
                assert(p[p.len() - 1] == i);
            }
        }
    }
}

/// A prefab instance stacked on a tile, with the identity that edits and undo keep.
#[derive(Debug, Clone, PartialEq, Eq)]
pub struct PlacedPrefab<P> {
    pub id: u64,
    pub prefab: P,
}

/// The stack after a prefab of kind `kind` replaces that kind: the first prefab of the kind takes
/// the new prefab and keeps its identity, the others of the kind are taken off, the rest stays.
/// `seen` says whether the first prefab of the kind came before `stack`.
pub open spec fn replaced_stack<P>(
    stack: Seq<PlacedPrefab<P>>,
    kinds: Seq<Option<PlacementKind>>,
    kind: PlacementKind,
    prefab: P,
    seen: bool,
) -> Seq<PlacedPrefab<P>>
    decreases stack.len(),
{
    if stack.len() == 0 || kinds.len() == 0 {
        seq![]
    } else {
        let rest = replaced_stack(
            stack.drop_first(),
            kinds.drop_first(),
            kind,
            prefab,
            seen || kinds[0] == Some(kind),
        );
        if kinds[0] == Some(kind) {
            if seen {
                rest
            } else {
                seq![PlacedPrefab { id: stack[0].id, prefab }] + rest
            }
        } else {
            seq![stack[0]] + rest
        }
    }
}

/// The identities a replacement touches: the kept one first, then those taken off, last first.
pub open spec fn replaced_ids<P>(
    stack: Seq<PlacedPrefab<P>>,
    kinds: Seq<Option<PlacementKind>>,
    kind: PlacementKind,
) -> Seq<u64> {
    let positions = positions_of(kinds, kind);
    seq![stack[positions[0]].id] + positions.drop_first().reverse().map_values(
        |i: int| stack[i].id,
    )
}

/// Puts `prefab` onto the tile `stack` in place of the prefabs of kind `kind`, when there are any:
/// the first of them keeps its identity and takes `prefab`, the others are taken off. Returns the
/// identities touched, the kept one first, or `None` with the stack untouched when the tile holds
/// no prefab of that kind.
pub fn replace_kind<P>(
    stack: &mut Vec<PlacedPrefab<P>>,
    kinds: &Vec<Option<PlacementKind>>,
    kind: PlacementKind,
    prefab: P,
) -> (affected: Option<Vec<u64>>)
    requires
        old(stack)@.len() == kinds@.len(),
    ensures
        positions_of(kinds@, kind).len() == 0 ==> affected is None && final(stack)@ == old(
            stack,
        )@,
        positions_of(kinds@, kind).len() > 0 ==> affected is Some && affected->0@ == replaced_ids(
            old(stack)@,
            kinds@,
            kind,
        ) && final(stack)@ == replaced_stack(old(stack)@, kinds@, kind, prefab, false),
{
    proof {
        lemma_positions_of(kinds@, kind);
    }
    let mut positions: Vec<usize> = Vec::new();
    let mut i: usize = 0;
    while i < kinds.len()
        invariant
            i <= kinds@.len(),
            positions@.len() == positions_of(kinds@.subrange(0, i as int), kind).len(),
            forall|k: int|
                0 <= k < positions@.len() ==> positions@[k] as int == #[trigger] positions_of(
                    kinds@.subrange(0, i as int),
                    kind,
                )[k],
        decreases kinds.len() - i,
    {
        proof {
            assert(kinds@.subrange(0, i + 1).drop_last() =~= kinds@.subrange(0, i as int));
        }
        if kinds[i] == Some(kind) {
            positions.push(i);
        }
        i = i + 1;
    }
    proof {
        assert(kinds@.subrange(0, kinds@.len() as int) =~= kinds@);
        assert forall|k: int| 0 <= k < positions@.len() implies positions@[k] < kinds@.len() by {
            assert(positions@[k] as int == positions_of(kinds@, kind)[k]);
        }
    }
    if positions.len() == 0 {
        return None;
    }
    let ghost original = stack@;
    let mut affected: Vec<u64> = Vec::new();
    affected.push(stack[positions[0]].id);
    let mut k: usize = positions.len() - 1;
    while k > 0
        invariant
            original == stack@,
            0 <= k < positions@.len(),
            forall|m: int| 0 <= m < positions@.len() ==> positions@[m] < kinds@.len(),
            positions@.len() == positions_of(kinds@, kind).len(),
            forall|m: int|
                0 <= m < positions@.len() ==> positions@[m] as int == #[trigger] positions_of(
                    kinds@,
                    kind,
                )[m],
            original.len() == kinds@.len(),
            forall|m: int|
                0 <= m < positions_of(kinds@, kind).len() ==> 0 <= #[trigger] positions_of(
                    kinds@,
                    kind,
                )[m] < kinds@.len(),
            affected@ == seq![original[positions_of(kinds@, kind)[0]].id] + positions_of(
                kinds@,
                kind,
            ).drop_first().reverse().map_values(|i: int| original[i].id).take(
                (positions@.len() - 1 - k) as int,
            ),
        decreases k,
    {
        let ghost before = affected@;
        affected.push(stack[positions[k]].id);
        proof {
            let p = positions_of(kinds@, kind);
            let tail = p.drop_first().reverse().map_values(|i: int| original[i].id);
            let n = (positions@.len() - 1 - k) as int;
            assert(tail[n] == original[p[k as int]].id);
            assert(tail.take(n + 1) =~= tail.take(n).push(tail[n]));
            assert(affected@ =~= seq![original[p[0]].id] + tail.take(n + 1));
        }
        k = k - 1;
    }
    proof {
        let p = positions_of(kinds@, kind);
        let tail = p.drop_first().reverse().map_values(|i: int| original[i].id);
        assert(tail.take((positions@.len() - 1) as int) =~= tail);
    }
    let mut rebuilt: Vec<PlacedPrefab<P>> = Vec::new();
    let mut pending: Option<P> = Some(prefab);
    let mut seen = false;
    let mut j: usize = 0;
    let ghost target = replaced_stack(original, kinds@, kind, prefab, false);
    proof {
        assert(original.skip(0) =~= original);
        assert(kinds@.skip(0) =~= kinds@);
    }
    while stack.len() > 0
        invariant
            original.len() == kinds@.len(),
            j <= kinds.len(),
            stack@ == original.skip(j as int),
            target == replaced_stack(original, kinds@, kind, prefab, false),
            target == rebuilt@ + replaced_stack(stack@, kinds@.skip(j as int), kind, prefab, seen),
            seen <==> pending is None,
            pending is Some ==> pending->0 == prefab,
        decreases stack.len(),
    {
        let ghost old_stack = stack@;
        let ghost old_rebuilt = rebuilt@;
        let ghost old_seen = seen;
        let ghost ks = kinds@.skip(j as int);
        proof {
            assert(j < kinds@.len());
            assert(ks[0] == kinds@[j as int]);
            assert(original.skip(j as int).drop_first() =~= original.skip(j + 1));
            assert(ks.drop_first() =~= kinds@.skip(j + 1));
        }
        let entry = stack.remove(0);
        if kinds[j] == Some(kind) {
            if !seen {
                let new_prefab = pending.take().unwrap();
                rebuilt.push(PlacedPrefab { id: entry.id, prefab: new_prefab });
                seen = true;
            }
        } else {
            rebuilt.push(entry);
        }
        proof {
            let rest = replaced_stack(stack@, kinds@.skip(j + 1), kind, prefab, seen);
            assert(stack@ =~= old_stack.drop_first());
            assert(replaced_stack(old_stack, ks, kind, prefab, old_seen) == if ks[0] == Some(kind) {
                if old_seen {
                    rest
                } else {
                    seq![PlacedPrefab { id: old_stack[0].id, prefab }] + rest
                }
            } else {
                seq![old_stack[0]] + rest
            });
            if ks[0] == Some(kind) && !old_seen {
                assert(rebuilt@ =~= old_rebuilt + seq![PlacedPrefab { id: old_stack[0].id, prefab }]);
                assert(old_rebuilt + (seq![PlacedPrefab { id: old_stack[0].id, prefab }] + rest)
                    =~= rebuilt@ + rest);
            } else if ks[0] != Some(kind) {
                assert(rebuilt@ =~= old_rebuilt + seq![old_stack[0]]);
                assert(old_rebuilt + (seq![old_stack[0]] + rest) =~= rebuilt@ + rest);
            }
        }
        j = j + 1;
    }
    proof {
        assert(stack@.len() == 0);
    }
    *stack = rebuilt;
    Some(affected)
}

/// Inserts `placed` into the tile `stack` before the first prefab that ranks above `kind`.
pub fn insert_placed<P>(
    stack: &mut Vec<PlacedPrefab<P>>,
    kinds: &Vec<Option<PlacementKind>>,
    kind: PlacementKind,
    placed: PlacedPrefab<P>,
)
    requires
        old(stack)@.len() == kinds@.len(),
    ensures
        final(stack)@ == old(stack)@.insert(spec_insertion_index(kinds@, kind), placed),
{
    let index = insertion_index(kinds, kind);
    stack.insert(index, placed);
}

/// Whether putting a prefab of kind `kind` onto a tile creates a new instance: objects always
/// stack up, a turf or an area only when the tile holds none of its kind.
pub open spec fn spec_needs_new_instance(kinds: Seq<Option<PlacementKind>>, kind: PlacementKind) -> bool {
    kind == PlacementKind::Atom || positions_of(kinds, kind).len() == 0
}

pub fn needs_new_instance(kinds: &Vec<Option<PlacementKind>>, kind: PlacementKind) -> (needed: bool)
    ensures
        needed == spec_needs_new_instance(kinds@, kind),
        needed <==> (kind == PlacementKind::Atom || forall|k: int| 0 <= k < kinds@.len() ==> kinds@[k] != Some(kind)),
{
    proof {
        lemma_positions_of(kinds@, kind);
        let p = positions_of(kinds@, kind);
        if p.len() > 0 {
            assert(kinds@[p[0]] == Some(kind));
        }
        if exists|k: int| 0 <= k < kinds@.len() && kinds@[k] == Some(kind) {
            let k = choose|k: int| 0 <= k < kinds@.len() && kinds@[k] == Some(kind);
            assert(p.contains(k));
        }
    }
    if kind == PlacementKind::Atom {
        return true;
    }
    proof {
        lemma_positions_of(kinds@, kind);
    }
    let mut i: usize = 0;
    while i < kinds.len()
        invariant
            kind != PlacementKind::Atom,
            i <= kinds@.len(),
            forall|k: int| 0 <= k < i ==> kinds@[k] != Some(kind),
        decreases kinds.len() - i,
    {
        if kinds[i] == Some(kind) {
            proof {
                lemma_positions_of(kinds@, kind);
                let p = positions_of(kinds@, kind);
                assert(p.contains(i as int));
            }
            return false;
        }
        i = i + 1;
    }
    proof {
        let p = positions_of(kinds@, kind);
        if p.len() > 0 {
            assert(kinds@[p[0]] == Some(kind));
        }
    }
    true
}


/// The kind of a prefab from where its type sits in the type tree: nothing outside the atoms is
/// placed; among atoms, turfs and areas are their own kinds and every other atom is an object.
pub open spec fn spec_placement_kind(under_atom: bool, under_turf: bool, under_area: bool) -> Option<
    PlacementKind,
> {
    if !under_atom {
        None
    } else if under_turf {
        Some(PlacementKind::Turf)
    } else if under_area {
        Some(PlacementKind::Area)
    } else {
        Some(PlacementKind::Atom)
    }
}

/// The kind of a prefab whose type is (or is not) a subtype of the atom, turf and area roots.
pub fn placement_kind(under_atom: bool, under_turf: bool, under_area: bool) -> (kind: Option<
    PlacementKind,
>)
    ensures
        kind == spec_placement_kind(under_atom, under_turf, under_area),
        kind is None <==> !under_atom,
        under_atom && under_turf ==> kind == Some(PlacementKind::Turf),
        under_atom && !under_turf && under_area ==> kind == Some(PlacementKind::Area),
        under_atom && !under_turf && !under_area ==> kind == Some(PlacementKind::Atom),
{
    if !under_atom {
        None
    } else if under_turf {
        Some(PlacementKind::Turf)
    } else if under_area {
        Some(PlacementKind::Area)
    } else {
        Some(PlacementKind::Atom)
    }
}

/// Whether filling a tile with a prefab of kind `kind` changes it: it does unless the tile holds
/// exactly one prefab of that kind and that one is already the prefab (`same[i]` says whether
/// the prefab at `i` is).
pub open spec fn spec_would_replace_kind(
    kinds: Seq<Option<PlacementKind>>,
    same: Seq<bool>,
    kind: PlacementKind,
) -> bool {
    let p = positions_of(kinds, kind);
    p.len() != 1 || !same[p[0]]
}

pub fn would_replace_kind(kinds: &Vec<Option<PlacementKind>>, same: &Vec<bool>, kind: PlacementKind) -> (replaces: bool)
    requires
        kinds@.len() == same@.len(),
    ensures
        replaces == spec_would_replace_kind(kinds@, same@, kind),
{
    proof {
        lemma_positions_of(kinds@, kind);
    }
    let ghost p = positions_of(kinds@, kind);
    let mut first: Option<usize> = None;
    let mut i: usize = 0;
    while i < kinds.len()
        invariant
            i <= kinds@.len(),
            kinds@.len() == same@.len(),
            p == positions_of(kinds@, kind),
            forall|k: int| 0 <= k < p.len() ==> 0 <= #[trigger] p[k] < kinds@.len() && kinds@[p[k]] == Some(kind),
            forall|a: int, b: int| 0 <= a < b < p.len() ==> #[trigger] p[a] < #[trigger] p[b],
            forall|j: int| 0 <= j < kinds@.len() && kinds@[j] == Some(kind) ==> p.contains(j),
            first matches Some(f) ==> f < i && kinds@[f as int] == Some(kind) && forall|j: int|
                0 <= j < i && j != f ==> kinds@[j] != Some(kind),
            first is None ==> forall|j: int| 0 <= j < i ==> kinds@[j] != Some(kind),
        decreases kinds.len() - i,
    {
        if kinds[i] == Some(kind) {
            match first {
                Some(f) => {
                    proof {
                        assert(p.contains(f as int));
                        assert(p.contains(i as int));
                        let a = choose|a: int| 0 <= a < p.len() && p[a] == f as int;
                        let b = choose|b: int| 0 <= b < p.len() && p[b] == i as int;
                        assert(a != b);
                    }
                    return true;
                },
                None => {
                    first = Some(i);
                },
            }
        }
        i = i + 1;
    }
    match first {
        Some(f) => {
            proof {
                assert(p.contains(f as int));
                if p.len() > 1 {
                    assert(p[0] != p[1]);
                    assert(kinds@[p[0]] == Some(kind));
                    assert(kinds@[p[1]] == Some(kind));
                }
                assert(p.len() == 1);
                assert(p[0] == f as int);
            }
            !same[f]
        },
        None => {
            proof {
                if p.len() > 0 {
                    assert(kinds@[p[0]] == Some(kind));
                }
            }
            true
        },
    }
}

proof fn lemma_replace_without_kind<P>(
    stack: Seq<PlacedPrefab<P>>,
    kinds: Seq<Option<PlacementKind>>,
    kind: PlacementKind,
    prefab: P,
    seen: bool,
)
    requires
        stack.len() == kinds.len(),
        forall|j: int| 0 <= j < kinds.len() ==> kinds[j] != Some(kind),
    ensures
        replaced_stack(stack, kinds, kind, prefab, seen) == stack,
    decreases stack.len(),
{
    if stack.len() > 0 {
        assert forall|j: int| 0 <= j < kinds.drop_first().len() implies kinds.drop_first()[j] != Some(
            kind,
        ) by {
            assert(kinds.drop_first()[j] == kinds[j + 1]);
        }
        lemma_replace_without_kind(stack.drop_first(), kinds.drop_first(), kind, prefab, seen);
        assert(kinds[0] != Some(kind));
        assert(stack =~= seq![stack[0]] + stack.drop_first());
    }
}

proof fn lemma_replace_single<P>(
    stack: Seq<PlacedPrefab<P>>,
    kinds: Seq<Option<PlacementKind>>,
    kind: PlacementKind,
    prefab: P,
    q: int,
)
    requires
        stack.len() == kinds.len(),
        0 <= q < kinds.len(),
        kinds[q] == Some(kind),
        forall|j: int| 0 <= j < kinds.len() && j != q ==> kinds[j] != Some(kind),
    ensures
        replaced_stack(stack, kinds, kind, prefab, false) == stack.update(
            q,
            PlacedPrefab { id: stack[q].id, prefab },
        ),
    decreases stack.len(),
{
    let rest = stack.drop_first();
    let ks = kinds.drop_first();
    if q == 0 {
        assert forall|j: int| 0 <= j < ks.len() implies ks[j] != Some(kind) by {
            assert(ks[j] == kinds[j + 1]);
        }
        lemma_replace_without_kind(rest, ks, kind, prefab, true);
        assert(stack.update(q, PlacedPrefab { id: stack[q].id, prefab }) =~= seq![
            PlacedPrefab { id: stack[0].id, prefab },
        ] + rest);
    } else {
        assert forall|j: int| 0 <= j < ks.len() && j != q - 1 implies ks[j] != Some(kind) by {
            assert(ks[j] == kinds[j + 1]);
        }
        assert(ks[q - 1] == kinds[q]);
        lemma_replace_single(rest, ks, kind, prefab, q - 1);
        assert(kinds[0] != Some(kind));
        assert(stack.update(q, PlacedPrefab { id: stack[q].id, prefab }) =~= seq![stack[0]]
            + rest.update(q - 1, PlacedPrefab { id: rest[q - 1].id, prefab }));
    }
}

proof fn lemma_replace_shrinks<P>(
    stack: Seq<PlacedPrefab<P>>,
    kinds: Seq<Option<PlacementKind>>,
    kind: PlacementKind,
    prefab: P,
    seen: bool,
    a: int,
    b: int,
)
    requires
        stack.len() == kinds.len(),
        0 <= a <= b < kinds.len(),
        seen || a < b,
        kinds[a] == Some(kind),
        kinds[b] == Some(kind),
    ensures
        replaced_stack(stack, kinds, kind, prefab, seen).len() < stack.len(),
    decreases stack.len(),
{
    lemma_replace_never_grows(stack.drop_first(), kinds.drop_first(), kind, prefab, seen || kinds[0]
        == Some(kind));
    let ks = kinds.drop_first();
    if a > 0 {
        assert(ks[a - 1] == kinds[a]);
        assert(ks[b - 1] == kinds[b]);
        lemma_replace_shrinks(stack.drop_first(), ks, kind, prefab, seen || kinds[0] == Some(kind), a
            - 1, b - 1);
    } else if !seen {
        assert(ks[b - 1] == kinds[b]);
        lemma_replace_shrinks(stack.drop_first(), ks, kind, prefab, true, b - 1, b - 1);
    }
}

proof fn lemma_replace_never_grows<P>(
    stack: Seq<PlacedPrefab<P>>,
    kinds: Seq<Option<PlacementKind>>,
    kind: PlacementKind,
    prefab: P,
    seen: bool,
)
    requires
        stack.len() == kinds.len(),
    ensures
        replaced_stack(stack, kinds, kind, prefab, seen).len() <= stack.len(),
    decreases stack.len(),
{
    if stack.len() > 0 {
        lemma_replace_never_grows(stack.drop_first(), kinds.drop_first(), kind, prefab, seen
            || kinds[0] == Some(kind));
    }
}

/// A fill changes a tile exactly when it would replace: when the tile holds no prefab of the
/// kind the new one is added, and otherwise the replacement leaves the stack as it was only
/// when a single prefab of the kind was there and it already was the new prefab.
pub proof fn lemma_would_replace_iff_changed<P>(
    stack: Seq<PlacedPrefab<P>>,
    kinds: Seq<Option<PlacementKind>>,
    same: Seq<bool>,
    kind: PlacementKind,
    prefab: P,
    placed: PlacedPrefab<P>,
)
    requires
        stack.len() == kinds.len(),
        same.len() == kinds.len(),
        forall|i: int| 0 <= i < stack.len() ==> (same[i] <==> stack[i].prefab == prefab),
    ensures
        spec_would_replace_kind(kinds, same, kind) <==> (if positions_of(kinds, kind).len() == 0 {
            stack.insert(spec_insertion_index(kinds, kind), placed) != stack
        } else {
            replaced_stack(stack, kinds, kind, prefab, false) != stack
        }),
{
    lemma_positions_of(kinds, kind);
    lemma_insertion_index(kinds, kind);
    let p = positions_of(kinds, kind);
    if p.len() == 0 {
        assert(stack.insert(spec_insertion_index(kinds, kind), placed).len() == stack.len() + 1);
    } else if p.len() == 1 {
        let q = p[0];
        assert forall|j: int| 0 <= j < kinds.len() && j != q implies kinds[j] != Some(kind) by {
            if kinds[j] == Some(kind) {
                assert(p.contains(j));
            }
        }
        lemma_replace_single(stack, kinds, kind, prefab, q);
        let updated = stack.update(q, PlacedPrefab { id: stack[q].id, prefab });
        if same[q] {
            assert(updated =~= stack);
        } else {
            assert(updated[q] != stack[q]);
        }
    } else {
        lemma_replace_shrinks(stack, kinds, kind, prefab, false, p[0], p[1]);
    }
}

/// Puts `prefab` on the tile `stack` the way the place tool and a block fill do: an object is
/// always added as the new instance `new_id`; a turf or an area replaces the prefabs of its kind
/// (the first keeps its identity), or is added as `new_id` when the tile has none. Returns the
/// instance to select and the instances touched, or `None` with the tile untouched when placing
/// would change nothing. `same[i]` says whether the prefab at `i` already is `prefab`.
pub fn place_on_tile<P>(
    stack: &mut Vec<PlacedPrefab<P>>,
    kinds: &Vec<Option<PlacementKind>>,
    same: &Vec<bool>,
    kind: PlacementKind,
    prefab: P,
    new_id: u64,
) -> (placed: Option<(u64, Vec<u64>)>)
    requires
        old(stack)@.len() == kinds@.len(),
        same@.len() == kinds@.len(),
        forall|i: int| 0 <= i < kinds@.len() ==> (same@[i] <==> old(stack)@[i].prefab == prefab),
    ensures
        placed is None <==> (kind != PlacementKind::Atom && !spec_would_replace_kind(
            kinds@,
            same@,
            kind,
        )),
        placed is None ==> final(stack)@ == old(stack)@,
        spec_needs_new_instance(kinds@, kind) ==> (placed matches Some(result) && result.0 == new_id
            && result.1@ == seq![new_id] && final(stack)@ == old(stack)@.insert(
            spec_insertion_index(kinds@, kind),
            PlacedPrefab { id: new_id, prefab },
        )),
        !spec_needs_new_instance(kinds@, kind) && placed is Some ==> (placed matches Some(result)
            && result.1@ == replaced_ids(old(stack)@, kinds@, kind) && result.0 == result.1@[0]
            && final(stack)@ == replaced_stack(old(stack)@, kinds@, kind, prefab, false)
            && final(stack)@ != old(stack)@),
{
    if needs_new_instance(kinds, kind) {
        insert_placed(stack, kinds, kind, PlacedPrefab { id: new_id, prefab });
        let mut affected: Vec<u64> = Vec::new();
        affected.push(new_id);
        proof {
            if kind != PlacementKind::Atom {
                assert(positions_of(kinds@, kind).len() == 0);
            }
            assert(affected@ =~= seq![new_id]);
        }
        return Some((new_id, affected));
    }
    if !would_replace_kind(kinds, same, kind) {
        return None;
    }
    proof {
        lemma_would_replace_iff_changed(
            stack@,
            kinds@,
            same@,
            kind,
            prefab,
            PlacedPrefab { id: new_id, prefab },
        );
    }
    match replace_kind(stack, kinds, kind, prefab) {
        Some(affected) => {
            let selected = affected[0];
            Some((selected, affected))
        },
        None => None,
    }
}

} // verus!
