//! Finding types of the object tree by path or name, and listing types in path order.
use vstd::prelude::*;

use crate::text::{
    contains_str,
    has_substring,
    lemma_text_less_irreflexive,
    lemma_text_less_total,
    lemma_text_less_transitive,
    lower_seq,
    str_less,
    text_less,
    to_ascii_lowercase,
};
use crate::ui::dialog::{trim_text, trimmed};
use crate::ui::object_tree::ObjectTreeSearchOptions;

verus! {

/// How many types the fill pickers list at most.
pub const MAX_CUSTOM_FILL_SEARCH_RESULTS: usize = 50;

/// Items in path order: no item's text comes before the text of an item ahead of it.
pub open spec fn sorted_by_text<T>(items: Seq<(String, T)>) -> bool {
    forall|i: int, j: int|
        0 <= i < j < items.len() ==> !text_less(#[trigger] items[j].0@, #[trigger] items[i].0@)
}

/// `a` comes before `b` and `b` is not after `c`, so `a` comes before `c`.
proof fn lemma_less_then_not_greater(a: Seq<char>, b: Seq<char>, c: Seq<char>)
    requires
        text_less(a, b),
        !text_less(c, b),
    ensures
        text_less(a, c),
        !text_less(c, a),
{
    lemma_text_less_total(b, c);
    if b != c {
        lemma_text_less_transitive(a, b, c);
    }
    lemma_text_less_total(a, c);
}

/// The texts of `items`.
pub open spec fn texts_of<T>(items: Seq<(String, T)>) -> Seq<Seq<char>> {
    items.map_values(|item: (String, T)| item.0@)
}

/// `items` with each text by its characters.
pub open spec fn keyed<T>(items: Seq<(String, T)>) -> Seq<(Seq<char>, T)> {
    items.map_values(|item: (String, T)| (item.0@, item.1))
}

/// Sorts `items` by their text, keeping items with equal texts in the order they came.
pub fn sort_by_text<T>(items: Vec<(String, T)>) -> (sorted: Vec<(String, T)>)
    ensures
        sorted_by_text(sorted@),
        sorted@.to_multiset() == items@.to_multiset(),
        texts_of(sorted@).to_multiset() == texts_of(items@).to_multiset(),
        keyed(sorted@).to_multiset() == keyed(items@).to_multiset(),
        sorted@.len() == items@.len(),
{
    let ghost given = items@;
    let mut rest = items;
    let mut sorted: Vec<(String, T)> = Vec::new();
    let ghost mut done: int = 0;
    proof {
        assert(given.skip(0) =~= given);
        assert(given.take(0) =~= Seq::<(String, T)>::empty());
        assert(sorted@ =~= given.take(0));
    }
    while rest.len() > 0
        invariant
            0 <= done <= given.len(),
            rest@ == given.skip(done),
            sorted_by_text(sorted@),
            sorted@.to_multiset() == given.take(done).to_multiset(),
            texts_of(sorted@).to_multiset() == texts_of(given.take(done)).to_multiset(),
            keyed(sorted@).to_multiset() == keyed(given.take(done)).to_multiset(),
            sorted@.len() == done,
        decreases rest.len(),
    {
        let item = rest.remove(0);
        let mut p: usize = 0;
        while p < sorted.len()
            invariant
                p <= sorted@.len(),
                forall|k: int| 0 <= k < p ==> !text_less(item.0@, #[trigger] sorted@[k].0@),
            ensures
                p <= sorted@.len(),
                forall|k: int| 0 <= k < p ==> !text_less(item.0@, #[trigger] sorted@[k].0@),
                p < sorted@.len() ==> text_less(item.0@, sorted@[p as int].0@),
            decreases sorted.len() - p,
        {
            if str_less(item.0.as_str(), sorted[p].0.as_str()) {
                break;
            }
            p = p + 1;
        }
        let ghost before = sorted@;
        proof {
            assert(given.take(done + 1) =~= given.take(done).push(item));
            vstd::seq_lib::to_multiset_build(given.take(done), item);
            vstd::seq_lib::to_multiset_insert(before, p as int, item);
            assert(texts_of(given.take(done + 1)) =~= texts_of(given.take(done)).push(item.0@));
            vstd::seq_lib::to_multiset_build(texts_of(given.take(done)), item.0@);
            vstd::seq_lib::to_multiset_insert(texts_of(before), p as int, item.0@);
            assert(keyed(given.take(done + 1)) =~= keyed(given.take(done)).push((item.0@, item.1)));
            vstd::seq_lib::to_multiset_build(keyed(given.take(done)), (item.0@, item.1));
            vstd::seq_lib::to_multiset_insert(keyed(before), p as int, (item.0@, item.1));
            assert(rest@ =~= given.skip(done + 1));
        }
        sorted.insert(p, item);
        proof {
            assert(texts_of(sorted@) =~= texts_of(before).insert(p as int, item.0@));
            assert(keyed(sorted@) =~= keyed(before).insert(p as int, (item.0@, item.1)));
            assert forall|i: int, j: int| 0 <= i < j < sorted@.len() implies !text_less(
                #[trigger] sorted@[j].0@,
                #[trigger] sorted@[i].0@,
            ) by {
                if j < p {
                    assert(sorted@[i] == before[i] && sorted@[j] == before[j]);
                } else if j == p {
                    assert(sorted@[i] == before[i]);
                } else if i == p {
                    assert(sorted@[j] == before[j - 1]);
                    if j - 1 == p {
                        lemma_text_less_irreflexive(before[p as int].0@);
                    } else {
                        assert(!text_less(before[j - 1].0@, before[p as int].0@));
                    }
                    lemma_less_then_not_greater(item.0@, before[p as int].0@, before[j - 1].0@);
                } else if i < p {
                    assert(sorted@[i] == before[i] && sorted@[j] == before[j - 1]);
                } else {
                    assert(sorted@[i] == before[i - 1] && sorted@[j] == before[j - 1]);
                }
            }
            done = done + 1;
        }
    }
    proof {
        assert(given.take(done) =~= given);
    }
    sorted
}

/// Whether a path matches a search typed in lower case: it occurs in the path with the path's
/// ASCII letters in lower case.
pub open spec fn path_matches(path: Seq<char>, query: Seq<char>) -> bool {
    has_substring(lower_seq(path), query)
}

/// What a search typed as `query` looks for: the text without surrounding whitespace, in lower
/// case.
pub open spec fn search_query(query: Seq<char>) -> Seq<char> {
    lower_seq(trimmed(query))
}

/// The allowed paths among `paths` that match `query`, in the order given.
pub open spec fn matching_paths(paths: Seq<Seq<char>>, allowed: Seq<bool>, query: Seq<char>) -> Seq<
    Seq<char>,
>
    decreases paths.len(),
{
    if paths.len() == 0 {
        Seq::empty()
    } else {
        let earlier = matching_paths(paths.drop_last(), allowed, query);
        let k = paths.len() - 1;
        if allowed[k] && path_matches(paths[k], query) {
            earlier.push(paths[k])
        } else {
            earlier
        }
    }
}

/// The first `n` of `items`, or all of them when there are fewer.
pub open spec fn first_n<A>(items: Seq<A>, n: int) -> Seq<A> {
    if items.len() <= n {
        items
    } else {
        items.take(n)
    }
}

/// Texts in path order.
pub open spec fn sorted_texts(texts: Seq<Seq<char>>) -> bool {
    forall|i: int, j: int| 0 <= i < j < texts.len() ==> !text_less(#[trigger] texts[j], #[trigger] texts[i])
}

/// The type paths a search lists: of the allowed paths that match it, the first `limit` in the
/// order given, listed in path order; nothing for a blank search.
pub fn matching_type_paths_up_to_filtered(
    paths: &Vec<String>,
    allowed: &Vec<bool>,
    query: &str,
    limit: usize,
) -> (found: Vec<String>)
    requires
        allowed@.len() == paths@.len(),
    ensures
        search_query(query@).len() == 0 ==> found@.len() == 0,
        search_query(query@).len() > 0 ==> {
            &&& sorted_texts(crate::text::views_of(found@))
            &&& crate::text::views_of(found@).to_multiset() == first_n(
                matching_paths(crate::text::views_of(paths@), allowed@, search_query(query@)),
                limit as int,
            ).to_multiset()
        },
{
    let trimmed_query = trim_text(query);
    let lowered = to_ascii_lowercase(trimmed_query.as_str());
    if lowered.unicode_len() == 0 {
        return Vec::new();
    }
    let ghost q = search_query(query@);
    let ghost views = crate::text::views_of(paths@);
    let mut picked: Vec<(String, ())> = Vec::new();
    let mut i: usize = 0;
    proof {
        assert(texts_of(picked@) =~= first_n(matching_paths(views.take(0), allowed@, q), limit as int));
    }
    while i < paths.len()
        invariant
            allowed@.len() == paths@.len(),
            views == crate::text::views_of(paths@),
            lowered@ == q,
            i <= paths@.len(),
            texts_of(picked@) == first_n(matching_paths(views.take(i as int), allowed@, q), limit as int),
            picked@.len() <= limit,
        decreases paths.len() - i,
    {
        let ghost earlier = matching_paths(views.take(i as int), allowed@, q);
        proof {
            assert(views.take(i + 1).drop_last() =~= views.take(i as int));
            assert(views.take(i + 1)[i as int] == paths@[i as int]@);
        }
        if allowed[i] && contains_str(to_ascii_lowercase(paths[i].as_str()).as_str(), lowered.as_str()) {
            if picked.len() < limit {
                let ghost before = picked@;
                picked.push((paths[i].clone(), ()));
                proof {
                    assert(texts_of(picked@) =~= texts_of(before).push(paths@[i as int]@));
                }
            } else {
                proof {
                    assert(earlier.push(views[i as int]).take(limit as int) =~= earlier.take(
                        limit as int,
                    ));
                    if earlier.len() <= limit {
                        assert(earlier.push(views[i as int]).take(limit as int) =~= earlier);
                    }
                }
            }
        }
        i = i + 1;
    }
    proof {
        assert(views.take(i as int) =~= views);
    }
    let sorted = sort_by_text(picked);
    let mut found: Vec<String> = Vec::new();
    let mut k: usize = 0;
    while k < sorted.len()
        invariant
            k <= sorted@.len(),
            crate::text::views_of(found@) == texts_of(sorted@).take(k as int),
        decreases sorted.len() - k,
    {
        found.push(sorted[k].0.clone());
        proof {
            assert(texts_of(sorted@).take(k + 1) =~= texts_of(sorted@).take(k as int).push(
                sorted@[k as int].0@,
            ));
        }
        k = k + 1;
    }
    proof {
        assert(crate::text::views_of(found@) =~= texts_of(sorted@));
        assert forall|a: int, b: int|
            0 <= a < b < texts_of(sorted@).len() implies !text_less(
            #[trigger] texts_of(sorted@)[b],
            #[trigger] texts_of(sorted@)[a],
        ) by {
            assert(!text_less(sorted@[b].0@, sorted@[a].0@));
        }
    }
    found
}

/// Every path allowed.
fn all_allowed(n: usize) -> (allowed: Vec<bool>)
    ensures
        allowed@ == everything(n as nat),
{
    let mut allowed: Vec<bool> = Vec::new();
    let mut i: usize = 0;
    while i < n
        invariant
            i <= n,
            allowed@.len() == i,
            forall|k: int| 0 <= k < i ==> allowed@[k],
        decreases n - i,
    {
        allowed.push(true);
        i = i + 1;
    }
    proof {
        assert(allowed@ =~= everything(n as nat));
    }
    allowed
}

/// `n` paths, all allowed.
pub open spec fn everything(n: nat) -> Seq<bool> {
    Seq::new(n, |k: int| true)
}

/// The type paths a search lists, at most `limit` of them: see
/// `matching_type_paths_up_to_filtered`, with every path allowed.
pub fn matching_type_paths_up_to(paths: &Vec<String>, query: &str, limit: usize) -> (found: Vec<
    String,
>)
    ensures
        search_query(query@).len() == 0 ==> found@.len() == 0,
        search_query(query@).len() > 0 ==> {
            &&& sorted_texts(crate::text::views_of(found@))
            &&& crate::text::views_of(found@).to_multiset() == first_n(
                matching_paths(
                    crate::text::views_of(paths@),
                    everything(paths@.len()),
                    search_query(query@),
                ),
                limit as int,
            ).to_multiset()
        },
{
    let allowed = all_allowed(paths.len());
    matching_type_paths_up_to_filtered(paths, &allowed, query, limit)
}

/// The type paths the fill pickers list.
pub fn matching_type_paths(paths: &Vec<String>, query: &str) -> (found: Vec<String>)
    ensures
        search_query(query@).len() == 0 ==> found@.len() == 0,
        search_query(query@).len() > 0 ==> {
            &&& sorted_texts(crate::text::views_of(found@))
            &&& crate::text::views_of(found@).to_multiset() == first_n(
                matching_paths(
                    crate::text::views_of(paths@),
                    everything(paths@.len()),
                    search_query(query@),
                ),
                MAX_CUSTOM_FILL_SEARCH_RESULTS as int,
            ).to_multiset()
        },
{
    matching_type_paths_up_to(paths, query, MAX_CUSTOM_FILL_SEARCH_RESULTS)
}

/// Every type path a search matches.
pub fn all_matching_type_paths(paths: &Vec<String>, query: &str) -> (found: Vec<String>)
    ensures
        search_query(query@).len() == 0 ==> found@.len() == 0,
        search_query(query@).len() > 0 ==> {
            &&& sorted_texts(crate::text::views_of(found@))
            &&& crate::text::views_of(found@).to_multiset() == first_n(
                matching_paths(
                    crate::text::views_of(paths@),
                    everything(paths@.len()),
                    search_query(query@),
                ),
                usize::MAX as int,
            ).to_multiset()
        },
{
    matching_type_paths_up_to(paths, query, usize::MAX)
}

/// A type of the object tree: its id, its path, and the `name` it has or inherits, if text.
#[derive(Debug, Clone, PartialEq, Eq)]
pub struct TypeEntry {
    pub id: u64,
    pub path: String,
    pub name: Option<String>,
}

/// Whether the object tree search `query` (lower case) finds `entry` in the fields `options`
/// enables.
pub open spec fn entry_matches(entry: TypeEntry, query: Seq<char>, options: ObjectTreeSearchOptions) -> bool {
    (options.type_paths && path_matches(entry.path@, query)) || (options.names && match entry.name {
        Some(name) => path_matches(name@, query),
        None => false,
    })
}

/// The entries the object tree search finds, in the order given.
pub open spec fn matching_entries(
    types: Seq<TypeEntry>,
    query: Seq<char>,
    options: ObjectTreeSearchOptions,
) -> Seq<TypeEntry> {
    types.filter(|entry: TypeEntry| entry_matches(entry, query, options))
}

pub open spec fn keyed_by_path(types: Seq<TypeEntry>) -> Seq<(Seq<char>, u64)> {
    types.map_values(|entry: TypeEntry| (entry.path@, entry.id))
}


/// Copies the path and id of each entry.
fn path_keys(types: &Vec<TypeEntry>, Ghost(pick): Ghost<spec_fn(TypeEntry) -> bool>, picked: &Vec<bool>) -> (keys: Vec<(String, u64)>)
    requires
        picked@.len() == types@.len(),
        forall|k: int| 0 <= k < types@.len() ==> picked@[k] == pick(types@[k]),
    ensures
        keyed(keys@) == keyed_by_path(types@.filter(pick)),
{
    let mut keys: Vec<(String, u64)> = Vec::new();
    let mut i: usize = 0;
    while i < types.len()
        invariant
            picked@.len() == types@.len(),
            forall|k: int| 0 <= k < types@.len() ==> picked@[k] == pick(types@[k]),
            i <= types@.len(),
            keyed(keys@) == keyed_by_path(types@.take(i as int).filter(pick)),
        decreases types.len() - i,
    {
        proof {
            assert(types@.take(i + 1) =~= types@.take(i as int).push(types@[i as int]));
            types@.take(i as int).lemma_filter_push(types@[i as int], pick);
        }
        if picked[i] {
            let ghost before = keys@;
            keys.push((types[i].path.clone(), types[i].id));
            proof {
                assert(keyed(keys@) =~= keyed(before).push((types@[i as int].path@, types@[i as int].id)));
                assert(keyed_by_path(types@.take(i as int).filter(pick).push(types@[i as int]))
                    =~= keyed_by_path(types@.take(i as int).filter(pick)).push(
                    (types@[i as int].path@, types@[i as int].id),
                ));
            }
        }
        i = i + 1;
    }
    proof {
        assert(types@.take(i as int) =~= types@);
    }
    keys
}

/// The ids of `keys`, in order.
fn ids_of(keys: &Vec<(String, u64)>) -> (ids: Vec<u64>)
    ensures
        ids@ == keys@.map_values(|key: (String, u64)| key.1),
{
    let mut ids: Vec<u64> = Vec::new();
    let mut i: usize = 0;
    while i < keys.len()
        invariant
            i <= keys@.len(),
            ids@ == keys@.take(i as int).map_values(|key: (String, u64)| key.1),
        decreases keys.len() - i,
    {
        ids.push(keys[i].1);
        proof {
            assert(keys@.take(i + 1).map_values(|key: (String, u64)| key.1) =~= keys@.take(
                i as int,
            ).map_values(|key: (String, u64)| key.1).push(keys@[i as int].1));
        }
        i = i + 1;
    }
    proof {
        assert(keys@.take(i as int) =~= keys@);
    }
    ids
}

/// `ids` are the ids of `entries` listed in path order.
pub open spec fn in_path_order(ids: Seq<u64>, entries: Seq<TypeEntry>) -> bool {
    exists|arranged: Seq<(Seq<char>, u64)>|
        #![trigger arranged.to_multiset()]
        (forall|i: int, j: int|
            0 <= i < j < arranged.len() ==> !text_less(#[trigger] arranged[j].0, #[trigger] arranged[i].0))
            && arranged.to_multiset() == keyed_by_path(entries).to_multiset() && ids
            == arranged.map_values(|item: (Seq<char>, u64)| item.1)
}

/// Sorts keyed entries by path and gives their ids.
fn sorted_ids(keys: Vec<(String, u64)>, Ghost(entries): Ghost<Seq<TypeEntry>>) -> (ids: Vec<u64>)
    requires
        keyed(keys@) == keyed_by_path(entries),
    ensures
        in_path_order(ids@, entries),
{
    let sorted = sort_by_text(keys);
    let ids = ids_of(&sorted);
    proof {
        let arranged = keyed(sorted@);
        assert(ids@ =~= arranged.map_values(|item: (Seq<char>, u64)| item.1));
        assert forall|i: int, j: int|
            0 <= i < j < arranged.len() implies !text_less(#[trigger] arranged[j].0, #[trigger] arranged[i].0) by {
            assert(!text_less(sorted@[j].0@, sorted@[i].0@));
        }
    }
    ids
}

/// The types the object tree search finds, by id in path order; nothing for a blank search.
pub fn matching_object_types(types: &Vec<TypeEntry>, query: &str, options: ObjectTreeSearchOptions) -> (found:
    Vec<u64>)
    ensures
        search_query(query@).len() == 0 ==> found@.len() == 0,
        search_query(query@).len() > 0 ==> in_path_order(
            found@,
            matching_entries(types@, search_query(query@), options),
        ),
{
    let trimmed_query = trim_text(query);
    let lowered = to_ascii_lowercase(trimmed_query.as_str());
    if lowered.unicode_len() == 0 {
        return Vec::new();
    }
    let ghost q = search_query(query@);
    let ghost pick = |entry: TypeEntry| entry_matches(entry, q, options);
    let mut picked: Vec<bool> = Vec::new();
    let mut i: usize = 0;
    while i < types.len()
        invariant
            lowered@ == q,
            pick == (|entry: TypeEntry| entry_matches(entry, q, options)),
            i <= types@.len(),
            picked@.len() == i,
            forall|k: int| 0 <= k < i ==> picked@[k] == pick(types@[k]),
        decreases types.len() - i,
    {
        let entry = &types[i];
        let by_path = options.type_paths && contains_str(
            to_ascii_lowercase(entry.path.as_str()).as_str(),
            lowered.as_str(),
        );
        let by_name = options.names && match &entry.name {
            Some(name) => contains_str(to_ascii_lowercase(name.as_str()).as_str(), lowered.as_str()),
            None => false,
        };
        picked.push(by_path || by_name);
        i = i + 1;
    }
    let keys = path_keys(types, Ghost(pick), &picked);
    sorted_ids(keys, Ghost(matching_entries(types@, q, options)))
}

/// The children of a type, by id in path order.
pub fn sorted_children(children: &Vec<TypeEntry>) -> (ids: Vec<u64>)
    ensures
        in_path_order(ids@, children@),
{
    let ghost pick = |entry: TypeEntry| true;
    let mut picked: Vec<bool> = Vec::new();
    let mut i: usize = 0;
    while i < children.len()
        invariant
            pick == (|entry: TypeEntry| true),
            i <= children@.len(),
            picked@.len() == i,
            forall|k: int| 0 <= k < i ==> picked@[k] == pick(children@[k]),
        decreases children.len() - i,
    {
        picked.push(true);
        i = i + 1;
    }
    let keys = path_keys(children, Ghost(pick), &picked);
    proof {
        assert(children@.filter(pick) =~= children@) by {
            lemma_filter_everything(children@, pick);
        }
    }
    sorted_ids(keys, Ghost(children@))
}

proof fn lemma_filter_everything(entries: Seq<TypeEntry>, pick: spec_fn(TypeEntry) -> bool)
    requires
        forall|entry: TypeEntry| #[trigger] pick(entry),
    ensures
        entries.filter(pick) == entries,
    decreases entries.len(),
{
    reveal(Seq::filter);
    if entries.len() > 0 {
        lemma_filter_everything(entries.drop_last(), pick);
        assert(entries.drop_last().push(entries.last()) =~= entries);
    }
}

} // verus!
