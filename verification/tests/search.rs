use rmd_editor::ui::object_tree::{
    visible_type_children,
    FoundType,
    ObjectTreeFilter,
    ObjectTreeFilterAction,
    ObjectTreeSearchOptions,
    ObjectTreeTypeFilter,
};
use rmd_editor::ui::search::{
    all_matching_type_paths,
    matching_object_types,
    matching_type_paths,
    matching_type_paths_up_to_filtered,
    sort_by_text,
    sorted_children,
    TypeEntry,
    MAX_CUSTOM_FILL_SEARCH_RESULTS,
};

/// The type paths of a tree holding `leaves`, parents registered before their children as the
/// object tree does, the root first.
fn tree_paths(leaves: &[&str]) -> Vec<String> {
    let mut paths = vec![String::new()];
    for leaf in leaves {
        let mut path = String::new();
        for segment in leaf.split('/').filter(|segment| !segment.is_empty()) {
            path.push('/');
            path.push_str(segment);
            if !paths.contains(&path) {
                paths.push(path.clone());
            }
        }
    }
    paths
}

fn entry(id: u64, path: &str, name: Option<&str>) -> TypeEntry {
    TypeEntry { id, path: String::from(path), name: name.map(String::from) }
}

#[test]
fn search_custom_fill_search_includes_parent_types_and_ignores_case() {
    let tree = tree_paths(&["/obj/structure/table", "/turf/closed/wall"]);

    assert_eq!(matching_type_paths(&tree, "STRUCT"), ["/obj/structure", "/obj/structure/table"]);
    assert_eq!(matching_type_paths(&tree, "wall"), ["/turf/closed/wall"]);
    assert!(matching_type_paths(&tree, "  ").is_empty());
}

#[test]
fn ui_custom_fill_search_includes_parent_types_and_ignores_case() {
    let tree = tree_paths(&["/obj/structure/table", "/turf/closed/wall"]);

    assert_eq!(matching_type_paths(&tree, "STRUCT"), ["/obj/structure", "/obj/structure/table"]);
    assert_eq!(matching_type_paths(&tree, "wall"), ["/turf/closed/wall"]);
    assert!(matching_type_paths(&tree, "  ").is_empty());
}

#[test]
fn ui_object_tree_search_is_not_limited_to_custom_fill_result_count() {
    let leaves = (0..60).map(|index| format!("/obj/floor/type_{index}")).collect::<Vec<_>>();
    let tree = tree_paths(&leaves.iter().map(String::as_str).collect::<Vec<_>>());

    assert_eq!(matching_type_paths(&tree, "floor").len(), MAX_CUSTOM_FILL_SEARCH_RESULTS);
    assert_eq!(all_matching_type_paths(&tree, "floor").len(), 61);
}

#[test]
fn object_tree_object_tree_search_is_not_limited_to_custom_fill_result_count() {
    let leaves = (0..60).map(|index| format!("/obj/floor/type_{index}")).collect::<Vec<_>>();
    let tree = tree_paths(&leaves.iter().map(String::as_str).collect::<Vec<_>>());
    let types = tree
        .iter()
        .enumerate()
        .map(|(id, path)| entry(id as u64, path, None))
        .collect::<Vec<_>>();

    assert_eq!(matching_type_paths(&tree, "floor").len(), MAX_CUSTOM_FILL_SEARCH_RESULTS);
    assert_eq!(matching_object_types(&types, "floor", ObjectTreeSearchOptions::default()).len(), 61);
}

#[test]
fn object_tree_search_combines_enabled_fields() {
    let types = vec![
        entry(1, "/atom", None),
        entry(2, "/atom/movable", None),
        entry(3, "/atom/movable/needle", None),
        entry(4, "/atom/movable/scalpel", Some("Needle tool")),
    ];
    let (path_match, name_match) = (3, 4);

    let path_only = matching_object_types(
        &types,
        "needle",
        ObjectTreeSearchOptions { type_paths: true, names: false },
    );
    let name_only = matching_object_types(
        &types,
        "needle",
        ObjectTreeSearchOptions { type_paths: false, names: true },
    );
    let combined = matching_object_types(
        &types,
        "needle",
        ObjectTreeSearchOptions { type_paths: true, names: true },
    );

    assert_eq!(path_only, [path_match]);
    assert_eq!(name_only, [name_match]);
    assert_eq!(combined, [path_match, name_match]);
}

#[test]
fn inherited_names_are_found_in_path_order() {
    let types = vec![
        entry(1, "/atom", None),
        entry(5, "/atom/movable/tool/wrench", Some("Portable Tool")),
        entry(4, "/atom/movable/tool", Some("Portable Tool")),
        entry(6, "/atom/structure/table", None),
    ];
    let options = ObjectTreeSearchOptions { type_paths: false, names: true };
    assert_eq!(matching_object_types(&types, "PORTABLE", options), [4, 5]);
    assert!(matching_object_types(&types, " \t", options).is_empty());
}

#[test]
fn object_tree_object_tree_children_are_sorted_by_path() {
    let children = vec![entry(10, "/obj/zeta", None), entry(11, "/obj/alpha", None)];
    let ids = sorted_children(&children);
    let paths = ids
        .iter()
        .filter_map(|id| children.iter().find(|child| child.id == *id))
        .map(|child| child.path.clone())
        .collect::<Vec<_>>();

    assert_eq!(paths, ["/obj/alpha", "/obj/zeta"]);
}

#[test]
fn ui_object_tree_children_are_sorted_by_path() {
    let children = vec![entry(10, "/obj/zeta", None), entry(11, "/obj/alpha", None)];
    let ids = sorted_children(&children);
    let paths = ids
        .iter()
        .filter_map(|id| children.iter().find(|child| child.id == *id))
        .map(|child| child.path.clone())
        .collect::<Vec<_>>();

    assert_eq!(paths, ["/obj/alpha", "/obj/zeta"]);
}

#[test]
fn sorting_keeps_equal_texts_in_their_order() {
    let sorted = sort_by_text(vec![
        (String::from("b"), 1),
        (String::from("a"), 2),
        (String::from("b"), 3),
        (String::from("ab"), 4),
        (String::from(""), 5),
    ]);
    assert_eq!(sorted.iter().map(|item| item.1).collect::<Vec<_>>(), [5, 2, 4, 1, 3]);
}

#[test]
fn a_filtered_search_lists_only_the_allowed_paths() {
    let paths = vec![String::from("/turf/b"), String::from("/turf/a"), String::from("/area/a")];
    let allowed = vec![true, true, false];
    assert_eq!(matching_type_paths_up_to_filtered(&paths, &allowed, "A", 10), ["/turf/a"]);
    assert_eq!(matching_type_paths_up_to_filtered(&paths, &vec![true; 3], "/", 2), ["/turf/a", "/turf/b"]);
}

fn found(id: u64, ancestors: &[u64]) -> FoundType {
    FoundType { id, ancestors: ancestors.to_vec() }
}

#[test]
fn found_types_hang_under_their_nearest_found_ancestor() {
    let types = vec![
        entry(1, "/atom", None),
        entry(5, "/atom/movable/tool/wrench", Some("Portable Tool")),
        entry(4, "/atom/movable/tool", Some("Portable Tool")),
        entry(6, "/atom/structure/table", None),
    ];
    let options = ObjectTreeSearchOptions { type_paths: false, names: true };
    let matches = matching_object_types(&types, "PORTABLE", options);
    assert_eq!(matches, [4, 5]);

    let ancestors = |id: u64| match id {
        4 => vec![3, 1],
        5 => vec![4, 3, 1],
        _ => vec![],
    };
    let found_types = matches.iter().map(|id| found(*id, &ancestors(*id))).collect::<Vec<_>>();
    let filter = ObjectTreeFilter::new(&found_types);
    assert_eq!(filter.roots, [4]);
    assert_eq!(filter.children(4), [5]);
    assert!(filter.children(5).is_empty());
    assert!(filter.contains(5));
    assert!(!filter.contains(3));
    assert!(!filter.is_empty());
}

#[test]
fn a_found_type_skips_unfound_ancestors_to_the_nearest_found_one() {
    let filter = ObjectTreeFilter::new(&vec![
        found(10, &[1]),
        found(20, &[15, 10, 1]),
        found(30, &[20, 15, 10, 1]),
        found(40, &[10, 1]),
        found(50, &[2]),
    ]);
    assert_eq!(filter.roots, [10, 50]);
    assert_eq!(filter.children(10), [20, 40]);
    assert_eq!(filter.children(20), [30]);
    assert_eq!(filter.matches, [10, 20, 30, 40, 50]);
    assert!(ObjectTreeFilter::new(&vec![]).is_empty());
}

#[test]
fn type_filters_prune_their_base_and_every_subtype() {
    // ids: 1 /atom, 2 /atom/movable, 3 /obj (under movable), 4 /obj/item, 5 /turf (under atom),
    // 6 /turf/open
    let roots = [Some(1), Some(2), Some(3), Some(5)];
    let item = vec![4, 3, 2, 1];
    let open_turf = vec![6, 5, 1];
    for (flags, base, subtype) in [
        ([true, false, false, false], vec![1], &open_turf),
        ([false, true, false, false], vec![2, 1], &item),
        ([false, false, true, false], vec![3, 2, 1], &item),
        ([false, false, false, true], vec![5, 1], &open_turf),
    ] {
        let filter = ObjectTreeTypeFilter::new(flags[0], flags[1], flags[2], flags[3], roots, false, None);
        assert_eq!(filter.action(&base), ObjectTreeFilterAction::Prune);
        assert_eq!(filter.action(subtype), ObjectTreeFilterAction::Prune);
    }
    let nothing = ObjectTreeTypeFilter::new(false, false, false, false, roots, true, None);
    assert_eq!(nothing.action(&item), ObjectTreeFilterAction::Keep);
}

#[test]
fn a_custom_filter_hides_its_type_and_subtypes_from_the_children() {
    // ids: 1 /atom, 2 /atom/keep, 3 /atom/remove, 4 /atom/remove/child
    let filter = ObjectTreeTypeFilter::new(false, false, false, false, [Some(1), None, None, None], true, Some(3));
    let children = vec![(2, vec![2, 1]), (3, vec![3, 1])];
    assert_eq!(visible_type_children(filter, &children), [2]);
    assert_eq!(filter.action(&vec![4, 3, 1]), ObjectTreeFilterAction::Prune);
    let switched_off = ObjectTreeTypeFilter::new(false, false, false, false, [Some(1), None, None, None], false, Some(3));
    assert_eq!(visible_type_children(switched_off, &children), [2, 3]);
}

/// The lineage of a type: the type, then its ancestors, nearest first.
fn lineage(ids: &[u64]) -> Vec<u64> {
    ids.to_vec()
}

#[test]
fn object_tree_search_matches_inherited_atom_names() {
    let (atom, movable, parent, child, structure, table) = (1, 2, 3, 4, 5, 6);
    let types = vec![
        entry(atom, "/atom", None),
        entry(movable, "/atom/movable", None),
        entry(parent, "/atom/movable/tool", Some("Portable Tool")),
        entry(child, "/atom/movable/tool/wrench", Some("Portable Tool")),
        entry(structure, "/atom/structure", None),
        entry(table, "/atom/structure/table", None),
    ];
    let options = ObjectTreeSearchOptions { type_paths: false, names: true };

    let matches = matching_object_types(&types, "PORTABLE", options);
    let found = vec![
        FoundType { id: parent, ancestors: vec![movable, atom] },
        FoundType { id: child, ancestors: vec![parent, movable, atom] },
    ];
    let filter = ObjectTreeFilter::for_search(found, atom, ObjectTreeTypeFilter::default());

    assert_eq!(matches, [parent, child]);
    assert_eq!(filter.roots, [parent]);
    assert_eq!(filter.children(parent), [child]);
}

#[test]
fn built_in_object_tree_filters_prune_the_base_types_and_all_subtypes() {
    let (atom, movable, obj, item, turf, open_turf) = (1, 2, 3, 4, 5, 6);
    let roots = [Some(atom), Some(movable), Some(obj), Some(turf)];
    let item_lineage = lineage(&[item, obj, movable, atom]);
    let open_turf_lineage = lineage(&[open_turf, turf, atom]);

    for (flags, filtered_root, filtered_subtype) in [
        ([true, false, false, false], lineage(&[atom]), &open_turf_lineage),
        ([false, true, false, false], lineage(&[movable, atom]), &item_lineage),
        ([false, false, true, false], lineage(&[obj, movable, atom]), &item_lineage),
        ([false, false, false, true], lineage(&[turf, atom]), &open_turf_lineage),
    ] {
        let filter = ObjectTreeTypeFilter::new(flags[0], flags[1], flags[2], flags[3], roots, false, None);

        assert_eq!(filter.action(&filtered_root), ObjectTreeFilterAction::Prune);
        assert_eq!(filter.action(filtered_subtype), ObjectTreeFilterAction::Prune);
    }
}

#[test]
fn custom_object_tree_filter_prunes_the_type_and_all_subtypes() {
    let (atom, keep, removed, removed_child) = (1, 2, 3, 4);
    let filter = ObjectTreeTypeFilter::new(false, false, false, false, [Some(atom), None, None, None], true, Some(removed));
    let children = vec![(keep, lineage(&[keep, atom])), (removed, lineage(&[removed, atom]))];

    assert_eq!(visible_type_children(filter, &children), [keep]);
    assert_eq!(filter.action(&lineage(&[removed, atom])), ObjectTreeFilterAction::Prune);
    assert_eq!(filter.action(&lineage(&[removed_child, removed, atom])), ObjectTreeFilterAction::Prune);
}

#[test]
fn object_tree_search_respects_the_active_type_filters() {
    let (atom, keep, removed, removed_match) = (1, 2, 3, 4);
    let type_filter =
        ObjectTreeTypeFilter::new(false, false, false, false, [Some(atom), None, None, None], true, Some(removed));
    let types = vec![
        entry(atom, "/atom", None),
        entry(keep, "/atom/keep_match", None),
        entry(removed, "/atom/remove", None),
        entry(removed_match, "/atom/remove/keep_match", None),
    ];
    let ancestors = [(keep, vec![atom]), (removed_match, vec![removed, atom])];
    let found = matching_object_types(&types, "keep_match", ObjectTreeSearchOptions::default())
        .into_iter()
        .filter_map(|id| ancestors.iter().find(|(candidate, _)| *candidate == id))
        .map(|(id, ancestors)| FoundType { id: *id, ancestors: ancestors.clone() })
        .collect::<Vec<_>>();
    assert_eq!(found.len(), 2);

    let filter = ObjectTreeFilter::for_search(found, atom, type_filter);

    assert_eq!(filter.roots, [keep]);
    assert!(filter.children(keep).is_empty());
    assert!(filter.contains(keep));
    assert!(!filter.contains(removed_match));
}

#[test]
fn only_atoms_are_shown_among_the_matches() {
    let (atom, datum, table) = (1, 9, 3);
    let found = vec![
        FoundType { id: datum, ancestors: vec![] },
        FoundType { id: table, ancestors: vec![atom] },
    ];
    let filter = ObjectTreeFilter::for_search(found, atom, ObjectTreeTypeFilter::default());
    assert_eq!(filter.roots, [table]);
    assert!(!filter.contains(datum));
}
