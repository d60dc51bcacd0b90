use backoffice::forest_laws::{has_unique_ids, is_forest_table};
use backoffice::models::permission::{Permission, PermissionTree};
use backoffice::permission_tree::{
    build_permission_tree, get_role_permissions, has_permission, orphaned_permissions,
};

fn perm(id: i32, code: &str, parent_id: Option<i32>) -> Permission {
    Permission {
        id,
        name: format!("name-{}", id),
        code: code.to_owned(),
        category: "MENU".to_owned(),
        resource: Some(format!("/r/{}", id)),
        action: None,
        description: Some(format!("about {}", code)),
        parent_id,
        sort: 0,
        created_at: "2024-01-01 00:00:00".to_owned(),
        updated_at: "2024-01-02 00:00:00".to_owned(),
    }
}

fn codes(nodes: &[PermissionTree]) -> Vec<String> {
    nodes.iter().map(|n| n.code.clone()).collect()
}

fn ids(nodes: &[PermissionTree]) -> Vec<i32> {
    nodes.iter().map(|n| n.id).collect()
}

fn all_ids(nodes: &[PermissionTree], out: &mut Vec<i32>) {
    for node in nodes {
        out.push(node.id);
        all_ids(&node.children, out);
    }
}

fn parents_of(nodes: &[PermissionTree], id: i32, out: &mut Vec<i32>) {
    for node in nodes {
        for child in &node.children {
            if child.id == id {
                out.push(node.id);
            }
        }
        parents_of(&node.children, id, out);
    }
}

#[test]
fn empty_table_gives_an_empty_forest() {
    assert!(build_permission_tree(&vec![]).is_empty());
    assert!(orphaned_permissions(&vec![]).is_empty());
}

#[test]
fn node_carries_the_fields_of_its_permission() {
    let mut row = perm(5, "system", None);
    row.category = "PAGE".to_owned();
    row.action = Some("view".to_owned());
    row.resource = None;
    let forest = build_permission_tree(&vec![row]);
    assert_eq!(forest.len(), 1);
    let node = &forest[0];
    assert_eq!(node.id, 5);
    assert_eq!(node.name, "name-5");
    assert_eq!(node.code, "system");
    assert_eq!(node.category, "PAGE");
    assert_eq!(node.resource, None);
    assert_eq!(node.action.as_deref(), Some("view"));
    assert_eq!(node.description.as_deref(), Some("about system"));
    assert!(node.children.is_empty());
}

#[test]
fn roots_are_ordered_by_segments_then_code() {
    let table = vec![
        perm(1, "system:user:view", None),
        perm(2, "system:user", None),
        perm(3, "system", None),
        perm(4, "profile", None),
    ];
    let forest = build_permission_tree(&table);
    assert_eq!(codes(&forest), ["profile", "system", "system:user", "system:user:view"]);
}

#[test]
fn root_order_does_not_depend_on_table_order() {
    let expected = ["profile", "system", "system:user", "system:user:view"];
    let orders: [[usize; 4]; 4] = [[0, 1, 2, 3], [3, 2, 1, 0], [2, 0, 3, 1], [1, 3, 0, 2]];
    let names = ["system", "system:user", "system:user:view", "profile"];
    for order in orders {
        let table: Vec<Permission> =
            order.iter().map(|&k| perm(k as i32 + 1, names[k], None)).collect();
        assert_eq!(codes(&build_permission_tree(&table)), expected);
    }
}

#[test]
fn fewer_segments_come_before_an_earlier_code() {
    let table = vec![perm(1, "a:z", None), perm(2, "b", None), perm(3, "a:b:c", None), perm(4, "z", None)];
    assert_eq!(codes(&build_permission_tree(&table)), ["b", "z", "a:z", "a:b:c"]);
}

#[test]
fn codes_are_compared_character_by_character() {
    let table = vec![
        perm(1, "ab", None),
        perm(2, "a", None),
        perm(3, "", None),
        perm(4, "B", None),
        perm(5, "b", None),
        perm(6, "é", None),
        perm(7, "中", None),
        perm(8, "aa", None),
    ];
    assert_eq!(codes(&build_permission_tree(&table)), ["", "B", "a", "aa", "ab", "b", "é", "中"]);
}

#[test]
fn equal_codes_keep_table_order() {
    let table = vec![perm(9, "same", None), perm(3, "same", None), perm(5, "same", None)];
    assert_eq!(ids(&build_permission_tree(&table)), [9, 3, 5]);
}

#[test]
fn empty_segments_count() {
    let table = vec![perm(1, "a:", None), perm(2, ":", None), perm(3, "b", None), perm(4, "::", None)];
    assert_eq!(codes(&build_permission_tree(&table)), ["b", ":", "a:", "::"]);
}

#[test]
fn children_hang_under_their_parent() {
    let table = vec![
        perm(1, "system", None),
        perm(2, "system:user", Some(1)),
        perm(3, "system:role", Some(1)),
        perm(4, "profile", None),
    ];
    let forest = build_permission_tree(&table);
    assert_eq!(codes(&forest), ["profile", "system"]);
    assert!(forest[0].children.is_empty());
    assert_eq!(codes(&forest[1].children), ["system:role", "system:user"]);
}

#[test]
fn grandchildren_are_kept() {
    let table = vec![
        perm(1, "system", None),
        perm(2, "system:user", Some(1)),
        perm(3, "system:user:view", Some(2)),
        perm(4, "system:user:edit", Some(2)),
        perm(5, "system:user:edit:self", Some(4)),
    ];
    let forest = build_permission_tree(&table);
    assert_eq!(ids(&forest), [1]);
    assert_eq!(ids(&forest[0].children), [2]);
    assert_eq!(ids(&forest[0].children[0].children), [4, 3]);
    assert_eq!(ids(&forest[0].children[0].children[0].children), [5]);
    assert!(forest[0].children[0].children[1].children.is_empty());
}

#[test]
fn child_listed_before_its_parent_is_placed_all_the_same() {
    let table = vec![
        perm(3, "system:user:view", Some(2)),
        perm(2, "system:user", Some(1)),
        perm(1, "system", None),
    ];
    let forest = build_permission_tree(&table);
    assert_eq!(ids(&forest), [1]);
    assert_eq!(ids(&forest[0].children), [2]);
    assert_eq!(ids(&forest[0].children[0].children), [3]);
}

#[test]
fn siblings_are_ordered_like_roots() {
    let table = vec![
        perm(1, "system", None),
        perm(2, "system:user:view", Some(1)),
        perm(3, "zeta", Some(1)),
        perm(4, "system:user", Some(1)),
        perm(5, "alpha", Some(1)),
    ];
    let forest = build_permission_tree(&table);
    assert_eq!(codes(&forest[0].children), ["alpha", "zeta", "system:user", "system:user:view"]);
}

#[test]
fn orphan_becomes_a_root_and_is_reported() {
    let table = vec![
        perm(1, "system", None),
        perm(2, "system:user", Some(1)),
        perm(3, "lost:child", Some(99)),
        perm(4, "lost:child:below", Some(3)),
    ];
    let forest = build_permission_tree(&table);
    assert_eq!(codes(&forest), ["system", "lost:child"]);
    assert_eq!(ids(&forest[1].children), [4]);
    assert_eq!(orphaned_permissions(&table), [3]);
}

#[test]
fn orphans_are_reported_in_table_order() {
    let table = vec![perm(8, "b", Some(100)), perm(1, "root", None), perm(7, "a", Some(200)), perm(6, "c", Some(1))];
    assert_eq!(orphaned_permissions(&table), [8, 7]);
    assert_eq!(codes(&build_permission_tree(&table)), ["a", "b", "root"]);
}

#[test]
fn well_formed_table_has_no_orphans() {
    let table = vec![perm(1, "system", None), perm(2, "system:user", Some(1))];
    assert!(orphaned_permissions(&table).is_empty());
}

#[test]
fn every_permission_appears_once() {
    let table = vec![
        perm(1, "system", None),
        perm(2, "system:user", Some(1)),
        perm(3, "system:user:view", Some(2)),
        perm(4, "profile", None),
        perm(5, "profile:edit", Some(4)),
        perm(6, "system:role", Some(1)),
        perm(7, "orphan", Some(70)),
    ];
    let forest = build_permission_tree(&table);
    let mut seen = Vec::new();
    all_ids(&forest, &mut seen);
    seen.sort();
    assert_eq!(seen, [1, 2, 3, 4, 5, 6, 7]);
}

#[test]
fn child_is_in_its_parents_list_only() {
    let table = vec![
        perm(1, "system", None),
        perm(2, "system:user", Some(1)),
        perm(3, "system:user:view", Some(2)),
        perm(4, "profile", None),
        perm(5, "profile:edit", Some(4)),
    ];
    let forest = build_permission_tree(&table);
    for row in &table {
        if let Some(parent) = row.parent_id {
            assert!(!ids(&forest).contains(&row.id));
            let mut parents = Vec::new();
            parents_of(&forest, row.id, &mut parents);
            assert_eq!(parents, [parent]);
        }
    }
}

#[test]
fn building_twice_gives_the_same_forest() {
    let table = vec![
        perm(1, "system", None),
        perm(2, "system:user", Some(1)),
        perm(3, "system:user:view", Some(2)),
        perm(4, "profile", None),
        perm(5, "lost", Some(9)),
    ];
    let first = format!("{:?}", build_permission_tree(&table));
    let second = format!("{:?}", build_permission_tree(&table));
    assert_eq!(first, second);
    let copy: Vec<Permission> = table.iter().cloned().collect();
    assert_eq!(format!("{:?}", build_permission_tree(&copy)), first);
}

#[test]
fn permission_that_is_its_own_parent_is_left_out() {
    let table = vec![perm(1, "system", None), perm(2, "loop", Some(2))];
    let forest = build_permission_tree(&table);
    assert_eq!(ids(&forest), [1]);
    assert!(forest[0].children.is_empty());
    assert!(orphaned_permissions(&table).is_empty());
}

#[test]
fn permissions_on_a_cycle_are_left_out() {
    let table = vec![perm(1, "a", Some(2)), perm(2, "b", Some(3)), perm(3, "c", Some(1)), perm(4, "d", None)];
    assert_eq!(ids(&build_permission_tree(&table)), [4]);
}

#[test]
fn deep_chain_is_built_in_full() {
    let mut table = vec![perm(0, "n0", None)];
    for k in 1..60 {
        table.push(perm(k, &format!("n{}", k), Some(k - 1)));
    }
    let forest = build_permission_tree(&table);
    let mut seen = Vec::new();
    all_ids(&forest, &mut seen);
    assert_eq!(seen, (0..60).collect::<Vec<i32>>());
}

#[test]
fn has_permission_looks_for_the_id() {
    let table = vec![perm(1, "a", None), perm(-7, "b", None)];
    assert!(has_permission(&table, 1));
    assert!(has_permission(&table, -7));
    assert!(!has_permission(&table, 7));
    assert!(!has_permission(&vec![], 1));
}

#[test]
fn role_view_holds_forest_and_selection() {
    let table = vec![perm(1, "system", None), perm(2, "system:user", Some(1)), perm(3, "profile", None)];
    let view = get_role_permissions(&table, vec![3, 1, 1, 99]);
    assert_eq!(codes(&view.tree), ["profile", "system"]);
    assert_eq!(ids(&view.tree[1].children), [2]);
    assert_eq!(view.selected, [3, 1, 1, 99]);
    let none = get_role_permissions(&table, vec![]);
    assert!(none.selected.is_empty());
    assert_eq!(none.tree.len(), 2);
}

#[test]
fn tables_that_are_forests() {
    assert!(is_forest_table(&vec![]));
    assert!(is_forest_table(&vec![perm(1, "a", None)]));
    assert!(is_forest_table(&vec![
        perm(3, "system:user:view", Some(2)),
        perm(2, "system:user", Some(1)),
        perm(1, "system", None),
        perm(4, "lost", Some(99)),
        perm(5, "lost:below", Some(4)),
    ]));
    let mut chain = vec![perm(0, "n0", None)];
    for k in 1..40 {
        chain.push(perm(k, "n", Some(k - 1)));
    }
    chain.reverse();
    assert!(is_forest_table(&chain));
}

#[test]
fn tables_that_are_no_forests() {
    assert!(!is_forest_table(&vec![perm(2, "loop", Some(2))]));
    assert!(!is_forest_table(&vec![perm(1, "a", Some(2)), perm(2, "b", Some(1))]));
    assert!(!is_forest_table(&vec![
        perm(1, "root", None),
        perm(2, "a", Some(3)),
        perm(3, "b", Some(4)),
        perm(4, "c", Some(2)),
        perm(5, "below the cycle", Some(2)),
    ]));
    assert!(!is_forest_table(&vec![perm(1, "a", None), perm(1, "b", None)]));
}

#[test]
fn unique_ids_are_told_from_repeated_ones() {
    assert!(has_unique_ids(&vec![]));
    assert!(has_unique_ids(&vec![perm(1, "a", None), perm(2, "a", None)]));
    assert!(!has_unique_ids(&vec![perm(1, "a", None), perm(2, "b", None), perm(1, "c", None)]));
}

#[test]
fn in_a_forest_every_permission_is_placed_once_under_its_parent() {
    let table = vec![
        perm(6, "system:role", Some(1)),
        perm(3, "system:user:view", Some(2)),
        perm(1, "system", None),
        perm(7, "orphan", Some(70)),
        perm(2, "system:user", Some(1)),
        perm(4, "profile", None),
        perm(5, "profile:edit", Some(4)),
    ];
    assert!(is_forest_table(&table));
    let forest = build_permission_tree(&table);
    for row in &table {
        let mut parents = Vec::new();
        parents_of(&forest, row.id, &mut parents);
        let as_root = ids(&forest).iter().filter(|&&id| id == row.id).count();
        match row.parent_id {
            Some(parent) if has_permission(&table, parent) => {
                assert_eq!(parents, [parent]);
                assert_eq!(as_root, 0);
            }
            _ => {
                assert!(parents.is_empty());
                assert_eq!(as_root, 1);
            }
        }
    }
}

#[test]
fn forest_does_not_depend_on_table_order() {
    let table = vec![
        perm(1, "system", None),
        perm(2, "system:user", Some(1)),
        perm(3, "system:user:view", Some(2)),
        perm(4, "system:user:edit", Some(2)),
        perm(5, "profile", None),
        perm(6, "system:role", Some(1)),
        perm(7, "lost:child", Some(70)),
    ];
    let expected = format!("{:?}", build_permission_tree(&table));
    let orders: [[usize; 7]; 4] = [
        [6, 5, 4, 3, 2, 1, 0],
        [3, 0, 6, 2, 5, 1, 4],
        [1, 2, 3, 4, 5, 6, 0],
        [2, 4, 6, 0, 1, 3, 5],
    ];
    for order in orders {
        let shuffled: Vec<Permission> = order.iter().map(|&k| table[k].clone()).collect();
        assert_eq!(format!("{:?}", build_permission_tree(&shuffled)), expected);
    }
}
