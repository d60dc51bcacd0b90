//! The permission forest: the flat, parent-referencing permission table
//! turned into trees, as role-editing screens show it.
//!
//! A permission without a parent is a root. So is one whose declared parent
//! is missing from the table: such an orphan is kept visible rather than
//! dropped, and [`orphaned_permissions`] reports it. Siblings, roots
//! included, are listed by the number of segments of their code, then by the
//! code, and between equal codes in table order.
//!
//! The table is meant to be a forest. Where it is not, building still ends:
//! permissions that are above themselves hang under no root and are left
//! out, with all that is below them.

use vstd::prelude::*;
use crate::models::permission::{
    nodes_of, rows_of, Permission, PermissionRow, PermissionTree, TreeNode,
};
use crate::ordering::{
    arrange, code_before, codes_of, keys_wf, lemma_position_leq_total, lemma_text_lt_trichotomy,
    position_leq, CodeKey,
};
use crate::text::{chars_of, copy_opt};
use vstd::relations::sorted_by;

verus! {

/// The codes of the rows, in table order.
pub open spec fn row_codes(rows: Seq<PermissionRow>) -> Seq<Seq<char>> {
    Seq::new(rows.len(), |i: int| rows[i].code)
}

/// Some row of the table has the id `id`.
pub open spec fn has_id(rows: Seq<PermissionRow>, id: int) -> bool {
    exists|k: int| 0 <= k < rows.len() && (#[trigger] rows[k]).id == id
}

/// The row at `i` declares a parent that the table does not hold.
pub open spec fn is_orphan(rows: Seq<PermissionRow>, i: int) -> bool {
    match rows[i].parent_id {
        Some(p) => !has_id(rows, p),
        None => false,
    }
}

/// The row at `i` starts a tree: it has no parent, or is an orphan.
pub open spec fn is_root(rows: Seq<PermissionRow>, i: int) -> bool {
    rows[i].parent_id is None || is_orphan(rows, i)
}

/// The row at `i` declares the permission `id` as its parent.
pub open spec fn is_child_of(rows: Seq<PermissionRow>, i: int, id: int) -> bool {
    rows[i].parent_id == Some(id)
}

/// The positions below `n` that `keep` accepts, in increasing order.
pub open spec fn positions_where(n: nat, keep: spec_fn(int) -> bool) -> Seq<usize>
    decreases n,
{
    if n == 0 {
        Seq::empty()
    } else {
        let rest = positions_where((n - 1) as nat, keep);
        if keep(n - 1) {
            rest.push((n - 1) as usize)
        } else {
            rest
        }
    }
}

/// The test that [`root_positions`] applies to a position.
pub open spec fn root_test(rows: Seq<PermissionRow>) -> spec_fn(int) -> bool {
    |i: int| is_root(rows, i)
}

/// The test that [`orphan_positions`] applies to a position.
pub open spec fn orphan_test(rows: Seq<PermissionRow>) -> spec_fn(int) -> bool {
    |i: int| is_orphan(rows, i)
}

/// The test that [`child_positions`] applies to a position.
pub open spec fn child_test(rows: Seq<PermissionRow>, id: int) -> spec_fn(int) -> bool {
    |i: int| is_child_of(rows, i, id)
}

/// The positions of the rows that start a tree, in table order.
pub open spec fn root_positions(rows: Seq<PermissionRow>) -> Seq<usize> {
    positions_where(rows.len(), root_test(rows))
}

/// The positions of the orphans, in table order.
pub open spec fn orphan_positions(rows: Seq<PermissionRow>) -> Seq<usize> {
    positions_where(rows.len(), orphan_test(rows))
}

/// The positions of the rows whose parent is `id`, in table order.
pub open spec fn child_positions(rows: Seq<PermissionRow>, id: int) -> Seq<usize> {
    positions_where(rows.len(), child_test(rows, id))
}

/// The ids of the orphans, in table order.
pub open spec fn orphan_ids(rows: Seq<PermissionRow>) -> Seq<int> {
    let at = orphan_positions(rows);
    Seq::new(at.len(), |k: int| rows[at[k] as int].id)
}

/// `positions` in the order in which siblings are listed.
pub open spec fn listed(rows: Seq<PermissionRow>, positions: Seq<usize>) -> Seq<usize> {
    positions.sort_by(position_leq(row_codes(rows)))
}

/// The tree below the row at `i`, followed `depth` levels down.
pub open spec fn subtree(rows: Seq<PermissionRow>, i: int, depth: nat) -> TreeNode
    decreases depth,
{
    let row = rows[i];
    TreeNode {
        id: row.id,
        name: row.name,
        code: row.code,
        category: row.category,
        resource: row.resource,
        action: row.action,
        description: row.description,
        children: if depth == 0 {
            Seq::empty()
        } else {
            let below = listed(rows, child_positions(rows, row.id));
            Seq::new(below.len(), |k: int| subtree(rows, below[k] as int, (depth - 1) as nat))
        },
    }
}

/// The forest of a permission table. No chain of parents in a table of `n`
/// rows is longer than `n`, so following each tree `n` levels down shows all
/// of it.
pub open spec fn forest(rows: Seq<PermissionRow>) -> Seq<TreeNode> {
    let roots = listed(rows, root_positions(rows));
    Seq::new(roots.len(), |k: int| subtree(rows, roots[k] as int, rows.len()))
}

/// Every position that [`positions_where`] lists is below `n`.
pub proof fn lemma_positions_in_range(n: nat, keep: spec_fn(int) -> bool)
    ensures
        positions_where(n, keep).len() <= n,
        forall|k: int|
            0 <= k < positions_where(n, keep).len() ==> (#[trigger] positions_where(n, keep)[k])
                < n,
    decreases n,
{
    if n > 0 {
        lemma_positions_in_range((n - 1) as nat, keep);
    }
}

/// `keys` holds the sort keys of the codes of `perms`, row by row.
pub open spec fn keys_match(keys: Seq<CodeKey>, perms: Seq<Permission>) -> bool {
    &&& keys_wf(keys)
    &&& keys.len() == perms.len()
    &&& codes_of(keys) == row_codes(rows_of(perms))
}

/// Listing rearranges: [`listed`] holds the positions it was given, each as
/// often as before, none out of range, in listing order.
pub proof fn lemma_listed(rows: Seq<PermissionRow>, positions: Seq<usize>)
    requires
        forall|k: int| 0 <= k < positions.len() ==> (#[trigger] positions[k]) < rows.len(),
    ensures
        listed(rows, positions).to_multiset() == positions.to_multiset(),
        listed(rows, positions).len() == positions.len(),
        sorted_by(listed(rows, positions), position_leq(row_codes(rows))),
        forall|k: int|
            0 <= k < listed(rows, positions).len() ==> (#[trigger] listed(rows, positions)[k])
                < rows.len(),
{
    let leq = position_leq(row_codes(rows));
    let out = listed(rows, positions);
    lemma_position_leq_total(row_codes(rows));
    positions.lemma_sort_by_ensures(leq);
    positions.to_multiset_ensures();
    out.to_multiset_ensures();
    assert forall|k: int| 0 <= k < out.len() implies (#[trigger] out[k]) < rows.len() by {
        assert(out.contains(out[k]));
        assert(positions.contains(out[k]));
    }
}

/// [`positions_where`] lists exactly the positions below `n` that pass the
/// test, each once.
pub proof fn lemma_positions_where(n: nat, keep: spec_fn(int) -> bool)
    requires
        n <= usize::MAX,
    ensures
        positions_where(n, keep).no_duplicates(),
        forall|c: usize| positions_where(n, keep).contains(c) <==> (c < n && keep(c as int)),
    decreases n,
{
    let all = positions_where(n, keep);
    if n > 0 {
        let rest = positions_where((n - 1) as nat, keep);
        lemma_positions_where((n - 1) as nat, keep);
        let last = (n - 1) as usize;
        if keep(n - 1) {
            assert(all == rest.push(last));
            assert forall|c: usize| all.contains(c) <==> (c < n && keep(c as int)) by {
                if all.contains(c) {
                    let k = choose|k: int| 0 <= k < all.len() && all[k] == c;
                    if k < rest.len() {
                        assert(rest[k] == c);
                        assert(rest.contains(c));
                    }
                }
                if c < n && keep(c as int) {
                    if c == last {
                        assert(all[rest.len() as int] == c);
                    } else {
                        assert(rest.contains(c));
                        let k = choose|k: int| 0 <= k < rest.len() && rest[k] == c;
                        assert(all[k] == c);
                    }
                }
            }
            assert forall|a: int, b: int| 0 <= a < all.len() && 0 <= b < all.len() && a
                != b implies all[a] != all[b] by {
                if a == rest.len() {
                    assert(rest.contains(rest[b]));
                } else if b == rest.len() {
                    assert(rest.contains(rest[a]));
                }
            }
        }
    } else {
        assert forall|c: usize| all.contains(c) <==> (c < n && keep(c as int)) by {}
    }
}

/// [`listed`] holds exactly the positions it was given, each once where
/// each was given once.
pub proof fn lemma_listed_members(rows: Seq<PermissionRow>, positions: Seq<usize>)
    requires
        positions.no_duplicates(),
        forall|k: int| 0 <= k < positions.len() ==> (#[trigger] positions[k]) < rows.len(),
    ensures
        listed(rows, positions).no_duplicates(),
        forall|c: usize| listed(rows, positions).contains(c) <==> positions.contains(c),
{
    let out = listed(rows, positions);
    lemma_listed(rows, positions);
    positions.to_multiset_ensures();
    out.to_multiset_ensures();
    positions.lemma_multiset_has_no_duplicates();
    out.lemma_multiset_has_no_duplicates_conv();
    assert forall|c: usize| out.contains(c) <==> positions.contains(c) by {
        assert(out.to_multiset().count(c) == positions.to_multiset().count(c));
    }
}

/// Two nodes listed one after the other in a sibling list are in order: the
/// later one has no fewer segments, and with as many segments its code does
/// not come first.
pub open spec fn in_listing_order(nodes: Seq<TreeNode>) -> bool {
    forall|a: int, b: int|
        0 <= a < b < nodes.len() ==> !code_before(
            (#[trigger] nodes[b]).code,
            (#[trigger] nodes[a]).code,
        )
}

/// The codes at listed positions are in listing order.
proof fn lemma_listed_codes_ordered(rows: Seq<PermissionRow>, positions: Seq<usize>, a: int, b: int)
    requires
        forall|k: int| 0 <= k < positions.len() ==> (#[trigger] positions[k]) < rows.len(),
        0 <= a < b < listed(rows, positions).len(),
    ensures
        !code_before(
            rows[listed(rows, positions)[b] as int].code,
            rows[listed(rows, positions)[a] as int].code,
        ),
{
    lemma_listed(rows, positions);
    let out = listed(rows, positions);
    let leq = position_leq(row_codes(rows));
    assert(leq(out[a], out[b]));
    lemma_text_lt_trichotomy(rows[out[a] as int].code, rows[out[b] as int].code);
}

/// The roots of the forest are in listing order, whatever the order of the
/// table.
pub proof fn lemma_roots_in_listing_order(rows: Seq<PermissionRow>)
    ensures
        in_listing_order(forest(rows)),
{
    let roots = forest(rows);
    lemma_positions_in_range(rows.len(), root_test(rows));
    assert forall|a: int, b: int| 0 <= a < b < roots.len() implies !code_before(
        (#[trigger] roots[b]).code,
        (#[trigger] roots[a]).code,
    ) by {
        lemma_listed_codes_ordered(rows, root_positions(rows), a, b);
    }
}

/// The children of every node that the builder makes are in listing order.
pub proof fn lemma_children_in_listing_order(rows: Seq<PermissionRow>, i: int, depth: nat)
    ensures
        in_listing_order(subtree(rows, i, depth).children),
{
    let kids = subtree(rows, i, depth).children;
    let positions = child_positions(rows, rows[i].id);
    lemma_positions_in_range(rows.len(), child_test(rows, rows[i].id));
    assert forall|a: int, b: int| 0 <= a < b < kids.len() implies !code_before(
        (#[trigger] kids[b]).code,
        (#[trigger] kids[a]).code,
    ) by {
        let below = listed(rows, positions);
        assert(depth > 0);
        assert(kids[a] == subtree(rows, below[a] as int, (depth - 1) as nat));
        assert(kids[b] == subtree(rows, below[b] as int, (depth - 1) as nat));
        lemma_listed_codes_ordered(rows, positions, a, b);
    }
}

/// No two rows of the table have the same code.
pub open spec fn unique_codes(rows: Seq<PermissionRow>) -> bool {
    forall|i: int, j: int|
        0 <= i < j < rows.len() ==> (#[trigger] rows[i]).code != (#[trigger] rows[j]).code
}

/// Each node of a sibling list comes strictly before those after it.
pub open spec fn in_strict_listing_order(nodes: Seq<TreeNode>) -> bool {
    forall|a: int, b: int|
        0 <= a < b < nodes.len() ==> code_before(
            (#[trigger] nodes[a]).code,
            (#[trigger] nodes[b]).code,
        )
}

/// Where codes are unique, listed positions stand strictly in the order of
/// their codes.
proof fn lemma_listed_codes_strictly_ordered(
    rows: Seq<PermissionRow>,
    n: nat,
    keep: spec_fn(int) -> bool,
    a: int,
    b: int,
)
    requires
        unique_codes(rows),
        n == rows.len(),
        n <= usize::MAX,
        0 <= a < b < listed(rows, positions_where(n, keep)).len(),
    ensures
        code_before(
            rows[listed(rows, positions_where(n, keep))[a] as int].code,
            rows[listed(rows, positions_where(n, keep))[b] as int].code,
        ),
{
    let found = positions_where(n, keep);
    let at = listed(rows, found);
    lemma_positions_in_range(n, keep);
    lemma_positions_where(n, keep);
    lemma_listed(rows, found);
    lemma_listed_members(rows, found);
    let (x, y) = (at[a] as int, at[b] as int);
    assert(position_leq(row_codes(rows))(at[a], at[b]));
    lemma_text_lt_trichotomy(rows[x].code, rows[y].code);
    if x < y {
        assert(rows[x].code != rows[y].code);
    } else if y < x {
        assert(rows[y].code != rows[x].code);
    }
}

/// Where codes are unique, the codes alone decide the order of the roots:
/// each comes strictly before the next, in whatever order the table holds
/// the rows.
pub proof fn lemma_roots_ordered_by_code_alone(rows: Seq<PermissionRow>)
    requires
        unique_codes(rows),
        rows.len() <= usize::MAX,
    ensures
        in_strict_listing_order(forest(rows)),
{
    let roots = forest(rows);
    assert forall|a: int, b: int| 0 <= a < b < roots.len() implies code_before(
        (#[trigger] roots[a]).code,
        (#[trigger] roots[b]).code,
    ) by {
        lemma_listed_codes_strictly_ordered(rows, rows.len(), root_test(rows), a, b);
    }
}

/// Where codes are unique, the codes alone decide the order of the
/// children of every node.
pub proof fn lemma_children_ordered_by_code_alone(rows: Seq<PermissionRow>, i: int, depth: nat)
    requires
        unique_codes(rows),
        rows.len() <= usize::MAX,
    ensures
        in_strict_listing_order(subtree(rows, i, depth).children),
{
    let kids = subtree(rows, i, depth).children;
    assert forall|a: int, b: int| 0 <= a < b < kids.len() implies code_before(
        (#[trigger] kids[a]).code,
        (#[trigger] kids[b]).code,
    ) by {
        let below = listed(rows, child_positions(rows, rows[i].id));
        assert(depth > 0);
        assert(kids[a] == subtree(rows, below[a] as int, (depth - 1) as nat));
        assert(kids[b] == subtree(rows, below[b] as int, (depth - 1) as nat));
        lemma_listed_codes_strictly_ordered(
            rows,
            rows.len(),
            child_test(rows, rows[i].id),
            a,
            b,
        );
    }
}

/// The forest is a function of what the table holds: two tables with the
/// same rows in the same order give the same forest, node for node and
/// child for child.
pub proof fn lemma_same_table_same_forest(first: Seq<Permission>, second: Seq<Permission>)
    requires
        rows_of(first) == rows_of(second),
    ensures
        forest(rows_of(first)) == forest(rows_of(second)),
{
}

/// The sort keys of the codes of a permission table.
fn code_keys(perms: &Vec<Permission>) -> (keys: Vec<CodeKey>)
    ensures
        keys_match(keys@, perms@),
{
    let mut keys: Vec<CodeKey> = Vec::new();
    let mut i: usize = 0;
    while i < perms.len()
        invariant
            i <= perms.len(),
            keys.len() == i,
            keys_wf(keys@),
            forall|j: int| 0 <= j < i ==> (#[trigger] keys[j]).chars@ == perms[j].code@,
        decreases perms.len() - i,
    {
        let chars = chars_of(perms[i].code.as_str());
        keys.push(CodeKey::new(chars));
        i = i + 1;
    }
    assert(codes_of(keys@) =~= row_codes(rows_of(perms@)));
    keys
}

/// Tells whether the table holds a permission with the id `id`.
pub fn has_permission(perms: &Vec<Permission>, id: i32) -> (found: bool)
    ensures
        found == has_id(rows_of(perms@), id as int),
{
    let mut i: usize = 0;
    while i < perms.len()
        invariant
            i <= perms.len(),
            forall|k: int| 0 <= k < i ==> (#[trigger] rows_of(perms@)[k]).id != id,
        decreases perms.len() - i,
    {
        if perms[i].id == id {
            assert(rows_of(perms@)[i as int].id == id);
            return true;
        }
        i = i + 1;
    }
    false
}

/// Tells whether the row at `i` is an orphan.
fn row_is_orphan(perms: &Vec<Permission>, i: usize) -> (r: bool)
    requires
        i < perms.len(),
    ensures
        r == is_orphan(rows_of(perms@), i as int),
{
    match perms[i].parent_id {
        Some(p) => !has_permission(perms, p),
        None => false,
    }
}

/// The positions of the rows that start a tree.
fn collect_roots(perms: &Vec<Permission>) -> (out: Vec<usize>)
    ensures
        out@ == root_positions(rows_of(perms@)),
        forall|k: int| 0 <= k < out.len() ==> out[k] < perms.len(),
{
    let ghost rows = rows_of(perms@);
    let mut out: Vec<usize> = Vec::new();
    let mut i: usize = 0;
    while i < perms.len()
        invariant
            i <= perms.len(),
            rows == rows_of(perms@),
            out@ == positions_where(i as nat, root_test(rows)),
        decreases perms.len() - i,
    {
        if perms[i].parent_id.is_none() || row_is_orphan(perms, i) {
            out.push(i);
        }
        i = i + 1;
    }
    proof {
        lemma_positions_in_range(rows.len(), root_test(rows));
    }
    out
}

/// The positions of the rows whose parent is `id`.
fn collect_children(perms: &Vec<Permission>, id: i32) -> (out: Vec<usize>)
    ensures
        out@ == child_positions(rows_of(perms@), id as int),
        forall|k: int| 0 <= k < out.len() ==> out[k] < perms.len(),
{
    let ghost rows = rows_of(perms@);
    let mut out: Vec<usize> = Vec::new();
    let mut i: usize = 0;
    while i < perms.len()
        invariant
            i <= perms.len(),
            rows == rows_of(perms@),
            out@ == positions_where(i as nat, child_test(rows, id as int)),
        decreases perms.len() - i,
    {
        let is_child = match perms[i].parent_id {
            Some(p) => p == id,
            None => false,
        };
        if is_child {
            out.push(i);
        }
        i = i + 1;
    }
    proof {
        lemma_positions_in_range(rows.len(), child_test(rows, id as int));
    }
    out
}

/// Builds the tree below the row at `i`, `depth` levels down.
fn build_node(perms: &Vec<Permission>, keys: &Vec<CodeKey>, i: usize, depth: usize) -> (node:
    PermissionTree)
    requires
        i < perms.len(),
        keys_match(keys@, perms@),
    ensures
        node@ == subtree(rows_of(perms@), i as int, depth as nat),
    decreases depth,
{
    let ghost rows = rows_of(perms@);
    let row = &perms[i];
    let mut children: Vec<PermissionTree> = Vec::new();
    if depth > 0 {
        let found = collect_children(perms, row.id);
        let below = arrange(keys, &found);
        let mut k: usize = 0;
        while k < below.len()
            invariant
                k <= below.len(),
                depth > 0,
                children.len() == k,
                rows == rows_of(perms@),
                keys_match(keys@, perms@),
                forall|j: int| 0 <= j < below.len() ==> below[j] < perms.len(),
                forall|j: int|
                    0 <= j < k ==> (#[trigger] children[j])@ == subtree(
                        rows,
                        below[j] as int,
                        (depth - 1) as nat,
                    ),
            decreases below.len() - k,
        {
            let child = build_node(perms, keys, below[k], depth - 1);
            children.push(child);
            k = k + 1;
        }
        assert(below@ == listed(rows, child_positions(rows, rows[i as int].id)));
    }
    let node = PermissionTree {
        id: row.id,
        name: row.name.clone(),
        code: row.code.clone(),
        category: row.category.clone(),
        resource: copy_opt(&row.resource),
        action: copy_opt(&row.action),
        description: copy_opt(&row.description),
        children,
    };
    assert(node@.children =~= subtree(rows, i as int, depth as nat).children);
    node
}

/// Builds the forest of a permission table.
pub fn build_permission_tree(perms: &Vec<Permission>) -> (trees: Vec<PermissionTree>)
    ensures
        nodes_of(trees@) == forest(rows_of(perms@)),
{
    let ghost rows = rows_of(perms@);
    let keys = code_keys(perms);
    let found = collect_roots(perms);
    let roots = arrange(&keys, &found);
    let mut trees: Vec<PermissionTree> = Vec::new();
    let mut k: usize = 0;
    while k < roots.len()
        invariant
            k <= roots.len(),
            trees.len() == k,
            rows == rows_of(perms@),
            keys_match(keys@, perms@),
            forall|j: int| 0 <= j < roots.len() ==> roots[j] < perms.len(),
            forall|j: int|
                0 <= j < k ==> (#[trigger] trees[j])@ == subtree(
                    rows,
                    roots[j] as int,
                    rows.len(),
                ),
        decreases roots.len() - k,
    {
        let tree = build_node(perms, &keys, roots[k], perms.len());
        trees.push(tree);
        k = k + 1;
    }
    assert(nodes_of(trees@) =~= forest(rows));
    trees
}

/// What a role-editing screen is given: the whole permission forest, and
/// the ids of the permissions that the role has.
#[derive(Debug)]
pub struct RolePermissionTree {
    pub tree: Vec<PermissionTree>,
    pub selected: Vec<i64>,
}

/// Puts together what a role-editing screen is given, from the permission
/// table and the ids of the permissions assigned to the role. The forest is
/// built afresh from the table each time; the ids are handed on as they are.
pub fn get_role_permissions(permissions: &Vec<Permission>, role_permission_ids: Vec<i64>) -> (out:
    RolePermissionTree)
    ensures
        nodes_of(out.tree@) == forest(rows_of(permissions@)),
        out.selected@ == role_permission_ids@,
{
    RolePermissionTree { tree: build_permission_tree(permissions), selected: role_permission_ids }
}

/// The ids of the permissions whose declared parent is missing from the
/// table, in table order: what an operator should be told of.
pub fn orphaned_permissions(perms: &Vec<Permission>) -> (ids: Vec<i32>)
    ensures
        ids@.map_values(|id: i32| id as int) == orphan_ids(rows_of(perms@)),
{
    let ghost rows = rows_of(perms@);
    let mut ids: Vec<i32> = Vec::new();
    let mut i: usize = 0;
    while i < perms.len()
        invariant
            i <= perms.len(),
            rows == rows_of(perms@),
            ids.len() == positions_where(i as nat, orphan_test(rows)).len(),
            forall|k: int|
                0 <= k < ids.len() ==> (#[trigger] ids[k]) as int == rows[positions_where(
                    i as nat,
                    orphan_test(rows),
                )[k] as int].id,
        decreases perms.len() - i,
    {
        proof {
            lemma_positions_in_range(i as nat, orphan_test(rows));
        }
        if row_is_orphan(perms, i) {
            ids.push(perms[i].id);
        }
        i = i + 1;
    }
    assert(ids@.map_values(|id: i32| id as int) =~= orphan_ids(rows));
    ids
}

} // verus!
