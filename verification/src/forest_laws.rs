//! What holds of the permission forest.
//!
//! Where the table is well formed, which is to say that ids are unique and
//! that following the parents of any permission leads to a root, every
//! permission has its one place in the forest:
//! [`lemma_every_permission_has_one_place`]. Where codes are unique, the
//! forest is the same in whatever order the table holds its rows:
//! [`lemma_forest_independent_of_table_order`]. [`is_forest_table`] tells
//! whether a table is well formed.

use vstd::prelude::*;
use crate::models::permission::{rows_of, Permission, PermissionRow, TreeNode};
use crate::ordering::{lemma_position_leq_total, lemma_text_lt_trichotomy, position_leq};
use crate::permission_tree::{
    child_positions, child_test, forest, has_id, is_child_of, is_root, lemma_listed,
    lemma_listed_members, lemma_positions_in_range, lemma_positions_where, listed,
    positions_where, root_positions, root_test, row_codes, subtree, unique_codes,
};
use vstd::relations::sorted_by;
use vstd::seq_lib::lemma_sorted_unique;

verus! {

/// No two rows of the table have the same id.
pub open spec fn unique_ids(rows: Seq<PermissionRow>) -> bool {
    forall|i: int, j: int|
        0 <= i < j < rows.len() ==> (#[trigger] rows[i]).id != (#[trigger] rows[j]).id
}

/// A position at which the table holds the id `id`.
pub open spec fn position_of_id(rows: Seq<PermissionRow>, id: int) -> int {
    choose|k: int| 0 <= k < rows.len() && (#[trigger] rows[k]).id == id
}

/// The position of the parent of the row at `i`, for a row that is no root.
pub open spec fn parent_position(rows: Seq<PermissionRow>, i: int) -> int {
    position_of_id(rows, rows[i].parent_id->0)
}

/// How many parents lie between the row at `i` and a root, where following
/// them reaches a root within `fuel` rows.
pub open spec fn hops_to_root(rows: Seq<PermissionRow>, i: int, fuel: nat) -> Option<nat>
    decreases fuel,
{
    if is_root(rows, i) {
        Some(0)
    } else if fuel == 0 {
        None
    } else {
        match hops_to_root(rows, parent_position(rows, i), (fuel - 1) as nat) {
            Some(hops) => Some(hops + 1),
            None => None,
        }
    }
}

/// The table is a forest: ids are unique, and from every row the parents
/// lead to a root, so that no permission is above itself.
pub open spec fn is_forest(rows: Seq<PermissionRow>) -> bool {
    &&& unique_ids(rows)
    &&& forall|i: int|
        0 <= i < rows.len() ==> (#[trigger] hops_to_root(rows, i, rows.len())) is Some
}

/// The level of the row at `i` in a forest: 0 for a root, one more than its
/// parent's for any other row.
pub open spec fn level(rows: Seq<PermissionRow>, i: int) -> nat {
    hops_to_root(rows, i, rows.len())->0
}

/// The row that is `m` levels above the row at `t`.
pub open spec fn up(rows: Seq<PermissionRow>, t: int, m: nat) -> int
    decreases m,
{
    if m == 0 {
        t
    } else {
        parent_position(rows, up(rows, t, (m - 1) as nat))
    }
}

/// The row at `i` is the row at `t` or one of those above it.
pub open spec fn covers(rows: Seq<PermissionRow>, i: int, t: int) -> bool {
    level(rows, i) <= level(rows, t) && up(
        rows,
        t,
        (level(rows, t) - level(rows, i)) as nat,
    ) == i
}

/// The parent of a row that is no root is a row of the table.
pub proof fn lemma_parent_position(rows: Seq<PermissionRow>, i: int)
    requires
        0 <= i < rows.len(),
        !is_root(rows, i),
    ensures
        0 <= parent_position(rows, i) < rows.len(),
        rows[i].parent_id == Some(rows[parent_position(rows, i)].id),
{
}

/// With unique ids, the one row that has the id of the row at `k` is that
/// row.
pub proof fn lemma_position_of_own_id(rows: Seq<PermissionRow>, k: int)
    requires
        unique_ids(rows),
        0 <= k < rows.len(),
    ensures
        position_of_id(rows, rows[k].id) == k,
{
    let found = position_of_id(rows, rows[k].id);
    assert(0 <= found < rows.len() && rows[found].id == rows[k].id);
    if found < k {
        assert(rows[found].id != rows[k].id);
    } else if k < found {
        assert(rows[k].id != rows[found].id);
    }
}

/// A count of hops is no larger than the fuel it was found with.
proof fn lemma_hops_bound(rows: Seq<PermissionRow>, i: int, fuel: nat)
    ensures
        hops_to_root(rows, i, fuel) matches Some(hops) ==> hops <= fuel,
    decreases fuel,
{
    if !is_root(rows, i) && fuel > 0 {
        lemma_hops_bound(rows, parent_position(rows, i), (fuel - 1) as nat);
    }
}

/// More fuel finds the same count of hops.
proof fn lemma_hops_monotone(rows: Seq<PermissionRow>, i: int, less: nat, more: nat)
    requires
        less <= more,
        hops_to_root(rows, i, less) is Some,
    ensures
        hops_to_root(rows, i, more) == hops_to_root(rows, i, less),
    decreases less,
{
    if !is_root(rows, i) {
        lemma_hops_monotone(
            rows,
            parent_position(rows, i),
            (less - 1) as nat,
            (more - 1) as nat,
        );
    }
}

/// Levels in a forest: a root is at level 0, any other row one level below
/// its parent, and no row below the level that the number of rows allows.
pub proof fn lemma_level(rows: Seq<PermissionRow>, i: int)
    requires
        is_forest(rows),
        0 <= i < rows.len(),
    ensures
        level(rows, i) <= rows.len(),
        is_root(rows, i) ==> level(rows, i) == 0,
        !is_root(rows, i) ==> level(rows, i) == level(rows, parent_position(rows, i)) + 1,
{
    lemma_hops_bound(rows, i, rows.len());
    if !is_root(rows, i) {
        let p = parent_position(rows, i);
        lemma_parent_position(rows, i);
        assert(hops_to_root(rows, i, rows.len()) is Some);
        assert(hops_to_root(rows, p, (rows.len() - 1) as nat) is Some);
        lemma_hops_monotone(rows, p, (rows.len() - 1) as nat, rows.len());
    }
}

/// Going up from a row in a forest, no further than to its root, one stays
/// in the table and rises one level with each row.
pub proof fn lemma_up(rows: Seq<PermissionRow>, t: int, m: nat)
    requires
        is_forest(rows),
        0 <= t < rows.len(),
        m <= level(rows, t),
    ensures
        0 <= up(rows, t, m) < rows.len(),
        level(rows, up(rows, t, m)) == level(rows, t) - m,
    decreases m,
{
    if m > 0 {
        lemma_up(rows, t, (m - 1) as nat);
        let below = up(rows, t, (m - 1) as nat);
        lemma_level(rows, below);
        lemma_parent_position(rows, below);
    }
}

/// Where the permission `id` stands in the tree below and with `node`,
/// whose parent is `above` (`None` for a tree of the forest): for each node
/// that has the id, the id of the node above it, from left to right.
pub open spec fn placements_in(node: TreeNode, above: Option<int>, id: int) -> Seq<Option<int>>
    decreases node, 1int,
{
    (if node.id == id {
        seq![above]
    } else {
        Seq::empty()
    }) + placements(node.children, Some(node.id), id)
}

/// Where the permission `id` stands in a list of trees whose roots all have
/// the parent `above`.
pub open spec fn placements(nodes: Seq<TreeNode>, above: Option<int>, id: int) -> Seq<Option<int>>
    decreases nodes, 0int,
{
    if nodes.len() == 0 {
        Seq::empty()
    } else {
        placements(nodes.drop_last(), above, id) + placements_in(nodes.last(), above, id)
    }
}

/// Trees that do not hold the id place it nowhere.
proof fn lemma_placed_nowhere(nodes: Seq<TreeNode>, above: Option<int>, id: int)
    requires
        forall|k: int| 0 <= k < nodes.len() ==> placements_in(#[trigger] nodes[k], above, id).len() == 0,
    ensures
        placements(nodes, above, id) == Seq::<Option<int>>::empty(),
    decreases nodes.len(),
{
    if nodes.len() > 0 {
        let rest = nodes.drop_last();
        assert forall|k: int| 0 <= k < rest.len() implies placements_in(
            #[trigger] rest[k],
            above,
            id,
        ).len() == 0 by {
            assert(rest[k] == nodes[k]);
        }
        lemma_placed_nowhere(rest, above, id);
        assert(placements_in(nodes.last(), above, id) =~= Seq::<Option<int>>::empty());
        assert(placements(nodes, above, id) =~= Seq::<Option<int>>::empty());
    }
}

/// Where one tree of a list holds the id and the others do not, the list
/// places it where that tree does.
proof fn lemma_placed_in_one(nodes: Seq<TreeNode>, above: Option<int>, id: int, hit: int)
    requires
        0 <= hit < nodes.len(),
        forall|k: int|
            0 <= k < nodes.len() && k != hit ==> placements_in(
                #[trigger] nodes[k],
                above,
                id,
            ).len() == 0,
    ensures
        placements(nodes, above, id) == placements_in(nodes[hit], above, id),
    decreases nodes.len(),
{
    let rest = nodes.drop_last();
    if hit == nodes.len() - 1 {
        assert forall|k: int| 0 <= k < rest.len() implies placements_in(
            #[trigger] rest[k],
            above,
            id,
        ).len() == 0 by {
            assert(rest[k] == nodes[k]);
        }
        lemma_placed_nowhere(rest, above, id);
        assert(placements(nodes, above, id) =~= placements_in(nodes[hit], above, id));
    } else {
        assert forall|k: int| 0 <= k < rest.len() && k != hit implies placements_in(
            #[trigger] rest[k],
            above,
            id,
        ).len() == 0 by {
            assert(rest[k] == nodes[k]);
        }
        lemma_placed_in_one(rest, above, id, hit);
        assert(rest[hit] == nodes[hit]);
        assert(placements_in(nodes.last(), above, id) =~= Seq::<Option<int>>::empty());
        assert(placements(nodes, above, id) =~= placements_in(nodes[hit], above, id));
    }
}

/// A row listed below the row at `i` is a row of the table, one level down,
/// and has the row at `i` as its parent.
proof fn lemma_listed_child(rows: Seq<PermissionRow>, i: int, k: int)
    requires
        is_forest(rows),
        rows.len() <= usize::MAX,
        0 <= i < rows.len(),
        0 <= k < listed(rows, child_positions(rows, rows[i].id)).len(),
    ensures
        ({
            let c = listed(rows, child_positions(rows, rows[i].id))[k];
            &&& c < rows.len()
            &&& !is_root(rows, c as int)
            &&& parent_position(rows, c as int) == i
            &&& level(rows, c as int) == level(rows, i) + 1
        }),
{
    let found = child_positions(rows, rows[i].id);
    let below = listed(rows, found);
    let c = below[k];
    lemma_positions_where(rows.len(), child_test(rows, rows[i].id));
    lemma_positions_in_range(rows.len(), child_test(rows, rows[i].id));
    lemma_listed_members(rows, found);
    assert(below.contains(c));
    assert(found.contains(c));
    assert(is_child_of(rows, c as int, rows[i].id));
    assert(has_id(rows, rows[i].id));
    lemma_position_of_own_id(rows, i);
    lemma_level(rows, c as int);
}

/// A row covers itself, and a row that covers another row than itself is
/// higher up.
proof fn lemma_covers_self(rows: Seq<PermissionRow>, i: int, t: int)
    requires
        is_forest(rows),
        0 <= i < rows.len(),
        0 <= t < rows.len(),
    ensures
        covers(rows, t, t),
        covers(rows, i, t) && level(rows, i) == level(rows, t) ==> i == t,
{
}

/// Where the permission of the row at `t` stands in the tree built for the
/// row at `i`, if the tree is followed as far down as the table goes: at
/// the top if it is that row, below its parent if the row at `i` is above
/// it, and nowhere else.
proof fn lemma_subtree_places(
    rows: Seq<PermissionRow>,
    i: int,
    depth: nat,
    t: int,
    above: Option<int>,
)
    requires
        is_forest(rows),
        rows.len() <= usize::MAX,
        0 <= i < rows.len(),
        0 <= t < rows.len(),
        depth + level(rows, i) >= rows.len(),
    ensures
        placements_in(subtree(rows, i, depth), above, rows[t].id) == (if covers(rows, i, t) {
            seq![if i == t { above } else { rows[t].parent_id }]
        } else {
            Seq::<Option<int>>::empty()
        }),
    decreases depth,
{
    let id = rows[t].id;
    let node = subtree(rows, i, depth);
    let kids = node.children;
    let empty = Seq::<Option<int>>::empty();
    lemma_level(rows, i);
    lemma_level(rows, t);
    lemma_covers_self(rows, i, t);
    if i != t {
        if i < t {
            assert(rows[i].id != rows[t].id);
        } else {
            assert(rows[t].id != rows[i].id);
        }
    }
    if depth == 0 {
        assert(placements(kids, Some(node.id), id) =~= empty);
        if covers(rows, i, t) {
            assert(placements_in(node, above, id) =~= seq![above]);
        } else {
            assert(placements_in(node, above, id) =~= empty);
        }
    } else {
        let found = child_positions(rows, rows[i].id);
        let below = listed(rows, found);
        let inner = Some(rows[i].id);
        assert(kids.len() == below.len());
        assert forall|k: int| 0 <= k < kids.len() implies placements_in(
            #[trigger] kids[k],
            inner,
            id,
        ) == (if covers(rows, below[k] as int, t) {
            seq![rows[t].parent_id]
        } else {
            empty
        }) && (covers(rows, below[k] as int, t) ==> covers(rows, i, t) && i != t && below[k]
            == up(rows, t, (level(rows, t) - level(rows, i) - 1) as nat)) by {
            let c = below[k] as int;
            lemma_listed_child(rows, i, k);
            assert(kids[k] == subtree(rows, c, (depth - 1) as nat));
            lemma_subtree_places(rows, c, (depth - 1) as nat, t, inner);
            if covers(rows, c, t) {
                let m = (level(rows, t) - level(rows, c)) as nat;
                assert(up(rows, t, m + 1) == parent_position(rows, up(rows, t, m)));
                if c == t {
                    lemma_parent_position(rows, c);
                }
            }
        }
        if !covers(rows, i, t) {
            lemma_placed_nowhere(kids, inner, id);
            assert(placements_in(node, above, id) =~= empty);
        } else if i == t {
            lemma_placed_nowhere(kids, inner, id);
            assert(placements_in(node, above, id) =~= seq![above]);
        } else {
            let m = (level(rows, t) - level(rows, i)) as nat;
            assert(m >= 1);
            let step = up(rows, t, (m - 1) as nat);
            lemma_up(rows, t, (m - 1) as nat);
            lemma_level(rows, step);
            assert(up(rows, t, m) == parent_position(rows, step));
            lemma_parent_position(rows, step);
            assert(is_child_of(rows, step, rows[i].id));
            lemma_positions_where(rows.len(), child_test(rows, rows[i].id));
            lemma_positions_in_range(rows.len(), child_test(rows, rows[i].id));
            lemma_listed_members(rows, found);
            assert(found.contains(step as usize));
            assert(below.contains(step as usize));
            let hit = choose|k: int| 0 <= k < below.len() && below[k] == step as usize;
            assert(covers(rows, step, t));
            assert forall|k: int| 0 <= k < kids.len() && k != hit implies placements_in(
                #[trigger] kids[k],
                inner,
                id,
            ).len() == 0 by {
                assert(below[k] != below[hit]);
            }
            lemma_placed_in_one(kids, inner, id, hit);
            assert(placements_in(node, above, id) =~= seq![rows[t].parent_id]);
        }
    }
}

/// In a forest every permission has one place: its node stands once in the
/// whole forest, among the trees if it has no parent or its parent is
/// missing, and otherwise in the list of children of its parent and of no
/// other node, and not among the trees.
pub proof fn lemma_every_permission_has_one_place(rows: Seq<PermissionRow>, t: int)
    requires
        is_forest(rows),
        rows.len() <= usize::MAX,
        0 <= t < rows.len(),
    ensures
        placements(forest(rows), None, rows[t].id) == seq![
            if is_root(rows, t) {
                None
            } else {
                rows[t].parent_id
            },
        ],
{
    let id = rows[t].id;
    let found = root_positions(rows);
    let roots = listed(rows, found);
    let trees = forest(rows);
    let empty = Seq::<Option<int>>::empty();
    lemma_positions_where(rows.len(), root_test(rows));
    lemma_positions_in_range(rows.len(), root_test(rows));
    lemma_listed_members(rows, found);
    lemma_listed(rows, found);
    lemma_level(rows, t);
    let top = up(rows, t, level(rows, t));
    lemma_up(rows, t, level(rows, t));
    lemma_level(rows, top);
    assert(is_root(rows, top));
    assert(found.contains(top as usize));
    assert(roots.contains(top as usize));
    let hit = choose|k: int| 0 <= k < roots.len() && roots[k] == top as usize;
    assert forall|k: int| 0 <= k < trees.len() implies placements_in(
        #[trigger] trees[k],
        None,
        id,
    ) == (if roots[k] == top as usize {
        seq![if is_root(rows, t) { None } else { rows[t].parent_id }]
    } else {
        empty
    }) by {
        let r = roots[k] as int;
        assert(roots.contains(roots[k]));
        assert(found.contains(roots[k]));
        assert(is_root(rows, r));
        lemma_level(rows, r);
        assert(trees[k] == subtree(rows, r, rows.len()));
        lemma_subtree_places(rows, r, rows.len(), t, None);
    }
    assert forall|k: int| 0 <= k < trees.len() && k != hit implies placements_in(
        #[trigger] trees[k],
        None,
        id,
    ).len() == 0 by {
        assert(roots[k] != roots[hit]);
    }
    lemma_placed_in_one(trees, None, id, hit);
}

/// The table `to` holds the rows of the table `from` in another order: the
/// row at `i` of `from` stands at `at[i]` in `to`, and the row at `j` of
/// `to` stood at `back[j]` in `from`.
pub open spec fn rearranged(
    from: Seq<PermissionRow>,
    to: Seq<PermissionRow>,
    at: Seq<int>,
    back: Seq<int>,
) -> bool {
    &&& from.len() == to.len()
    &&& at.len() == from.len()
    &&& back.len() == from.len()
    &&& forall|i: int|
        0 <= i < from.len() ==> 0 <= (#[trigger] at[i]) < to.len() && to[at[i]] == from[i]
            && back[at[i]] == i
    &&& forall|j: int|
        0 <= j < to.len() ==> 0 <= (#[trigger] back[j]) < from.len() && at[back[j]] == j
}

/// The positions `positions` of `from` as positions of `to`.
pub open spec fn moved(positions: Seq<usize>, at: Seq<int>) -> Seq<usize> {
    Seq::new(positions.len(), |k: int| at[positions[k] as int] as usize)
}

/// Two lists without repetitions that hold the same items hold each item
/// as often as the other.
proof fn lemma_same_items(first: Seq<usize>, second: Seq<usize>)
    requires
        first.no_duplicates(),
        second.no_duplicates(),
        forall|x: usize| first.contains(x) <==> second.contains(x),
    ensures
        first.to_multiset() == second.to_multiset(),
{
    first.to_multiset_ensures();
    second.to_multiset_ensures();
    first.lemma_multiset_has_no_duplicates();
    second.lemma_multiset_has_no_duplicates();
    assert forall|x: usize| first.to_multiset().count(x) == second.to_multiset().count(x) by {
        if first.contains(x) {
            assert(first.to_multiset().contains(x));
            assert(second.to_multiset().contains(x));
        }
    }
    assert(first.to_multiset() =~= second.to_multiset());
}

/// Listing does not depend on the order of the table: where codes are
/// unique and a test picks the same rows of `from` and of `to`, the picked
/// rows are listed in the same order.
proof fn lemma_listed_moved(
    from: Seq<PermissionRow>,
    to: Seq<PermissionRow>,
    at: Seq<int>,
    back: Seq<int>,
    keep: spec_fn(int) -> bool,
    keep_moved: spec_fn(int) -> bool,
)
    requires
        rearranged(from, to, at, back),
        unique_codes(from),
        from.len() <= usize::MAX,
        forall|i: int| 0 <= i < from.len() ==> keep(i) == keep_moved(at[i]),
    ensures
        listed(to, positions_where(to.len(), keep_moved)) == moved(
            listed(from, positions_where(from.len(), keep)),
            at,
        ),
{
    let n = from.len();
    let found = positions_where(n, keep);
    let found_moved = positions_where(n, keep_moved);
    let there = listed(from, found);
    let here = listed(to, found_moved);
    let image = moved(there, at);
    let leq = position_leq(row_codes(from));
    let leq_moved = position_leq(row_codes(to));
    lemma_positions_where(n, keep);
    lemma_positions_in_range(n, keep);
    lemma_positions_where(n, keep_moved);
    lemma_positions_in_range(n, keep_moved);
    lemma_listed(from, found);
    lemma_listed_members(from, found);
    lemma_listed(to, found_moved);
    lemma_listed_members(to, found_moved);
    lemma_position_leq_total(row_codes(to));
    assert forall|k: int| 0 <= k < there.len() implies (#[trigger] image[k]) as int == at[there[k] as int]
        && keep(there[k] as int) by {
        assert(there.contains(there[k]));
        assert(found.contains(there[k]));
    }
    assert forall|a: int, b: int| 0 <= a < b < image.len() implies leq_moved(
        image[a],
        image[b],
    ) by {
        let (x, y) = (there[a] as int, there[b] as int);
        assert(leq(there[a], there[b]));
        assert(there[a] != there[b]);
        lemma_text_lt_trichotomy(from[x].code, from[y].code);
        if x < y {
            assert(from[x].code != from[y].code);
        } else {
            assert(from[y].code != from[x].code);
        }
        assert(to[at[x]] == from[x] && to[at[y]] == from[y]);
    }
    assert(sorted_by(image, leq_moved));
    assert forall|a: int, b: int| 0 <= a < image.len() && 0 <= b < image.len() && a
        != b implies image[a] != image[b] by {
        assert(there[a] != there[b]);
        assert(back[at[there[a] as int]] == there[a] as int);
        assert(back[at[there[b] as int]] == there[b] as int);
    }
    assert forall|x: usize| image.contains(x) <==> found_moved.contains(x) by {
        if image.contains(x) {
            let k = choose|k: int| 0 <= k < image.len() && image[k] == x;
            assert(keep_moved(at[there[k] as int]));
        }
        if found_moved.contains(x) {
            let c = back[x as int];
            assert(at[c] == x as int);
            assert(keep(c));
            assert(found.contains(c as usize));
            assert(there.contains(c as usize));
            let k = choose|k: int| 0 <= k < there.len() && there[k] == c as usize;
            assert(image[k] == x);
        }
    }
    lemma_same_items(image, found_moved);
    lemma_sorted_unique(image, here, leq_moved);
}

/// A table and a rearrangement of it hold the same ids.
proof fn lemma_same_ids(
    from: Seq<PermissionRow>,
    to: Seq<PermissionRow>,
    at: Seq<int>,
    back: Seq<int>,
    id: int,
)
    requires
        rearranged(from, to, at, back),
    ensures
        has_id(from, id) == has_id(to, id),
{
    if has_id(from, id) {
        let k = choose|k: int| 0 <= k < from.len() && (#[trigger] from[k]).id == id;
        assert(to[at[k]].id == id);
    }
    if has_id(to, id) {
        let k = choose|k: int| 0 <= k < to.len() && (#[trigger] to[k]).id == id;
        assert(to[at[back[k]]] == from[back[k]]);
        assert(from[back[k]].id == id);
    }
}

/// The tree below a row does not depend on the order of the table.
proof fn lemma_subtree_moved(
    from: Seq<PermissionRow>,
    to: Seq<PermissionRow>,
    at: Seq<int>,
    back: Seq<int>,
    i: int,
    depth: nat,
)
    requires
        rearranged(from, to, at, back),
        unique_codes(from),
        from.len() <= usize::MAX,
        0 <= i < from.len(),
    ensures
        subtree(to, at[i], depth) == subtree(from, i, depth),
    decreases depth,
{
    if depth > 0 {
        let id = from[i].id;
        let below = listed(from, child_positions(from, id));
        let below_moved = listed(to, child_positions(to, id));
        lemma_listed_moved(from, to, at, back, child_test(from, id), child_test(to, id));
        lemma_positions_in_range(from.len(), child_test(from, id));
        lemma_listed(from, child_positions(from, id));
        let kids = subtree(from, i, depth).children;
        let kids_moved = subtree(to, at[i], depth).children;
        assert(kids_moved.len() == kids.len());
        assert forall|k: int| 0 <= k < kids.len() implies kids_moved[k] == kids[k] by {
            lemma_subtree_moved(from, to, at, back, below[k] as int, (depth - 1) as nat);
            assert(below_moved[k] as int == at[below[k] as int]);
        }
        assert(kids_moved =~= kids);
    }
}

/// The forest does not depend on the order in which the table holds its
/// rows, where no two rows have the same code: a table and any
/// rearrangement of it give the same forest.
pub proof fn lemma_forest_independent_of_table_order(
    from: Seq<PermissionRow>,
    to: Seq<PermissionRow>,
    at: Seq<int>,
    back: Seq<int>,
)
    requires
        rearranged(from, to, at, back),
        unique_codes(from),
        from.len() <= usize::MAX,
    ensures
        forest(to) == forest(from),
{
    let roots = listed(from, root_positions(from));
    let roots_moved = listed(to, root_positions(to));
    assert forall|i: int| 0 <= i < from.len() implies root_test(from)(i) == root_test(to)(
        at[i],
    ) by {
        if let Some(p) = from[i].parent_id {
            lemma_same_ids(from, to, at, back, p);
        }
    }
    lemma_listed_moved(from, to, at, back, root_test(from), root_test(to));
    lemma_positions_in_range(from.len(), root_test(from));
    lemma_listed(from, root_positions(from));
    assert(forest(to).len() == forest(from).len());
    assert forall|k: int| 0 <= k < forest(from).len() implies forest(to)[k] == forest(from)[k] by {
        lemma_subtree_moved(from, to, at, back, roots[k] as int, from.len());
        assert(roots_moved[k] as int == at[roots[k] as int]);
    }
    assert(forest(to) =~= forest(from));
}

/// Tells whether no two rows of the table have the same id.
pub fn has_unique_ids(perms: &Vec<Permission>) -> (unique: bool)
    ensures
        unique == unique_ids(rows_of(perms@)),
{
    let ghost rows = rows_of(perms@);
    let mut j: usize = 0;
    while j < perms.len()
        invariant
            j <= perms.len(),
            rows == rows_of(perms@),
            forall|a: int, b: int|
                0 <= a < b < j ==> (#[trigger] rows[a]).id != (#[trigger] rows[b]).id,
        decreases perms.len() - j,
    {
        let mut i: usize = 0;
        while i < j
            invariant
                i <= j < perms.len(),
                rows == rows_of(perms@),
                forall|a: int| 0 <= a < i ==> (#[trigger] rows[a]).id != rows[j as int].id,
            decreases j - i,
        {
            if perms[i].id == perms[j].id {
                assert(rows[i as int].id == rows[j as int].id);
                return false;
            }
            i = i + 1;
        }
        j = j + 1;
    }
    true
}

/// The position of the parent of the row at `i`, where the table holds it.
fn find_parent(perms: &Vec<Permission>, i: usize) -> (found: Option<usize>)
    requires
        i < perms.len(),
        unique_ids(rows_of(perms@)),
    ensures
        match found {
            Some(p) => !is_root(rows_of(perms@), i as int) && p == parent_position(
                rows_of(perms@),
                i as int,
            ) && p < perms.len(),
            None => is_root(rows_of(perms@), i as int),
        },
{
    let ghost rows = rows_of(perms@);
    match perms[i].parent_id {
        None => None,
        Some(parent) => {
            let mut k: usize = 0;
            while k < perms.len()
                invariant
                    k <= perms.len(),
                    i < perms.len(),
                    rows == rows_of(perms@),
                    unique_ids(rows),
                    rows[i as int].parent_id == Some(parent as int),
                    forall|m: int| 0 <= m < k ==> (#[trigger] rows[m]).id != parent,
                decreases perms.len() - k,
            {
                if perms[k].id == parent {
                    assert(rows[k as int].id == parent);
                    proof {
                        lemma_position_of_own_id(rows, k as int);
                    }
                    return Some(k);
                }
                k = k + 1;
            }
            None
        },
    }
}

/// Tells whether the table is a forest.
pub fn is_forest_table(perms: &Vec<Permission>) -> (ok: bool)
    ensures
        ok == is_forest(rows_of(perms@)),
{
    let ghost rows = rows_of(perms@);
    if !has_unique_ids(perms) {
        return false;
    }
    let n = perms.len();
    let mut i: usize = 0;
    while i < n
        invariant
            i <= n,
            n == perms.len(),
            rows == rows_of(perms@),
            unique_ids(rows),
            forall|k: int| 0 <= k < i ==> (#[trigger] hops_to_root(rows, k, rows.len())) is Some,
        decreases n - i,
    {
        let mut at: usize = i;
        let mut fuel: usize = n;
        let mut reached = false;
        let mut stuck = false;
        while !reached && !stuck
            invariant
                at < n,
                fuel <= n,
                n == perms.len(),
                rows == rows_of(perms@),
                unique_ids(rows),
                !(reached && stuck),
                hops_to_root(rows, i as int, rows.len()) is Some <==> hops_to_root(
                    rows,
                    at as int,
                    fuel as nat,
                ) is Some,
                reached ==> is_root(rows, at as int),
                stuck ==> !is_root(rows, at as int) && fuel == 0,
            decreases fuel + (if reached || stuck { 0int } else { 1int }),
        {
            match find_parent(perms, at) {
                None => {
                    reached = true;
                },
                Some(parent) => {
                    if fuel == 0 {
                        stuck = true;
                    } else {
                        at = parent;
                        fuel = fuel - 1;
                    }
                },
            }
        }
        if stuck {
            assert(hops_to_root(rows, i as int, rows.len()) is None);
            return false;
        }
        i = i + 1;
    }
    true
}

} // verus!
