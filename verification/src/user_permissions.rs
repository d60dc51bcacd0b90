//! What a user may do: the permissions of all its roles taken together.

use vstd::prelude::*;
use vstd::relations::total_ordering;
use crate::models::permission::{rows_of, Permission, PermissionRow};
use crate::ordering::{arrange_by, Ranking};
use crate::permission_tree::{
    has_id, lemma_positions_in_range, lemma_positions_where, positions_where,
};
use crate::text::same_text;

verus! {

/// The category of the permissions that stand for pages.
pub const PAGE: &'static str = "PAGE";

/// The permissions of a user, and those among them that stand for pages,
/// which make up the user's menu.
#[derive(Debug)]
pub struct UserPermissions {
    pub permissions: Vec<Permission>,
    pub menus: Vec<Permission>,
}

/// The order of two positions of a list of permissions: by id, and between
/// equal ids by position.
pub open spec fn id_leq(rows: Seq<PermissionRow>) -> spec_fn(usize, usize) -> bool {
    |a: usize, b: usize|
        rows[a as int].id < rows[b as int].id || (rows[a as int].id == rows[b as int].id && a <= b)
}

/// No earlier row has the id of the row at `i`.
pub open spec fn is_first_with_id(rows: Seq<PermissionRow>, i: int) -> bool {
    forall|j: int| 0 <= j < i ==> (#[trigger] rows[j]).id != rows[i].id
}

/// The test that [`merged_positions`] applies to a position.
pub open spec fn first_test(rows: Seq<PermissionRow>) -> spec_fn(int) -> bool {
    |i: int| is_first_with_id(rows, i)
}

/// The positions of the rows that are kept: for each id the first row that
/// has it, in the order of the ids.
pub open spec fn merged_positions(rows: Seq<PermissionRow>) -> Seq<usize> {
    positions_where(rows.len(), first_test(rows)).sort_by(id_leq(rows))
}

/// The rows at the given positions.
pub open spec fn rows_at(rows: Seq<PermissionRow>, positions: Seq<usize>) -> Seq<PermissionRow> {
    Seq::new(positions.len(), |k: int| rows[positions[k] as int])
}

/// The permissions of a user, from those of its roles one after the other:
/// each permission once, in the order of the ids.
pub open spec fn merged(rows: Seq<PermissionRow>) -> Seq<PermissionRow> {
    rows_at(rows, merged_positions(rows))
}

/// The rows that stand for pages, in the same order.
pub open spec fn pages(rows: Seq<PermissionRow>) -> Seq<PermissionRow>
    decreases rows.len(),
{
    if rows.len() == 0 {
        Seq::empty()
    } else if rows.last().category == PAGE@ {
        pages(rows.drop_last()).push(rows.last())
    } else {
        pages(rows.drop_last())
    }
}

/// Positions are totally ordered by [`id_leq`].
pub proof fn lemma_id_leq_total(rows: Seq<PermissionRow>)
    ensures
        total_ordering(id_leq(rows)),
{
    let leq = id_leq(rows);
    assert forall|a: usize| #[trigger] leq(a, a) by {}
    assert forall|a: usize, b: usize| #[trigger] leq(a, b) && #[trigger] leq(b, a) implies a
        == b by {}
    assert forall|a: usize, b: usize, c: usize| #[trigger] leq(a, b) && #[trigger] leq(
        b,
        c,
    ) implies leq(a, c) by {}
    assert forall|a: usize, b: usize| #[trigger] leq(a, b) || #[trigger] leq(b, a) by {}
}

impl Ranking for Vec<Permission> {
    open spec fn size(&self) -> nat {
        self@.len()
    }

    open spec fn ranked(&self) -> bool {
        true
    }

    open spec fn no_later_than(&self) -> spec_fn(usize, usize) -> bool {
        id_leq(rows_of(self@))
    }

    proof fn lemma_total(&self) {
        lemma_id_leq_total(rows_of(self@));
    }

    fn no_later(&self, i: usize, j: usize) -> (r: bool) {
        self[i].id < self[j].id || (self[i].id == self[j].id && i <= j)
    }
}

/// The merged permissions hold every id of the given rows, each once and
/// in increasing order, and for each id the first of the rows that have it.
pub proof fn lemma_merged(rows: Seq<PermissionRow>)
    requires
        rows.len() <= usize::MAX,
    ensures
        forall|a: int, b: int|
            0 <= a < b < merged(rows).len() ==> (#[trigger] merged(rows)[a]).id < (
            #[trigger] merged(rows)[b]).id,
        forall|k: int|
            0 <= k < merged(rows).len() ==> merged_positions(rows)[k] < rows.len()
                && is_first_with_id(rows, #[trigger] merged_positions(rows)[k] as int),
        forall|i: int| 0 <= i < rows.len() ==> has_id(merged(rows), (#[trigger] rows[i]).id),
{
    let firsts = positions_where(rows.len(), first_test(rows));
    let order = merged_positions(rows);
    let leq = id_leq(rows);
    lemma_positions_where(rows.len(), first_test(rows));
    lemma_positions_in_range(rows.len(), first_test(rows));
    lemma_id_leq_total(rows);
    firsts.lemma_sort_by_ensures(leq);
    firsts.to_multiset_ensures();
    order.to_multiset_ensures();
    assert forall|c: usize| order.contains(c) <==> firsts.contains(c) by {
        assert(order.to_multiset().count(c) == firsts.to_multiset().count(c));
    }
    assert forall|k: int| 0 <= k < order.len() implies order[k] < rows.len() && is_first_with_id(
        rows,
        #[trigger] order[k] as int,
    ) by {
        assert(order.contains(order[k]));
    }
    assert forall|a: int, b: int| 0 <= a < b < merged(rows).len() implies (#[trigger] merged(
        rows,
    )[a]).id < (#[trigger] merged(rows)[b]).id by {
        assert(leq(order[a], order[b]));
        assert(order.contains(order[a]) && order.contains(order[b]));
        firsts.lemma_multiset_has_no_duplicates();
        order.lemma_multiset_has_no_duplicates_conv();
        assert(order[a] != order[b]);
        if rows[order[a] as int].id == rows[order[b] as int].id {
            assert(is_first_with_id(rows, order[b] as int));
            assert(rows[order[a] as int].id != rows[order[b] as int].id);
        }
    }
    assert forall|i: int| 0 <= i < rows.len() implies has_id(
        merged(rows),
        (#[trigger] rows[i]).id,
    ) by {
        let first = lemma_first_with_id(rows, i);
        assert(firsts.contains(first as usize));
        assert(order.contains(first as usize));
        let k = choose|k: int| 0 <= k < order.len() && order[k] == first as usize;
        assert(merged(rows)[k].id == rows[i].id);
    }
}

/// The first row that has the id of the row at `i`.
proof fn lemma_first_with_id(rows: Seq<PermissionRow>, i: int) -> (first: int)
    requires
        0 <= i < rows.len(),
    ensures
        0 <= first <= i,
        rows[first].id == rows[i].id,
        is_first_with_id(rows, first),
    decreases i,
{
    if is_first_with_id(rows, i) {
        i
    } else {
        let j = choose|j: int| 0 <= j < i && (#[trigger] rows[j]).id == rows[i].id;
        lemma_first_with_id(rows, j)
    }
}

/// Tells whether no earlier row has the id of the row at `i`.
fn first_with_id(perms: &Vec<Permission>, i: usize) -> (first: bool)
    requires
        i < perms.len(),
    ensures
        first == is_first_with_id(rows_of(perms@), i as int),
{
    let mut j: usize = 0;
    while j < i
        invariant
            j <= i,
            i < perms.len(),
            forall|k: int| 0 <= k < j ==> (#[trigger] rows_of(perms@)[k]).id != perms[i as int].id,
        decreases i - j,
    {
        if perms[j].id == perms[i].id {
            assert(rows_of(perms@)[j as int].id == rows_of(perms@)[i as int].id);
            return false;
        }
        j = j + 1;
    }
    true
}

/// The permissions that stand for pages.
pub fn page_permissions(perms: &Vec<Permission>) -> (menus: Vec<Permission>)
    ensures
        rows_of(menus@) == pages(rows_of(perms@)),
{
    let ghost rows = rows_of(perms@);
    let mut menus: Vec<Permission> = Vec::new();
    let mut i: usize = 0;
    assert(rows.take(0) =~= Seq::<PermissionRow>::empty());
    assert(rows_of(menus@) =~= pages(rows.take(0)));
    while i < perms.len()
        invariant
            i <= perms.len(),
            rows == rows_of(perms@),
            rows_of(menus@) == pages(rows.take(i as int)),
        decreases perms.len() - i,
    {
        let ghost before = menus@;
        proof {
            assert(rows.take(i + 1).drop_last() =~= rows.take(i as int));
            assert(rows.take(i + 1).last() == perms[i as int]@);
        }
        if same_text(perms[i].category.as_str(), PAGE) {
            menus.push(perms[i].duplicate());
            assert(rows_of(menus@) =~= rows_of(before).push(perms[i as int]@));
        }
        i = i + 1;
    }
    assert(rows.take(i as int) =~= rows);
    menus
}

/// Puts together what a user may do from the permissions of its roles,
/// listed role by role: `permissions` holds each permission once, in the
/// order of the ids, and `menus` those of them that stand for pages.
pub fn get_user_permissions(role_permissions: &Vec<Permission>) -> (out: UserPermissions)
    ensures
        rows_of(out.permissions@) == merged(rows_of(role_permissions@)),
        rows_of(out.menus@) == pages(merged(rows_of(role_permissions@))),
{
    let ghost rows = rows_of(role_permissions@);
    let mut firsts: Vec<usize> = Vec::new();
    let mut i: usize = 0;
    while i < role_permissions.len()
        invariant
            i <= role_permissions.len(),
            rows == rows_of(role_permissions@),
            firsts@ == positions_where(i as nat, first_test(rows)),
        decreases role_permissions.len() - i,
    {
        if first_with_id(role_permissions, i) {
            firsts.push(i);
        }
        i = i + 1;
    }
    proof {
        lemma_positions_in_range(rows.len(), first_test(rows));
    }
    let order = arrange_by(role_permissions, &firsts);
    let mut permissions: Vec<Permission> = Vec::new();
    let mut k: usize = 0;
    while k < order.len()
        invariant
            k <= order.len(),
            permissions.len() == k,
            rows == rows_of(role_permissions@),
            forall|m: int| 0 <= m < order.len() ==> order[m] < role_permissions.len(),
            forall|m: int| 0 <= m < k ==> (#[trigger] permissions[m])@ == rows[order[m] as int],
        decreases order.len() - k,
    {
        permissions.push(role_permissions[order[k]].duplicate());
        k = k + 1;
    }
    assert(rows_of(permissions@) =~= merged(rows));
    let menus = page_permissions(&permissions);
    UserPermissions { permissions, menus }
}

} // verus!
