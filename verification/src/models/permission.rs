//! Permission records and the tree nodes derived from them.

use vstd::prelude::*;
use crate::text::{copy_opt, opt_text};

verus! {

/// A stored permission. `code` is colon-segmented (`system:user:view`),
/// `category` is one of `PAGE`, `MENU` and `API`;
/// `parent_id`, where present, names the permission one level up.
#[derive(Debug, Clone)]
pub struct Permission {
    pub id: i32,
    pub name: String,
    pub code: String,
    pub category: String,
    pub resource: Option<String>,
    pub action: Option<String>,
    pub description: Option<String>,
    pub parent_id: Option<i32>,
    pub sort: i32,
    pub created_at: String,
    pub updated_at: String,
}

/// A node of the permission forest: a permission without its parent
/// reference, with the permissions below it.
#[derive(Debug)]
pub struct PermissionTree {
    pub id: i32,
    pub name: String,
    pub code: String,
    pub category: String,
    pub resource: Option<String>,
    pub action: Option<String>,
    pub description: Option<String>,
    pub children: Vec<PermissionTree>,
}

/// What a client sends to create a permission.
#[derive(Debug)]
pub struct CreatePermission {
    pub name: String,
    pub code: String,
    pub category: String,
    pub resource: Option<String>,
    pub action: Option<String>,
    pub parent_id: Option<i32>,
    pub sort: i32,
    pub description: Option<String>,
    pub color_start: Option<String>,
    pub color_end: Option<String>,
}

/// What a client sends to change a permission.
#[derive(Debug)]
pub struct UpdatePermission {
    pub name: String,
    pub code: String,
    pub category: String,
    pub resource: Option<String>,
    pub action: Option<String>,
    pub parent_id: Option<i32>,
    pub sort: i32,
    pub description: Option<String>,
    pub color_start: Option<String>,
    pub color_end: Option<String>,
}

/// Mathematical model of a [`Permission`].
pub struct PermissionRow {
    pub id: int,
    pub name: Seq<char>,
    pub code: Seq<char>,
    pub category: Seq<char>,
    pub resource: Option<Seq<char>>,
    pub action: Option<Seq<char>>,
    pub description: Option<Seq<char>>,
    pub parent_id: Option<int>,
    pub sort: int,
    pub created_at: Seq<char>,
    pub updated_at: Seq<char>,
}

/// Mathematical model of a [`PermissionTree`].
pub struct TreeNode {
    pub id: int,
    pub name: Seq<char>,
    pub code: Seq<char>,
    pub category: Seq<char>,
    pub resource: Option<Seq<char>>,
    pub action: Option<Seq<char>>,
    pub description: Option<Seq<char>>,
    pub children: Seq<TreeNode>,
}

impl View for Permission {
    type V = PermissionRow;

    open spec fn view(&self) -> PermissionRow {
        PermissionRow {
            id: self.id as int,
            name: self.name@,
            code: self.code@,
            category: self.category@,
            resource: opt_text(self.resource),
            action: opt_text(self.action),
            description: opt_text(self.description),
            parent_id: match self.parent_id {
                Some(p) => Some(p as int),
                None => None,
            },
            sort: self.sort as int,
            created_at: self.created_at@,
            updated_at: self.updated_at@,
        }
    }
}

impl View for PermissionTree {
    type V = TreeNode;

    open spec fn view(&self) -> TreeNode
        decreases self,
    {
        TreeNode {
            id: self.id as int,
            name: self.name@,
            code: self.code@,
            category: self.category@,
            resource: opt_text(self.resource),
            action: opt_text(self.action),
            description: opt_text(self.description),
            children: Seq::new(
                self.children.len() as nat,
                |i: int|
                    if 0 <= i < self.children.len() {
                        self.children[i]@
                    } else {
                        arbitrary()
                    },
            ),
        }
    }
}

impl Permission {
    /// A copy of the permission.
    pub fn duplicate(&self) -> (copy: Permission)
        ensures
            copy@ == self@,
    {
        Permission {
            id: self.id,
            name: self.name.clone(),
            code: self.code.clone(),
            category: self.category.clone(),
            resource: copy_opt(&self.resource),
            action: copy_opt(&self.action),
            description: copy_opt(&self.description),
            parent_id: self.parent_id,
            sort: self.sort,
            created_at: self.created_at.clone(),
            updated_at: self.updated_at.clone(),
        }
    }
}

/// The models of a list of permissions, in the same order.
pub open spec fn rows_of(perms: Seq<Permission>) -> Seq<PermissionRow> {
    Seq::new(perms.len(), |i: int| perms[i]@)
}

/// The models of a list of tree nodes, in the same order.
pub open spec fn nodes_of(trees: Seq<PermissionTree>) -> Seq<TreeNode> {
    Seq::new(trees.len(), |i: int| trees[i]@)
}

} // verus!
