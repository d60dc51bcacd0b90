//! Roles and what is assigned to them.

use vstd::prelude::*;

verus! {

/// A stored role.
#[derive(Debug)]
pub struct Role {
    pub id: i64,
    pub name: String,
    pub code: String,
    pub description: Option<String>,
    pub status: i32,
    pub color_start: Option<String>,
    pub color_end: Option<String>,
    pub created_at: String,
    pub updated_at: String,
}

/// What a client sends to create a role.
#[derive(Debug)]
pub struct CreateRole {
    pub name: String,
    pub code: String,
    pub description: Option<String>,
    pub status: Option<i32>,
    pub color_start: Option<String>,
    pub color_end: Option<String>,
}

/// What a client sends to change a role: the fields it names.
#[derive(Debug)]
pub struct UpdateRole {
    pub name: Option<String>,
    pub code: Option<String>,
    pub description: Option<String>,
    pub status: Option<i32>,
    pub color_start: Option<String>,
    pub color_end: Option<String>,
}

/// The complete set of permissions that a role is to have.
#[derive(Debug)]
pub struct RolePermission {
    pub role_id: i64,
    pub permission_ids: Vec<i64>,
}

} // verus!
