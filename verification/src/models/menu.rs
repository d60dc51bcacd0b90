//! Navigation menu entries.

use vstd::prelude::*;

verus! {

/// What a client sends to create a menu entry. `parent_id` names the entry
/// above it, `sort` its place among its siblings.
#[derive(Debug)]
pub struct CreateMenu {
    pub parent_id: Option<i64>,
    pub name: String,
    pub path: String,
    pub component: String,
    pub title: String,
    pub icon: Option<String>,
    pub sort: i32,
    pub is_hidden: bool,
}

} // verus!
