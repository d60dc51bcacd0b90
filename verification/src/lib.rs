//! Authorization and audit core of an administrative back office.
//!
//! - [`token`] issues and verifies signed identity tokens; [`password`]
//!   turns passwords into digests; [`login`] answers a login.
//! - [`auth`] is the authentication gate of the protected routes, and
//!   [`context`] what it hands on to what runs after it.
//! - [`audit`] is the audit interceptor, which records every state-changing
//!   request with its outcome.
//! - [`permission_tree`] turns the flat permission table into the forest
//!   that role-editing screens show, in the order that [`ordering`] defines;
//!   [`forest_laws`] states what holds of the forest of a well-formed table.
//!   [`user_permissions`] merges the permissions of a user's roles.
//! - [`relation`] is the all-or-nothing replacement of the permissions of a
//!   role and of the roles of a user.
//! - [`listing`], [`profile`] and [`upload`] hold the rules of the paged
//!   listings, of profile and password changes, and of upload names.
//! - [`models`] holds the records, [`text`] what the rules need of strings.
//!
//! The library decides and computes; it reads no request and touches no
//! database. Whoever serves the requests performs what it decides.

pub mod audit;
pub mod auth;
pub mod context;
pub mod forest_laws;
pub mod listing;
pub mod login;
pub mod models;
pub mod ordering;
pub mod password;
pub mod permission_tree;
pub mod profile;
pub mod relation;
pub mod text;
pub mod token;
pub mod upload;
pub mod user_permissions;
