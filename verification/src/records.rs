//! The rows of the relational model.
//!
//! Identifiers for investigations, entities, tags, links, comments and
//! attachments are opaque 128-bit tokens; users and memberships carry
//! sequential `i32` identifiers assigned by the store. Every timestamp is a
//! UTC instant in whole seconds since the Unix epoch.

use vstd::prelude::*;

verus! {

/// A registered user. Identity (username, email) is unique and immutable
/// once created.
pub struct User {
    pub id: i32,
    pub username: String,
    pub email: String,
    /// Salted one-way hash of the password, never the password itself.
    pub password: String,
    pub first_name: Option<String>,
    pub last_name: Option<String>,
    pub avatar: Option<String>,
    pub is_active: bool,
    pub is_staff: bool,
    pub is_superuser: bool,
    pub date_joined: i64,
    pub created_at: i64,
}

/// A shared workspace, reachable by its unique human-shareable join code.
pub struct Investigation {
    pub id: u128,
    /// Eight uppercase alphanumeric characters, unique across the store.
    pub code: String,
    pub title: String,
    pub description: Option<String>,
    pub created_at: i64,
    pub updated_at: i64,
    pub created_by_id: i32,
    pub is_active: bool,
}

/// The role a membership grants inside an investigation.
#[derive(Clone, Copy, PartialEq, Eq, Structural, Debug)]
pub enum Role {
    Owner,
    Member,
}

/// The join record granting one user access to one investigation.
/// At most one membership exists per (investigation, user) pair.
#[derive(Clone, Copy)]
pub struct InvestigationMember {
    pub id: i32,
    pub investigation_id: u128,
    pub user_id: i32,
    pub role: Role,
    pub joined_at: i64,
    /// Last presence heartbeat, if the member ever posted one.
    pub last_seen: Option<i64>,
}

/// A typed node (person, evidence, event, ...) in an investigation's graph.
pub struct Entity {
    pub id: u128,
    pub investigation_id: u128,
    pub entity_type: String,
    pub title: String,
    pub description: Option<String>,
    pub role: Option<String>,
    pub location: Option<String>,
    pub address: Option<String>,
    pub event_date: Option<i64>,
    pub event_end_date: Option<i64>,
    pub is_timeslot: bool,
    pub evidence_type: Option<String>,
    pub photo: Option<String>,
    pub created_at: i64,
    pub updated_at: i64,
    pub created_by_id: i32,
}

/// A label scoped to one investigation; its name is case-insensitively
/// unique within that investigation.
pub struct Tag {
    pub id: u128,
    pub investigation_id: u128,
    pub name: String,
    pub color: Option<String>,
    pub created_at: i64,
}

/// One row of the entity-tag association; the pair is unique.
#[derive(Clone, Copy)]
pub struct EntityTag {
    pub entity_id: u128,
    pub tag_id: u128,
}

/// A directed edge between two entities of the same investigation. No two
/// links of one investigation may connect the same pair of entities in
/// either direction.
pub struct Link {
    pub id: u128,
    pub investigation_id: u128,
    pub from_entity_id: u128,
    pub to_entity_id: u128,
    pub title: String,
    pub description: Option<String>,
    pub created_at: i64,
    pub created_by_id: i32,
}

/// A comment hanging off an entity.
pub struct Comment {
    pub id: u128,
    pub entity_id: u128,
    pub author_id: i32,
    pub content: String,
    pub created_at: i64,
    pub updated_at: i64,
}

/// Metadata of a file attached to an entity; the bytes live in an external
/// blob store.
pub struct Attachment {
    pub id: u128,
    pub entity_id: u128,
    pub file_path: String,
    pub filename: String,
    pub file_type: Option<String>,
    pub uploaded_by_id: i32,
    pub uploaded_at: i64,
}

} // verus!
