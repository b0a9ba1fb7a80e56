//! The request payloads operations take. They carry plain values; the HTTP
//! layer deserializes into its own copies and converts.

use vstd::prelude::*;

verus! {

/// Registration payload.
pub struct UserRegistration {
    pub username: String,
    pub email: String,
    pub password: String,
    pub first_name: Option<String>,
    pub last_name: Option<String>,
}

/// Login payload.
pub struct UserLogin {
    pub username: String,
    pub password: String,
}

/// Payload for creating an investigation.
pub struct CreateInvestigation {
    pub title: String,
    pub description: Option<String>,
}

/// Payload for updating an investigation's own fields. Modeled with the
/// data model; no operation of this core consumes it yet.
pub struct UpdateInvestigation {
    pub title: Option<String>,
    pub description: Option<String>,
    pub is_active: Option<bool>,
}

/// Payload for joining an investigation by its shareable code.
pub struct JoinInvestigation {
    pub code: String,
}

/// Optional filters of an entity listing: an exact type match and a
/// case-insensitive substring search over title or description. They
/// compose with logical AND.
pub struct EntityQuery {
    pub entity_type: Option<String>,
    pub search: Option<String>,
}

/// Payload for creating an entity. Date fields are RFC 3339 strings; an
/// unparsable date is treated as absent.
pub struct CreateEntity {
    pub entity_type: String,
    pub title: String,
    pub description: Option<String>,
    pub role: Option<String>,
    pub location: Option<String>,
    pub address: Option<String>,
    pub event_date: Option<String>,
    pub event_end_date: Option<String>,
    pub is_timeslot: Option<bool>,
    pub evidence_type: Option<String>,
    pub tags: Option<Vec<String>>,
}

/// Sparse update of an entity: only the fields present are modified; a
/// present tag list replaces the whole tag set.
pub struct UpdateEntity {
    pub title: Option<String>,
    pub description: Option<String>,
    pub role: Option<String>,
    pub location: Option<String>,
    pub address: Option<String>,
    pub event_date: Option<String>,
    pub event_end_date: Option<String>,
    pub is_timeslot: Option<bool>,
    pub evidence_type: Option<String>,
    pub tags: Option<Vec<String>>,
}

/// Payload for creating a link; the endpoints arrive as textual entity
/// identifiers and must parse.
pub struct CreateLink {
    pub from_entity_id: String,
    pub to_entity_id: String,
    pub title: String,
    pub description: Option<String>,
}

/// Payload for creating a tag directly. Modeled with the data model; tag
/// rows otherwise appear through tag resolution.
pub struct CreateTag {
    pub name: String,
    pub color: Option<String>,
}

/// Payload for commenting on an entity. Modeled with the data model.
pub struct CreateComment {
    pub content: String,
}

} // verus!
