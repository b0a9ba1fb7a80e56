//! The views operations return. Timestamps stay numeric (seconds since the
//! Unix epoch); the HTTP layer formats them.

use vstd::prelude::*;

use crate::records::{Role, User};

verus! {

/// A user's public profile.
pub struct UserResponse {
    pub id: i32,
    pub username: String,
    pub email: String,
    pub first_name: Option<String>,
    pub last_name: Option<String>,
    pub avatar: Option<String>,
    pub created_at: i64,
}

impl From<User> for UserResponse {
    fn from(user: User) -> (r: UserResponse) {
        UserResponse {
            id: user.id,
            username: user.username,
            email: user.email,
            first_name: user.first_name,
            last_name: user.last_name,
            avatar: user.avatar,
            created_at: user.created_at,
        }
    }
}

impl vstd::std_specs::convert::FromSpecImpl<User> for UserResponse {
    open spec fn obeys_from_spec() -> bool {
        true
    }

    open spec fn from_spec(user: User) -> UserResponse {
        UserResponse {
            id: user.id,
            username: user.username,
            email: user.email,
            first_name: user.first_name,
            last_name: user.last_name,
            avatar: user.avatar,
            created_at: user.created_at,
        }
    }
}

/// A fresh token together with the profile it identifies.
pub struct AuthSuccess {
    pub token: String,
    pub user: UserResponse,
}

/// An investigation annotated with its creator's username and its member
/// count.
pub struct InvestigationResponse {
    pub id: u128,
    pub code: String,
    pub title: String,
    pub description: Option<String>,
    pub created_at: i64,
    pub updated_at: i64,
    pub is_active: bool,
    pub created_by: String,
    pub member_count: usize,
}

/// A member of an investigation, with the heartbeat-derived liveness flag.
pub struct MemberResponse {
    pub id: i32,
    pub username: String,
    pub email: String,
    pub avatar: Option<String>,
    pub role: Role,
    pub joined_at: i64,
    pub last_seen: Option<i64>,
    pub online: bool,
}

/// A tag as shown on an entity.
pub struct TagInfo {
    pub id: u128,
    pub name: String,
    pub color: Option<String>,
}

/// An entity annotated with its creator's username, its resolved tags and
/// its comment and attachment counts.
pub struct EntityResponse {
    pub id: u128,
    pub entity_type: String,
    pub title: String,
    pub description: Option<String>,
    pub role: Option<String>,
    pub location: Option<String>,
    pub address: Option<String>,
    pub event_date: Option<i64>,
    pub event_end_date: Option<i64>,
    pub is_timeslot: bool,
    pub evidence_type: Option<String>,
    pub created_at: i64,
    pub updated_at: i64,
    pub created_by: String,
    pub photo_url: Option<String>,
    pub tags: Vec<TagInfo>,
    pub comments_count: usize,
    pub attachments_count: usize,
}

/// The compact view of a link endpoint.
pub struct EntityInfo {
    pub id: u128,
    pub title: String,
    pub entity_type: String,
}

/// A link with both endpoints resolved to compact entity views.
pub struct LinkResponse {
    pub id: u128,
    pub from_entity: EntityInfo,
    pub to_entity: EntityInfo,
    pub title: String,
    pub description: Option<String>,
    pub created_at: i64,
    pub created_by: String,
}

/// Clone an optional string, preserving the value exactly.
pub fn clone_opt_string(o: &Option<String>) -> (r: Option<String>)
    ensures
        r == *o,
{
    match o {
        Some(s) => Some(s.clone()),
        None => None,
    }
}

} // verus!
