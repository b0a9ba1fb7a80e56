//! Account operations: registration, login and the current-user profile.

use vstd::prelude::*;

use crate::auth::{
    hash_password, iat_of, issue_token_at, password_matches, token_of, TOKEN_LIFETIME_SECONDS,
};
use crate::errors::AppError;
use crate::records::User;
use crate::requests::{UserLogin, UserRegistration};
use crate::responses::{clone_opt_string, AuthSuccess, UserResponse};
use crate::store::{
    email_exists, find_user_by_id, find_user_by_name, has_email, has_user_id, has_username,
    lemma_user_push, same_assocs, same_entities, same_extras, same_investigations, same_links,
    same_memberships, same_tags, same_users, user_index, username_index, Store,
};

verus! {

/// The user row registration appends, except for its hashed password.
pub open spec fn registered_user_matches(
    u: User,
    payload: UserRegistration,
    id: i32,
    now: i64,
) -> bool {
    &&& u.id == id
    &&& u.username == payload.username
    &&& u.email == payload.email
    &&& password_matches(payload.password@, u.password@)
    &&& u.first_name == payload.first_name
    &&& u.last_name == payload.last_name
    &&& u.avatar is None
    &&& u.is_active == true
    &&& u.is_staff == false
    &&& u.is_superuser == false
    &&& u.date_joined == now
    &&& u.created_at == now
}

/// Create a user. A username or email already present is rejected with
/// `BadRequest`; otherwise the user is appended with the next sequential
/// identifier, active, with the current instant as its join time, and a
/// seven-day token for the new identity is returned together with the
/// profile. A failure of the outside hashing call, or an exhausted
/// identifier space, surfaces as `InternalError` and leaves the store
/// unchanged.
pub fn register(store: &mut Store, payload: UserRegistration, now: i64, secret: &str) -> (r: Result<
    AuthSuccess,
    AppError,
>)
    requires
        old(store).wf(),
    ensures
        final(store).wf(),
        same_investigations(*final(store), *old(store)),
        same_memberships(*final(store), *old(store)),
        same_entities(*final(store), *old(store)),
        same_tags(*final(store), *old(store)),
        same_assocs(*final(store), *old(store)),
        same_links(*final(store), *old(store)),
        same_extras(*final(store), *old(store)),
        (r is Err && r->Err_0 is BadRequest) <==> (has_username(
            old(store).users@,
            payload.username@,
        ) || has_email(old(store).users@, payload.email@)),
        r is Err ==> (r->Err_0 is BadRequest || r->Err_0 is InternalError) && same_users(*final(store), *old(store)),
        r is Ok ==> {
            let u = final(store).users@.last();
            &&& final(store).users@ == old(store).users@.push(u)
            &&& final(store).next_user_id == old(store).next_user_id + 1
            &&& registered_user_matches(u, payload, old(store).next_user_id, now)
            &&& r->Ok_0.token@ == token_of(
                u.id as int,
                payload.username@,
                iat_of(now) + TOKEN_LIFETIME_SECONDS,
                iat_of(now),
                secret@,
            )
            &&& r->Ok_0.user.id == u.id
            &&& r->Ok_0.user.username == payload.username
            &&& r->Ok_0.user.email == payload.email
            &&& r->Ok_0.user.first_name == payload.first_name
            &&& r->Ok_0.user.last_name == payload.last_name
            &&& r->Ok_0.user.avatar is None
            &&& r->Ok_0.user.created_at == now
        },
{
    if find_user_by_name(&store.users, &payload.username).is_some() || email_exists(
        &store.users,
        &payload.email,
    ) {
        return Err(AppError::BadRequest("Username or email already exists".to_string()));
    }
    let password_hash = match hash_password(payload.password.as_str()) {
        Ok(h) => h,
        Err(_) => {
            return Err(AppError::InternalError("Failed to hash password".to_string()));
        },
    };
    if store.next_user_id == i32::MAX {
        return Err(AppError::InternalError("User identifier space exhausted".to_string()));
    }
    let id = store.next_user_id;
    let iat: u64 = if now >= 0 {
        now as u64
    } else {
        0
    };
    proof {
        assert(iat + TOKEN_LIFETIME_SECONDS <= u64::MAX);
    }
    let token = issue_token_at(id, payload.username.as_str(), iat, secret).unwrap();
    let user = User {
        id,
        username: payload.username.clone(),
        email: payload.email.clone(),
        password: password_hash,
        first_name: clone_opt_string(&payload.first_name),
        last_name: clone_opt_string(&payload.last_name),
        avatar: None,
        is_active: true,
        is_staff: false,
        is_superuser: false,
        date_joined: now,
        created_at: now,
    };
    proof {
        lemma_user_push(store.users@, user);
    }
    store.users.push(user);
    store.next_user_id = id + 1;
    let profile = UserResponse {
        id,
        username: payload.username,
        email: payload.email,
        first_name: payload.first_name,
        last_name: payload.last_name,
        avatar: None,
        created_at: now,
    };
    Ok(AuthSuccess { token, user: profile })
}

/// The condition under which a login attempt is owed success: the username
/// belongs to an active user and the password verifies against that user's
/// stored hash.
pub open spec fn login_allowed(users: Seq<User>, name: Seq<char>, password: Seq<char>) -> bool {
    &&& has_username(users, name)
    &&& users[username_index(users, name)].is_active
    &&& password_matches(password, users[username_index(users, name)].password@)
}

/// Verify credentials and issue a token: success exactly when the
/// username belongs to an active user and the password verifies. Every
/// failure of the credential check — unknown or inactive username, wrong
/// password, or an error while verifying it — is the same `Unauthorized`.
pub fn login(store: &Store, payload: &UserLogin, now: i64, secret: &str) -> (r: Result<
    AuthSuccess,
    AppError,
>)
    requires
        store.wf(),
    ensures
        r is Ok <==> login_allowed(store.users@, payload.username@, payload.password@),
        r is Err ==> r->Err_0 is Unauthorized,
        r is Ok ==> {
            let u = store.users@[username_index(store.users@, payload.username@)];
            &&& login_allowed(store.users@, payload.username@, payload.password@)
            &&& r->Ok_0.token@ == token_of(
                u.id as int,
                u.username@,
                iat_of(now) + TOKEN_LIFETIME_SECONDS,
                iat_of(now),
                secret@,
            )
            &&& r->Ok_0.user.id == u.id
            &&& r->Ok_0.user.username@ == u.username@
            &&& r->Ok_0.user.email@ == u.email@
            &&& r->Ok_0.user.first_name == u.first_name
            &&& r->Ok_0.user.last_name == u.last_name
            &&& r->Ok_0.user.avatar == u.avatar
            &&& r->Ok_0.user.created_at == u.created_at
        },
{
    let idx = match find_user_by_name(&store.users, &payload.username) {
        Some(i) => i,
        None => {
            return Err(AppError::Unauthorized("Invalid credentials".to_string()));
        },
    };
    proof {
        assert(has_username(store.users@, payload.username@));
        let k = username_index(store.users@, payload.username@);
        assert(store.users@[k].username@ == payload.username@);
        assert(k == idx);
    }
    if !store.users[idx].is_active {
        return Err(AppError::Unauthorized("Invalid credentials".to_string()));
    }
    let matches = verify_password_closed(
        payload.password.as_str(),
        store.users[idx].password.as_str(),
    );
    if !matches {
        return Err(AppError::Unauthorized("Invalid credentials".to_string()));
    }
    let iat: u64 = if now >= 0 {
        now as u64
    } else {
        0
    };
    let token = issue_token_at(
        store.users[idx].id,
        store.users[idx].username.as_str(),
        iat,
        secret,
    ).unwrap();
    let u = &store.users[idx];
    Ok(
        AuthSuccess {
            token,
            user: UserResponse {
                id: u.id,
                username: u.username.clone(),
                email: u.email.clone(),
                first_name: clone_opt_string(&u.first_name),
                last_name: clone_opt_string(&u.last_name),
                avatar: clone_opt_string(&u.avatar),
                created_at: u.created_at,
            },
        },
    )
}

/// Password verification, failing closed: any error of the outside
/// verification call counts as a non-match.
pub fn verify_password_closed(password: &str, hash: &str) -> (r: bool)
    ensures
        r == password_matches(password@, hash@),
{
    match crate::auth::verify_password(password, hash) {
        Ok(b) => b,
        Err(_) => false,
    }
}

/// The current user's profile, straight from the identity a verified token
/// carries. A subject the store does not know is a storage-level
/// inconsistency, reported as `InternalError`.
pub fn me(store: &Store, user_id: i32) -> (r: Result<UserResponse, AppError>)
    requires
        store.wf(),
    ensures
        r is Ok <==> has_user_id(store.users@, user_id),
        r is Err ==> r->Err_0 is InternalError,
        r is Ok ==> {
            let u = store.users@[user_index(store.users@, user_id)];
            &&& r->Ok_0.id == u.id
            &&& r->Ok_0.username@ == u.username@
            &&& r->Ok_0.email@ == u.email@
            &&& r->Ok_0.first_name == u.first_name
            &&& r->Ok_0.last_name == u.last_name
            &&& r->Ok_0.avatar == u.avatar
            &&& r->Ok_0.created_at == u.created_at
        },
{
    let idx = match find_user_by_id(&store.users, user_id) {
        Some(i) => i,
        None => {
            return Err(AppError::InternalError("User not found".to_string()));
        },
    };
    proof {
        assert(has_user_id(store.users@, user_id));
        let k = user_index(store.users@, user_id);
        assert(store.users@[k].id == user_id);
        assert(k == idx);
    }
    let u = &store.users[idx];
    Ok(
        UserResponse {
            id: u.id,
            username: u.username.clone(),
            email: u.email.clone(),
            first_name: clone_opt_string(&u.first_name),
            last_name: clone_opt_string(&u.last_name),
            avatar: clone_opt_string(&u.avatar),
            created_at: u.created_at,
        },
    )
}

} // verus!
