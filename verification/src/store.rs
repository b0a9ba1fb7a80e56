//! The relational state all operations act on, with its well-formedness
//! invariant and the lookup helpers the operations share.
//!
//! The store is the single source of truth: users, investigations,
//! memberships, the entity/tag/link graph and its associations. Operations
//! require [`Store::wf`] and preserve it.

use vstd::prelude::*;

use crate::records::{
    Attachment, Comment, Entity, EntityTag, Investigation, InvestigationMember, Link, Tag, User,
};
use crate::text::fold_key;

verus! {

/// In-memory relational state.
pub struct Store {
    pub users: Vec<User>,
    /// Next sequential user identifier; every stored user id is below it.
    pub next_user_id: i32,
    pub investigations: Vec<Investigation>,
    pub memberships: Vec<InvestigationMember>,
    /// Next sequential membership identifier.
    pub next_membership_id: i32,
    pub entities: Vec<Entity>,
    pub tags: Vec<Tag>,
    pub entity_tags: Vec<EntityTag>,
    pub links: Vec<Link>,
    pub comments: Vec<Comment>,
    pub attachments: Vec<Attachment>,
}

/// Some user carries this identifier.
pub open spec fn has_user_id(users: Seq<User>, id: i32) -> bool {
    exists|i: int| 0 <= i < users.len() && (#[trigger] users[i]).id == id
}

/// The index of the user carrying `id` (unique under `wf`).
pub open spec fn user_index(users: Seq<User>, id: i32) -> int {
    choose|i: int| 0 <= i < users.len() && (#[trigger] users[i]).id == id
}

/// Some user carries this username.
pub open spec fn has_username(users: Seq<User>, name: Seq<char>) -> bool {
    exists|i: int| 0 <= i < users.len() && (#[trigger] users[i]).username@ == name
}

/// The index of the user carrying `name` (unique under `wf`).
pub open spec fn username_index(users: Seq<User>, name: Seq<char>) -> int {
    choose|i: int| 0 <= i < users.len() && (#[trigger] users[i]).username@ == name
}

/// Some user carries this email address.
pub open spec fn has_email(users: Seq<User>, email: Seq<char>) -> bool {
    exists|i: int| 0 <= i < users.len() && (#[trigger] users[i]).email@ == email
}

/// Some investigation carries this identifier.
pub open spec fn has_investigation(invs: Seq<Investigation>, id: u128) -> bool {
    exists|i: int| 0 <= i < invs.len() && (#[trigger] invs[i]).id == id
}

/// The index of the investigation carrying `id` (unique under `wf`).
pub open spec fn investigation_index(invs: Seq<Investigation>, id: u128) -> int {
    choose|i: int| 0 <= i < invs.len() && (#[trigger] invs[i]).id == id
}

/// Some investigation's join code case-folds to `key`.
pub open spec fn code_taken(invs: Seq<Investigation>, key: Seq<u32>) -> bool {
    exists|i: int| 0 <= i < invs.len() && fold_key((#[trigger] invs[i]).code@) == key
}

/// Some active investigation's join code case-folds to `key`.
pub open spec fn active_code_taken(invs: Seq<Investigation>, key: Seq<u32>) -> bool {
    exists|i: int|
        0 <= i < invs.len() && fold_key((#[trigger] invs[i]).code@) == key && invs[i].is_active
}

/// The index of the active investigation whose code folds to `key`.
pub open spec fn active_code_index(invs: Seq<Investigation>, key: Seq<u32>) -> int {
    choose|i: int|
        0 <= i < invs.len() && fold_key((#[trigger] invs[i]).code@) == key && invs[i].is_active
}

/// A membership row exists for the (investigation, user) pair; every
/// investigation-scoped operation checks this first.
pub open spec fn is_member(ms: Seq<InvestigationMember>, inv: u128, uid: i32) -> bool {
    exists|i: int|
        0 <= i < ms.len() && (#[trigger] ms[i]).investigation_id == inv && ms[i].user_id == uid
}

/// The index of the membership row for the pair (unique under `wf`).
pub open spec fn member_index(ms: Seq<InvestigationMember>, inv: u128, uid: i32) -> int {
    choose|i: int|
        0 <= i < ms.len() && (#[trigger] ms[i]).investigation_id == inv && ms[i].user_id == uid
}

/// Some membership row carries this identifier.
pub open spec fn member_id_taken(ms: Seq<InvestigationMember>, id: i32) -> bool {
    exists|i: int| 0 <= i < ms.len() && (#[trigger] ms[i]).id == id
}

/// Some entity carries this identifier.
pub open spec fn has_entity(es: Seq<Entity>, id: u128) -> bool {
    exists|i: int| 0 <= i < es.len() && (#[trigger] es[i]).id == id
}

/// The index of the entity carrying `id` (unique under `wf`).
pub open spec fn entity_index(es: Seq<Entity>, id: u128) -> int {
    choose|i: int| 0 <= i < es.len() && (#[trigger] es[i]).id == id
}

/// An entity with this identifier exists inside the given investigation.
pub open spec fn entity_in(es: Seq<Entity>, id: u128, inv: u128) -> bool {
    exists|i: int|
        0 <= i < es.len() && (#[trigger] es[i]).id == id && es[i].investigation_id == inv
}

/// Some tag carries this identifier.
pub open spec fn tag_id_taken(ts: Seq<Tag>, id: u128) -> bool {
    exists|i: int| 0 <= i < ts.len() && (#[trigger] ts[i]).id == id
}

/// The index of the tag carrying `id` (unique under `wf`).
pub open spec fn tag_index_by_id(ts: Seq<Tag>, id: u128) -> int {
    choose|i: int| 0 <= i < ts.len() && (#[trigger] ts[i]).id == id
}

/// The investigation holds a tag whose name case-folds to `key`.
pub open spec fn has_tag_key(ts: Seq<Tag>, inv: u128, key: Seq<u32>) -> bool {
    exists|i: int|
        0 <= i < ts.len() && (#[trigger] ts[i]).investigation_id == inv && fold_key(ts[i].name@)
            == key
}

/// The index of that tag (unique under `wf`).
pub open spec fn tag_index_by_key(ts: Seq<Tag>, inv: u128, key: Seq<u32>) -> int {
    choose|i: int|
        0 <= i < ts.len() && (#[trigger] ts[i]).investigation_id == inv && fold_key(ts[i].name@)
            == key
}

/// The association row (entity, tag) exists.
pub open spec fn has_assoc(ets: Seq<EntityTag>, entity_id: u128, tag_id: u128) -> bool {
    exists|i: int|
        0 <= i < ets.len() && (#[trigger] ets[i]).entity_id == entity_id && ets[i].tag_id == tag_id
}

/// Some link carries this identifier.
pub open spec fn link_id_taken(ls: Seq<Link>, id: u128) -> bool {
    exists|i: int| 0 <= i < ls.len() && (#[trigger] ls[i]).id == id
}

/// A link with this identifier exists inside the given investigation.
pub open spec fn link_in(ls: Seq<Link>, id: u128, inv: u128) -> bool {
    exists|i: int|
        0 <= i < ls.len() && (#[trigger] ls[i]).id == id && ls[i].investigation_id == inv
}

/// The investigation already connects `a` and `b`, in either direction.
pub open spec fn linked(ls: Seq<Link>, inv: u128, a: u128, b: u128) -> bool {
    exists|i: int|
        0 <= i < ls.len() && (#[trigger] ls[i]).investigation_id == inv && ((ls[i].from_entity_id
            == a && ls[i].to_entity_id == b) || (ls[i].from_entity_id == b && ls[i].to_entity_id
            == a))
}

/// A join code in stored form: eight characters, each an uppercase ASCII
/// letter or a digit.
pub open spec fn code_wf(code: Seq<char>) -> bool {
    code.len() == 8 && forall|k: int| 0 <= k < 8 ==> code_char_ok(#[trigger] code[k])
}

/// An uppercase ASCII letter or an ASCII digit.
pub open spec fn code_char_ok(c: char) -> bool {
    (65 <= c as int && c as int <= 90) || (48 <= c as int && c as int <= 57)
}

impl Store {
    /// The store invariant: identifiers and identity-carrying columns are
    /// unique, and every foreign key into users, investigations or tags
    /// resolves. Links may dangle toward deleted entities (reads skip
    /// them), matching how scoped queries behave over the backing store.
    pub open spec fn wf(&self) -> bool {
        let users = self.users@;
        let invs = self.investigations@;
        let ms = self.memberships@;
        let es = self.entities@;
        let ts = self.tags@;
        let ets = self.entity_tags@;
        let ls = self.links@;
        &&& forall|i: int, j: int|
            0 <= i < users.len() && 0 <= j < users.len() && i != j ==> (#[trigger] users[i]).id != (
            #[trigger] users[j]).id
        &&& forall|i: int, j: int|
            0 <= i < users.len() && 0 <= j < users.len() && i != j ==> (
            #[trigger] users[i]).username@ != (#[trigger] users[j]).username@
        &&& forall|i: int, j: int|
            0 <= i < users.len() && 0 <= j < users.len() && i != j ==> (#[trigger] users[i]).email@
                != (#[trigger] users[j]).email@
        &&& 0 < self.next_user_id
        &&& forall|i: int| 0 <= i < users.len() ==> 0 < (#[trigger] users[i]).id < self.next_user_id
        &&& forall|i: int, j: int|
            0 <= i < invs.len() && 0 <= j < invs.len() && i != j ==> (#[trigger] invs[i]).id != (
            #[trigger] invs[j]).id
        &&& forall|i: int, j: int|
            0 <= i < invs.len() && 0 <= j < invs.len() && i != j ==> fold_key(
                (#[trigger] invs[i]).code@,
            ) != fold_key((#[trigger] invs[j]).code@)
        &&& forall|i: int| 0 <= i < invs.len() ==> code_wf((#[trigger] invs[i]).code@)
        &&& forall|i: int|
            0 <= i < invs.len() ==> has_user_id(users, (#[trigger] invs[i]).created_by_id)
        &&& forall|i: int, j: int|
            0 <= i < ms.len() && 0 <= j < ms.len() && i != j ==> (#[trigger] ms[i]).id != (
            #[trigger] ms[j]).id
        &&& 0 < self.next_membership_id
        &&& forall|i: int|
            0 <= i < ms.len() ==> 0 < (#[trigger] ms[i]).id < self.next_membership_id
        &&& forall|i: int, j: int|
            0 <= i < ms.len() && 0 <= j < ms.len() && i != j ==> !((#[trigger] ms[i]).investigation_id
                == (#[trigger] ms[j]).investigation_id && ms[i].user_id == ms[j].user_id)
        &&& forall|i: int| 0 <= i < ms.len() ==> has_user_id(users, (#[trigger] ms[i]).user_id)
        &&& forall|i: int|
            0 <= i < ms.len() ==> has_investigation(invs, (#[trigger] ms[i]).investigation_id)
        &&& forall|i: int, j: int|
            0 <= i < es.len() && 0 <= j < es.len() && i != j ==> (#[trigger] es[i]).id != (
            #[trigger] es[j]).id
        &&& forall|i: int|
            0 <= i < es.len() ==> has_investigation(invs, (#[trigger] es[i]).investigation_id)
        &&& forall|i: int| 0 <= i < es.len() ==> has_user_id(users, (#[trigger] es[i]).created_by_id)
        &&& forall|i: int, j: int|
            0 <= i < ts.len() && 0 <= j < ts.len() && i != j ==> (#[trigger] ts[i]).id != (
            #[trigger] ts[j]).id
        &&& forall|i: int, j: int|
            0 <= i < ts.len() && 0 <= j < ts.len() && i != j ==> !((#[trigger] ts[i]).investigation_id
                == (#[trigger] ts[j]).investigation_id && fold_key(ts[i].name@) == fold_key(
                ts[j].name@))
        &&& forall|i: int|
            0 <= i < ts.len() ==> has_investigation(invs, (#[trigger] ts[i]).investigation_id)
        &&& forall|i: int, j: int|
            0 <= i < ets.len() && 0 <= j < ets.len() && i != j ==> !((#[trigger] ets[i]).entity_id
                == (#[trigger] ets[j]).entity_id && ets[i].tag_id == ets[j].tag_id)
        &&& forall|i: int| 0 <= i < ets.len() ==> tag_id_taken(ts, (#[trigger] ets[i]).tag_id)
        &&& forall|i: int, j: int|
            0 <= i < ls.len() && 0 <= j < ls.len() && i != j ==> (#[trigger] ls[i]).id != (
            #[trigger] ls[j]).id
        &&& forall|i: int|
            0 <= i < ls.len() ==> has_investigation(invs, (#[trigger] ls[i]).investigation_id)
        &&& forall|i: int| 0 <= i < ls.len() ==> has_user_id(users, (#[trigger] ls[i]).created_by_id)
        &&& forall|i: int, j: int|
            0 <= i < ls.len() && 0 <= j < ls.len() && i != j && (#[trigger] ls[i]).investigation_id
                == (#[trigger] ls[j]).investigation_id ==> !((ls[i].from_entity_id
                == ls[j].from_entity_id && ls[i].to_entity_id == ls[j].to_entity_id) || (
            ls[i].from_entity_id == ls[j].to_entity_id && ls[i].to_entity_id
                == ls[j].from_entity_id))
    }

    /// An empty store.
    pub fn new() -> (s: Store)
        ensures
            s.wf(),
            s.users@ == Seq::<User>::empty(),
            s.investigations@ == Seq::<Investigation>::empty(),
            s.memberships@ == Seq::<InvestigationMember>::empty(),
            s.entities@ == Seq::<Entity>::empty(),
            s.tags@ == Seq::<Tag>::empty(),
            s.entity_tags@ == Seq::<EntityTag>::empty(),
            s.links@ == Seq::<Link>::empty(),
            s.comments@ == Seq::<Comment>::empty(),
            s.attachments@ == Seq::<Attachment>::empty(),
            s.next_user_id == 1,
            s.next_membership_id == 1,
    {
        Store {
            users: Vec::new(),
            next_user_id: 1,
            investigations: Vec::new(),
            memberships: Vec::new(),
            next_membership_id: 1,
            entities: Vec::new(),
            tags: Vec::new(),
            entity_tags: Vec::new(),
            links: Vec::new(),
            comments: Vec::new(),
            attachments: Vec::new(),
        }
    }
}

/// The index of the user carrying `id`, if any.
pub fn find_user_by_id(users: &Vec<User>, id: i32) -> (r: Option<usize>)
    ensures
        match r {
            Some(i) => i < users@.len() && users@[i as int].id == id,
            None => !has_user_id(users@, id),
        },
{
    let len = users.len();
    let mut i: usize = 0;
    while i < len
        invariant
            len == users@.len(),
            i <= len,
            forall|k: int| 0 <= k < i ==> (#[trigger] users@[k]).id != id,
        decreases len - i,
    {
        if users[i].id == id {
            return Some(i);
        }
        i = i + 1;
    }
    None
}

/// The index of the user carrying `name`, if any.
pub fn find_user_by_name(users: &Vec<User>, name: &String) -> (r: Option<usize>)
    ensures
        match r {
            Some(i) => i < users@.len() && users@[i as int].username@ == name@,
            None => !has_username(users@, name@),
        },
{
    let len = users.len();
    let mut i: usize = 0;
    while i < len
        invariant
            len == users@.len(),
            i <= len,
            forall|k: int| 0 <= k < i ==> (#[trigger] users@[k]).username@ != name@,
        decreases len - i,
    {
        if users[i].username.eq(name) {
            return Some(i);
        }
        i = i + 1;
    }
    None
}

/// Whether some user carries `email`.
pub fn email_exists(users: &Vec<User>, email: &String) -> (r: bool)
    ensures
        r == has_email(users@, email@),
{
    let len = users.len();
    let mut i: usize = 0;
    while i < len
        invariant
            len == users@.len(),
            i <= len,
            forall|k: int| 0 <= k < i ==> (#[trigger] users@[k]).email@ != email@,
        decreases len - i,
    {
        if users[i].email.eq(email) {
            return true;
        }
        i = i + 1;
    }
    false
}

/// The index of the investigation carrying `id`, if any.
pub fn find_investigation(invs: &Vec<Investigation>, id: u128) -> (r: Option<usize>)
    ensures
        match r {
            Some(i) => i < invs@.len() && invs@[i as int].id == id,
            None => !has_investigation(invs@, id),
        },
{
    let len = invs.len();
    let mut i: usize = 0;
    while i < len
        invariant
            len == invs@.len(),
            i <= len,
            forall|k: int| 0 <= k < i ==> (#[trigger] invs@[k]).id != id,
        decreases len - i,
    {
        if invs[i].id == id {
            return Some(i);
        }
        i = i + 1;
    }
    None
}

/// The index of the membership row for the pair, if any.
pub fn find_member(ms: &Vec<InvestigationMember>, inv: u128, uid: i32) -> (r: Option<usize>)
    ensures
        match r {
            Some(i) => i < ms@.len() && ms@[i as int].investigation_id == inv
                && ms@[i as int].user_id == uid,
            None => !is_member(ms@, inv, uid),
        },
        r is Some ==> is_member(ms@, inv, uid),
{
    let len = ms.len();
    let mut i: usize = 0;
    while i < len
        invariant
            len == ms@.len(),
            i <= len,
            forall|k: int|
                0 <= k < i ==> !((#[trigger] ms@[k]).investigation_id == inv && ms@[k].user_id
                    == uid),
        decreases len - i,
    {
        if ms[i].investigation_id == inv && ms[i].user_id == uid {
            return Some(i);
        }
        i = i + 1;
    }
    None
}

/// The index of the entity carrying `id`, if any.
pub fn find_entity(es: &Vec<Entity>, id: u128) -> (r: Option<usize>)
    ensures
        match r {
            Some(i) => i < es@.len() && es@[i as int].id == id,
            None => !has_entity(es@, id),
        },
{
    let len = es.len();
    let mut i: usize = 0;
    while i < len
        invariant
            len == es@.len(),
            i <= len,
            forall|k: int| 0 <= k < i ==> (#[trigger] es@[k]).id != id,
        decreases len - i,
    {
        if es[i].id == id {
            return Some(i);
        }
        i = i + 1;
    }
    None
}

/// The index of the tag carrying `id`, if any.
pub fn find_tag_by_id(ts: &Vec<Tag>, id: u128) -> (r: Option<usize>)
    ensures
        match r {
            Some(i) => i < ts@.len() && ts@[i as int].id == id,
            None => !tag_id_taken(ts@, id),
        },
{
    let len = ts.len();
    let mut i: usize = 0;
    while i < len
        invariant
            len == ts@.len(),
            i <= len,
            forall|k: int| 0 <= k < i ==> (#[trigger] ts@[k]).id != id,
        decreases len - i,
    {
        if ts[i].id == id {
            return Some(i);
        }
        i = i + 1;
    }
    None
}

/// The index of the link carrying `id`, if any.
pub fn find_link(ls: &Vec<Link>, id: u128) -> (r: Option<usize>)
    ensures
        match r {
            Some(i) => i < ls@.len() && ls@[i as int].id == id,
            None => !link_id_taken(ls@, id),
        },
{
    let len = ls.len();
    let mut i: usize = 0;
    while i < len
        invariant
            len == ls@.len(),
            i <= len,
            forall|k: int| 0 <= k < i ==> (#[trigger] ls@[k]).id != id,
        decreases len - i,
    {
        if ls[i].id == id {
            return Some(i);
        }
        i = i + 1;
    }
    None
}

/// Whether the association row (entity, tag) exists.
pub fn assoc_exists(ets: &Vec<EntityTag>, entity_id: u128, tag_id: u128) -> (r: bool)
    ensures
        r == has_assoc(ets@, entity_id, tag_id),
{
    let len = ets.len();
    let mut i: usize = 0;
    while i < len
        invariant
            len == ets@.len(),
            i <= len,
            forall|k: int|
                0 <= k < i ==> !((#[trigger] ets@[k]).entity_id == entity_id && ets@[k].tag_id
                    == tag_id),
        decreases len - i,
    {
        if ets[i].entity_id == entity_id && ets[i].tag_id == tag_id {
            return true;
        }
        i = i + 1;
    }
    false
}

/// Whether the investigation already connects `a` and `b` in either
/// direction.
pub fn linked_exec(ls: &Vec<Link>, inv: u128, a: u128, b: u128) -> (r: bool)
    ensures
        r == linked(ls@, inv, a, b),
{
    let len = ls.len();
    let mut i: usize = 0;
    while i < len
        invariant
            len == ls@.len(),
            i <= len,
            forall|k: int|
                0 <= k < i ==> !((#[trigger] ls@[k]).investigation_id == inv && ((
                ls@[k].from_entity_id == a && ls@[k].to_entity_id == b) || (ls@[k].from_entity_id
                    == b && ls@[k].to_entity_id == a))),
        decreases len - i,
    {
        if ls[i].investigation_id == inv && ((ls[i].from_entity_id == a && ls[i].to_entity_id == b)
            || (ls[i].from_entity_id == b && ls[i].to_entity_id == a)) {
            return true;
        }
        i = i + 1;
    }
    false
}


/// The user table (rows and counter) agrees between two states.
pub open spec fn same_users(a: Store, b: Store) -> bool {
    a.users@ == b.users@ && a.next_user_id == b.next_user_id
}

/// The investigation table agrees between two states.
pub open spec fn same_investigations(a: Store, b: Store) -> bool {
    a.investigations@ == b.investigations@
}

/// The membership table (rows and counter) agrees between two states.
pub open spec fn same_memberships(a: Store, b: Store) -> bool {
    a.memberships@ == b.memberships@ && a.next_membership_id == b.next_membership_id
}

/// The entity table agrees between two states.
pub open spec fn same_entities(a: Store, b: Store) -> bool {
    a.entities@ == b.entities@
}

/// The tag table agrees between two states.
pub open spec fn same_tags(a: Store, b: Store) -> bool {
    a.tags@ == b.tags@
}

/// The entity-tag association table agrees between two states.
pub open spec fn same_assocs(a: Store, b: Store) -> bool {
    a.entity_tags@ == b.entity_tags@
}

/// The link table agrees between two states.
pub open spec fn same_links(a: Store, b: Store) -> bool {
    a.links@ == b.links@
}

/// The comment and attachment tables agree between two states.
pub open spec fn same_extras(a: Store, b: Store) -> bool {
    a.comments@ == b.comments@ && a.attachments@ == b.attachments@
}

/// Nothing differs between two states.
pub open spec fn same_store(a: Store, b: Store) -> bool {
    same_users(a, b) && same_investigations(a, b) && same_memberships(a, b) && same_entities(a, b)
        && same_tags(a, b) && same_assocs(a, b) && same_links(a, b) && same_extras(a, b)
}

/// Appending a user changes which identifiers, usernames and emails are
/// present in exactly one way.
pub proof fn lemma_user_push(users: Seq<User>, u: User)
    ensures
        forall|id: i32| #[trigger] has_user_id(users.push(u), id) <==> (has_user_id(users, id) || id == u.id),
        forall|n: Seq<char>| #[trigger] has_username(users.push(u), n) <==> (has_username(users, n) || n == u.username@),
        forall|e: Seq<char>| #[trigger] has_email(users.push(u), e) <==> (has_email(users, e) || e == u.email@),
{
    let p = users.push(u);
    assert(p[users.len() as int] == u);
    assert forall|id: i32| #[trigger] has_user_id(p, id) implies (has_user_id(users, id) || id == u.id) by {
        let k = choose|i: int| 0 <= i < p.len() && (#[trigger] p[i]).id == id;
        if k < users.len() {
            assert(users[k].id == id);
        }
    }
    assert forall|id: i32| has_user_id(users, id) implies #[trigger] has_user_id(p, id) by {
        let k = choose|i: int| 0 <= i < users.len() && (#[trigger] users[i]).id == id;
        assert(p[k].id == id);
    }
    assert forall|n: Seq<char>| #[trigger] has_username(p, n) implies (has_username(users, n) || n == u.username@) by {
        let k = choose|i: int| 0 <= i < p.len() && (#[trigger] p[i]).username@ == n;
        if k < users.len() {
            assert(users[k].username@ == n);
        }
    }
    assert forall|n: Seq<char>| has_username(users, n) implies #[trigger] has_username(p, n) by {
        let k = choose|i: int| 0 <= i < users.len() && (#[trigger] users[i]).username@ == n;
        assert(p[k].username@ == n);
    }
    assert forall|e: Seq<char>| #[trigger] has_email(p, e) implies (has_email(users, e) || e == u.email@) by {
        let k = choose|i: int| 0 <= i < p.len() && (#[trigger] p[i]).email@ == e;
        if k < users.len() {
            assert(users[k].email@ == e);
        }
    }
    assert forall|e: Seq<char>| has_email(users, e) implies #[trigger] has_email(p, e) by {
        let k = choose|i: int| 0 <= i < users.len() && (#[trigger] users[i]).email@ == e;
        assert(p[k].email@ == e);
    }
}

/// Appending an investigation changes which identifiers and code keys are
/// present in exactly one way.
pub proof fn lemma_investigation_push(invs: Seq<Investigation>, v: Investigation)
    ensures
        forall|id: u128| #[trigger] has_investigation(invs.push(v), id) <==> (has_investigation(invs, id) || id == v.id),
        forall|key: Seq<u32>| #[trigger] code_taken(invs.push(v), key) <==> (code_taken(invs, key) || key == fold_key(v.code@)),
{
    let p = invs.push(v);
    assert(p[invs.len() as int] == v);
    assert forall|id: u128| #[trigger] has_investigation(p, id) implies (has_investigation(invs, id) || id == v.id) by {
        let k = choose|i: int| 0 <= i < p.len() && (#[trigger] p[i]).id == id;
        if k < invs.len() {
            assert(invs[k].id == id);
        }
    }
    assert forall|id: u128| has_investigation(invs, id) implies #[trigger] has_investigation(p, id) by {
        let k = choose|i: int| 0 <= i < invs.len() && (#[trigger] invs[i]).id == id;
        assert(p[k].id == id);
    }
    assert forall|key: Seq<u32>| #[trigger] code_taken(p, key) implies (code_taken(invs, key) || key == fold_key(v.code@)) by {
        let k = choose|i: int| 0 <= i < p.len() && fold_key((#[trigger] p[i]).code@) == key;
        if k < invs.len() {
            assert(fold_key(invs[k].code@) == key);
        }
    }
    assert forall|key: Seq<u32>| code_taken(invs, key) implies #[trigger] code_taken(p, key) by {
        let k = choose|i: int| 0 <= i < invs.len() && fold_key((#[trigger] invs[i]).code@) == key;
        assert(fold_key(p[k].code@) == key);
    }
}

/// Appending a tag changes which identifiers and (investigation, key)
/// pairs are present in exactly one way.
pub proof fn lemma_tag_push(ts: Seq<Tag>, t: Tag)
    ensures
        forall|id: u128| #[trigger] tag_id_taken(ts.push(t), id) <==> (tag_id_taken(ts, id) || id == t.id),
        forall|inv: u128, key: Seq<u32>| #[trigger] has_tag_key(ts.push(t), inv, key) <==> (has_tag_key(ts, inv, key) || (inv == t.investigation_id && key == fold_key(t.name@))),
{
    let p = ts.push(t);
    assert(p[ts.len() as int] == t);
    assert forall|id: u128| #[trigger] tag_id_taken(p, id) implies (tag_id_taken(ts, id) || id == t.id) by {
        let k = choose|i: int| 0 <= i < p.len() && (#[trigger] p[i]).id == id;
        if k < ts.len() {
            assert(ts[k].id == id);
        }
    }
    assert forall|id: u128| tag_id_taken(ts, id) implies #[trigger] tag_id_taken(p, id) by {
        let k = choose|i: int| 0 <= i < ts.len() && (#[trigger] ts[i]).id == id;
        assert(p[k].id == id);
    }
    assert forall|inv: u128, key: Seq<u32>| #[trigger] has_tag_key(p, inv, key) implies (has_tag_key(ts, inv, key) || (inv == t.investigation_id && key == fold_key(t.name@))) by {
        let k = choose|i: int| 0 <= i < p.len() && (#[trigger] p[i]).investigation_id == inv && fold_key(p[i].name@) == key;
        if k < ts.len() {
            assert(ts[k].investigation_id == inv && fold_key(ts[k].name@) == key);
        }
    }
    assert forall|inv: u128, key: Seq<u32>| has_tag_key(ts, inv, key) implies #[trigger] has_tag_key(p, inv, key) by {
        let k = choose|i: int| 0 <= i < ts.len() && (#[trigger] ts[i]).investigation_id == inv && fold_key(ts[i].name@) == key;
        assert(p[k].investigation_id == inv && fold_key(p[k].name@) == key);
    }
}


/// Appending an entity changes which identifiers are present in exactly
/// one way.
pub proof fn lemma_entity_push(es: Seq<Entity>, e: Entity)
    ensures
        forall|id: u128| #[trigger] has_entity(es.push(e), id) <==> (has_entity(es, id) || id == e.id),
        forall|id: u128, inv: u128| #[trigger] entity_in(es.push(e), id, inv) <==> (entity_in(es, id, inv) || (id == e.id && inv == e.investigation_id)),
{
    let p = es.push(e);
    assert(p[es.len() as int] == e);
    assert forall|id: u128| #[trigger] has_entity(p, id) implies (has_entity(es, id) || id == e.id) by {
        let k = choose|i: int| 0 <= i < p.len() && (#[trigger] p[i]).id == id;
        if k < es.len() {
            assert(es[k].id == id);
        }
    }
    assert forall|id: u128| has_entity(es, id) implies #[trigger] has_entity(p, id) by {
        let k = choose|i: int| 0 <= i < es.len() && (#[trigger] es[i]).id == id;
        assert(p[k].id == id);
    }
    assert forall|id: u128, inv: u128| #[trigger] entity_in(p, id, inv) implies (entity_in(es, id, inv) || (id == e.id && inv == e.investigation_id)) by {
        let k = choose|i: int| 0 <= i < p.len() && (#[trigger] p[i]).id == id && p[i].investigation_id == inv;
        if k < es.len() {
            assert(es[k].id == id && es[k].investigation_id == inv);
        }
    }
    assert forall|id: u128, inv: u128| entity_in(es, id, inv) implies #[trigger] entity_in(p, id, inv) by {
        let k = choose|i: int| 0 <= i < es.len() && (#[trigger] es[i]).id == id && es[i].investigation_id == inv;
        assert(p[k].id == id && p[k].investigation_id == inv);
    }
}

/// Appending an association row changes which pairs are present in
/// exactly one way.
pub proof fn lemma_assoc_push(ets: Seq<EntityTag>, r: EntityTag)
    ensures
        forall|a: u128, t: u128| #[trigger] has_assoc(ets.push(r), a, t) <==> (has_assoc(ets, a, t) || (a == r.entity_id && t == r.tag_id)),
{
    let p = ets.push(r);
    assert(p[ets.len() as int] == r);
    assert forall|a: u128, t: u128| #[trigger] has_assoc(p, a, t) implies (has_assoc(ets, a, t) || (a == r.entity_id && t == r.tag_id)) by {
        let k = choose|i: int| 0 <= i < p.len() && (#[trigger] p[i]).entity_id == a && p[i].tag_id == t;
        if k < ets.len() {
            assert(ets[k].entity_id == a && ets[k].tag_id == t);
        }
    }
    assert forall|a: u128, t: u128| has_assoc(ets, a, t) implies #[trigger] has_assoc(p, a, t) by {
        let k = choose|i: int| 0 <= i < ets.len() && (#[trigger] ets[i]).entity_id == a && ets[i].tag_id == t;
        assert(p[k].entity_id == a && p[k].tag_id == t);
    }
}

} // verus!
