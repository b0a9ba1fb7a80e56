//! Links: the undirected-unique edges between entities, with listing,
//! creation and deletion.

use vstd::prelude::*;

use crate::access::check_member_access;
use crate::errors::AppError;
use crate::ids::{new_random_id, parse_id, uuid_of};
use crate::records::{Entity, Link};
use crate::requests::CreateLink;
use crate::responses::{clone_opt_string, EntityInfo, LinkResponse};
use crate::store::{
    entity_in, entity_index, find_entity, find_link, find_user_by_id, has_entity,
    has_investigation, has_user_id, is_member, link_id_taken, link_in, linked, linked_exec,
    same_assocs, same_entities, same_extras, same_investigations, same_links, same_memberships,
    same_store, same_tags, same_users, user_index, Store,
};

verus! {

/// The link appears in the listing of this investigation: it belongs to
/// it and both endpoints still resolve (a dangling link is skipped, as the
/// storage layer's join skips it).
pub open spec fn link_listed(l: Link, es: Seq<Entity>, inv: u128) -> bool {
    &&& l.investigation_id == inv
    &&& has_entity(es, l.from_entity_id)
    &&& has_entity(es, l.to_entity_id)
}

/// The listed links of one investigation, in storage order.
pub open spec fn links_listed(ls: Seq<Link>, es: Seq<Entity>, inv: u128) -> Seq<Link>
    decreases ls.len(),
{
    if ls.len() == 0 {
        Seq::empty()
    } else {
        let rest = links_listed(ls.drop_last(), es, inv);
        if link_listed(ls.last(), es, inv) {
            rest.push(ls.last())
        } else {
            rest
        }
    }
}

/// The compact endpoint view shows the entity carrying `id`.
pub open spec fn entity_info_ok(info: EntityInfo, id: u128, s: Store) -> bool {
    let e = s.entities@[entity_index(s.entities@, id)];
    &&& info.id == id
    &&& info.title@ == e.title@
    &&& info.entity_type@ == e.entity_type@
}

/// The listing row for a link: its own columns, its creator's username and
/// both endpoints resolved to compact views. Opaque: reveal it to reach
/// the fields.
#[verifier::opaque]
pub open spec fn link_response_matches(resp: LinkResponse, l: Link, s: Store) -> bool {
    &&& resp.id == l.id
    &&& resp.title@ == l.title@
    &&& resp.description == l.description
    &&& resp.created_at == l.created_at
    &&& resp.created_by@ == s.users@[user_index(s.users@, l.created_by_id)].username@
    &&& entity_info_ok(resp.from_entity, l.from_entity_id, s)
    &&& entity_info_ok(resp.to_entity, l.to_entity_id, s)
}

/// The listing row stands for the link at index `i`, listed in this
/// investigation.
pub open spec fn link_row_at(row: LinkResponse, s: Store, inv: u128, i: int) -> bool {
    &&& 0 <= i < s.links@.len()
    &&& link_listed(s.links@[i], s.entities@, inv)
    &&& link_response_matches(row, s.links@[i], s)
}

/// The listing row stands for some listed link within the prefix.
pub open spec fn link_row_in(row: LinkResponse, s: Store, inv: u128, upto: int) -> bool {
    exists|i: int| #![trigger link_row_at(row, s, inv, i)] i < upto && link_row_at(row, s, inv, i)
}

/// One listing row per listed link, over a prefix of the link table.
pub open spec fn link_rows_forward(
    rows: Seq<LinkResponse>,
    s: Store,
    inv: u128,
    upto: int,
) -> bool {
    forall|k: int| 0 <= k < rows.len() ==> link_row_in(#[trigger] rows[k], s, inv, upto)
}

/// Some listing row carries this identifier.
pub open spec fn link_row_id_in(rows: Seq<LinkResponse>, id: u128) -> bool {
    exists|k: int| 0 <= k < rows.len() && (#[trigger] rows[k]).id == id
}

/// Every listed link within the prefix appears among the rows.
pub open spec fn link_rows_backward(
    rows: Seq<LinkResponse>,
    s: Store,
    inv: u128,
    upto: int,
) -> bool {
    forall|i: int|
        0 <= i < upto && link_listed(#[trigger] s.links@[i], s.entities@, inv) ==> link_row_id_in(
            rows,
            s.links@[i].id,
        )
}

proof fn lemma_link_rows_push(
    prev: Seq<LinkResponse>,
    resp: LinkResponse,
    s: Store,
    inv: u128,
    i: int,
)
    requires
        link_rows_forward(prev, s, inv, i),
        link_rows_backward(prev, s, inv, i),
        0 <= i < s.links@.len(),
        link_listed(s.links@[i], s.entities@, inv),
        link_response_matches(resp, s.links@[i], s),
    ensures
        link_rows_forward(prev.push(resp), s, inv, i + 1),
        link_rows_backward(prev.push(resp), s, inv, i + 1),
{
    let rows = prev.push(resp);
    assert(rows[prev.len() as int] == resp);
    assert forall|k: int| 0 <= k < rows.len() implies link_row_in(
        #[trigger] rows[k],
        s,
        inv,
        i + 1,
    ) by {
        if k < prev.len() {
            assert(rows[k] == prev[k]);
            let w = choose|w: int| w < i && link_row_at(prev[k], s, inv, w);
            assert(w < i + 1 && link_row_at(rows[k], s, inv, w));
        } else {
            assert(rows[k] == resp);
            assert(link_row_at(rows[k], s, inv, i));
        }
    }
    assert forall|ii: int|
        0 <= ii < i + 1 && link_listed(#[trigger] s.links@[ii], s.entities@, inv) implies
        link_row_id_in(rows, s.links@[ii].id) by {
        if ii < i {
            let k0 = choose|k0: int| 0 <= k0 < prev.len() && (#[trigger] prev[k0]).id
                == s.links@[ii].id;
            assert(rows[k0] == prev[k0]);
            assert(0 <= k0 < rows.len() && rows[k0].id == s.links@[ii].id);
        } else {
            assert(rows[prev.len() as int].id == s.links@[ii].id) by {
                reveal(link_response_matches);
            }
        }
    }
}

proof fn lemma_link_rows_skip(prev: Seq<LinkResponse>, s: Store, inv: u128, i: int)
    requires
        link_rows_forward(prev, s, inv, i),
        link_rows_backward(prev, s, inv, i),
        0 <= i < s.links@.len(),
        !link_listed(s.links@[i], s.entities@, inv),
    ensures
        link_rows_forward(prev, s, inv, i + 1),
        link_rows_backward(prev, s, inv, i + 1),
{
    assert forall|k: int| 0 <= k < prev.len() implies link_row_in(
        #[trigger] prev[k],
        s,
        inv,
        i + 1,
    ) by {
        let w = choose|w: int| w < i && link_row_at(prev[k], s, inv, w);
        assert(w < i + 1 && link_row_at(prev[k], s, inv, w));
    }
}

proof fn lemma_link_rows_perm(
    out: Seq<LinkResponse>,
    unsorted: Seq<LinkResponse>,
    s: Store,
    inv: u128,
    upto: int,
)
    requires
        out.to_multiset() == unsorted.to_multiset(),
        link_rows_forward(unsorted, s, inv, upto),
        link_rows_backward(unsorted, s, inv, upto),
    ensures
        link_rows_forward(out, s, inv, upto),
        link_rows_backward(out, s, inv, upto),
{
    out.to_multiset_ensures();
    unsorted.to_multiset_ensures();
    assert forall|k: int| 0 <= k < out.len() implies link_row_in(
        #[trigger] out[k],
        s,
        inv,
        upto,
    ) by {
        assert(out.contains(out[k]));
        assert(unsorted.to_multiset().count(out[k]) > 0);
        assert(unsorted.contains(out[k]));
        let k0 = choose|k0: int| 0 <= k0 < unsorted.len() && unsorted[k0] == out[k];
        assert(link_row_in(unsorted[k0], s, inv, upto));
    }
    assert forall|i: int|
        0 <= i < upto && link_listed(#[trigger] s.links@[i], s.entities@, inv) implies
        link_row_id_in(out, s.links@[i].id) by {
        let k0 = choose|k0: int| 0 <= k0 < unsorted.len() && (#[trigger] unsorted[k0]).id
            == s.links@[i].id;
        assert(unsorted.contains(unsorted[k0]));
        assert(out.to_multiset().count(unsorted[k0]) > 0);
        assert(out.contains(unsorted[k0]));
        let k1 = choose|k1: int| 0 <= k1 < out.len() && out[k1] == unsorted[k0];
        assert(0 <= k1 < out.len() && out[k1].id == s.links@[i].id);
    }
}

/// Appending a link changes which identifiers and connected pairs are
/// present in exactly one way.
proof fn lemma_link_push(ls: Seq<Link>, l: Link)
    ensures
        forall|id: u128| #[trigger] link_id_taken(ls.push(l), id) <==> (link_id_taken(ls, id) || id
            == l.id),
        forall|inv: u128, a: u128, b: u128|
            #[trigger] linked(ls.push(l), inv, a, b) <==> (linked(ls, inv, a, b) || (inv
                == l.investigation_id && ((a == l.from_entity_id && b == l.to_entity_id) || (a
                == l.to_entity_id && b == l.from_entity_id)))),
{
    let p = ls.push(l);
    assert(p[ls.len() as int] == l);
    assert forall|id: u128| #[trigger] link_id_taken(p, id) implies (link_id_taken(ls, id) || id
        == l.id) by {
        let k = choose|i: int| 0 <= i < p.len() && (#[trigger] p[i]).id == id;
        if k < ls.len() {
            assert(ls[k].id == id);
        }
    }
    assert forall|id: u128| link_id_taken(ls, id) implies #[trigger] link_id_taken(p, id) by {
        let k = choose|i: int| 0 <= i < ls.len() && (#[trigger] ls[i]).id == id;
        assert(p[k].id == id);
    }
    assert forall|inv: u128, a: u128, b: u128| #[trigger] linked(p, inv, a, b) implies (linked(
        ls,
        inv,
        a,
        b,
    ) || (inv == l.investigation_id && ((a == l.from_entity_id && b == l.to_entity_id) || (a
        == l.to_entity_id && b == l.from_entity_id)))) by {
        let k = choose|i: int|
            0 <= i < p.len() && (#[trigger] p[i]).investigation_id == inv && ((p[i].from_entity_id
                == a && p[i].to_entity_id == b) || (p[i].from_entity_id == b && p[i].to_entity_id
                == a));
        if k < ls.len() {
            assert(ls[k].investigation_id == inv && ((ls[k].from_entity_id == a
                && ls[k].to_entity_id == b) || (ls[k].from_entity_id == b && ls[k].to_entity_id
                == a)));
        }
    }
    assert forall|inv: u128, a: u128, b: u128| linked(ls, inv, a, b) implies #[trigger] linked(
        p,
        inv,
        a,
        b,
    ) by {
        let k = choose|i: int|
            0 <= i < ls.len() && (#[trigger] ls[i]).investigation_id == inv && ((
            ls[i].from_entity_id == a && ls[i].to_entity_id == b) || (ls[i].from_entity_id == b
                && ls[i].to_entity_id == a));
        assert(p[k].investigation_id == inv && ((p[k].from_entity_id == a && p[k].to_entity_id
            == b) || (p[k].from_entity_id == b && p[k].to_entity_id == a)));
    }
}

/// Build the compact endpoint view of the entity carrying `id`.
fn build_entity_info(store: &Store, id: u128) -> (info: EntityInfo)
    requires
        store.wf(),
        has_entity(store.entities@, id),
    ensures
        entity_info_ok(info, id, *store),
{
    let idx = match find_entity(&store.entities, id) {
        Some(i) => i,
        None => {
            proof {
                assert(false);
            }
            0
        },
    };
    proof {
        let w = entity_index(store.entities@, id);
        assert(store.entities@[w].id == id);
        assert(w == idx);
    }
    let e = &store.entities[idx];
    EntityInfo { id, title: e.title.clone(), entity_type: e.entity_type.clone() }
}

/// Build the listing row of the link at index `i`, which must be listed.
fn build_link_response(store: &Store, i: usize) -> (resp: LinkResponse)
    requires
        store.wf(),
        i < store.links@.len(),
        has_entity(store.entities@, store.links@[i as int].from_entity_id),
        has_entity(store.entities@, store.links@[i as int].to_entity_id),
    ensures
        link_response_matches(resp, store.links@[i as int], *store),
{
    proof {
        reveal(link_response_matches);
    }
    let l = &store.links[i];
    let creator_idx = match find_user_by_id(&store.users, l.created_by_id) {
        Some(k) => k,
        None => {
            proof {
                assert(has_user_id(store.users@, l.created_by_id));
                assert(false);
            }
            0
        },
    };
    proof {
        assert(has_user_id(store.users@, l.created_by_id));
        let k = user_index(store.users@, l.created_by_id);
        assert(store.users@[k].id == l.created_by_id);
        assert(k == creator_idx);
    }
    let from_info = build_entity_info(store, l.from_entity_id);
    let to_info = build_entity_info(store, l.to_entity_id);
    LinkResponse {
        id: l.id,
        from_entity: from_info,
        to_entity: to_info,
        title: l.title.clone(),
        description: clone_opt_string(&l.description),
        created_at: l.created_at,
        created_by: store.users[creator_idx].username.clone(),
    }
}

/// Sort listing rows newest-created-first; the rows are permuted, nothing
/// else changes.
fn sort_links_desc(input: Vec<LinkResponse>) -> (out: Vec<LinkResponse>)
    ensures
        out@.len() == input@.len(),
        out@.to_multiset() == input@.to_multiset(),
        forall|k: int, l: int|
            0 <= k < l < out@.len() ==> out@[k].created_at >= out@[l].created_at,
{
    let mut src = input;
    let mut out: Vec<LinkResponse> = Vec::new();
    proof {
        out@.to_multiset_ensures();
        src@.to_multiset_ensures();
        assert(out@.to_multiset().add(src@.to_multiset()) =~= src@.to_multiset());
    }
    while src.len() > 0
        invariant
            out@.len() + src@.len() == input@.len(),
            out@.to_multiset().add(src@.to_multiset()) == input@.to_multiset(),
            forall|k: int, l: int|
                0 <= k < l < out@.len() ==> out@[k].created_at >= out@[l].created_at,
            forall|k: int, j: int|
                0 <= k < out@.len() && 0 <= j < src@.len() ==> out@[k].created_at
                    >= src@[j].created_at,
        decreases src@.len(),
    {
        let mut mi: usize = 0;
        let mut j: usize = 1;
        while j < src.len()
            invariant
                0 < src@.len(),
                mi < j <= src@.len(),
                forall|t: int| 0 <= t < j ==> src@[mi as int].created_at >= src@[t].created_at,
            decreases src@.len() - j,
        {
            if src[j].created_at > src[mi].created_at {
                mi = j;
            }
            j = j + 1;
        }
        let ghost old_out = out@;
        let ghost old_src = src@;
        proof {
            old_src.to_multiset_ensures();
            old_out.to_multiset_ensures();
        }
        let x = src.remove(mi);
        out.push(x);
        proof {
            assert(out@.to_multiset() =~= old_out.to_multiset().insert(x));
            assert(src@.to_multiset() =~= old_src.to_multiset().remove(x));
            assert(old_src.contains(x));
            assert(out@.to_multiset().add(src@.to_multiset()) =~= old_out.to_multiset().add(
                old_src.to_multiset(),
            ));
            assert forall|k: int, jj: int|
                0 <= k < out@.len() && 0 <= jj < src@.len() implies out@[k].created_at
                >= src@[jj].created_at by {
                if jj < mi {
                    assert(src@[jj] == old_src[jj]);
                } else {
                    assert(src@[jj] == old_src[jj + 1]);
                }
            }
        }
    }
    proof {
        src@.to_multiset_ensures();
        assert(out@.to_multiset() =~= out@.to_multiset().add(src@.to_multiset()));
    }
    out
}

/// List the investigation's links, newest-first, each endpoint resolved to
/// a compact entity view. Only members may list; links whose
/// endpoints no longer resolve are skipped.
#[verifier::rlimit(30)]
pub fn list_links(store: &Store, investigation_id: u128, user_id: i32) -> (r: Result<
    Vec<LinkResponse>,
    AppError,
>)
    requires
        store.wf(),
    ensures
        r is Ok <==> is_member(store.memberships@, investigation_id, user_id),
        r is Err ==> r->Err_0 is Unauthorized,
        r is Ok ==> ({
            let rows = r->Ok_0@;
            &&& rows.len() == links_listed(
                store.links@,
                store.entities@,
                investigation_id,
            ).len()
            &&& link_rows_forward(rows, *store, investigation_id, store.links@.len() as int)
            &&& link_rows_backward(rows, *store, investigation_id, store.links@.len() as int)
            &&& forall|k: int, l: int|
                0 <= k < l < rows.len() ==> rows[k].created_at >= rows[l].created_at
        }),
{
    check_member_access(store, investigation_id, user_id)?;
    let len = store.links.len();
    let mut rows: Vec<LinkResponse> = Vec::new();
    let mut i: usize = 0;
    while i < len
        invariant
            store.wf(),
            len == store.links@.len(),
            i <= len,
            rows@.len() == links_listed(
                store.links@.take(i as int),
                store.entities@,
                investigation_id,
            ).len(),
            link_rows_forward(rows@, *store, investigation_id, i as int),
            link_rows_backward(rows@, *store, investigation_id, i as int),
        decreases len - i,
    {
        proof {
            assert(store.links@.take(i + 1).drop_last() =~= store.links@.take(i as int));
            assert(store.links@.take(i + 1).last() == store.links@[i as int]);
        }
        let l_inv = store.links[i].investigation_id;
        let from_ok = find_entity(&store.entities, store.links[i].from_entity_id).is_some();
        let to_ok = find_entity(&store.entities, store.links[i].to_entity_id).is_some();
        if l_inv == investigation_id && from_ok && to_ok {
            let resp = build_link_response(store, i);
            let ghost prev = rows@;
            rows.push(resp);
            proof {
                lemma_link_rows_push(prev, resp, *store, investigation_id, i as int);
            }
        } else {
            proof {
                lemma_link_rows_skip(rows@, *store, investigation_id, i as int);
            }
        }
        i = i + 1;
    }
    proof {
        assert(store.links@.take(len as int) =~= store.links@);
    }
    let ghost unsorted = rows@;
    let out = sort_links_desc(rows);
    proof {
        lemma_link_rows_perm(out@, unsorted, *store, investigation_id, len as int);
    }
    Ok(out)
}

/// A creation request is malformed exactly when an endpoint fails to parse
/// as an identifier, names an entity absent from the investigation, or the
/// two entities are already connected in either direction.
pub open spec fn link_request_bad(
    payload: CreateLink,
    s: Store,
    investigation_id: u128,
) -> bool {
    ||| uuid_of(payload.from_entity_id@) is None
    ||| uuid_of(payload.to_entity_id@) is None
    ||| !entity_in(s.entities@, uuid_of(payload.from_entity_id@)->0, investigation_id)
    ||| !entity_in(s.entities@, uuid_of(payload.to_entity_id@)->0, investigation_id)
    ||| linked(
        s.links@,
        investigation_id,
        uuid_of(payload.from_entity_id@)->0,
        uuid_of(payload.to_entity_id@)->0,
    )
}

/// Create a link. Only members may call it; both endpoints must parse and name
/// entities of this investigation, and the pair must not already be
/// connected in either direction — all rejected as `BadRequest`. Returns
/// the fresh identifier.
pub fn create_link(
    store: &mut Store,
    investigation_id: u128,
    user_id: i32,
    payload: CreateLink,
    now: i64,
) -> (r: Result<u128, AppError>)
    requires
        old(store).wf(),
    ensures
        final(store).wf(),
        same_users(*final(store), *old(store)),
        same_investigations(*final(store), *old(store)),
        same_memberships(*final(store), *old(store)),
        same_entities(*final(store), *old(store)),
        same_tags(*final(store), *old(store)),
        same_assocs(*final(store), *old(store)),
        same_extras(*final(store), *old(store)),
        (r is Err && r->Err_0 is Unauthorized) <==> !is_member(
            old(store).memberships@,
            investigation_id,
            user_id,
        ),
        is_member(old(store).memberships@, investigation_id, user_id) ==> ((r is Err
            && r->Err_0 is BadRequest) <==> link_request_bad(payload, *old(store), investigation_id)),
        r is Err ==> same_store(*final(store), *old(store)) && (r->Err_0 is Unauthorized
            || r->Err_0 is BadRequest || r->Err_0 is InternalError),
        r is Ok ==> ({
            let l = final(store).links@.last();
            &&& is_member(old(store).memberships@, investigation_id, user_id)
            &&& !link_request_bad(payload, *old(store), investigation_id)
            &&& final(store).links@ == old(store).links@.push(l)
            &&& l.id == r->Ok_0
            &&& !link_id_taken(old(store).links@, l.id)
            &&& l.investigation_id == investigation_id
            &&& l.from_entity_id == uuid_of(payload.from_entity_id@)->0
            &&& l.to_entity_id == uuid_of(payload.to_entity_id@)->0
            &&& l.title == payload.title
            &&& l.description == payload.description
            &&& l.created_at == now
            &&& l.created_by_id == user_id
        }),
{
    check_member_access(store, investigation_id, user_id)?;
    let from_id = match parse_id(payload.from_entity_id.as_str()) {
        Some(v) => v,
        None => {
            return Err(AppError::BadRequest("Invalid from_entity_id".to_string()));
        },
    };
    let to_id = match parse_id(payload.to_entity_id.as_str()) {
        Some(v) => v,
        None => {
            return Err(AppError::BadRequest("Invalid to_entity_id".to_string()));
        },
    };
    let from_found = match find_entity(&store.entities, from_id) {
        Some(i) => store.entities[i].investigation_id == investigation_id,
        None => false,
    };
    let to_found = match find_entity(&store.entities, to_id) {
        Some(i) => store.entities[i].investigation_id == investigation_id,
        None => false,
    };
    proof {
        assert forall|i: int|
            0 <= i < store.entities@.len() && (#[trigger] store.entities@[i]).id == from_id
            implies i == entity_index(store.entities@, from_id) by {
            let w = entity_index(store.entities@, from_id);
            assert(has_entity(store.entities@, from_id));
            assert(store.entities@[w].id == from_id);
        }
        assert forall|i: int|
            0 <= i < store.entities@.len() && (#[trigger] store.entities@[i]).id == to_id implies i
            == entity_index(store.entities@, to_id) by {
            let w = entity_index(store.entities@, to_id);
            assert(has_entity(store.entities@, to_id));
            assert(store.entities@[w].id == to_id);
        }
    }
    if !from_found || !to_found {
        return Err(AppError::BadRequest("One or both entities not found".to_string()));
    }
    if linked_exec(&store.links, investigation_id, from_id, to_id) {
        return Err(AppError::BadRequest("A link between these entities already exists".to_string()));
    }
    let link_id = new_random_id();
    if find_link(&store.links, link_id).is_some() {
        return Err(AppError::InternalError("Identifier collision".to_string()));
    }
    let l = Link {
        id: link_id,
        investigation_id,
        from_entity_id: from_id,
        to_entity_id: to_id,
        title: payload.title,
        description: payload.description,
        created_at: now,
        created_by_id: user_id,
    };
    proof {
        lemma_link_push(store.links@, l);
    }
    store.links.push(l);
    Ok(link_id)
}

/// Delete a link. Only members may call it; a link absent from the
/// investigation is `NotFound`.
pub fn delete_link(
    store: &mut Store,
    investigation_id: u128,
    link_id: u128,
    user_id: i32,
) -> (r: Result<(), AppError>)
    requires
        old(store).wf(),
    ensures
        final(store).wf(),
        same_users(*final(store), *old(store)),
        same_investigations(*final(store), *old(store)),
        same_memberships(*final(store), *old(store)),
        same_entities(*final(store), *old(store)),
        same_tags(*final(store), *old(store)),
        same_assocs(*final(store), *old(store)),
        same_extras(*final(store), *old(store)),
        (r is Err && r->Err_0 is Unauthorized) <==> !is_member(
            old(store).memberships@,
            investigation_id,
            user_id,
        ),
        is_member(old(store).memberships@, investigation_id, user_id) ==> ((r is Err
            && r->Err_0 is NotFound) <==> !link_in(old(store).links@, link_id, investigation_id)),
        r is Err ==> same_store(*final(store), *old(store)) && (r->Err_0 is Unauthorized
            || r->Err_0 is NotFound),
        r is Ok ==> ({
            let i = choose|i: int|
                0 <= i < old(store).links@.len() && (#[trigger] old(store).links@[i]).id == link_id;
            final(store).links@ == old(store).links@.remove(i)
        }),
{
    check_member_access(store, investigation_id, user_id)?;
    let idx = match find_link(&store.links, link_id) {
        Some(i) => i,
        None => {
            return Err(AppError::NotFound("Link not found".to_string()));
        },
    };
    if store.links[idx].investigation_id != investigation_id {
        proof {
            assert forall|i: int|
                0 <= i < store.links@.len() && (#[trigger] store.links@[i]).id == link_id implies
                store.links@[i].investigation_id != investigation_id by {
                assert(store.links@[i].id == store.links@[idx as int].id);
                assert(i == idx);
            }
        }
        return Err(AppError::NotFound("Link not found".to_string()));
    }
    proof {
        let w = choose|i: int|
            0 <= i < store.links@.len() && (#[trigger] store.links@[i]).id == link_id;
        assert(store.links@[w].id == link_id);
        assert(w == idx);
        store.links@.remove_ensures(idx as int);
    }
    let ghost pre = store.links@;
    store.links.remove(idx);
    proof {
        assert forall|i: int, j: int|
            0 <= i < store.links@.len() && 0 <= j < store.links@.len() && i != j implies (
        #[trigger] store.links@[i]).id != (#[trigger] store.links@[j]).id by {
            let i0: int = if i < idx {
                i
            } else {
                i + 1
            };
            let j0: int = if j < idx {
                j
            } else {
                j + 1
            };
            assert(store.links@[i] == pre[i0]);
            assert(store.links@[j] == pre[j0]);
        }
        assert forall|i: int| 0 <= i < store.links@.len() implies has_investigation(
            store.investigations@,
            (#[trigger] store.links@[i]).investigation_id,
        ) && has_user_id(store.users@, store.links@[i].created_by_id) by {
            let i0: int = if i < idx {
                i
            } else {
                i + 1
            };
            assert(store.links@[i] == pre[i0]);
        }
        assert forall|i: int, j: int|
            0 <= i < store.links@.len() && 0 <= j < store.links@.len() && i != j && (
            #[trigger] store.links@[i]).investigation_id == (
            #[trigger] store.links@[j]).investigation_id implies !((store.links@[i].from_entity_id
            == store.links@[j].from_entity_id && store.links@[i].to_entity_id
            == store.links@[j].to_entity_id) || (store.links@[i].from_entity_id
            == store.links@[j].to_entity_id && store.links@[i].to_entity_id
            == store.links@[j].from_entity_id)) by {
            let i0: int = if i < idx {
                i
            } else {
                i + 1
            };
            let j0: int = if j < idx {
                j
            } else {
                j + 1
            };
            assert(store.links@[i] == pre[i0]);
            assert(store.links@[j] == pre[j0]);
        }
    }
    Ok(())
}


/// The connected relation is symmetric: an investigation connects `a` and
/// `b` exactly when it connects `b` and `a`, whichever direction the
/// stored edge carries.
pub proof fn lemma_linked_symmetric(ls: Seq<Link>, inv: u128, a: u128, b: u128)
    ensures
        linked(ls, inv, a, b) == linked(ls, inv, b, a),
{
    if linked(ls, inv, a, b) {
        let k = choose|i: int|
            0 <= i < ls.len() && (#[trigger] ls[i]).investigation_id == inv && ((
            ls[i].from_entity_id == a && ls[i].to_entity_id == b) || (ls[i].from_entity_id == b
                && ls[i].to_entity_id == a));
        assert(ls[k].investigation_id == inv && ((ls[k].from_entity_id == b && ls[k].to_entity_id
            == a) || (ls[k].from_entity_id == a && ls[k].to_entity_id == b)));
    }
    if linked(ls, inv, b, a) {
        let k = choose|i: int|
            0 <= i < ls.len() && (#[trigger] ls[i]).investigation_id == inv && ((
            ls[i].from_entity_id == b && ls[i].to_entity_id == a) || (ls[i].from_entity_id == a
                && ls[i].to_entity_id == b));
        assert(ls[k].investigation_id == inv && ((ls[k].from_entity_id == a && ls[k].to_entity_id
            == b) || (ls[k].from_entity_id == b && ls[k].to_entity_id == a)));
    }
}

} // verus!
