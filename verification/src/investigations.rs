//! Investigation lifecycle and presence: listing, detail, creation with a
//! unique join code, joining by code, the member list with its liveness
//! flag, and the presence heartbeat.

use vstd::prelude::*;
use vstd::pervasive::VecAdditionalExecFns;

use crate::access::check_member_access;
use crate::codegen::generate_investigation_code;
use crate::errors::AppError;
use crate::ids::new_random_id;
use crate::records::{Investigation, InvestigationMember, Role};
use crate::requests::{CreateInvestigation, JoinInvestigation};
use crate::responses::{clone_opt_string, InvestigationResponse, MemberResponse};
use crate::store::{
    active_code_index, active_code_taken, code_taken, code_wf, find_investigation, find_member,
    find_user_by_id, has_investigation, has_user_id, investigation_index, is_member, member_index,
    lemma_investigation_push, member_id_taken, same_assocs, same_entities, same_extras,
    same_investigations, same_links, same_memberships, same_store, same_tags, same_users,
    user_index, Store,
};
use crate::text::{eq_fold, fold_key};

verus! {

/// How many seconds after its last heartbeat a member still counts as
/// online.
pub const PRESENCE_WINDOW_SECONDS: i64 = 30;

/// How many times creation retries a colliding join code before giving up.
pub const CODE_RETRY_LIMIT: u32 = 10;

/// The membership rows of one investigation, in storage order.
pub open spec fn members_of(ms: Seq<InvestigationMember>, inv: u128) -> Seq<InvestigationMember>
    decreases ms.len(),
{
    if ms.len() == 0 {
        Seq::empty()
    } else {
        let rest = members_of(ms.drop_last(), inv);
        if ms.last().investigation_id == inv {
            rest.push(ms.last())
        } else {
            rest
        }
    }
}

/// The investigations a user belongs to, in storage order.
pub open spec fn investigations_of(
    invs: Seq<Investigation>,
    ms: Seq<InvestigationMember>,
    uid: i32,
) -> Seq<Investigation>
    decreases invs.len(),
{
    if invs.len() == 0 {
        Seq::empty()
    } else {
        let rest = investigations_of(invs.drop_last(), ms, uid);
        if is_member(ms, invs.last().id, uid) {
            rest.push(invs.last())
        } else {
            rest
        }
    }
}

/// Whether a last-seen stamp counts as online at `now`: within the last
/// thirty seconds. No stamp means offline; a stamp in the future counts as
/// online, as the difference is below the window.
pub open spec fn online_spec(last_seen: Option<i64>, now: i64) -> bool {
    last_seen is Some && now - last_seen->0 <= PRESENCE_WINDOW_SECONDS
}

/// The listing row for an investigation: its own columns, its creator's
/// username and its member count. Opaque: reveal it to reach the fields.
#[verifier::opaque]
pub open spec fn investigation_response_matches(
    resp: InvestigationResponse,
    v: Investigation,
    s: Store,
) -> bool {
    &&& resp.id == v.id
    &&& resp.code@ == v.code@
    &&& resp.title@ == v.title@
    &&& resp.description == v.description
    &&& resp.created_at == v.created_at
    &&& resp.updated_at == v.updated_at
    &&& resp.is_active == v.is_active
    &&& resp.created_by@ == s.users@[user_index(s.users@, v.created_by_id)].username@
    &&& resp.member_count == members_of(s.memberships@, v.id).len()
}

/// The member-list row for a membership: the member's profile columns, the
/// membership's role and times, and the derived liveness flag. Opaque:
/// reveal it to reach the fields.
#[verifier::opaque]
pub open spec fn member_response_matches(
    resp: MemberResponse,
    m: InvestigationMember,
    s: Store,
    now: i64,
) -> bool {
    let u = s.users@[user_index(s.users@, m.user_id)];
    &&& resp.id == u.id
    &&& resp.username@ == u.username@
    &&& resp.email@ == u.email@
    &&& resp.avatar == u.avatar
    &&& resp.role == m.role
    &&& resp.joined_at == m.joined_at
    &&& resp.last_seen == m.last_seen
    &&& resp.online == online_spec(m.last_seen, now)
}

/// Appending a membership changes which pairs and identifiers are present
/// in exactly one way.
pub proof fn lemma_member_push(ms: Seq<InvestigationMember>, m: InvestigationMember)
    ensures
        forall|inv: u128, uid: i32|
            #[trigger] is_member(ms.push(m), inv, uid) <==> (is_member(ms, inv, uid) || (inv
                == m.investigation_id && uid == m.user_id)),
        forall|id: i32| #[trigger] member_id_taken(ms.push(m), id) <==> (member_id_taken(ms, id)
            || id == m.id),
{
    let p = ms.push(m);
    assert(p[ms.len() as int] == m);
    assert forall|inv: u128, uid: i32| #[trigger] is_member(p, inv, uid) implies (is_member(
        ms,
        inv,
        uid,
    ) || (inv == m.investigation_id && uid == m.user_id)) by {
        let k = choose|i: int|
            0 <= i < p.len() && (#[trigger] p[i]).investigation_id == inv && p[i].user_id == uid;
        if k < ms.len() {
            assert(ms[k].investigation_id == inv && ms[k].user_id == uid);
        }
    }
    assert forall|inv: u128, uid: i32| is_member(ms, inv, uid) implies #[trigger] is_member(
        p,
        inv,
        uid,
    ) by {
        let k = choose|i: int|
            0 <= i < ms.len() && (#[trigger] ms[i]).investigation_id == inv && ms[i].user_id
                == uid;
        assert(p[k].investigation_id == inv && p[k].user_id == uid);
    }
    assert forall|id: i32| #[trigger] member_id_taken(p, id) implies (member_id_taken(ms, id) || id
        == m.id) by {
        let k = choose|i: int| 0 <= i < p.len() && (#[trigger] p[i]).id == id;
        if k < ms.len() {
            assert(ms[k].id == id);
        }
    }
    assert forall|id: i32| member_id_taken(ms, id) implies #[trigger] member_id_taken(p, id) by {
        let k = choose|i: int| 0 <= i < ms.len() && (#[trigger] ms[i]).id == id;
        assert(p[k].id == id);
    }
}

/// Count the membership rows of one investigation.
fn count_members(ms: &Vec<InvestigationMember>, inv: u128) -> (c: usize)
    ensures
        c == members_of(ms@, inv).len(),
{
    let len = ms.len();
    let mut c: usize = 0;
    let mut i: usize = 0;
    while i < len
        invariant
            len == ms@.len(),
            i <= len,
            c == members_of(ms@.take(i as int), inv).len(),
            c <= i,
        decreases len - i,
    {
        proof {
            assert(ms@.take(i + 1).drop_last() =~= ms@.take(i as int));
            assert(ms@.take(i + 1).last() == ms@[i as int]);
        }
        if ms[i].investigation_id == inv {
            c = c + 1;
        }
        i = i + 1;
    }
    proof {
        assert(ms@.take(len as int) =~= ms@);
    }
    c
}

/// Sort listing rows newest-updated-first; the rows are permuted, nothing
/// else changes.
fn sort_investigations_desc(input: Vec<InvestigationResponse>) -> (out: Vec<InvestigationResponse>)
    ensures
        out@.len() == input@.len(),
        out@.to_multiset() == input@.to_multiset(),
        forall|k: int, l: int|
            0 <= k < l < out@.len() ==> out@[k].updated_at >= out@[l].updated_at,
{
    let mut src = input;
    let mut out: Vec<InvestigationResponse> = Vec::new();
    proof {
        out@.to_multiset_ensures();
        src@.to_multiset_ensures();
        assert(out@.to_multiset().add(src@.to_multiset()) =~= src@.to_multiset());
    }
    while src.len() > 0
        invariant
            out@.len() + src@.len() == input@.len(),
            out@.to_multiset().add(src@.to_multiset()) == input@.to_multiset(),
            forall|k: int, l: int|
                0 <= k < l < out@.len() ==> out@[k].updated_at >= out@[l].updated_at,
            forall|k: int, j: int|
                0 <= k < out@.len() && 0 <= j < src@.len() ==> out@[k].updated_at
                    >= src@[j].updated_at,
        decreases src@.len(),
    {
        let mut mi: usize = 0;
        let mut j: usize = 1;
        while j < src.len()
            invariant
                0 < src@.len(),
                mi < j <= src@.len(),
                forall|t: int| 0 <= t < j ==> src@[mi as int].updated_at >= src@[t].updated_at,
            decreases src@.len() - j,
        {
            if src[j].updated_at > src[mi].updated_at {
                mi = j;
            }
            j = j + 1;
        }
        let ghost old_out = out@;
        let ghost old_src = src@;
        proof {
            old_src.to_multiset_ensures();
            old_out.to_multiset_ensures();
        }
        let x = src.remove(mi);
        out.push(x);
        proof {
            assert(out@.to_multiset() =~= old_out.to_multiset().insert(x));
            assert(src@.to_multiset() =~= old_src.to_multiset().remove(x));
            assert(old_src.contains(x));
            assert(out@.to_multiset().add(src@.to_multiset()) =~= old_out.to_multiset().add(
                old_src.to_multiset(),
            ));
            assert forall|k: int, jj: int|
                0 <= k < out@.len() && 0 <= jj < src@.len() implies out@[k].updated_at
                >= src@[jj].updated_at by {
                if jj < mi {
                    assert(src@[jj] == old_src[jj]);
                } else {
                    assert(src@[jj] == old_src[jj + 1]);
                }
            }
        }
    }
    proof {
        src@.to_multiset_ensures();
        assert(out@.to_multiset() =~= out@.to_multiset().add(src@.to_multiset()));
    }
    out
}

/// Sort member rows by join time, earliest first; the rows are permuted,
/// nothing else changes.
fn sort_members_asc(input: Vec<MemberResponse>) -> (out: Vec<MemberResponse>)
    ensures
        out@.len() == input@.len(),
        out@.to_multiset() == input@.to_multiset(),
        forall|k: int, l: int| 0 <= k < l < out@.len() ==> out@[k].joined_at <= out@[l].joined_at,
{
    let mut src = input;
    let mut out: Vec<MemberResponse> = Vec::new();
    proof {
        out@.to_multiset_ensures();
        src@.to_multiset_ensures();
        assert(out@.to_multiset().add(src@.to_multiset()) =~= src@.to_multiset());
    }
    while src.len() > 0
        invariant
            out@.len() + src@.len() == input@.len(),
            out@.to_multiset().add(src@.to_multiset()) == input@.to_multiset(),
            forall|k: int, l: int|
                0 <= k < l < out@.len() ==> out@[k].joined_at <= out@[l].joined_at,
            forall|k: int, j: int|
                0 <= k < out@.len() && 0 <= j < src@.len() ==> out@[k].joined_at
                    <= src@[j].joined_at,
        decreases src@.len(),
    {
        let mut mi: usize = 0;
        let mut j: usize = 1;
        while j < src.len()
            invariant
                0 < src@.len(),
                mi < j <= src@.len(),
                forall|t: int| 0 <= t < j ==> src@[mi as int].joined_at <= src@[t].joined_at,
            decreases src@.len() - j,
        {
            if src[j].joined_at < src[mi].joined_at {
                mi = j;
            }
            j = j + 1;
        }
        let ghost old_out = out@;
        let ghost old_src = src@;
        proof {
            old_src.to_multiset_ensures();
            old_out.to_multiset_ensures();
        }
        let x = src.remove(mi);
        out.push(x);
        proof {
            assert(out@.to_multiset() =~= old_out.to_multiset().insert(x));
            assert(src@.to_multiset() =~= old_src.to_multiset().remove(x));
            assert(old_src.contains(x));
            assert(out@.to_multiset().add(src@.to_multiset()) =~= old_out.to_multiset().add(
                old_src.to_multiset(),
            ));
            assert forall|k: int, jj: int|
                0 <= k < out@.len() && 0 <= jj < src@.len() implies out@[k].joined_at
                <= src@[jj].joined_at by {
                if jj < mi {
                    assert(src@[jj] == old_src[jj]);
                } else {
                    assert(src@[jj] == old_src[jj + 1]);
                }
            }
        }
    }
    proof {
        src@.to_multiset_ensures();
        assert(out@.to_multiset() =~= out@.to_multiset().add(src@.to_multiset()));
    }
    out
}

/// Build the listing row of the investigation at index `i`.
fn build_investigation_response(store: &Store, i: usize) -> (resp: InvestigationResponse)
    requires
        store.wf(),
        i < store.investigations@.len(),
    ensures
        investigation_response_matches(resp, store.investigations@[i as int], *store),
{
    proof {
        reveal(investigation_response_matches);
    }
    let v = &store.investigations[i];
    let creator_idx = match find_user_by_id(&store.users, v.created_by_id) {
        Some(k) => k,
        None => {
            proof {
                assert(has_user_id(store.users@, v.created_by_id));
            }
            proof {
                assert(false);
            }
            0
        },
    };
    proof {
        assert(has_user_id(store.users@, v.created_by_id));
        let k = user_index(store.users@, v.created_by_id);
        assert(store.users@[k].id == v.created_by_id);
        assert(k == creator_idx);
    }
    let member_count = count_members(&store.memberships, v.id);
    InvestigationResponse {
        id: v.id,
        code: v.code.clone(),
        title: v.title.clone(),
        description: clone_opt_string(&v.description),
        created_at: v.created_at,
        updated_at: v.updated_at,
        is_active: v.is_active,
        created_by: store.users[creator_idx].username.clone(),
        member_count,
    }
}


/// The listing row stands for the investigation at index `i`, which the
/// user belongs to.
pub open spec fn inv_row_at(row: InvestigationResponse, s: Store, uid: i32, i: int) -> bool {
    &&& 0 <= i < s.investigations@.len()
    &&& is_member(s.memberships@, s.investigations@[i].id, uid)
    &&& investigation_response_matches(row, s.investigations@[i], s)
}

/// The listing row stands for some investigation within the prefix.
pub open spec fn inv_row_in(row: InvestigationResponse, s: Store, uid: i32, upto: int) -> bool {
    exists|i: int| #![trigger inv_row_at(row, s, uid, i)] i < upto && inv_row_at(row, s, uid, i)
}

/// One listing row per investigation of the user, over a prefix of the
/// investigation table.
pub open spec fn inv_rows_forward(
    rows: Seq<InvestigationResponse>,
    s: Store,
    uid: i32,
    upto: int,
) -> bool {
    forall|k: int| 0 <= k < rows.len() ==> inv_row_in(#[trigger] rows[k], s, uid, upto)
}

/// Some listing row carries this identifier.
pub open spec fn inv_row_id_in(rows: Seq<InvestigationResponse>, id: u128) -> bool {
    exists|k: int| 0 <= k < rows.len() && (#[trigger] rows[k]).id == id
}

/// Every investigation of the user within the prefix appears among the
/// rows.
pub open spec fn inv_rows_backward(
    rows: Seq<InvestigationResponse>,
    s: Store,
    uid: i32,
    upto: int,
) -> bool {
    forall|i: int|
        0 <= i < upto && is_member(s.memberships@, (#[trigger] s.investigations@[i]).id, uid)
            ==> inv_row_id_in(rows, s.investigations@[i].id)
}

proof fn lemma_inv_rows_push(
    prev: Seq<InvestigationResponse>,
    resp: InvestigationResponse,
    s: Store,
    uid: i32,
    i: int,
)
    requires
        inv_rows_forward(prev, s, uid, i),
        inv_rows_backward(prev, s, uid, i),
        0 <= i < s.investigations@.len(),
        is_member(s.memberships@, s.investigations@[i].id, uid),
        investigation_response_matches(resp, s.investigations@[i], s),
    ensures
        inv_rows_forward(prev.push(resp), s, uid, i + 1),
        inv_rows_backward(prev.push(resp), s, uid, i + 1),
{
    let rows = prev.push(resp);
    assert(rows[prev.len() as int] == resp);
    assert forall|k: int| 0 <= k < rows.len() implies inv_row_in(
        #[trigger] rows[k],
        s,
        uid,
        i + 1,
    ) by {
        if k < prev.len() {
            assert(rows[k] == prev[k]);
            let w = choose|w: int| w < i && inv_row_at(prev[k], s, uid, w);
            assert(w < i + 1 && inv_row_at(rows[k], s, uid, w));
        } else {
            assert(rows[k] == resp);
            assert(inv_row_at(rows[k], s, uid, i));
        }
    }
    assert forall|ii: int|
        0 <= ii < i + 1 && is_member(s.memberships@, (#[trigger] s.investigations@[ii]).id, uid)
        implies inv_row_id_in(rows, s.investigations@[ii].id) by {
        if ii < i {
            let k0 = choose|k0: int|
                0 <= k0 < prev.len() && (#[trigger] prev[k0]).id == s.investigations@[ii].id;
            assert(rows[k0] == prev[k0]);
            assert(0 <= k0 < rows.len() && rows[k0].id == s.investigations@[ii].id);
        } else {
            assert(rows[prev.len() as int].id == s.investigations@[ii].id) by {
                reveal(investigation_response_matches);
            }
        }
    }
}

proof fn lemma_inv_rows_skip(prev: Seq<InvestigationResponse>, s: Store, uid: i32, i: int)
    requires
        inv_rows_forward(prev, s, uid, i),
        inv_rows_backward(prev, s, uid, i),
        0 <= i < s.investigations@.len(),
        !is_member(s.memberships@, s.investigations@[i].id, uid),
    ensures
        inv_rows_forward(prev, s, uid, i + 1),
        inv_rows_backward(prev, s, uid, i + 1),
{
    assert forall|k: int| 0 <= k < prev.len() implies inv_row_in(
        #[trigger] prev[k],
        s,
        uid,
        i + 1,
    ) by {
        let w = choose|w: int| w < i && inv_row_at(prev[k], s, uid, w);
        assert(w < i + 1 && inv_row_at(prev[k], s, uid, w));
    }
}

proof fn lemma_inv_rows_perm(
    out: Seq<InvestigationResponse>,
    unsorted: Seq<InvestigationResponse>,
    s: Store,
    uid: i32,
    upto: int,
)
    requires
        out.to_multiset() == unsorted.to_multiset(),
        inv_rows_forward(unsorted, s, uid, upto),
        inv_rows_backward(unsorted, s, uid, upto),
    ensures
        inv_rows_forward(out, s, uid, upto),
        inv_rows_backward(out, s, uid, upto),
{
    out.to_multiset_ensures();
    unsorted.to_multiset_ensures();
    assert forall|k: int| 0 <= k < out.len() implies inv_row_in(
        #[trigger] out[k],
        s,
        uid,
        upto,
    ) by {
        assert(out.contains(out[k]));
        assert(unsorted.to_multiset().count(out[k]) > 0);
        assert(unsorted.contains(out[k]));
        let k0 = choose|k0: int| 0 <= k0 < unsorted.len() && unsorted[k0] == out[k];
        assert(inv_row_in(unsorted[k0], s, uid, upto));
    }
    assert forall|i: int|
        0 <= i < upto && is_member(s.memberships@, (#[trigger] s.investigations@[i]).id, uid)
        implies inv_row_id_in(out, s.investigations@[i].id) by {
        let k0 = choose|k0: int| 0 <= k0 < unsorted.len() && (#[trigger] unsorted[k0]).id
            == s.investigations@[i].id;
        assert(unsorted.contains(unsorted[k0]));
        assert(out.to_multiset().count(unsorted[k0]) > 0);
        assert(out.contains(unsorted[k0]));
        let k1 = choose|k1: int| 0 <= k1 < out.len() && out[k1] == unsorted[k0];
        assert(0 <= k1 < out.len() && out[k1].id == s.investigations@[i].id);
    }
}

/// List the caller's investigations, newest-updated-first, each annotated
/// with its creator's username and its member count. No membership check
/// guards this listing: it is scoped to the caller by construction.
#[verifier::rlimit(30)]
pub fn list_investigations(store: &Store, user_id: i32) -> (r: Vec<InvestigationResponse>)
    requires
        store.wf(),
    ensures
        r@.len() == investigations_of(store.investigations@, store.memberships@, user_id).len(),
        inv_rows_forward(r@, *store, user_id, store.investigations@.len() as int),
        inv_rows_backward(r@, *store, user_id, store.investigations@.len() as int),
        forall|k: int, l: int| 0 <= k < l < r@.len() ==> r@[k].updated_at >= r@[l].updated_at,
{
    let len = store.investigations.len();
    let mut rows: Vec<InvestigationResponse> = Vec::new();
    let mut i: usize = 0;
    while i < len
        invariant
            store.wf(),
            len == store.investigations@.len(),
            i <= len,
            rows@.len() == investigations_of(
                store.investigations@.take(i as int),
                store.memberships@,
                user_id,
            ).len(),
            inv_rows_forward(rows@, *store, user_id, i as int),
            inv_rows_backward(rows@, *store, user_id, i as int),
        decreases len - i,
    {
        proof {
            assert(store.investigations@.take(i + 1).drop_last() =~= store.investigations@.take(
                i as int,
            ));
            assert(store.investigations@.take(i + 1).last() == store.investigations@[i as int]);
        }
        let inv_id = store.investigations[i].id;
        if find_member(&store.memberships, inv_id, user_id).is_some() {
            let resp = build_investigation_response(store, i);
            let ghost prev = rows@;
            rows.push(resp);
            proof {
                lemma_inv_rows_push(prev, resp, *store, user_id, i as int);
            }
        } else {
            proof {
                lemma_inv_rows_skip(rows@, *store, user_id, i as int);
            }
        }
        i = i + 1;
    }
    proof {
        assert(store.investigations@.take(len as int) =~= store.investigations@);
    }
    let ghost unsorted = rows@;
    let out = sort_investigations_desc(rows);
    proof {
        lemma_inv_rows_perm(out@, unsorted, *store, user_id, len as int);
    }
    out
}

/// The detail view of one investigation. Only members reach it: a
/// non-member learns nothing, not even whether the investigation exists.
pub fn get_investigation(store: &Store, investigation_id: u128, user_id: i32) -> (r: Result<
    InvestigationResponse,
    AppError,
>)
    requires
        store.wf(),
    ensures
        r is Ok <==> is_member(store.memberships@, investigation_id, user_id),
        r is Err ==> r->Err_0 is Unauthorized,
        r is Ok ==> has_investigation(store.investigations@, investigation_id)
            && investigation_response_matches(
            r->Ok_0,
            store.investigations@[investigation_index(store.investigations@, investigation_id)],
            *store,
        ),
{
    check_member_access(store, investigation_id, user_id)?;
    proof {
        assert(has_investigation(store.investigations@, investigation_id));
    }
    // A membership row ties the pair to an existing investigation, so the
    // lookup cannot miss.
    let idx = match find_investigation(&store.investigations, investigation_id) {
        Some(k) => k,
        None => {
            proof {
                assert(false);
            }
            return Err(AppError::Unauthorized("Not a member of this investigation".to_string()));
        },
    };
    proof {
        let k = investigation_index(store.investigations@, investigation_id);
        assert(store.investigations@[k].id == investigation_id);
        assert(k == idx);
    }
    Ok(build_investigation_response(store, idx))
}


/// Whether some stored code case-folds like the given one.
fn code_fold_taken(invs: &Vec<Investigation>, code: &str) -> (r: bool)
    ensures
        r == code_taken(invs@, fold_key(code@)),
{
    let len = invs.len();
    let mut i: usize = 0;
    while i < len
        invariant
            len == invs@.len(),
            i <= len,
            forall|k: int| 0 <= k < i ==> fold_key((#[trigger] invs@[k]).code@) != fold_key(code@),
        decreases len - i,
    {
        if eq_fold(invs[i].code.as_str(), code) {
            return true;
        }
        i = i + 1;
    }
    false
}

/// The index of the active investigation whose code case-folds like the
/// given one, if any.
fn find_active_by_code(invs: &Vec<Investigation>, code: &str) -> (r: Option<usize>)
    ensures
        match r {
            Some(i) => i < invs@.len() && fold_key(invs@[i as int].code@) == fold_key(code@)
                && invs@[i as int].is_active,
            None => !active_code_taken(invs@, fold_key(code@)),
        },
{
    let len = invs.len();
    let mut i: usize = 0;
    while i < len
        invariant
            len == invs@.len(),
            i <= len,
            forall|k: int|
                0 <= k < i ==> !(fold_key((#[trigger] invs@[k]).code@) == fold_key(code@)
                    && invs@[k].is_active),
        decreases len - i,
    {
        if invs[i].is_active && eq_fold(invs[i].code.as_str(), code) {
            return Some(i);
        }
        i = i + 1;
    }
    None
}

/// Draw codes until one is unused, giving up after the retry budget.
fn pick_fresh_code(invs: &Vec<Investigation>) -> (r: Option<String>)
    ensures
        r is Some ==> code_wf(r->0@) && !code_taken(invs@, fold_key(r->0@)),
{
    let mut attempts: u32 = 0;
    while attempts <= CODE_RETRY_LIMIT
        invariant
            attempts <= CODE_RETRY_LIMIT + 1,
        decreases CODE_RETRY_LIMIT + 1 - attempts,
    {
        let code = generate_investigation_code();
        if !code_fold_taken(invs, code.as_str()) {
            return Some(code);
        }
        attempts = attempts + 1;
    }
    None
}

/// Create an investigation: a fresh join code (a bounded retry loop
/// resolves collisions, then gives up with `InternalError`), a fresh
/// identifier, and the creator installed as its first member with the
/// owner role — the two rows appear together or not at all. Returns the
/// new identifier and the code.
pub fn create_investigation(
    store: &mut Store,
    payload: CreateInvestigation,
    user_id: i32,
    now: i64,
) -> (r: Result<(u128, String), AppError>)
    requires
        old(store).wf(),
    ensures
        final(store).wf(),
        same_users(*final(store), *old(store)),
        same_entities(*final(store), *old(store)),
        same_tags(*final(store), *old(store)),
        same_assocs(*final(store), *old(store)),
        same_links(*final(store), *old(store)),
        same_extras(*final(store), *old(store)),
        r is Err ==> same_store(*final(store), *old(store)) && r->Err_0 is InternalError,
        !has_user_id(old(store).users@, user_id) ==> r is Err,
        r is Ok ==> ({
            let v = final(store).investigations@.last();
            let m = final(store).memberships@.last();
            &&& final(store).investigations@ == old(store).investigations@.push(v)
            &&& final(store).memberships@ == old(store).memberships@.push(m)
            &&& final(store).next_membership_id == old(store).next_membership_id + 1
            &&& v.id == r->Ok_0.0
            &&& !has_investigation(old(store).investigations@, v.id)
            &&& v.code@ == r->Ok_0.1@
            &&& code_wf(v.code@)
            &&& !code_taken(old(store).investigations@, fold_key(v.code@))
            &&& v.title == payload.title
            &&& v.description == payload.description
            &&& v.created_at == now
            &&& v.updated_at == now
            &&& v.created_by_id == user_id
            &&& v.is_active == true
            &&& m.investigation_id == v.id
            &&& m.user_id == user_id
            &&& m.role == Role::Owner
            &&& m.joined_at == now
            &&& m.last_seen is None
            &&& m.id == old(store).next_membership_id
        }),
{
    if find_user_by_id(&store.users, user_id).is_none() {
        return Err(AppError::InternalError("Unknown user".to_string()));
    }
    let code = match pick_fresh_code(&store.investigations) {
        Some(c) => c,
        None => {
            return Err(AppError::InternalError("Failed to generate unique code".to_string()));
        },
    };
    let inv_id = new_random_id();
    if find_investigation(&store.investigations, inv_id).is_some() {
        return Err(AppError::InternalError("Identifier collision".to_string()));
    }
    if store.next_membership_id == i32::MAX {
        return Err(
            AppError::InternalError("Membership identifier space exhausted".to_string()),
        );
    }
    let code_out = code.clone();
    let inv = Investigation {
        id: inv_id,
        code,
        title: payload.title,
        description: payload.description,
        created_at: now,
        updated_at: now,
        created_by_id: user_id,
        is_active: true,
    };
    proof {
        lemma_investigation_push(store.investigations@, inv);
    }
    store.investigations.push(inv);
    let mid = store.next_membership_id;
    let m = InvestigationMember {
        id: mid,
        investigation_id: inv_id,
        user_id,
        role: Role::Owner,
        joined_at: now,
        last_seen: None,
    };
    proof {
        lemma_member_push(store.memberships@, m);
    }
    store.memberships.push(m);
    store.next_membership_id = mid + 1;
    Ok((inv_id, code_out))
}

/// Join an investigation by its code, compared without regard to ASCII
/// case (submissions are normalized). An unknown or inactive code is
/// `NotFound`; joining twice is `BadRequest`; every other known caller is
/// owed success: a membership with the member role is appended and the
/// investigation's identifier returned.
pub fn join_investigation(
    store: &mut Store,
    payload: JoinInvestigation,
    user_id: i32,
    now: i64,
) -> (r: Result<u128, AppError>)
    requires
        old(store).wf(),
    ensures
        final(store).wf(),
        same_users(*final(store), *old(store)),
        same_investigations(*final(store), *old(store)),
        same_entities(*final(store), *old(store)),
        same_tags(*final(store), *old(store)),
        same_assocs(*final(store), *old(store)),
        same_links(*final(store), *old(store)),
        same_extras(*final(store), *old(store)),
        (r is Err && r->Err_0 is NotFound) <==> !active_code_taken(
            old(store).investigations@,
            fold_key(payload.code@),
        ),
        active_code_taken(old(store).investigations@, fold_key(payload.code@)) ==> ((r is Err
            && r->Err_0 is BadRequest) <==> is_member(
            old(store).memberships@,
            old(store).investigations@[active_code_index(
                old(store).investigations@,
                fold_key(payload.code@),
            )].id,
            user_id,
        )),
        r is Err ==> same_memberships(*final(store), *old(store)) && (r->Err_0 is NotFound
            || r->Err_0 is BadRequest || r->Err_0 is InternalError),
        (active_code_taken(old(store).investigations@, fold_key(payload.code@)) && !is_member(
            old(store).memberships@,
            old(store).investigations@[active_code_index(
                old(store).investigations@,
                fold_key(payload.code@),
            )].id,
            user_id,
        ) && has_user_id(old(store).users@, user_id) && old(store).next_membership_id < i32::MAX)
            ==> r is Ok,
        r is Ok ==> ({
            let v = old(store).investigations@[active_code_index(
                old(store).investigations@,
                fold_key(payload.code@),
            )];
            let m = final(store).memberships@.last();
            &&& active_code_taken(old(store).investigations@, fold_key(payload.code@))
            &&& !is_member(old(store).memberships@, v.id, user_id)
            &&& r->Ok_0 == v.id
            &&& final(store).memberships@ == old(store).memberships@.push(m)
            &&& final(store).next_membership_id == old(store).next_membership_id + 1
            &&& m.investigation_id == v.id
            &&& m.user_id == user_id
            &&& m.role == Role::Member
            &&& m.joined_at == now
            &&& m.last_seen is None
            &&& m.id == old(store).next_membership_id
        }),
{
    let idx = match find_active_by_code(&store.investigations, payload.code.as_str()) {
        Some(i) => i,
        None => {
            return Err(AppError::NotFound("Investigation not found".to_string()));
        },
    };
    proof {
        assert(active_code_taken(store.investigations@, fold_key(payload.code@)));
        let k = active_code_index(store.investigations@, fold_key(payload.code@));
        assert(fold_key(store.investigations@[k].code@) == fold_key(payload.code@)
            && store.investigations@[k].is_active);
        assert(k == idx);
    }
    let inv_id = store.investigations[idx].id;
    if find_member(&store.memberships, inv_id, user_id).is_some() {
        return Err(AppError::BadRequest("Already a member".to_string()));
    }
    if find_user_by_id(&store.users, user_id).is_none() {
        return Err(AppError::InternalError("Unknown user".to_string()));
    }
    if store.next_membership_id == i32::MAX {
        return Err(
            AppError::InternalError("Membership identifier space exhausted".to_string()),
        );
    }
    let mid = store.next_membership_id;
    let m = InvestigationMember {
        id: mid,
        investigation_id: inv_id,
        user_id,
        role: Role::Member,
        joined_at: now,
        last_seen: None,
    };
    proof {
        lemma_member_push(store.memberships@, m);
    }
    store.memberships.push(m);
    store.next_membership_id = mid + 1;
    Ok(inv_id)
}

/// Build the member-list row for the membership at index `i`.
fn build_member_response(store: &Store, i: usize, now: i64) -> (resp: MemberResponse)
    requires
        store.wf(),
        i < store.memberships@.len(),
    ensures
        member_response_matches(resp, store.memberships@[i as int], *store, now),
{
    proof {
        reveal(member_response_matches);
    }
    let m = &store.memberships[i];
    let uidx = match find_user_by_id(&store.users, m.user_id) {
        Some(k) => k,
        None => {
            proof {
                assert(has_user_id(store.users@, m.user_id));
                assert(false);
            }
            0
        },
    };
    proof {
        assert(has_user_id(store.users@, m.user_id));
        let k = user_index(store.users@, m.user_id);
        assert(store.users@[k].id == m.user_id);
        assert(k == uidx);
    }
    let u = &store.users[uidx];
    let online = match m.last_seen {
        Some(ls) => (now as i128) - (ls as i128) <= (PRESENCE_WINDOW_SECONDS as i128),
        None => false,
    };
    MemberResponse {
        id: u.id,
        username: u.username.clone(),
        email: u.email.clone(),
        avatar: clone_opt_string(&u.avatar),
        role: m.role,
        joined_at: m.joined_at,
        last_seen: m.last_seen,
        online,
    }
}

/// The member row stands for the membership at index `i`, which belongs
/// to the investigation.
pub open spec fn mem_row_at(row: MemberResponse, s: Store, inv: u128, now: i64, i: int) -> bool {
    &&& 0 <= i < s.memberships@.len()
    &&& s.memberships@[i].investigation_id == inv
    &&& member_response_matches(row, s.memberships@[i], s, now)
}

/// The member row stands for some membership within the prefix.
pub open spec fn mem_row_in(row: MemberResponse, s: Store, inv: u128, now: i64, upto: int) -> bool {
    exists|i: int|
        #![trigger mem_row_at(row, s, inv, now, i)]
        i < upto && mem_row_at(row, s, inv, now, i)
}

/// One member row per membership of the investigation, over a prefix of
/// the membership table.
pub open spec fn mem_rows_forward(
    rows: Seq<MemberResponse>,
    s: Store,
    inv: u128,
    now: i64,
    upto: int,
) -> bool {
    forall|k: int| 0 <= k < rows.len() ==> mem_row_in(#[trigger] rows[k], s, inv, now, upto)
}

/// Some member row carries this user identifier.
pub open spec fn mem_row_id_in(rows: Seq<MemberResponse>, uid: i32) -> bool {
    exists|k: int| 0 <= k < rows.len() && (#[trigger] rows[k]).id == uid
}

/// Every membership of the investigation within the prefix appears among
/// the rows.
pub open spec fn mem_rows_backward(rows: Seq<MemberResponse>, s: Store, inv: u128, upto: int) -> bool {
    forall|i: int|
        0 <= i < upto && (#[trigger] s.memberships@[i]).investigation_id == inv
            ==> mem_row_id_in(rows, s.memberships@[i].user_id)
}

proof fn lemma_mem_rows_push(
    prev: Seq<MemberResponse>,
    resp: MemberResponse,
    s: Store,
    inv: u128,
    now: i64,
    i: int,
)
    requires
        mem_rows_forward(prev, s, inv, now, i),
        mem_rows_backward(prev, s, inv, i),
        0 <= i < s.memberships@.len(),
        s.memberships@[i].investigation_id == inv,
        has_user_id(s.users@, s.memberships@[i].user_id),
        member_response_matches(resp, s.memberships@[i], s, now),
    ensures
        mem_rows_forward(prev.push(resp), s, inv, now, i + 1),
        mem_rows_backward(prev.push(resp), s, inv, i + 1),
{
    let rows = prev.push(resp);
    assert(rows[prev.len() as int] == resp);
    assert forall|k: int| 0 <= k < rows.len() implies mem_row_in(
        #[trigger] rows[k],
        s,
        inv,
        now,
        i + 1,
    ) by {
        if k < prev.len() {
            assert(rows[k] == prev[k]);
            let w = choose|w: int| w < i && mem_row_at(prev[k], s, inv, now, w);
            assert(w < i + 1 && mem_row_at(rows[k], s, inv, now, w));
        } else {
            assert(rows[k] == resp);
            assert(mem_row_at(rows[k], s, inv, now, i));
        }
    }
    assert forall|ii: int|
        0 <= ii < i + 1 && (#[trigger] s.memberships@[ii]).investigation_id == inv implies
        mem_row_id_in(rows, s.memberships@[ii].user_id) by {
        if ii < i {
            let k0 = choose|k0: int|
                0 <= k0 < prev.len() && (#[trigger] prev[k0]).id == s.memberships@[ii].user_id;
            assert(rows[k0] == prev[k0]);
            assert(0 <= k0 < rows.len() && rows[k0].id == s.memberships@[ii].user_id);
        } else {
            assert(rows[prev.len() as int].id == s.memberships@[ii].user_id) by {
                reveal(member_response_matches);
                let w = user_index(s.users@, s.memberships@[ii].user_id);
                assert(s.users@[w].id == s.memberships@[ii].user_id);
            }
        }
    }
}

proof fn lemma_mem_rows_skip(prev: Seq<MemberResponse>, s: Store, inv: u128, now: i64, i: int)
    requires
        mem_rows_forward(prev, s, inv, now, i),
        mem_rows_backward(prev, s, inv, i),
        0 <= i < s.memberships@.len(),
        s.memberships@[i].investigation_id != inv,
    ensures
        mem_rows_forward(prev, s, inv, now, i + 1),
        mem_rows_backward(prev, s, inv, i + 1),
{
    assert forall|k: int| 0 <= k < prev.len() implies mem_row_in(
        #[trigger] prev[k],
        s,
        inv,
        now,
        i + 1,
    ) by {
        let w = choose|w: int| w < i && mem_row_at(prev[k], s, inv, now, w);
        assert(w < i + 1 && mem_row_at(prev[k], s, inv, now, w));
    }
}

proof fn lemma_mem_rows_perm(
    out: Seq<MemberResponse>,
    unsorted: Seq<MemberResponse>,
    s: Store,
    inv: u128,
    now: i64,
    upto: int,
)
    requires
        out.to_multiset() == unsorted.to_multiset(),
        mem_rows_forward(unsorted, s, inv, now, upto),
        mem_rows_backward(unsorted, s, inv, upto),
    ensures
        mem_rows_forward(out, s, inv, now, upto),
        mem_rows_backward(out, s, inv, upto),
{
    out.to_multiset_ensures();
    unsorted.to_multiset_ensures();
    assert forall|k: int| 0 <= k < out.len() implies mem_row_in(
        #[trigger] out[k],
        s,
        inv,
        now,
        upto,
    ) by {
        assert(out.contains(out[k]));
        assert(unsorted.to_multiset().count(out[k]) > 0);
        assert(unsorted.contains(out[k]));
        let k0 = choose|k0: int| 0 <= k0 < unsorted.len() && unsorted[k0] == out[k];
        assert(mem_row_in(unsorted[k0], s, inv, now, upto));
    }
    assert forall|i: int|
        0 <= i < upto && (#[trigger] s.memberships@[i]).investigation_id == inv implies
        mem_row_id_in(out, s.memberships@[i].user_id) by {
        let k0 = choose|k0: int| 0 <= k0 < unsorted.len() && (#[trigger] unsorted[k0]).id
            == s.memberships@[i].user_id;
        assert(unsorted.contains(unsorted[k0]));
        assert(out.to_multiset().count(unsorted[k0]) > 0);
        assert(out.contains(unsorted[k0]));
        let k1 = choose|k1: int| 0 <= k1 < out.len() && out[k1] == unsorted[k0];
        assert(0 <= k1 < out.len() && out[k1].id == s.memberships@[i].user_id);
    }
}

/// The member list of an investigation, joined earliest first, each row
/// carrying the member's profile, role, join time, last heartbeat and the
/// derived online flag. Only members may list.
#[verifier::rlimit(30)]
pub fn get_members(store: &Store, investigation_id: u128, user_id: i32, now: i64) -> (r: Result<
    Vec<MemberResponse>,
    AppError,
>)
    requires
        store.wf(),
    ensures
        r is Ok <==> is_member(store.memberships@, investigation_id, user_id),
        r is Err ==> r->Err_0 is Unauthorized,
        r is Ok ==> ({
            let rows = r->Ok_0@;
            &&& rows.len() == members_of(store.memberships@, investigation_id).len()
            &&& mem_rows_forward(rows, *store, investigation_id, now, store.memberships@.len() as int)
            &&& mem_rows_backward(rows, *store, investigation_id, store.memberships@.len() as int)
            &&& forall|k: int, l: int|
                0 <= k < l < rows.len() ==> rows[k].joined_at <= rows[l].joined_at
        }),
{
    check_member_access(store, investigation_id, user_id)?;
    let len = store.memberships.len();
    let mut rows: Vec<MemberResponse> = Vec::new();
    let mut i: usize = 0;
    while i < len
        invariant
            store.wf(),
            len == store.memberships@.len(),
            i <= len,
            rows@.len() == members_of(store.memberships@.take(i as int), investigation_id).len(),
            mem_rows_forward(rows@, *store, investigation_id, now, i as int),
            mem_rows_backward(rows@, *store, investigation_id, i as int),
        decreases len - i,
    {
        proof {
            assert(store.memberships@.take(i + 1).drop_last() =~= store.memberships@.take(
                i as int,
            ));
            assert(store.memberships@.take(i + 1).last() == store.memberships@[i as int]);
        }
        if store.memberships[i].investigation_id == investigation_id {
            let resp = build_member_response(store, i, now);
            let ghost prev = rows@;
            rows.push(resp);
            proof {
                lemma_mem_rows_push(prev, resp, *store, investigation_id, now, i as int);
            }
        } else {
            proof {
                lemma_mem_rows_skip(rows@, *store, investigation_id, now, i as int);
            }
        }
        i = i + 1;
    }
    proof {
        assert(store.memberships@.take(len as int) =~= store.memberships@);
    }
    let ghost unsorted = rows@;
    let out = sort_members_asc(rows);
    proof {
        lemma_mem_rows_perm(out@, unsorted, *store, investigation_id, now, len as int);
    }
    Ok(out)
}

/// Stamp the caller's membership with the current instant and return it.
/// The lookup itself is the authorization: without a membership row there
/// is nothing to stamp, and the caller gets `NotFound`.
pub fn update_presence(store: &mut Store, investigation_id: u128, user_id: i32, now: i64) -> (r:
    Result<i64, AppError>)
    requires
        old(store).wf(),
    ensures
        final(store).wf(),
        same_users(*final(store), *old(store)),
        same_investigations(*final(store), *old(store)),
        same_entities(*final(store), *old(store)),
        same_tags(*final(store), *old(store)),
        same_assocs(*final(store), *old(store)),
        same_links(*final(store), *old(store)),
        same_extras(*final(store), *old(store)),
        final(store).next_membership_id == old(store).next_membership_id,
        r is Ok <==> is_member(old(store).memberships@, investigation_id, user_id),
        r is Err ==> r->Err_0 is NotFound && final(store).memberships@
            == old(store).memberships@,
        r is Ok ==> ({
            let i = member_index(old(store).memberships@, investigation_id, user_id);
            &&& r->Ok_0 == now
            &&& final(store).memberships@ == old(store).memberships@.update(
                i,
                InvestigationMember { last_seen: Some(now), ..old(store).memberships@[i] },
            )
        }),
{
    let idx = match find_member(&store.memberships, investigation_id, user_id) {
        Some(i) => i,
        None => {
            return Err(AppError::NotFound("Not a member".to_string()));
        },
    };
    proof {
        let k = member_index(store.memberships@, investigation_id, user_id);
        assert(store.memberships@[k].investigation_id == investigation_id
            && store.memberships@[k].user_id == user_id);
        assert(k == idx);
    }
    let m = store.memberships[idx];
    store.memberships.set(
        idx,
        InvestigationMember {
            id: m.id,
            investigation_id: m.investigation_id,
            user_id: m.user_id,
            role: m.role,
            joined_at: m.joined_at,
            last_seen: Some(now),
        },
    );
    Ok(now)
}

} // verus!
