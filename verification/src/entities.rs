//! The entity/tag graph: tag resolution, entity listing with filters,
//! creation, sparse update and deletion.

use vstd::prelude::*;
use vstd::pervasive::VecAdditionalExecFns;

use crate::access::check_member_access;
use crate::errors::AppError;
use crate::ids::new_random_id;
use crate::records::{Entity, EntityTag, Tag};
use crate::requests::{CreateEntity, EntityQuery, UpdateEntity};
use crate::responses::{clone_opt_string, EntityResponse, TagInfo};
use crate::store::{
    assoc_exists, lemma_assoc_push, lemma_entity_push, find_entity, find_investigation, find_tag_by_id, find_user_by_id,
    has_assoc, has_entity, has_investigation, has_tag_key, has_user_id, entity_in, entity_index,
    is_member, lemma_tag_push, same_assocs, same_entities, same_extras, same_investigations,
    same_links, same_memberships, same_store, same_tags, same_users, tag_id_taken,
    tag_index_by_id, tag_index_by_key, user_index, Store,
};
use crate::text::{contains_fold, contains_fold_exec, eq_fold, fold_key, trim_spec, trimmed};

verus! {

/// What parsing an RFC 3339 date-time yields: the instant as whole seconds
/// since the Unix epoch, or nothing when the text does not parse. Named,
/// not spelled out: it stands for the outside crate's date grammar, a pure
/// function of the text.
pub uninterp spec fn rfc3339_seconds(s: Seq<char>) -> Option<i64>;

/// Relies on `time::OffsetDateTime::parse` with the RFC 3339 well-known
/// format and `unix_timestamp`, deterministic in the string;
/// `rfc3339_seconds` names the outcome.
#[verifier::external_body]
fn parse_rfc3339(s: &str) -> (r: Option<i64>)
    ensures
        r == rfc3339_seconds(s@),
{
    time::OffsetDateTime::parse(s, &time::format_description::well_known::Rfc3339)
        .ok()
        .map(|d| d.unix_timestamp())
}

/// The instant an optional date field denotes: absent, or unparsable —
/// which is silently treated as absent — or the parsed instant.
pub open spec fn parsed_date(o: Option<String>) -> Option<i64> {
    match o {
        Some(s) => rfc3339_seconds(s@),
        None => None,
    }
}

/// Parse an optional date field, treating unparsable text as absent.
fn parse_date_field(o: &Option<String>) -> (r: Option<i64>)
    ensures
        r == parsed_date(*o),
{
    match o {
        Some(s) => parse_rfc3339(s.as_str()),
        None => None,
    }
}

/// The tag names an input list actually asks for: each name trimmed, empty
/// results dropped, order and duplicates kept.
pub open spec fn cleaned_names(names: Seq<String>) -> Seq<Seq<char>>
    decreases names.len(),
{
    if names.len() == 0 {
        Seq::empty()
    } else {
        let rest = cleaned_names(names.drop_last());
        if trim_spec(names.last()@).len() > 0 {
            rest.push(trim_spec(names.last()@))
        } else {
            rest
        }
    }
}

/// The identifier `id` is what the name resolves to in this tag table:
/// a tag whose name case-folds like it exists and carries `id`.
pub open spec fn tag_resolved_to(ts: Seq<Tag>, inv: u128, name: Seq<char>, id: u128) -> bool {
    &&& has_tag_key(ts, inv, fold_key(name))
    &&& ts[tag_index_by_key(ts, inv, fold_key(name))].id == id
}

/// The index of the investigation's tag whose name case-folds like the
/// given (already trimmed) name, if any.
fn find_tag_by_name(ts: &Vec<Tag>, inv: u128, name: &str) -> (r: Option<usize>)
    ensures
        match r {
            Some(i) => i < ts@.len() && ts@[i as int].investigation_id == inv && fold_key(
                ts@[i as int].name@,
            ) == fold_key(name@),
            None => !has_tag_key(ts@, inv, fold_key(name@)),
        },
{
    let len = ts.len();
    let mut i: usize = 0;
    while i < len
        invariant
            len == ts@.len(),
            i <= len,
            forall|k: int|
                0 <= k < i ==> !((#[trigger] ts@[k]).investigation_id == inv && fold_key(
                    ts@[k].name@,
                ) == fold_key(name@)),
        decreases len - i,
    {
        if ts[i].investigation_id == inv && eq_fold(ts[i].name.as_str(), name) {
            return Some(i);
        }
        i = i + 1;
    }
    None
}

/// The name is a cleaned input whose case-folded key no earlier cleaned
/// input carries: the display casing a created tag keeps, first write
/// winning.
pub open spec fn name_first_for_key(cleaned: Seq<Seq<char>>, name: Seq<char>) -> bool {
    exists|k: int|
        #![trigger cleaned[k]]
        0 <= k < cleaned.len() && cleaned[k] == name && (forall|k2: int|
            0 <= k2 < k ==> fold_key(#[trigger] cleaned[k2]) != fold_key(name))
}

/// Every cleaned name already has a tag in the investigation; resolution
/// then creates nothing and is owed success.
pub open spec fn all_names_present(ts: Seq<Tag>, inv: u128, cleaned: Seq<Seq<char>>) -> bool {
    forall|k: int| 0 <= k < cleaned.len() ==> has_tag_key(ts, inv, fold_key(#[trigger] cleaned[k]))
}

/// A name that is first for its key stays so when the cleaned list grows.
proof fn lemma_name_first_extend(cleaned: Seq<Seq<char>>, extra: Seq<char>, name: Seq<char>)
    requires
        name_first_for_key(cleaned, name),
    ensures
        name_first_for_key(cleaned.push(extra), name),
{
    let p = cleaned.push(extra);
    let k = choose|k: int|
        0 <= k < cleaned.len() && cleaned[k] == name && (forall|k2: int|
            0 <= k2 < k ==> fold_key(#[trigger] cleaned[k2]) != fold_key(name));
    assert(p[k] == cleaned[k]);
    assert forall|k2: int| 0 <= k2 < k implies fold_key(#[trigger] p[k2]) != fold_key(name) by {
        assert(p[k2] == cleaned[k2]);
    }
    assert(0 <= k < p.len() && p[k] == name);
}

/// Every input whose trimmed form is non-empty appears among the cleaned
/// names.
proof fn lemma_cleaned_contains(names: Seq<String>, i: int)
    requires
        0 <= i < names.len(),
        trim_spec(names[i]@).len() > 0,
    ensures
        exists|k: int|
            #![trigger cleaned_names(names)[k]]
            0 <= k < cleaned_names(names).len() && cleaned_names(names)[k] == trim_spec(
                names[i]@,
            ),
    decreases names.len(),
{
    let c = cleaned_names(names);
    if i == names.len() - 1 {
        assert(names.last() == names[i]);
        assert(c[c.len() - 1] == trim_spec(names[i]@));
    } else {
        lemma_cleaned_contains(names.drop_last(), i);
        let rest = cleaned_names(names.drop_last());
        let k0 = choose|k: int|
            0 <= k < rest.len() && rest[k] == trim_spec(names.drop_last()[i]@);
        assert(names.drop_last()[i] == names[i]);
        assert(c[k0] == rest[k0]);
    }
}

/// Appending a tag with a key nobody holds moves no existing resolution:
/// every present key keeps its index and its row.
proof fn lemma_tag_append_stable(ts: Seq<Tag>, t: Tag)
    requires
        forall|i: int, j: int|
            0 <= i < ts.len() && 0 <= j < ts.len() && i != j ==> !((#[trigger] ts[i]).investigation_id
                == (#[trigger] ts[j]).investigation_id && fold_key(ts[i].name@) == fold_key(
                ts[j].name@)),
    ensures
        forall|inv: u128, key: Seq<u32>|
            has_tag_key(ts, inv, key) && !(t.investigation_id == inv && fold_key(t.name@) == key)
                ==> #[trigger] tag_index_by_key(ts.push(t), inv, key) == tag_index_by_key(
                ts,
                inv,
                key,
            ),
        forall|inv: u128, key: Seq<u32>|
            #[trigger] has_tag_key(ts, inv, key) ==> 0 <= tag_index_by_key(ts, inv, key) < ts.len()
                && ts[tag_index_by_key(ts, inv, key)].investigation_id == inv && fold_key(
                ts[tag_index_by_key(ts, inv, key)].name@,
            ) == key,
{
    let p = ts.push(t);
    assert forall|inv: u128, key: Seq<u32>| #[trigger] has_tag_key(ts, inv, key) implies 0
        <= tag_index_by_key(ts, inv, key) < ts.len() && ts[tag_index_by_key(
        ts,
        inv,
        key,
    )].investigation_id == inv && fold_key(ts[tag_index_by_key(ts, inv, key)].name@) == key by {
        let w = tag_index_by_key(ts, inv, key);
        assert(0 <= w < ts.len() && ts[w].investigation_id == inv && fold_key(ts[w].name@) == key);
    }
    assert forall|inv: u128, key: Seq<u32>|
        has_tag_key(ts, inv, key) && !(t.investigation_id == inv && fold_key(t.name@) == key)
        implies #[trigger] tag_index_by_key(p, inv, key) == tag_index_by_key(ts, inv, key) by {
        let w0 = tag_index_by_key(ts, inv, key);
        assert(0 <= w0 < ts.len() && ts[w0].investigation_id == inv && fold_key(ts[w0].name@)
            == key);
        assert(p[w0] == ts[w0]);
        assert(has_tag_key(p, inv, key));
        let w1 = tag_index_by_key(p, inv, key);
        assert(0 <= w1 < p.len() && p[w1].investigation_id == inv && fold_key(p[w1].name@) == key);
        if w1 < ts.len() {
            assert(ts[w1].investigation_id == inv && fold_key(ts[w1].name@) == key);
            assert(w1 == w0);
        } else {
            assert(p[w1] == t);
            assert(false);
        }
    }
}

/// Resolve a list of tag names inside one investigation: each name is
/// trimmed, empty names are skipped, an existing tag is matched without
/// regard to ASCII case, and a missing one is created with the submitted
/// casing. One identifier comes back per non-empty name, duplicates
/// preserved. Only the tag table grows; a random-identifier collision
/// aborts with `InternalError`, leaving the tags created so far in place
/// (as the storage layer would).
pub fn resolve_tags(
    store: &mut Store,
    investigation_id: u128,
    tag_names: &Vec<String>,
    now: i64,
) -> (r: Result<Vec<u128>, AppError>)
    requires
        old(store).wf(),
    ensures
        final(store).wf(),
        same_users(*final(store), *old(store)),
        same_investigations(*final(store), *old(store)),
        same_memberships(*final(store), *old(store)),
        same_entities(*final(store), *old(store)),
        same_assocs(*final(store), *old(store)),
        same_links(*final(store), *old(store)),
        same_extras(*final(store), *old(store)),
        old(store).tags@.is_prefix_of(final(store).tags@),
        forall|j: int|
            old(store).tags@.len() <= j < final(store).tags@.len()
                ==> (#[trigger] final(store).tags@[j]).investigation_id == investigation_id
                && !has_tag_key(
                old(store).tags@,
                investigation_id,
                fold_key(final(store).tags@[j].name@),
            ) && final(store).tags@[j].created_at == now && final(store).tags@[j].color is None,
        r is Err ==> r->Err_0 is InternalError,
        !has_investigation(old(store).investigations@, investigation_id) ==> r is Err
            && final(store).tags@ == old(store).tags@,
        (has_investigation(old(store).investigations@, investigation_id) && all_names_present(
            old(store).tags@,
            investigation_id,
            cleaned_names(tag_names@),
        )) ==> r is Ok,
        r is Ok ==> ({
            let ids = r->Ok_0@;
            let cleaned = cleaned_names(tag_names@);
            let ts = final(store).tags@;
            &&& (forall|j: int|
                old(store).tags@.len() <= j < ts.len() ==> name_first_for_key(
                    cleaned,
                    (#[trigger] ts[j]).name@,
                ))
            &&& ids.len() == cleaned.len()
            &&& forall|k: int|
                0 <= k < ids.len() ==> tag_resolved_to(
                    ts,
                    investigation_id,
                    cleaned[k],
                    #[trigger] ids[k],
                )
            &&& forall|key: Seq<u32>|
                #[trigger] has_tag_key(ts, investigation_id, key) <==> (has_tag_key(
                    old(store).tags@,
                    investigation_id,
                    key,
                ) || exists|k: int| 0 <= k < cleaned.len() && fold_key(#[trigger] cleaned[k])
                    == key)
        }),
{
    if find_investigation(&store.investigations, investigation_id).is_none() {
        return Err(AppError::InternalError("Unknown investigation".to_string()));
    }
    let len = tag_names.len();
    let mut ids: Vec<u128> = Vec::new();
    let mut i: usize = 0;
    while i < len
        invariant
            store.wf(),
            len == tag_names@.len(),
            i <= len,
            has_investigation(store.investigations@, investigation_id),
            same_users(*store, *old(store)),
            same_investigations(*store, *old(store)),
            same_memberships(*store, *old(store)),
            same_entities(*store, *old(store)),
            same_assocs(*store, *old(store)),
            same_links(*store, *old(store)),
            same_extras(*store, *old(store)),
            old(store).tags@.is_prefix_of(store.tags@),
            forall|j: int|
                old(store).tags@.len() <= j < store.tags@.len() ==> (#[trigger] store.tags@[j]).investigation_id
                    == investigation_id && !has_tag_key(
                    old(store).tags@,
                    investigation_id,
                    fold_key(store.tags@[j].name@),
                ) && store.tags@[j].created_at == now && store.tags@[j].color is None,
            forall|j: int|
                old(store).tags@.len() <= j < store.tags@.len() ==> name_first_for_key(
                    cleaned_names(tag_names@.take(i as int)),
                    (#[trigger] store.tags@[j]).name@,
                ),
            ids@.len() == cleaned_names(tag_names@.take(i as int)).len(),
            forall|k: int|
                0 <= k < ids@.len() ==> tag_resolved_to(
                    store.tags@,
                    investigation_id,
                    cleaned_names(tag_names@.take(i as int))[k],
                    #[trigger] ids@[k],
                ),
            forall|key: Seq<u32>|
                #[trigger] has_tag_key(store.tags@, investigation_id, key) <==> (has_tag_key(
                    old(store).tags@,
                    investigation_id,
                    key,
                ) || exists|k: int|
                    0 <= k < cleaned_names(tag_names@.take(i as int)).len() && fold_key(
                        #[trigger] cleaned_names(tag_names@.take(i as int))[k],
                    ) == key),
        decreases len - i,
    {
        let ghost pre_cleaned = cleaned_names(tag_names@.take(i as int));
        proof {
            assert(tag_names@.take(i + 1).drop_last() =~= tag_names@.take(i as int));
            assert(tag_names@.take(i + 1).last() == tag_names@[i as int]);
        }
        let name = trimmed(tag_names[i].as_str());
        if name.as_str().is_empty() {
            proof {
                assert(cleaned_names(tag_names@.take(i + 1)) == pre_cleaned);
            }
            i = i + 1;
            continue ;
        }
        let ghost cleaned_next = cleaned_names(tag_names@.take(i + 1));
        proof {
            assert(cleaned_next == pre_cleaned.push(name@));
        }
        let tag_id: u128 = match find_tag_by_name(&store.tags, investigation_id, name.as_str()) {
            Some(ti) => {
                proof {
                    assert(has_tag_key(store.tags@, investigation_id, fold_key(name@)));
                    let w = tag_index_by_key(store.tags@, investigation_id, fold_key(name@));
                    assert(store.tags@[w].investigation_id == investigation_id && fold_key(
                        store.tags@[w].name@,
                    ) == fold_key(name@));
                    assert(w == ti);
                    assert forall|j: int|
                        old(store).tags@.len() <= j < store.tags@.len() implies name_first_for_key(
                        cleaned_next,
                        (#[trigger] store.tags@[j]).name@,
                    ) by {
                        lemma_name_first_extend(pre_cleaned, name@, store.tags@[j].name@);
                    }
                }
                store.tags[ti].id
            },
            None => {
                let fresh = new_random_id();
                if find_tag_by_id(&store.tags, fresh).is_some() {
                    proof {
                        if all_names_present(
                            old(store).tags@,
                            investigation_id,
                            cleaned_names(tag_names@),
                        ) {
                            lemma_cleaned_contains(tag_names@, i as int);
                            let k0 = choose|k: int|
                                0 <= k < cleaned_names(tag_names@).len() && cleaned_names(
                                    tag_names@,
                                )[k] == trim_spec(tag_names@[i as int]@);
                            assert(has_tag_key(
                                old(store).tags@,
                                investigation_id,
                                fold_key(cleaned_names(tag_names@)[k0]),
                            ));
                            assert(has_tag_key(store.tags@, investigation_id, fold_key(name@)));
                            assert(false);
                        }
                    }
                    return Err(AppError::InternalError("Identifier collision".to_string()));
                }
                let tag = Tag {
                    id: fresh,
                    investigation_id,
                    name: name.clone(),
                    color: None,
                    created_at: now,
                };
                let ghost pre_tags = store.tags@;
                proof {
                    lemma_tag_push(pre_tags, tag);
                    lemma_tag_append_stable(pre_tags, tag);
                }
                store.tags.push(tag);
                proof {
                    assert(store.tags@[pre_tags.len() as int].id == fresh);
                    assert(has_tag_key(store.tags@, investigation_id, fold_key(cleaned_next.last())));
                    let w = tag_index_by_key(
                        store.tags@,
                        investigation_id,
                        fold_key(cleaned_next.last()),
                    );
                    assert(0 <= w < store.tags@.len() && store.tags@[w].investigation_id
                        == investigation_id && fold_key(store.tags@[w].name@) == fold_key(
                        cleaned_next.last(),
                    ));
                    if w < pre_tags.len() {
                        assert(pre_tags[w].investigation_id == investigation_id && fold_key(
                            pre_tags[w].name@,
                        ) == fold_key(cleaned_next.last()));
                        assert(false);
                    }
                    assert(store.tags@[w].id == fresh);
                    assert forall|k2: int|
                        0 <= k2 < pre_cleaned.len() implies fold_key(#[trigger] pre_cleaned[k2])
                        != fold_key(name@) by {}
                    assert forall|j: int|
                        old(store).tags@.len() <= j < store.tags@.len() implies name_first_for_key(
                        cleaned_next,
                        (#[trigger] store.tags@[j]).name@,
                    ) by {
                        if j < pre_tags.len() {
                            assert(store.tags@[j] == pre_tags[j]);
                            lemma_name_first_extend(pre_cleaned, name@, pre_tags[j].name@);
                        } else {
                            assert(store.tags@[j].name@ == name@);
                            assert forall|k2: int|
                                0 <= k2 < pre_cleaned.len() implies fold_key(
                                #[trigger] cleaned_next[k2]) != fold_key(name@) by {
                                assert(cleaned_next[k2] == pre_cleaned[k2]);
                            }
                            assert(cleaned_next[pre_cleaned.len() as int] == name@);
                            assert(name_first_for_key(cleaned_next, name@));
                        }
                    }
                    assert forall|k: int| 0 <= k < ids@.len() implies tag_resolved_to(
                        store.tags@,
                        investigation_id,
                        pre_cleaned[k],
                        #[trigger] ids@[k],
                    ) by {
                        assert(tag_resolved_to(
                            pre_tags,
                            investigation_id,
                            pre_cleaned[k],
                            ids@[k],
                        ));
                        assert(has_tag_key(pre_tags, investigation_id, fold_key(pre_cleaned[k])));
                        assert(tag_index_by_key(
                            store.tags@,
                            investigation_id,
                            fold_key(pre_cleaned[k]),
                        ) == tag_index_by_key(pre_tags, investigation_id, fold_key(pre_cleaned[k])));
                    }
                }
                fresh
            },
        };
        let ghost pre_ids = ids@;
        ids.push(tag_id);
        proof {
            assert(ids@ == pre_ids.push(tag_id));
            assert(ids@.len() == cleaned_next.len());
            assert forall|k: int| 0 <= k < ids@.len() implies tag_resolved_to(
                store.tags@,
                investigation_id,
                cleaned_next[k],
                #[trigger] ids@[k],
            ) by {
                if k < pre_ids.len() {
                    assert(ids@[k] == pre_ids[k]);
                    assert(cleaned_next[k] == pre_cleaned[k]);
                } else {
                    assert(ids@[k] == tag_id);
                    assert(cleaned_next[k] == name@);
                    let w = tag_index_by_key(store.tags@, investigation_id, fold_key(name@));
                    assert(store.tags@[w].id == tag_id);
                }
            }
            assert forall|key: Seq<u32>|
                #[trigger] has_tag_key(store.tags@, investigation_id, key) implies (has_tag_key(
                old(store).tags@,
                investigation_id,
                key,
            ) || exists|k: int| 0 <= k < cleaned_next.len() && fold_key(#[trigger] cleaned_next[k])
                == key) by {
                if !has_tag_key(old(store).tags@, investigation_id, key) {
                    if key == fold_key(name@) {
                        assert(fold_key(cleaned_next[cleaned_next.len() - 1]) == key);
                    } else {
                        assert(exists|k: int|
                            0 <= k < pre_cleaned.len() && fold_key(#[trigger] pre_cleaned[k])
                                == key);
                        let k0 = choose|k0: int|
                            0 <= k0 < pre_cleaned.len() && fold_key(#[trigger] pre_cleaned[k0])
                                == key;
                        assert(cleaned_next[k0] == pre_cleaned[k0]);
                        assert(fold_key(cleaned_next[k0]) == key);
                    }
                }
            }
            assert forall|key: Seq<u32>|
                (has_tag_key(old(store).tags@, investigation_id, key) || exists|k: int|
                    0 <= k < cleaned_next.len() && fold_key(#[trigger] cleaned_next[k]) == key)
                implies #[trigger] has_tag_key(store.tags@, investigation_id, key) by {
                if has_tag_key(old(store).tags@, investigation_id, key) {
                } else {
                    let k0 = choose|k0: int|
                        0 <= k0 < cleaned_next.len() && fold_key(#[trigger] cleaned_next[k0])
                            == key;
                    if k0 < pre_cleaned.len() {
                        assert(cleaned_next[k0] == pre_cleaned[k0]);
                        assert(fold_key(pre_cleaned[k0]) == key);
                    } else {
                        assert(cleaned_next[k0] == name@);
                        assert(has_tag_key(store.tags@, investigation_id, fold_key(name@)));
                    }
                }
            }
        }
        i = i + 1;
    }
    proof {
        assert(tag_names@.take(len as int) =~= tag_names@);
    }
    Ok(ids)
}


/// The search filter hits an entity: the needle occurs, without regard to
/// ASCII case, in the title or in the description.
pub open spec fn search_hits(e: Entity, needle: Seq<char>) -> bool {
    contains_fold(e.title@, needle) || (e.description is Some && contains_fold(
        e.description->0@,
        needle,
    ))
}

/// The entity belongs to the investigation and passes both optional
/// filters (they compose with logical AND).
pub open spec fn entity_matches(e: Entity, inv: u128, q: EntityQuery) -> bool {
    &&& e.investigation_id == inv
    &&& (q.entity_type is Some ==> e.entity_type@ == q.entity_type->0@)
    &&& (q.search is Some ==> search_hits(e, q.search->0@))
}

/// The entities of the investigation passing the filters, in storage
/// order.
pub open spec fn entities_matching(es: Seq<Entity>, inv: u128, q: EntityQuery) -> Seq<Entity>
    decreases es.len(),
{
    if es.len() == 0 {
        Seq::empty()
    } else {
        let rest = entities_matching(es.drop_last(), inv, q);
        if entity_matches(es.last(), inv, q) {
            rest.push(es.last())
        } else {
            rest
        }
    }
}

/// The tag identifiers associated with an entity, in association order.
pub open spec fn tag_ids_of(ets: Seq<EntityTag>, eid: u128) -> Seq<u128>
    decreases ets.len(),
{
    if ets.len() == 0 {
        Seq::empty()
    } else {
        let rest = tag_ids_of(ets.drop_last(), eid);
        if ets.last().entity_id == eid {
            rest.push(ets.last().tag_id)
        } else {
            rest
        }
    }
}

/// How many comments hang off the entity.
pub open spec fn count_comments(cs: Seq<crate::records::Comment>, eid: u128) -> nat
    decreases cs.len(),
{
    if cs.len() == 0 {
        0
    } else {
        count_comments(cs.drop_last(), eid) + if cs.last().entity_id == eid {
            1nat
        } else {
            0nat
        }
    }
}

/// How many attachments hang off the entity.
pub open spec fn count_attachments(xs: Seq<crate::records::Attachment>, eid: u128) -> nat
    decreases xs.len(),
{
    if xs.len() == 0 {
        0
    } else {
        count_attachments(xs.drop_last(), eid) + if xs.last().entity_id == eid {
            1nat
        } else {
            0nat
        }
    }
}

/// The tag view shows a stored tag: its identifier resolves and name and
/// color are that tag's.
pub open spec fn tag_info_ok(ti: TagInfo, s: Store) -> bool {
    &&& tag_id_taken(s.tags@, ti.id)
    &&& ti.name@ == s.tags@[tag_index_by_id(s.tags@, ti.id)].name@
    &&& ti.color == s.tags@[tag_index_by_id(s.tags@, ti.id)].color
}

/// The listing row for an entity: its own columns, its creator's username,
/// its tag views in association order, and its comment and attachment
/// counts. Opaque: reveal it to reach the fields.
#[verifier::opaque]
pub open spec fn entity_response_matches(resp: EntityResponse, e: Entity, s: Store) -> bool {
    &&& resp.id == e.id
    &&& resp.entity_type@ == e.entity_type@
    &&& resp.title@ == e.title@
    &&& resp.description == e.description
    &&& resp.role == e.role
    &&& resp.location == e.location
    &&& resp.address == e.address
    &&& resp.event_date == e.event_date
    &&& resp.event_end_date == e.event_end_date
    &&& resp.is_timeslot == e.is_timeslot
    &&& resp.evidence_type == e.evidence_type
    &&& resp.created_at == e.created_at
    &&& resp.updated_at == e.updated_at
    &&& resp.created_by@ == s.users@[user_index(s.users@, e.created_by_id)].username@
    &&& resp.photo_url == e.photo
    &&& resp.tags@.len() == tag_ids_of(s.entity_tags@, e.id).len()
    &&& forall|m: int|
        0 <= m < resp.tags@.len() ==> (#[trigger] resp.tags@[m]).id == tag_ids_of(
            s.entity_tags@,
            e.id,
        )[m] && tag_info_ok(resp.tags@[m], s)
    &&& resp.comments_count == count_comments(s.comments@, e.id)
    &&& resp.attachments_count == count_attachments(s.attachments@, e.id)
}

/// The listing row stands for the entity at index `i`, which passes the
/// filters.
pub open spec fn ent_row_at(
    row: EntityResponse,
    s: Store,
    inv: u128,
    q: EntityQuery,
    i: int,
) -> bool {
    &&& 0 <= i < s.entities@.len()
    &&& entity_matches(s.entities@[i], inv, q)
    &&& entity_response_matches(row, s.entities@[i], s)
}

/// The listing row stands for some matching entity within the prefix.
pub open spec fn ent_row_in(
    row: EntityResponse,
    s: Store,
    inv: u128,
    q: EntityQuery,
    upto: int,
) -> bool {
    exists|i: int| #![trigger ent_row_at(row, s, inv, q, i)] i < upto && ent_row_at(row, s, inv, q, i)
}

/// One listing row per matching entity, over a prefix of the entity table.
pub open spec fn ent_rows_forward(
    rows: Seq<EntityResponse>,
    s: Store,
    inv: u128,
    q: EntityQuery,
    upto: int,
) -> bool {
    forall|k: int| 0 <= k < rows.len() ==> ent_row_in(#[trigger] rows[k], s, inv, q, upto)
}

/// Some listing row carries this identifier.
pub open spec fn ent_row_id_in(rows: Seq<EntityResponse>, id: u128) -> bool {
    exists|k: int| 0 <= k < rows.len() && (#[trigger] rows[k]).id == id
}

/// Every matching entity within the prefix appears among the rows.
pub open spec fn ent_rows_backward(
    rows: Seq<EntityResponse>,
    s: Store,
    inv: u128,
    q: EntityQuery,
    upto: int,
) -> bool {
    forall|i: int|
        0 <= i < upto && entity_matches(#[trigger] s.entities@[i], inv, q) ==> ent_row_id_in(
            rows,
            s.entities@[i].id,
        )
}

proof fn lemma_ent_rows_push(
    prev: Seq<EntityResponse>,
    resp: EntityResponse,
    s: Store,
    inv: u128,
    q: EntityQuery,
    i: int,
)
    requires
        ent_rows_forward(prev, s, inv, q, i),
        ent_rows_backward(prev, s, inv, q, i),
        0 <= i < s.entities@.len(),
        entity_matches(s.entities@[i], inv, q),
        entity_response_matches(resp, s.entities@[i], s),
    ensures
        ent_rows_forward(prev.push(resp), s, inv, q, i + 1),
        ent_rows_backward(prev.push(resp), s, inv, q, i + 1),
{
    let rows = prev.push(resp);
    assert(rows[prev.len() as int] == resp);
    assert forall|k: int| 0 <= k < rows.len() implies ent_row_in(
        #[trigger] rows[k],
        s,
        inv,
        q,
        i + 1,
    ) by {
        if k < prev.len() {
            assert(rows[k] == prev[k]);
            let w = choose|w: int| w < i && ent_row_at(prev[k], s, inv, q, w);
            assert(w < i + 1 && ent_row_at(rows[k], s, inv, q, w));
        } else {
            assert(rows[k] == resp);
            assert(ent_row_at(rows[k], s, inv, q, i));
        }
    }
    assert forall|ii: int|
        0 <= ii < i + 1 && entity_matches(#[trigger] s.entities@[ii], inv, q) implies
        ent_row_id_in(rows, s.entities@[ii].id) by {
        if ii < i {
            let k0 = choose|k0: int|
                0 <= k0 < prev.len() && (#[trigger] prev[k0]).id == s.entities@[ii].id;
            assert(rows[k0] == prev[k0]);
            assert(0 <= k0 < rows.len() && rows[k0].id == s.entities@[ii].id);
        } else {
            assert(rows[prev.len() as int].id == s.entities@[ii].id) by {
                reveal(entity_response_matches);
            }
        }
    }
}

proof fn lemma_ent_rows_skip(prev: Seq<EntityResponse>, s: Store, inv: u128, q: EntityQuery, i: int)
    requires
        ent_rows_forward(prev, s, inv, q, i),
        ent_rows_backward(prev, s, inv, q, i),
        0 <= i < s.entities@.len(),
        !entity_matches(s.entities@[i], inv, q),
    ensures
        ent_rows_forward(prev, s, inv, q, i + 1),
        ent_rows_backward(prev, s, inv, q, i + 1),
{
    assert forall|k: int| 0 <= k < prev.len() implies ent_row_in(
        #[trigger] prev[k],
        s,
        inv,
        q,
        i + 1,
    ) by {
        let w = choose|w: int| w < i && ent_row_at(prev[k], s, inv, q, w);
        assert(w < i + 1 && ent_row_at(prev[k], s, inv, q, w));
    }
}

proof fn lemma_ent_rows_perm(
    out: Seq<EntityResponse>,
    unsorted: Seq<EntityResponse>,
    s: Store,
    inv: u128,
    q: EntityQuery,
    upto: int,
)
    requires
        out.to_multiset() == unsorted.to_multiset(),
        ent_rows_forward(unsorted, s, inv, q, upto),
        ent_rows_backward(unsorted, s, inv, q, upto),
    ensures
        ent_rows_forward(out, s, inv, q, upto),
        ent_rows_backward(out, s, inv, q, upto),
{
    out.to_multiset_ensures();
    unsorted.to_multiset_ensures();
    assert forall|k: int| 0 <= k < out.len() implies ent_row_in(
        #[trigger] out[k],
        s,
        inv,
        q,
        upto,
    ) by {
        assert(out.contains(out[k]));
        assert(unsorted.to_multiset().count(out[k]) > 0);
        assert(unsorted.contains(out[k]));
        let k0 = choose|k0: int| 0 <= k0 < unsorted.len() && unsorted[k0] == out[k];
        assert(ent_row_in(unsorted[k0], s, inv, q, upto));
    }
    assert forall|i: int|
        0 <= i < upto && entity_matches(#[trigger] s.entities@[i], inv, q) implies ent_row_id_in(
            out,
            s.entities@[i].id,
        ) by {
        let k0 = choose|k0: int| 0 <= k0 < unsorted.len() && (#[trigger] unsorted[k0]).id
            == s.entities@[i].id;
        assert(unsorted.contains(unsorted[k0]));
        assert(out.to_multiset().count(unsorted[k0]) > 0);
        assert(out.contains(unsorted[k0]));
        let k1 = choose|k1: int| 0 <= k1 < out.len() && out[k1] == unsorted[k0];
        assert(0 <= k1 < out.len() && out[k1].id == s.entities@[i].id);
    }
}

/// Whether the entity passes the filters.
fn entity_matches_exec(e: &Entity, inv: u128, q: &EntityQuery) -> (r: bool)
    ensures
        r == entity_matches(*e, inv, *q),
{
    if e.investigation_id != inv {
        return false;
    }
    let type_ok = match &q.entity_type {
        Some(t) => e.entity_type.eq(t),
        None => true,
    };
    if !type_ok {
        return false;
    }
    match &q.search {
        Some(needle) => {
            if contains_fold_exec(e.title.as_str(), needle.as_str()) {
                return true;
            }
            match &e.description {
                Some(d) => contains_fold_exec(d.as_str(), needle.as_str()),
                None => false,
            }
        },
        None => true,
    }
}

/// Build the listing row of the entity at index `i`.
fn build_entity_response(store: &Store, i: usize) -> (resp: EntityResponse)
    requires
        store.wf(),
        i < store.entities@.len(),
    ensures
        entity_response_matches(resp, store.entities@[i as int], *store),
{
    proof {
        reveal(entity_response_matches);
    }
    let e = &store.entities[i];
    let creator_idx = match find_user_by_id(&store.users, e.created_by_id) {
        Some(k) => k,
        None => {
            proof {
                assert(has_user_id(store.users@, e.created_by_id));
                assert(false);
            }
            0
        },
    };
    proof {
        assert(has_user_id(store.users@, e.created_by_id));
        let k = user_index(store.users@, e.created_by_id);
        assert(store.users@[k].id == e.created_by_id);
        assert(k == creator_idx);
    }
    let alen = store.entity_tags.len();
    let mut tag_views: Vec<TagInfo> = Vec::new();
    let mut j: usize = 0;
    while j < alen
        invariant
            store.wf(),
            i < store.entities@.len(),
            e == store.entities@[i as int],
            alen == store.entity_tags@.len(),
            j <= alen,
            tag_views@.len() == tag_ids_of(store.entity_tags@.take(j as int), e.id).len(),
            forall|m: int|
                0 <= m < tag_views@.len() ==> (#[trigger] tag_views@[m]).id == tag_ids_of(
                    store.entity_tags@.take(j as int),
                    e.id,
                )[m] && tag_info_ok(tag_views@[m], *store),
        decreases alen - j,
    {
        proof {
            assert(store.entity_tags@.take(j + 1).drop_last() =~= store.entity_tags@.take(
                j as int,
            ));
            assert(store.entity_tags@.take(j + 1).last() == store.entity_tags@[j as int]);
        }
        if store.entity_tags[j].entity_id == e.id {
            let tid = store.entity_tags[j].tag_id;
            let ti = match find_tag_by_id(&store.tags, tid) {
                Some(t) => t,
                None => {
                    proof {
                        assert(tag_id_taken(store.tags@, tid));
                        assert(false);
                    }
                    0
                },
            };
            proof {
                assert(tag_id_taken(store.tags@, tid));
                let w = tag_index_by_id(store.tags@, tid);
                assert(store.tags@[w].id == tid);
                assert(w == ti);
            }
            let ghost prev_views = tag_views@;
            tag_views.push(
                TagInfo {
                    id: tid,
                    name: store.tags[ti].name.clone(),
                    color: clone_opt_string(&store.tags[ti].color),
                },
            );
            proof {
                assert forall|m: int| 0 <= m < tag_views@.len() implies (
                #[trigger] tag_views@[m]).id == tag_ids_of(
                    store.entity_tags@.take(j + 1),
                    e.id,
                )[m] && tag_info_ok(tag_views@[m], *store) by {
                    if m < prev_views.len() {
                        assert(tag_views@[m] == prev_views[m]);
                    } else {
                        assert(tag_views@[m] == tag_views@.last());
                    }
                }
            }
        }
        j = j + 1;
    }
    let clen = store.comments.len();
    let mut ccount: usize = 0;
    let mut j2: usize = 0;
    while j2 < clen
        invariant
            clen == store.comments@.len(),
            j2 <= clen,
            i < store.entities@.len(),
            e == store.entities@[i as int],
            ccount == count_comments(store.comments@.take(j2 as int), e.id),
            ccount <= j2,
        decreases clen - j2,
    {
        proof {
            assert(store.comments@.take(j2 + 1).drop_last() =~= store.comments@.take(j2 as int));
            assert(store.comments@.take(j2 + 1).last() == store.comments@[j2 as int]);
        }
        if store.comments[j2].entity_id == e.id {
            ccount = ccount + 1;
        }
        j2 = j2 + 1;
    }
    let xlen = store.attachments.len();
    let mut acount: usize = 0;
    let mut j3: usize = 0;
    while j3 < xlen
        invariant
            xlen == store.attachments@.len(),
            j3 <= xlen,
            i < store.entities@.len(),
            e == store.entities@[i as int],
            acount == count_attachments(store.attachments@.take(j3 as int), e.id),
            acount <= j3,
        decreases xlen - j3,
    {
        proof {
            assert(store.attachments@.take(j3 + 1).drop_last() =~= store.attachments@.take(
                j3 as int,
            ));
            assert(store.attachments@.take(j3 + 1).last() == store.attachments@[j3 as int]);
        }
        if store.attachments[j3].entity_id == e.id {
            acount = acount + 1;
        }
        j3 = j3 + 1;
    }
    proof {
        assert(store.entity_tags@.take(alen as int) =~= store.entity_tags@);
        assert(store.comments@.take(clen as int) =~= store.comments@);
        assert(store.attachments@.take(xlen as int) =~= store.attachments@);
    }
    EntityResponse {
        id: e.id,
        entity_type: e.entity_type.clone(),
        title: e.title.clone(),
        description: clone_opt_string(&e.description),
        role: clone_opt_string(&e.role),
        location: clone_opt_string(&e.location),
        address: clone_opt_string(&e.address),
        event_date: e.event_date,
        event_end_date: e.event_end_date,
        is_timeslot: e.is_timeslot,
        evidence_type: clone_opt_string(&e.evidence_type),
        created_at: e.created_at,
        updated_at: e.updated_at,
        created_by: store.users[creator_idx].username.clone(),
        photo_url: clone_opt_string(&e.photo),
        tags: tag_views,
        comments_count: ccount,
        attachments_count: acount,
    }
}

/// Sort listing rows newest-created-first; the rows are permuted, nothing
/// else changes.
fn sort_entities_desc(input: Vec<EntityResponse>) -> (out: Vec<EntityResponse>)
    ensures
        out@.len() == input@.len(),
        out@.to_multiset() == input@.to_multiset(),
        forall|k: int, l: int|
            0 <= k < l < out@.len() ==> out@[k].created_at >= out@[l].created_at,
{
    let mut src = input;
    let mut out: Vec<EntityResponse> = Vec::new();
    proof {
        out@.to_multiset_ensures();
        src@.to_multiset_ensures();
        assert(out@.to_multiset().add(src@.to_multiset()) =~= src@.to_multiset());
    }
    while src.len() > 0
        invariant
            out@.len() + src@.len() == input@.len(),
            out@.to_multiset().add(src@.to_multiset()) == input@.to_multiset(),
            forall|k: int, l: int|
                0 <= k < l < out@.len() ==> out@[k].created_at >= out@[l].created_at,
            forall|k: int, j: int|
                0 <= k < out@.len() && 0 <= j < src@.len() ==> out@[k].created_at
                    >= src@[j].created_at,
        decreases src@.len(),
    {
        let mut mi: usize = 0;
        let mut j: usize = 1;
        while j < src.len()
            invariant
                0 < src@.len(),
                mi < j <= src@.len(),
                forall|t: int| 0 <= t < j ==> src@[mi as int].created_at >= src@[t].created_at,
            decreases src@.len() - j,
        {
            if src[j].created_at > src[mi].created_at {
                mi = j;
            }
            j = j + 1;
        }
        let ghost old_out = out@;
        let ghost old_src = src@;
        proof {
            old_src.to_multiset_ensures();
            old_out.to_multiset_ensures();
        }
        let x = src.remove(mi);
        out.push(x);
        proof {
            assert(out@.to_multiset() =~= old_out.to_multiset().insert(x));
            assert(src@.to_multiset() =~= old_src.to_multiset().remove(x));
            assert(old_src.contains(x));
            assert(out@.to_multiset().add(src@.to_multiset()) =~= old_out.to_multiset().add(
                old_src.to_multiset(),
            ));
            assert forall|k: int, jj: int|
                0 <= k < out@.len() && 0 <= jj < src@.len() implies out@[k].created_at
                >= src@[jj].created_at by {
                if jj < mi {
                    assert(src@[jj] == old_src[jj]);
                } else {
                    assert(src@[jj] == old_src[jj + 1]);
                }
            }
        }
    }
    proof {
        src@.to_multiset_ensures();
        assert(out@.to_multiset() =~= out@.to_multiset().add(src@.to_multiset()));
    }
    out
}

/// List the investigation's entities, newest-created-first, filtered by
/// the optional exact type match and the optional case-insensitive
/// substring search over title or description. Only members may list,
/// filters or none.
#[verifier::rlimit(30)]
pub fn list_entities(
    store: &Store,
    investigation_id: u128,
    query: &EntityQuery,
    user_id: i32,
) -> (r: Result<Vec<EntityResponse>, AppError>)
    requires
        store.wf(),
    ensures
        r is Ok <==> is_member(store.memberships@, investigation_id, user_id),
        r is Err ==> r->Err_0 is Unauthorized,
        r is Ok ==> ({
            let rows = r->Ok_0@;
            &&& rows.len() == entities_matching(store.entities@, investigation_id, *query).len()
            &&& ent_rows_forward(
                rows,
                *store,
                investigation_id,
                *query,
                store.entities@.len() as int,
            )
            &&& ent_rows_backward(
                rows,
                *store,
                investigation_id,
                *query,
                store.entities@.len() as int,
            )
            &&& forall|k: int, l: int|
                0 <= k < l < rows.len() ==> rows[k].created_at >= rows[l].created_at
        }),
{
    check_member_access(store, investigation_id, user_id)?;
    let len = store.entities.len();
    let mut rows: Vec<EntityResponse> = Vec::new();
    let mut i: usize = 0;
    while i < len
        invariant
            store.wf(),
            len == store.entities@.len(),
            i <= len,
            rows@.len() == entities_matching(
                store.entities@.take(i as int),
                investigation_id,
                *query,
            ).len(),
            ent_rows_forward(rows@, *store, investigation_id, *query, i as int),
            ent_rows_backward(rows@, *store, investigation_id, *query, i as int),
        decreases len - i,
    {
        proof {
            assert(store.entities@.take(i + 1).drop_last() =~= store.entities@.take(i as int));
            assert(store.entities@.take(i + 1).last() == store.entities@[i as int]);
        }
        if entity_matches_exec(&store.entities[i], investigation_id, query) {
            let resp = build_entity_response(store, i);
            let ghost prev = rows@;
            rows.push(resp);
            proof {
                lemma_ent_rows_push(prev, resp, *store, investigation_id, *query, i as int);
            }
        } else {
            proof {
                lemma_ent_rows_skip(rows@, *store, investigation_id, *query, i as int);
            }
        }
        i = i + 1;
    }
    proof {
        assert(store.entities@.take(len as int) =~= store.entities@);
    }
    let ghost unsorted = rows@;
    let out = sort_entities_desc(rows);
    proof {
        lemma_ent_rows_perm(out@, unsorted, *store, investigation_id, *query, len as int);
    }
    Ok(out)
}


/// The association rows that survive removing one entity's rows.
pub open spec fn assocs_without(ets: Seq<EntityTag>, eid: u128) -> Seq<EntityTag>
    decreases ets.len(),
{
    if ets.len() == 0 {
        Seq::empty()
    } else {
        let rest = assocs_without(ets.drop_last(), eid);
        if ets.last().entity_id == eid {
            rest
        } else {
            rest.push(ets.last())
        }
    }
}

/// Removing one entity's association rows keeps every other pair exactly
/// once and loses that entity's pairs.
proof fn lemma_assocs_without(ets: Seq<EntityTag>, eid: u128)
    requires
        forall|i: int, j: int|
            0 <= i < ets.len() && 0 <= j < ets.len() && i != j ==> !((#[trigger] ets[i]).entity_id
                == (#[trigger] ets[j]).entity_id && ets[i].tag_id == ets[j].tag_id),
    ensures
        forall|a: u128, t: u128|
            #[trigger] has_assoc(assocs_without(ets, eid), a, t) <==> (has_assoc(ets, a, t) && a
                != eid),
        forall|j: int|
            0 <= j < assocs_without(ets, eid).len() ==> (#[trigger] assocs_without(ets, eid)[j]).entity_id
                != eid && has_assoc(
                ets,
                assocs_without(ets, eid)[j].entity_id,
                assocs_without(ets, eid)[j].tag_id,
            ),
        forall|i: int, j: int|
            0 <= i < assocs_without(ets, eid).len() && 0 <= j < assocs_without(ets, eid).len() && i
                != j ==> !((#[trigger] assocs_without(ets, eid)[i]).entity_id == (
            #[trigger] assocs_without(ets, eid)[j]).entity_id && assocs_without(ets, eid)[i].tag_id
                == assocs_without(ets, eid)[j].tag_id),
    decreases ets.len(),
{
    let w = assocs_without(ets, eid);
    if ets.len() == 0 {
        assert forall|a: u128, t: u128| #[trigger] has_assoc(w, a, t) implies (has_assoc(ets, a, t)
            && a != eid) by {
            let k = choose|i: int|
                0 <= i < w.len() && (#[trigger] w[i]).entity_id == a && w[i].tag_id == t;
        }
    } else {
        let rest_ets = ets.drop_last();
        let last = ets.last();
        lemma_assocs_without(rest_ets, eid);
        let rw = assocs_without(rest_ets, eid);
        lemma_assoc_push(rest_ets, last);
        assert(rest_ets.push(last) =~= ets);
        if last.entity_id == eid {
            assert(w == rw);
            assert forall|a: u128, t: u128| (has_assoc(ets, a, t) && a != eid) implies
                #[trigger] has_assoc(w, a, t) by {
                assert(has_assoc(rest_ets.push(last), a, t));
            }
        } else {
            assert(w == rw.push(last));
            lemma_assoc_push(rw, last);
            assert forall|a: u128, t: u128| #[trigger] has_assoc(w, a, t) implies (has_assoc(
                ets,
                a,
                t,
            ) && a != eid) by {
                assert(has_assoc(rw.push(last), a, t));
                if has_assoc(rw, a, t) {
                    assert(has_assoc(rest_ets, a, t));
                    assert(has_assoc(rest_ets.push(last), a, t));
                } else {
                    assert(a == last.entity_id && t == last.tag_id);
                    assert(has_assoc(rest_ets.push(last), a, t));
                }
            }
            assert forall|a: u128, t: u128| (has_assoc(ets, a, t) && a != eid) implies
                #[trigger] has_assoc(w, a, t) by {
                assert(has_assoc(rest_ets.push(last), a, t));
                if a == last.entity_id && t == last.tag_id {
                    assert(has_assoc(rw.push(last), a, t));
                } else {
                    assert(has_assoc(rest_ets, a, t));
                    assert(has_assoc(rw, a, t));
                    assert(has_assoc(rw.push(last), a, t));
                }
            }
            assert forall|j: int| 0 <= j < w.len() implies (#[trigger] w[j]).entity_id != eid
                && has_assoc(ets, w[j].entity_id, w[j].tag_id) by {
                if j < rw.len() {
                    assert(w[j] == rw[j]);
                    assert(has_assoc(rest_ets, rw[j].entity_id, rw[j].tag_id));
                    assert(has_assoc(rest_ets.push(last), w[j].entity_id, w[j].tag_id));
                } else {
                    assert(w[j] == last);
                    assert(has_assoc(rest_ets.push(last), last.entity_id, last.tag_id));
                }
            }
            assert forall|i: int, j: int|
                0 <= i < w.len() && 0 <= j < w.len() && i != j implies !((
            #[trigger] w[i]).entity_id == (#[trigger] w[j]).entity_id && w[i].tag_id
                == w[j].tag_id) by {
                if i < rw.len() && j < rw.len() {
                } else {
                    let small = if i < j { i } else { j };
                    assert(w[small] == rw[small]);
                    let big = if i < j { j } else { i };
                    assert(w[big] == last);
                    if rw[small].entity_id == last.entity_id && rw[small].tag_id == last.tag_id {
                        assert(has_assoc(rw, last.entity_id, last.tag_id));
                        assert(has_assoc(rest_ets, last.entity_id, last.tag_id));
                        let k = choose|k: int|
                            0 <= k < rest_ets.len() && (#[trigger] rest_ets[k]).entity_id
                                == last.entity_id && rest_ets[k].tag_id == last.tag_id;
                        assert(ets[k] == rest_ets[k]);
                        assert(ets[ets.len() - 1] == last);
                        assert(false);
                    }
                }
            }
        }
    }
}

/// Drop one entity's association rows, keeping every other row in order.
fn remove_assocs_of(ets: &Vec<EntityTag>, eid: u128) -> (out: Vec<EntityTag>)
    ensures
        out@ == assocs_without(ets@, eid),
{
    let len = ets.len();
    let mut out: Vec<EntityTag> = Vec::new();
    let mut i: usize = 0;
    while i < len
        invariant
            len == ets@.len(),
            i <= len,
            out@ == assocs_without(ets@.take(i as int), eid),
        decreases len - i,
    {
        proof {
            assert(ets@.take(i + 1).drop_last() =~= ets@.take(i as int));
            assert(ets@.take(i + 1).last() == ets@[i as int]);
        }
        if ets[i].entity_id != eid {
            out.push(ets[i]);
        }
        i = i + 1;
    }
    proof {
        assert(ets@.take(len as int) =~= ets@);
    }
    out
}

/// The entity row a creation request asks for.
pub open spec fn created_entity_matches(
    e: Entity,
    payload: CreateEntity,
    investigation_id: u128,
    user_id: i32,
    now: i64,
) -> bool {
    &&& e.investigation_id == investigation_id
    &&& e.entity_type == payload.entity_type
    &&& e.title == payload.title
    &&& e.description == payload.description
    &&& e.role == payload.role
    &&& e.location == payload.location
    &&& e.address == payload.address
    &&& e.event_date == parsed_date(payload.event_date)
    &&& e.event_end_date == parsed_date(payload.event_end_date)
    &&& e.is_timeslot == (payload.is_timeslot is Some && payload.is_timeslot->0)
    &&& e.evidence_type == payload.evidence_type
    &&& e.photo is None
    &&& e.created_at == now
    &&& e.updated_at == now
    &&& e.created_by_id == user_id
}

/// Create an entity. Only members may call it; provided dates must be RFC 3339
/// or they are silently treated as absent; a supplied tag list is
/// resolved and associated without duplicates. Returns the fresh
/// identifier.
#[verifier::rlimit(50)]
pub fn create_entity(
    store: &mut Store,
    investigation_id: u128,
    user_id: i32,
    payload: CreateEntity,
    now: i64,
) -> (r: Result<u128, AppError>)
    requires
        old(store).wf(),
    ensures
        final(store).wf(),
        same_users(*final(store), *old(store)),
        same_investigations(*final(store), *old(store)),
        same_memberships(*final(store), *old(store)),
        same_links(*final(store), *old(store)),
        same_extras(*final(store), *old(store)),
        old(store).tags@.is_prefix_of(final(store).tags@),
        (r is Err && r->Err_0 is Unauthorized) <==> !is_member(
            old(store).memberships@,
            investigation_id,
            user_id,
        ),
        r is Err ==> (r->Err_0 is Unauthorized || r->Err_0 is InternalError) && same_entities(
            *final(store),
            *old(store),
        ) && same_assocs(*final(store), *old(store)),
        r is Err && r->Err_0 is Unauthorized ==> same_store(*final(store), *old(store)),
        r is Ok ==> ({
            let e = final(store).entities@.last();
            &&& is_member(old(store).memberships@, investigation_id, user_id)
            &&& final(store).entities@ == old(store).entities@.push(e)
            &&& e.id == r->Ok_0
            &&& !has_entity(old(store).entities@, e.id)
            &&& created_entity_matches(e, payload, investigation_id, user_id, now)
            &&& old(store).entity_tags@.is_prefix_of(final(store).entity_tags@)
            &&& forall|j: int|
                old(store).entity_tags@.len() <= j < final(store).entity_tags@.len()
                    ==> (#[trigger] final(store).entity_tags@[j]).entity_id == e.id
            &&& (payload.tags is None ==> same_assocs(*final(store), *old(store)) && same_tags(
                *final(store),
                *old(store),
            ))
            &&& (payload.tags is Some ==> forall|tid: u128|
                #[trigger] has_assoc(final(store).entity_tags@, e.id, tid) <==> (has_assoc(
                    old(store).entity_tags@,
                    e.id,
                    tid,
                ) || exists|k: int|
                    0 <= k < cleaned_names(payload.tags->0@).len() && tag_resolved_to(
                        final(store).tags@,
                        investigation_id,
                        #[trigger] cleaned_names(payload.tags->0@)[k],
                        tid,
                    )))
        }),
{
    check_member_access(store, investigation_id, user_id)?;
    let entity_id = new_random_id();
    if find_entity(&store.entities, entity_id).is_some() {
        return Err(AppError::InternalError("Identifier collision".to_string()));
    }
    let event_date = parse_date_field(&payload.event_date);
    let event_end_date = parse_date_field(&payload.event_end_date);
    let mut resolved: Vec<u128> = Vec::new();
    let ghost had_tags = payload.tags is Some;
    match &payload.tags {
        Some(names) => {
            match resolve_tags(store, investigation_id, names, now) {
                Ok(ids) => {
                    resolved = ids;
                },
                Err(_) => {
                    return Err(AppError::InternalError("Failed to resolve tags".to_string()));
                },
            }
        },
        None => {},
    }
    proof {
        if had_tags {
            let cleaned = cleaned_names(payload.tags->0@);
            assert forall|k: int| 0 <= k < resolved@.len() implies tag_id_taken(
                store.tags@,
                #[trigger] resolved@[k],
            ) by {
                assert(tag_resolved_to(store.tags@, investigation_id, cleaned[k], resolved@[k]));
                let w = tag_index_by_key(store.tags@, investigation_id, fold_key(cleaned[k]));
                assert(0 <= w < store.tags@.len() && store.tags@[w].investigation_id
                    == investigation_id && fold_key(store.tags@[w].name@) == fold_key(cleaned[k]));
                assert(store.tags@[w].id == resolved@[k]);
            }
        }
    }
    let e = Entity {
        id: entity_id,
        investigation_id,
        entity_type: payload.entity_type,
        title: payload.title,
        description: payload.description,
        role: payload.role,
        location: payload.location,
        address: payload.address,
        event_date,
        event_end_date,
        is_timeslot: match payload.is_timeslot {
            Some(b) => b,
            None => false,
        },
        evidence_type: payload.evidence_type,
        photo: None,
        created_at: now,
        updated_at: now,
        created_by_id: user_id,
    };
    proof {
        lemma_entity_push(store.entities@, e);
    }
    store.entities.push(e);
    let ghost mid = *store;
    let rlen = resolved.len();
    let mut j: usize = 0;
    while j < rlen
        invariant
            store.wf(),
            rlen == resolved@.len(),
            same_users(*store, mid),
            same_investigations(*store, mid),
            same_memberships(*store, mid),
            same_entities(*store, mid),
            same_tags(*store, mid),
            same_links(*store, mid),
            same_extras(*store, mid),
            j <= rlen,
            forall|k: int|
                0 <= k < rlen ==> tag_id_taken(store.tags@, #[trigger] resolved@[k]),
            mid.entity_tags@.is_prefix_of(store.entity_tags@),
            j == 0 ==> store.entity_tags@ == mid.entity_tags@,
            forall|jj: int|
                mid.entity_tags@.len() <= jj < store.entity_tags@.len() ==> (
                #[trigger] store.entity_tags@[jj]).entity_id == entity_id,
            forall|tid: u128|
                #[trigger] has_assoc(store.entity_tags@, entity_id, tid) <==> (has_assoc(
                    mid.entity_tags@,
                    entity_id,
                    tid,
                ) || exists|k: int| 0 <= k < j && resolved@[k] == tid),
            forall|a: u128, t: u128|
                a != entity_id ==> (#[trigger] has_assoc(store.entity_tags@, a, t) <==> has_assoc(
                    mid.entity_tags@,
                    a,
                    t,
                )),
        decreases rlen - j,
    {
        let tid = resolved[j];
        let ghost pre = store.entity_tags@;
        if !assoc_exists(&store.entity_tags, entity_id, tid) {
            let row = EntityTag { entity_id, tag_id: tid };
            proof {
                lemma_assoc_push(pre, row);
            }
            store.entity_tags.push(row);
        }
        proof {
            assert forall|tid2: u128| #[trigger] has_assoc(store.entity_tags@, entity_id, tid2)
                implies (has_assoc(mid.entity_tags@, entity_id, tid2) || exists|k: int|
                0 <= k < j + 1 && resolved@[k] == tid2) by {
                if has_assoc(pre, entity_id, tid2) {
                    if !has_assoc(mid.entity_tags@, entity_id, tid2) {
                        let k0 = choose|k0: int| 0 <= k0 < j && resolved@[k0] == tid2;
                        assert(0 <= k0 < j + 1 && resolved@[k0] == tid2);
                    }
                } else {
                    assert(tid2 == tid);
                    assert(resolved@[j as int] == tid2);
                }
            }
            assert forall|tid2: u128|
                (has_assoc(mid.entity_tags@, entity_id, tid2) || exists|k: int|
                    0 <= k < j + 1 && resolved@[k] == tid2) implies #[trigger] has_assoc(
                store.entity_tags@,
                entity_id,
                tid2,
            ) by {
                if has_assoc(mid.entity_tags@, entity_id, tid2) {
                    assert(has_assoc(pre, entity_id, tid2));
                } else {
                    let k0 = choose|k0: int| 0 <= k0 < j + 1 && resolved@[k0] == tid2;
                    if k0 < j {
                        assert(has_assoc(pre, entity_id, tid2));
                    } else {
                        assert(tid2 == tid);
                        assert(has_assoc(store.entity_tags@, entity_id, tid));
                    }
                }
            }
        }
        j = j + 1;
    }
    proof {
        if had_tags {
            let cleaned = cleaned_names(payload.tags->0@);
            assert forall|tid: u128| #[trigger] has_assoc(store.entity_tags@, entity_id, tid)
                implies (has_assoc(old(store).entity_tags@, entity_id, tid) || exists|k: int|
                0 <= k < cleaned.len() && tag_resolved_to(
                    store.tags@,
                    investigation_id,
                    #[trigger] cleaned[k],
                    tid,
                )) by {
                if !has_assoc(old(store).entity_tags@, entity_id, tid) {
                    let k0 = choose|k0: int| 0 <= k0 < rlen && resolved@[k0] == tid;
                    assert(tag_resolved_to(store.tags@, investigation_id, cleaned[k0], tid));
                }
            }
            assert forall|tid: u128|
                (has_assoc(old(store).entity_tags@, entity_id, tid) || exists|k: int|
                    0 <= k < cleaned_names(payload.tags->0@).len() && tag_resolved_to(
                        store.tags@,
                        investigation_id,
                        #[trigger] cleaned_names(payload.tags->0@)[k],
                        tid,
                    )) implies #[trigger] has_assoc(store.entity_tags@, entity_id, tid) by {
                if has_assoc(old(store).entity_tags@, entity_id, tid) {
                } else {
                    let k0 = choose|k0: int|
                        0 <= k0 < cleaned_names(payload.tags->0@).len() && tag_resolved_to(
                            store.tags@,
                            investigation_id,
                            #[trigger] cleaned_names(payload.tags->0@)[k0],
                            tid,
                        );
                    assert(tag_resolved_to(store.tags@, investigation_id, cleaned[k0], tid));
                    assert(resolved@[k0] == tid);
                    assert(has_assoc(store.entity_tags@, entity_id, tid));
                }
            }
        }
    }
    Ok(entity_id)
}


/// Whether a sparse update touches any stored column (a provided but
/// unparsable date touches nothing).
pub open spec fn patch_touches(u: UpdateEntity) -> bool {
    ||| u.title is Some
    ||| u.description is Some
    ||| u.role is Some
    ||| u.location is Some
    ||| u.address is Some
    ||| parsed_date(u.event_date) is Some
    ||| parsed_date(u.event_end_date) is Some
    ||| u.is_timeslot is Some
    ||| u.evidence_type is Some
}

/// The entity after a sparse update: each provided field replaces the old
/// one, every omitted field stays, and the update stamp is refreshed
/// exactly when something was touched.
pub open spec fn patched(e: Entity, u: UpdateEntity, now: i64) -> Entity {
    Entity {
        title: if u.title is Some {
            u.title->0
        } else {
            e.title
        },
        description: if u.description is Some {
            u.description
        } else {
            e.description
        },
        role: if u.role is Some {
            u.role
        } else {
            e.role
        },
        location: if u.location is Some {
            u.location
        } else {
            e.location
        },
        address: if u.address is Some {
            u.address
        } else {
            e.address
        },
        event_date: if parsed_date(u.event_date) is Some {
            parsed_date(u.event_date)
        } else {
            e.event_date
        },
        event_end_date: if parsed_date(u.event_end_date) is Some {
            parsed_date(u.event_end_date)
        } else {
            e.event_end_date
        },
        is_timeslot: if u.is_timeslot is Some {
            u.is_timeslot->0
        } else {
            e.is_timeslot
        },
        evidence_type: if u.evidence_type is Some {
            u.evidence_type
        } else {
            e.evidence_type
        },
        updated_at: if patch_touches(u) {
            now
        } else {
            e.updated_at
        },
        ..e
    }
}

/// Update an entity sparsely: only members may call it, the entity must belong
/// to the given investigation (`NotFound` otherwise), only provided fields
/// change, and a provided tag list replaces the whole tag set — an empty
/// list clears it, an omitted one leaves it untouched. An update that
/// resolves no new tag — none provided, or an empty list — is owed
/// success.
#[verifier::rlimit(100)]
pub fn update_entity(
    store: &mut Store,
    investigation_id: u128,
    entity_id: u128,
    user_id: i32,
    payload: UpdateEntity,
    now: i64,
) -> (r: Result<(), AppError>)
    requires
        old(store).wf(),
    ensures
        final(store).wf(),
        same_users(*final(store), *old(store)),
        same_investigations(*final(store), *old(store)),
        same_memberships(*final(store), *old(store)),
        same_links(*final(store), *old(store)),
        same_extras(*final(store), *old(store)),
        old(store).tags@.is_prefix_of(final(store).tags@),
        (r is Err && r->Err_0 is Unauthorized) <==> !is_member(
            old(store).memberships@,
            investigation_id,
            user_id,
        ),
        is_member(old(store).memberships@, investigation_id, user_id) ==> ((r is Err
            && r->Err_0 is NotFound) <==> !entity_in(
            old(store).entities@,
            entity_id,
            investigation_id,
        )),
        r is Err ==> (r->Err_0 is Unauthorized || r->Err_0 is NotFound
            || r->Err_0 is InternalError) && same_entities(*final(store), *old(store))
            && same_assocs(*final(store), *old(store)),
        r is Err && (r->Err_0 is Unauthorized || r->Err_0 is NotFound) ==> same_store(
            *final(store),
            *old(store),
        ),
        (is_member(old(store).memberships@, investigation_id, user_id) && entity_in(
            old(store).entities@,
            entity_id,
            investigation_id,
        ) && payload.tags is None) ==> r is Ok,
        (is_member(old(store).memberships@, investigation_id, user_id) && entity_in(
            old(store).entities@,
            entity_id,
            investigation_id,
        ) && payload.tags is Some && payload.tags->0@.len() == 0) ==> r is Ok,
        r is Ok ==> ({
            let i = entity_index(old(store).entities@, entity_id);
            &&& is_member(old(store).memberships@, investigation_id, user_id)
            &&& entity_in(old(store).entities@, entity_id, investigation_id)
            &&& final(store).entities@ == old(store).entities@.update(
                i,
                patched(old(store).entities@[i], payload, now),
            )
            &&& (payload.tags is None ==> same_assocs(*final(store), *old(store)) && same_tags(
                *final(store),
                *old(store),
            ))
            &&& (payload.tags is Some ==> (forall|tid: u128|
                #[trigger] has_assoc(final(store).entity_tags@, entity_id, tid) <==> (exists|
                    k: int,
                |
                    0 <= k < cleaned_names(payload.tags->0@).len() && tag_resolved_to(
                        final(store).tags@,
                        investigation_id,
                        #[trigger] cleaned_names(payload.tags->0@)[k],
                        tid,
                    ))))
            &&& (payload.tags is Some ==> (forall|a: u128, t: u128|
                a != entity_id ==> (#[trigger] has_assoc(final(store).entity_tags@, a, t)
                    <==> has_assoc(old(store).entity_tags@, a, t))))
        }),
{
    check_member_access(store, investigation_id, user_id)?;
    let idx = match find_entity(&store.entities, entity_id) {
        Some(i) => i,
        None => {
            return Err(AppError::NotFound("Entity not found".to_string()));
        },
    };
    if store.entities[idx].investigation_id != investigation_id {
        proof {
            assert forall|i: int|
                0 <= i < store.entities@.len() && (#[trigger] store.entities@[i]).id == entity_id
                implies store.entities@[i].investigation_id != investigation_id by {
                assert(store.entities@[i].id == store.entities@[idx as int].id);
                assert(i == idx);
            }
        }
        return Err(AppError::NotFound("Entity not found".to_string()));
    }
    proof {
        assert(has_entity(store.entities@, entity_id));
        let w = entity_index(store.entities@, entity_id);
        assert(store.entities@[w].id == entity_id);
        assert(w == idx);
    }
    let event_date = parse_date_field(&payload.event_date);
    let event_end_date = parse_date_field(&payload.event_end_date);
    proof {
        let mi = choose|mi: int|
            0 <= mi < store.memberships@.len() && (#[trigger] store.memberships@[mi]).investigation_id
                == investigation_id && store.memberships@[mi].user_id == user_id;
        assert(has_investigation(store.investigations@, investigation_id));
    }
    let mut resolved: Vec<u128> = Vec::new();
    let ghost had_tags = payload.tags is Some;
    match &payload.tags {
        Some(names) => {
            match resolve_tags(store, investigation_id, names, now) {
                Ok(ids) => {
                    resolved = ids;
                },
                Err(_) => {
                    proof {
                        if payload.tags->0@.len() == 0 {
                            assert(cleaned_names(payload.tags->0@).len() == 0);
                            assert(false);
                        }
                    }
                    return Err(AppError::InternalError("Failed to resolve tags".to_string()));
                },
            }
        },
        None => {},
    }
    proof {
        if had_tags {
            let cleaned = cleaned_names(payload.tags->0@);
            assert forall|k: int| 0 <= k < resolved@.len() implies tag_id_taken(
                store.tags@,
                #[trigger] resolved@[k],
            ) by {
                assert(tag_resolved_to(store.tags@, investigation_id, cleaned[k], resolved@[k]));
                let w = tag_index_by_key(store.tags@, investigation_id, fold_key(cleaned[k]));
                assert(0 <= w < store.tags@.len() && store.tags@[w].investigation_id
                    == investigation_id && fold_key(store.tags@[w].name@) == fold_key(cleaned[k]));
                assert(store.tags@[w].id == resolved@[k]);
            }
        }
    }
    let touched = payload.title.is_some() || payload.description.is_some()
        || payload.role.is_some() || payload.location.is_some() || payload.address.is_some()
        || event_date.is_some() || event_end_date.is_some() || payload.is_timeslot.is_some()
        || payload.evidence_type.is_some();
    let cur = &store.entities[idx];
    let new_e = Entity {
        id: cur.id,
        investigation_id: cur.investigation_id,
        entity_type: cur.entity_type.clone(),
        title: match &payload.title {
            Some(t) => t.clone(),
            None => cur.title.clone(),
        },
        description: match &payload.description {
            Some(d) => Some(d.clone()),
            None => clone_opt_string(&cur.description),
        },
        role: match &payload.role {
            Some(v) => Some(v.clone()),
            None => clone_opt_string(&cur.role),
        },
        location: match &payload.location {
            Some(v) => Some(v.clone()),
            None => clone_opt_string(&cur.location),
        },
        address: match &payload.address {
            Some(v) => Some(v.clone()),
            None => clone_opt_string(&cur.address),
        },
        event_date: match event_date {
            Some(d) => Some(d),
            None => cur.event_date,
        },
        event_end_date: match event_end_date {
            Some(d) => Some(d),
            None => cur.event_end_date,
        },
        is_timeslot: match payload.is_timeslot {
            Some(b) => b,
            None => cur.is_timeslot,
        },
        evidence_type: match &payload.evidence_type {
            Some(v) => Some(v.clone()),
            None => clone_opt_string(&cur.evidence_type),
        },
        photo: clone_opt_string(&cur.photo),
        created_at: cur.created_at,
        updated_at: if touched {
            now
        } else {
            cur.updated_at
        },
        created_by_id: cur.created_by_id,
    };
    proof {
        assert(new_e == patched(store.entities@[idx as int], payload, now));
    }
    store.entities.set(idx, new_e);
    let ghost mid = *store;
    if payload.tags.is_none() {
        proof {
            assert(store.entity_tags@ == old(store).entity_tags@);
        }
        return Ok(());
    }
    let ghost pre_removal = store.entity_tags@;
    proof {
        lemma_assocs_without(pre_removal, entity_id);
    }
    let filtered = remove_assocs_of(&store.entity_tags, entity_id);
    store.entity_tags = filtered;
    let rlen = resolved.len();
    let mut j: usize = 0;
    while j < rlen
        invariant
            store.wf(),
            rlen == resolved@.len(),
            same_users(*store, mid),
            same_investigations(*store, mid),
            same_memberships(*store, mid),
            same_entities(*store, mid),
            same_tags(*store, mid),
            same_links(*store, mid),
            same_extras(*store, mid),
            j <= rlen,
            forall|k: int|
                0 <= k < rlen ==> tag_id_taken(store.tags@, #[trigger] resolved@[k]),
            forall|tid: u128|
                #[trigger] has_assoc(store.entity_tags@, entity_id, tid) <==> exists|k: int|
                    0 <= k < j && resolved@[k] == tid,
            forall|a: u128, t: u128|
                a != entity_id ==> (#[trigger] has_assoc(store.entity_tags@, a, t) <==> has_assoc(
                    mid.entity_tags@,
                    a,
                    t,
                )),
        decreases rlen - j,
    {
        let tid = resolved[j];
        let ghost pre = store.entity_tags@;
        if !assoc_exists(&store.entity_tags, entity_id, tid) {
            let row = EntityTag { entity_id, tag_id: tid };
            proof {
                lemma_assoc_push(pre, row);
            }
            store.entity_tags.push(row);
        }
        proof {
            assert forall|tid2: u128| #[trigger] has_assoc(store.entity_tags@, entity_id, tid2)
                implies exists|k: int| 0 <= k < j + 1 && resolved@[k] == tid2 by {
                if has_assoc(pre, entity_id, tid2) {
                    let k0 = choose|k0: int| 0 <= k0 < j && resolved@[k0] == tid2;
                    assert(0 <= k0 < j + 1 && resolved@[k0] == tid2);
                } else {
                    assert(tid2 == tid);
                    assert(resolved@[j as int] == tid2);
                }
            }
            assert forall|tid2: u128|
                (exists|k: int| 0 <= k < j + 1 && resolved@[k] == tid2) implies #[trigger] has_assoc(
                store.entity_tags@,
                entity_id,
                tid2,
            ) by {
                let k0 = choose|k0: int| 0 <= k0 < j + 1 && resolved@[k0] == tid2;
                if k0 < j {
                    assert(has_assoc(pre, entity_id, tid2));
                } else {
                    assert(tid2 == tid);
                }
            }
        }
        j = j + 1;
    }
    proof {
        let cleaned = cleaned_names(payload.tags->0@);
        assert forall|tid: u128| #[trigger] has_assoc(store.entity_tags@, entity_id, tid) implies
            exists|k: int|
            0 <= k < cleaned.len() && tag_resolved_to(
                store.tags@,
                investigation_id,
                #[trigger] cleaned[k],
                tid,
            ) by {
            let k0 = choose|k0: int| 0 <= k0 < rlen && resolved@[k0] == tid;
            assert(tag_resolved_to(store.tags@, investigation_id, cleaned[k0], tid));
        }
        assert forall|tid: u128|
            (exists|k: int|
                0 <= k < cleaned_names(payload.tags->0@).len() && tag_resolved_to(
                    store.tags@,
                    investigation_id,
                    #[trigger] cleaned_names(payload.tags->0@)[k],
                    tid,
                )) implies #[trigger] has_assoc(store.entity_tags@, entity_id, tid) by {
            let k0 = choose|k0: int|
                0 <= k0 < cleaned_names(payload.tags->0@).len() && tag_resolved_to(
                    store.tags@,
                    investigation_id,
                    #[trigger] cleaned_names(payload.tags->0@)[k0],
                    tid,
                );
            assert(tag_resolved_to(store.tags@, investigation_id, cleaned[k0], tid));
            assert(resolved@[k0] == tid);
        }
    }
    Ok(())
}

/// Delete an entity. Only members may call it; an entity absent from the
/// investigation — already gone, or belonging to another one — is
/// `NotFound`. Dangling references (links, associations) stay behind and
/// are skipped by every read, as the storage layer's scoped queries skip
/// them.
pub fn delete_entity(
    store: &mut Store,
    investigation_id: u128,
    entity_id: u128,
    user_id: i32,
) -> (r: Result<(), AppError>)
    requires
        old(store).wf(),
    ensures
        final(store).wf(),
        same_users(*final(store), *old(store)),
        same_investigations(*final(store), *old(store)),
        same_memberships(*final(store), *old(store)),
        same_tags(*final(store), *old(store)),
        same_assocs(*final(store), *old(store)),
        same_links(*final(store), *old(store)),
        same_extras(*final(store), *old(store)),
        (r is Err && r->Err_0 is Unauthorized) <==> !is_member(
            old(store).memberships@,
            investigation_id,
            user_id,
        ),
        is_member(old(store).memberships@, investigation_id, user_id) ==> ((r is Err
            && r->Err_0 is NotFound) <==> !entity_in(
            old(store).entities@,
            entity_id,
            investigation_id,
        )),
        r is Err ==> same_store(*final(store), *old(store)) && (r->Err_0 is Unauthorized
            || r->Err_0 is NotFound),
        r is Ok ==> final(store).entities@ == old(store).entities@.remove(
            entity_index(old(store).entities@, entity_id),
        ),
{
    check_member_access(store, investigation_id, user_id)?;
    let idx = match find_entity(&store.entities, entity_id) {
        Some(i) => i,
        None => {
            return Err(AppError::NotFound("Entity not found".to_string()));
        },
    };
    if store.entities[idx].investigation_id != investigation_id {
        proof {
            assert forall|i: int|
                0 <= i < store.entities@.len() && (#[trigger] store.entities@[i]).id == entity_id
                implies store.entities@[i].investigation_id != investigation_id by {
                assert(store.entities@[i].id == store.entities@[idx as int].id);
                assert(i == idx);
            }
        }
        return Err(AppError::NotFound("Entity not found".to_string()));
    }
    proof {
        assert(has_entity(store.entities@, entity_id));
        let w = entity_index(store.entities@, entity_id);
        assert(store.entities@[w].id == entity_id);
        assert(w == idx);
        store.entities@.remove_ensures(idx as int);
    }
    let ghost pre = store.entities@;
    store.entities.remove(idx);
    proof {
        assert forall|i: int, j: int|
            0 <= i < store.entities@.len() && 0 <= j < store.entities@.len() && i != j implies (
        #[trigger] store.entities@[i]).id != (#[trigger] store.entities@[j]).id by {
            let i0: int = if i < idx {
                i
            } else {
                i + 1
            };
            let j0: int = if j < idx {
                j
            } else {
                j + 1
            };
            assert(store.entities@[i] == pre[i0]);
            assert(store.entities@[j] == pre[j0]);
        }
        assert forall|i: int| 0 <= i < store.entities@.len() implies has_investigation(
            store.investigations@,
            (#[trigger] store.entities@[i]).investigation_id,
        ) && has_user_id(store.users@, store.entities@[i].created_by_id) by {
            let i0: int = if i < idx {
                i
            } else {
                i + 1
            };
            assert(store.entities@[i] == pre[i0]);
        }
    }
    Ok(())
}


/// Tag resolution is idempotent across casing and whitespace: two names
/// whose trimmed forms agree up to ASCII case resolve, within one
/// investigation and one tag table, to the same tag identifier.
pub proof fn lemma_tag_resolution_idempotent(
    ts: Seq<Tag>,
    inv: u128,
    a: Seq<char>,
    b: Seq<char>,
    ia: u128,
    ib: u128,
)
    requires
        fold_key(a) == fold_key(b),
        tag_resolved_to(ts, inv, a, ia),
        tag_resolved_to(ts, inv, b, ib),
    ensures
        ia == ib,
{
}

} // verus!
