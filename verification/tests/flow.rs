//! Investigations, entities, tags, links and presence, exercised through
//! whole flows: scoping, tag resolution, link uniqueness, sparse updates
//! and the end-to-end scenario.

use enquete_core::access::check_member_access;
use enquete_core::accounts::register;
use enquete_core::entities::{
    create_entity, delete_entity, list_entities, resolve_tags, update_entity,
};
use enquete_core::errors::AppError;
use enquete_core::investigations::{
    create_investigation, get_investigation, get_members, join_investigation, list_investigations,
    update_presence,
};
use enquete_core::links::{create_link, delete_link, list_links};
use enquete_core::requests::{
    CreateEntity, CreateInvestigation, CreateLink, EntityQuery, JoinInvestigation, UpdateEntity,
    UserRegistration,
};
use enquete_core::store::Store;

const SECRET: &str = "test-signing-secret";
const NOW: i64 = 1_700_000_000;

fn add_user(store: &mut Store, name: &str) -> i32 {
    let reg = UserRegistration {
        username: name.to_string(),
        email: format!("{}@example.com", name),
        password: "pw".to_string(),
        first_name: None,
        last_name: None,
    };
    register(store, reg, NOW, SECRET).unwrap().user.id
}

fn add_investigation(store: &mut Store, owner: i32, title: &str) -> (u128, String) {
    let payload = CreateInvestigation { title: title.to_string(), description: None };
    create_investigation(store, payload, owner, NOW).unwrap()
}

fn entity_payload(entity_type: &str, title: &str, tags: Option<Vec<&str>>) -> CreateEntity {
    CreateEntity {
        entity_type: entity_type.to_string(),
        title: title.to_string(),
        description: None,
        role: None,
        location: None,
        address: None,
        event_date: None,
        event_end_date: None,
        is_timeslot: None,
        evidence_type: None,
        tags: tags.map(|ts| ts.into_iter().map(|t| t.to_string()).collect()),
    }
}

fn empty_update() -> UpdateEntity {
    UpdateEntity {
        title: None,
        description: None,
        role: None,
        location: None,
        address: None,
        event_date: None,
        event_end_date: None,
        is_timeslot: None,
        evidence_type: None,
        tags: None,
    }
}

fn no_filter() -> EntityQuery {
    EntityQuery { entity_type: None, search: None }
}

fn id_text(id: u128) -> String {
    uuid::Uuid::from_u128(id).to_string()
}

fn is_unauthorized<T>(r: Result<T, AppError>) -> bool {
    matches!(r, Err(AppError::Unauthorized(_)))
}

#[test]
fn non_member_is_rejected_by_every_scoped_operation() {
    let mut store = Store::new();
    let owner = add_user(&mut store, "owner");
    let outsider = add_user(&mut store, "outsider");
    let (inv, _code) = add_investigation(&mut store, owner, "case");
    let eid = create_entity(&mut store, inv, owner, entity_payload("person", "A", None), NOW)
        .unwrap();

    assert!(check_member_access(&store, inv, outsider).is_err());
    assert!(is_unauthorized(get_investigation(&store, inv, outsider)));
    assert!(is_unauthorized(get_members(&store, inv, outsider, NOW)));
    assert!(is_unauthorized(list_entities(&store, inv, &no_filter(), outsider)));
    assert!(is_unauthorized(create_entity(
        &mut store,
        inv,
        outsider,
        entity_payload("person", "B", None),
        NOW,
    )));
    assert!(is_unauthorized(update_entity(&mut store, inv, eid, outsider, empty_update(), NOW)));
    assert!(is_unauthorized(delete_entity(&mut store, inv, eid, outsider)));
    assert!(is_unauthorized(list_links(&store, inv, outsider)));
    assert!(is_unauthorized(create_link(
        &mut store,
        inv,
        outsider,
        CreateLink {
            from_entity_id: id_text(eid),
            to_entity_id: id_text(eid),
            title: "t".to_string(),
            description: None,
        },
        NOW,
    )));
    assert!(is_unauthorized(delete_link(&mut store, inv, 12345, outsider)));
    // Presence is itself the membership lookup; a non-member gets NotFound.
    assert!(matches!(
        update_presence(&mut store, inv, outsider, NOW),
        Err(AppError::NotFound(_))
    ));
    // The owner's listing is unaffected; the outsider's is empty.
    assert_eq!(list_investigations(&store, owner).len(), 1);
    assert_eq!(list_investigations(&store, outsider).len(), 0);
}

#[test]
fn tag_resolution_is_idempotent_across_case_and_whitespace() {
    let mut store = Store::new();
    let owner = add_user(&mut store, "owner");
    let (inv, _) = add_investigation(&mut store, owner, "case");
    let names = vec![
        "Suspect".to_string(),
        "suspect".to_string(),
        " SUSPECT ".to_string(),
    ];
    let ids = resolve_tags(&mut store, inv, &names, NOW).unwrap();
    assert_eq!(ids.len(), 3);
    assert_eq!(ids[0], ids[1]);
    assert_eq!(ids[1], ids[2]);
    // Exactly one tag row exists, carrying the first-written casing.
    assert_eq!(store.tags.len(), 1);
    assert_eq!(store.tags[0].name, "Suspect");
    // Empty and whitespace-only names are skipped.
    let more = resolve_tags(
        &mut store,
        inv,
        &vec!["".to_string(), "   ".to_string(), "suspect".to_string()],
        NOW,
    )
    .unwrap();
    assert_eq!(more.len(), 1);
    assert_eq!(more[0], ids[0]);
    assert_eq!(store.tags.len(), 1);
    // The first-written casing survives later resolutions of the same key.
    assert_eq!(store.tags[0].name, "Suspect");
    // An unknown investigation is a storage-level failure.
    assert!(matches!(
        resolve_tags(&mut store, 987654321, &names, NOW),
        Err(AppError::InternalError(_))
    ));
}

#[test]
fn reverse_link_is_rejected_and_disjoint_link_passes() {
    let mut store = Store::new();
    let owner = add_user(&mut store, "owner");
    let (inv, _) = add_investigation(&mut store, owner, "case");
    let a = create_entity(&mut store, inv, owner, entity_payload("person", "A", None), NOW)
        .unwrap();
    let b = create_entity(&mut store, inv, owner, entity_payload("person", "B", None), NOW)
        .unwrap();
    let c = create_entity(&mut store, inv, owner, entity_payload("person", "C", None), NOW)
        .unwrap();
    let d = create_entity(&mut store, inv, owner, entity_payload("person", "D", None), NOW)
        .unwrap();
    let link = |from: u128, to: u128| CreateLink {
        from_entity_id: id_text(from),
        to_entity_id: id_text(to),
        title: "knows".to_string(),
        description: None,
    };
    assert!(create_link(&mut store, inv, owner, link(a, b), NOW).is_ok());
    // The reverse of an existing link is rejected.
    assert!(matches!(
        create_link(&mut store, inv, owner, link(b, a), NOW),
        Err(AppError::BadRequest(_))
    ));
    // So is the same direction again.
    assert!(matches!(
        create_link(&mut store, inv, owner, link(a, b), NOW),
        Err(AppError::BadRequest(_))
    ));
    // A disjoint pair passes.
    assert!(create_link(&mut store, inv, owner, link(c, d), NOW).is_ok());
    // Malformed endpoint text is rejected before anything else.
    assert!(matches!(
        create_link(
            &mut store,
            inv,
            owner,
            CreateLink {
                from_entity_id: "not-an-id".to_string(),
                to_entity_id: id_text(b),
                title: "x".to_string(),
                description: None,
            },
            NOW,
        ),
        Err(AppError::BadRequest(_))
    ));
    // An endpoint from another investigation is rejected.
    let (other_inv, _) = add_investigation(&mut store, owner, "other");
    let foreign =
        create_entity(&mut store, other_inv, owner, entity_payload("person", "F", None), NOW)
            .unwrap();
    assert!(matches!(
        create_link(&mut store, inv, owner, link(a, foreign), NOW),
        Err(AppError::BadRequest(_))
    ));
    let rows = list_links(&store, inv, owner).unwrap();
    assert_eq!(rows.len(), 2);
    // Deleting a link that is not there is NotFound.
    assert!(matches!(
        delete_link(&mut store, inv, 424242, owner),
        Err(AppError::NotFound(_))
    ));
    let lid = rows[0].id;
    assert!(delete_link(&mut store, inv, lid, owner).is_ok());
    assert_eq!(list_links(&store, inv, owner).unwrap().len(), 1);
}

fn tags_of(store: &Store, inv: u128, eid: u128, user: i32) -> Vec<String> {
    let rows = list_entities(store, inv, &no_filter(), user).unwrap();
    let row = rows.iter().find(|r| r.id == eid).unwrap();
    let mut names: Vec<String> = row.tags.iter().map(|t| t.name.clone()).collect();
    names.sort();
    names
}

#[test]
fn sparse_update_touches_only_provided_fields() {
    let mut store = Store::new();
    let owner = add_user(&mut store, "owner");
    let (inv, _) = add_investigation(&mut store, owner, "case");
    let eid = create_entity(
        &mut store,
        inv,
        owner,
        entity_payload("evidence", "old title", Some(vec!["x", "y"])),
        NOW,
    )
    .unwrap();
    assert_eq!(tags_of(&store, inv, eid, owner), vec!["x".to_string(), "y".to_string()]);

    // A title-only update leaves the tag set untouched.
    let mut patch = empty_update();
    patch.title = Some("new".to_string());
    update_entity(&mut store, inv, eid, owner, patch, NOW + 10).unwrap();
    let rows = list_entities(&store, inv, &no_filter(), owner).unwrap();
    assert_eq!(rows[0].title, "new");
    assert_eq!(rows[0].updated_at, NOW + 10);
    assert_eq!(tags_of(&store, inv, eid, owner), vec!["x".to_string(), "y".to_string()]);

    // An empty tag list clears the set; nothing else changes.
    let mut patch = empty_update();
    patch.tags = Some(vec![]);
    update_entity(&mut store, inv, eid, owner, patch, NOW + 20).unwrap();
    let rows = list_entities(&store, inv, &no_filter(), owner).unwrap();
    assert_eq!(rows[0].title, "new");
    assert_eq!(rows[0].updated_at, NOW + 10);
    assert!(tags_of(&store, inv, eid, owner).is_empty());

    // A one-element tag list replaces the whole set.
    let mut patch = empty_update();
    patch.tags = Some(vec!["z".to_string()]);
    update_entity(&mut store, inv, eid, owner, patch, NOW + 30).unwrap();
    assert_eq!(tags_of(&store, inv, eid, owner), vec!["z".to_string()]);

    // An unparsable date is silently treated as absent.
    let mut patch = empty_update();
    patch.event_date = Some("not-a-date".to_string());
    update_entity(&mut store, inv, eid, owner, patch, NOW + 40).unwrap();
    let rows = list_entities(&store, inv, &no_filter(), owner).unwrap();
    assert!(rows[0].event_date.is_none());
    assert_eq!(rows[0].updated_at, NOW + 10);

    // A well-formed date lands as the epoch instant.
    let mut patch = empty_update();
    patch.event_date = Some("2024-01-15T10:00:00Z".to_string());
    update_entity(&mut store, inv, eid, owner, patch, NOW + 50).unwrap();
    let rows = list_entities(&store, inv, &no_filter(), owner).unwrap();
    assert_eq!(rows[0].event_date, Some(1_705_312_800));
    assert_eq!(rows[0].updated_at, NOW + 50);

    // An entity of another investigation is NotFound.
    let (other_inv, _) = add_investigation(&mut store, owner, "other");
    assert!(matches!(
        update_entity(&mut store, other_inv, eid, owner, empty_update(), NOW),
        Err(AppError::NotFound(_))
    ));
    assert!(matches!(
        delete_entity(&mut store, other_inv, eid, owner),
        Err(AppError::NotFound(_))
    ));
    assert!(delete_entity(&mut store, inv, eid, owner).is_ok());
    assert!(matches!(
        delete_entity(&mut store, inv, eid, owner),
        Err(AppError::NotFound(_))
    ));
}

#[test]
fn listing_filters_compose_and_order_newest_first() {
    let mut store = Store::new();
    let owner = add_user(&mut store, "owner");
    let (inv, _) = add_investigation(&mut store, owner, "case");
    create_entity(&mut store, inv, owner, entity_payload("person", "John Doe", None), NOW)
        .unwrap();
    create_entity(&mut store, inv, owner, entity_payload("person", "Jane Roe", None), NOW + 1)
        .unwrap();
    let mut with_desc = entity_payload("evidence", "knife", None);
    with_desc.description = Some("found near John's house".to_string());
    create_entity(&mut store, inv, owner, with_desc, NOW + 2).unwrap();

    let all = list_entities(&store, inv, &no_filter(), owner).unwrap();
    assert_eq!(all.len(), 3);
    assert!(all[0].created_at >= all[1].created_at && all[1].created_at >= all[2].created_at);

    let people = list_entities(
        &store,
        inv,
        &EntityQuery { entity_type: Some("person".to_string()), search: None },
        owner,
    )
    .unwrap();
    assert_eq!(people.len(), 2);

    // The search is case-insensitive and also scans descriptions.
    let johns = list_entities(
        &store,
        inv,
        &EntityQuery { entity_type: None, search: Some("JOHN".to_string()) },
        owner,
    )
    .unwrap();
    assert_eq!(johns.len(), 2);

    // Filters compose with AND.
    let narrowed = list_entities(
        &store,
        inv,
        &EntityQuery {
            entity_type: Some("person".to_string()),
            search: Some("john".to_string()),
        },
        owner,
    )
    .unwrap();
    assert_eq!(narrowed.len(), 1);
    assert_eq!(narrowed[0].title, "John Doe");
}

#[test]
fn join_by_code_normalizes_case_and_rejects_repeats() {
    let mut store = Store::new();
    let owner = add_user(&mut store, "owner");
    let joiner = add_user(&mut store, "joiner");
    let (inv, code) = add_investigation(&mut store, owner, "case");
    // An unknown code is NotFound.
    assert!(matches!(
        join_investigation(
            &mut store,
            JoinInvestigation { code: "WRONGC0D".to_string() },
            joiner,
            NOW,
        ),
        Err(AppError::NotFound(_))
    ));
    // The submitted code is normalized, so lowercase input joins.
    let joined = join_investigation(
        &mut store,
        JoinInvestigation { code: code.to_lowercase() },
        joiner,
        NOW + 1,
    )
    .unwrap();
    assert_eq!(joined, inv);
    // Joining twice is BadRequest; the owner is already a member too.
    assert!(matches!(
        join_investigation(&mut store, JoinInvestigation { code: code.clone() }, joiner, NOW),
        Err(AppError::BadRequest(_))
    ));
    assert!(matches!(
        join_investigation(&mut store, JoinInvestigation { code }, owner, NOW),
        Err(AppError::BadRequest(_))
    ));
}

#[test]
fn end_to_end_scenario() {
    let mut store = Store::new();

    // Register user A and create an investigation; the code is eight
    // uppercase alphanumeric characters.
    let a = add_user(&mut store, "alice");
    let (inv, code) = add_investigation(&mut store, a, "the case");
    assert_eq!(code.len(), 8);
    assert!(code.chars().all(|c| c.is_ascii_uppercase() || c.is_ascii_digit()));

    // Register user B, who joins by code.
    let b = add_user(&mut store, "bob");
    assert_eq!(
        join_investigation(&mut store, JoinInvestigation { code }, b, NOW + 5).unwrap(),
        inv
    );

    // The investigation detail counts both members.
    let detail = get_investigation(&store, inv, b).unwrap();
    assert_eq!(detail.member_count, 2);
    assert_eq!(detail.created_by, "alice");
    assert!(detail.is_active);

    // A creates an entity; B links it to a second one.
    let john = create_entity(
        &mut store,
        inv,
        a,
        entity_payload("person", "John Doe", None),
        NOW + 10,
    )
    .unwrap();
    let site = create_entity(
        &mut store,
        inv,
        b,
        entity_payload("evidence", "warehouse", None),
        NOW + 11,
    )
    .unwrap();
    create_link(
        &mut store,
        inv,
        b,
        CreateLink {
            from_entity_id: id_text(john),
            to_entity_id: id_text(site),
            title: "seen at".to_string(),
            description: None,
        },
        NOW + 12,
    )
    .unwrap();
    let links = list_links(&store, inv, a).unwrap();
    assert_eq!(links.len(), 1);
    assert_eq!(links[0].from_entity.title, "John Doe");
    assert_eq!(links[0].to_entity.title, "warehouse");
    assert_eq!(links[0].created_by, "bob");

    // Both members appear, joined-first ordering, and nobody is online
    // before a heartbeat.
    let members = get_members(&store, inv, a, NOW + 100).unwrap();
    assert_eq!(members.len(), 2);
    assert_eq!(members[0].username, "alice");
    assert_eq!(members[1].username, "bob");
    assert!(members.iter().all(|m| !m.online));

    // B posts a heartbeat and is online within the window, then falls
    // offline once it ages out.
    let stamped = update_presence(&mut store, inv, b, NOW + 100).unwrap();
    assert_eq!(stamped, NOW + 100);
    let members = get_members(&store, inv, a, NOW + 120).unwrap();
    let bob = members.iter().find(|m| m.username == "bob").unwrap();
    assert!(bob.online);
    assert_eq!(bob.last_seen, Some(NOW + 100));
    let alice = members.iter().find(|m| m.username == "alice").unwrap();
    assert!(!alice.online);
    let members = get_members(&store, inv, a, NOW + 131).unwrap();
    assert!(members.iter().all(|m| !m.online));

    // Both users see the investigation in their listings.
    assert_eq!(list_investigations(&store, a).len(), 1);
    assert_eq!(list_investigations(&store, b).len(), 1);
}
