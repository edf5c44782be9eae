use media_archiver::domain::{AppLogLevel, SpaceAutoJoinRecord, SpaceChildDescriptor};
use media_archiver::spaces::{
    hierarchy_endpoint_paths, hierarchy_request_url, hierarchy_status_action, orphan_left_log, plan_space_reconcile,
    reconcile_changed, reconcile_writes, space_join_log,
    rooms_to_check_after_unlinking, should_leave_orphaned_room, HierarchyChildEvent,
    HierarchyCollector, HierarchyPage, HierarchyRoom, HierarchyStatusAction, SpaceLinkStore,
};

fn child(room_id: &str, via: &[&str]) -> SpaceChildDescriptor {
    SpaceChildDescriptor {
        room_id: room_id.to_owned(),
        via_servers: via.iter().map(|v| v.to_string()).collect(),
    }
}

fn link(space: &str, child: &str, auto: bool) -> SpaceAutoJoinRecord {
    SpaceAutoJoinRecord {
        space_room_id: space.to_owned(),
        child_room_id: child.to_owned(),
        auto_joined_by_bot: auto,
        created_at: 1,
        updated_at: 1,
    }
}

fn room(room_id: Option<&str>, room_type: Option<&str>, name: Option<&str>, events: Vec<HierarchyChildEvent>) -> HierarchyRoom {
    HierarchyRoom {
        room_id: room_id.map(|r| r.to_owned()),
        room_type: room_type.map(|r| r.to_owned()),
        name: name.map(|r| r.to_owned()),
        canonical_alias: None,
        children_state: events,
    }
}

fn child_event(state_key: &str, via: &[&str]) -> HierarchyChildEvent {
    HierarchyChildEvent {
        event_type: Some("m.space.child".to_owned()),
        state_key: Some(state_key.to_owned()),
        via: Some(via.iter().map(|v| v.to_string()).collect()),
    }
}

#[test]
fn links_keep_the_bot_join_mark_once_set() {
    let mut store = SpaceLinkStore::new();
    store.upsert_space_auto_join_link("!space:x", "!a:x", false, 10);
    store.upsert_space_auto_join_link("!space:x", "!a:x", true, 20);
    store.upsert_space_auto_join_link("!space:x", "!a:x", false, 30);
    store.upsert_space_auto_join_link("!space:x", "!b:x", false, 40);
    store.upsert_space_auto_join_link("!other:x", "!a:x", false, 50);
    let links = store.fetch_space_auto_join_links_for_space("!space:x");
    assert_eq!(links.len(), 2);
    assert_eq!(links[0].child_room_id, "!a:x");
    assert!(links[0].auto_joined_by_bot);
    assert_eq!(links[0].created_at, 10);
    assert_eq!(links[0].updated_at, 30);
    assert!(!links[1].auto_joined_by_bot);
    assert_eq!(store.fetch_space_auto_join_links_for_child("!a:x").len(), 2);
    store.delete_space_auto_join_link("!space:x", "!a:x");
    assert_eq!(store.fetch_space_auto_join_links_for_child("!a:x").len(), 1);
    assert_eq!(store.fetch_space_auto_join_links_for_space("!space:x").len(), 1);
    store.delete_space_auto_join_link("!space:x", "!missing:x");
    assert_eq!(store.fetch_space_auto_join_links_for_space("!space:x").len(), 1);
}

#[test]
fn reconcile_plans_joins_kept_links_and_stale_links() {
    let children = vec![
        child("!a:x", &["x"]),
        child("!space:x", &[]),
        child("#alias:x", &[]),
        child("!b:x", &[]),
        child("!a:x", &["y"]),
    ];
    let existing = vec![link("!space:x", "!a:x", true), link("!space:x", "!gone:x", true)];
    let joined = vec!["!b:x".to_owned(), "!unrelated:x".to_owned()];
    let plan = plan_space_reconcile("!space:x", &children, &existing, &joined);
    assert_eq!(plan.already_joined, vec!["!b:x".to_owned()]);
    assert_eq!(plan.to_join.len(), 1);
    assert_eq!(plan.to_join[0].room_id, "!a:x");
    assert_eq!(plan.to_join[0].via_servers, vec!["x".to_owned()]);
    assert_eq!(plan.stale_links.len(), 1);
    assert_eq!(plan.stale_links[0].child_room_id, "!gone:x");
}

#[test]
fn unlinking_checks_only_rooms_the_bot_joined() {
    let links = vec![link("!s:x", "!a:x", true), link("!s:x", "!b:x", false), link("!s:x", "!c:x", true)];
    assert_eq!(rooms_to_check_after_unlinking(&links), vec!["!a:x".to_owned(), "!c:x".to_owned()]);
    assert!(should_leave_orphaned_room(0, true));
    assert!(!should_leave_orphaned_room(1, true));
    assert!(!should_leave_orphaned_room(0, false));
}

#[test]
fn hierarchy_collector_ignores_rooms_without_id() {
    let page = HierarchyPage {
        rooms: vec![
            room(
                Some("!space:example.org"),
                Some("m.space"),
                Some("Example Space"),
                vec![child_event("!child:example.org", &["example.org"])],
            ),
            room(None, None, Some("Malformed Child"), vec![]),
        ],
        next_batch: None,
    };
    let mut collector = HierarchyCollector::new("!space:example.org");
    collector.add_page(&page);
    let snapshot = collector.finish();
    assert_eq!(snapshot.room_id, "!space:example.org");
    assert!(snapshot.is_space);
    assert_eq!(snapshot.display_name.as_deref(), Some("Example Space"));
    assert_eq!(snapshot.children.len(), 1);
    assert_eq!(snapshot.children[0].room_id, "!child:example.org");
    assert_eq!(snapshot.children[0].via_servers, vec!["example.org".to_owned()]);
}

#[test]
fn hierarchy_children_gather_servers_over_pages() {
    let first = HierarchyPage {
        rooms: vec![room(
            Some("!s:x"),
            None,
            Some("Old name"),
            vec![
                child_event("!a:x", &["x", "y"]),
                child_event("!s:x", &["x"]),
                HierarchyChildEvent {
                    event_type: Some("m.room.member".to_owned()),
                    state_key: Some("!b:x".to_owned()),
                    via: None,
                },
                HierarchyChildEvent { event_type: Some("m.space.child".to_owned()), state_key: None, via: None },
            ],
        )],
        next_batch: Some("token".to_owned()),
    };
    let second = HierarchyPage {
        rooms: vec![
            room(Some("!s:x"), None, None, vec![child_event("!a:x", &["y", "z"])]),
            room(Some("!a:x"), None, Some("A"), vec![]),
        ],
        next_batch: None,
    };
    let mut collector = HierarchyCollector::new("!s:x");
    collector.add_page(&first);
    collector.add_page(&second);
    let snapshot = collector.finish();
    assert!(snapshot.is_space);
    assert_eq!(snapshot.display_name.as_deref(), Some("Old name"));
    assert_eq!(snapshot.children.len(), 1);
    assert_eq!(snapshot.children[0].room_id, "!a:x");
    let mut via = snapshot.children[0].via_servers.clone();
    via.sort();
    assert_eq!(via, vec!["x".to_owned(), "y".to_owned(), "z".to_owned()]);
}

#[test]
fn a_typed_space_without_child_events_lists_the_other_rooms() {
    let page = HierarchyPage {
        rooms: vec![
            room(Some("!s:x"), Some("m.space"), None, vec![]),
            room(Some("!a:x"), None, None, vec![]),
            room(Some("!a:x"), None, None, vec![]),
            room(Some("!b:x"), None, None, vec![]),
        ],
        next_batch: None,
    };
    let mut collector = HierarchyCollector::new("!s:x");
    collector.add_page(&page);
    let snapshot = collector.finish();
    assert!(snapshot.is_space);
    let mut ids: Vec<String> = snapshot.children.iter().map(|c| c.room_id.clone()).collect();
    ids.sort();
    assert_eq!(ids, vec!["!a:x".to_owned(), "!b:x".to_owned()]);
    assert!(snapshot.children.iter().all(|c| c.via_servers.is_empty()));
}

#[test]
fn a_plain_room_has_no_children() {
    let page = HierarchyPage {
        rooms: vec![room(Some("!r:x"), None, Some("Room"), vec![]), room(Some("!a:x"), None, None, vec![])],
        next_batch: None,
    };
    let mut collector = HierarchyCollector::new("!r:x");
    collector.add_page(&page);
    let snapshot = collector.finish();
    assert!(!snapshot.is_space);
    assert!(snapshot.children.is_empty());
}

#[test]
fn hierarchy_requests_try_stable_then_unstable_endpoint() {
    assert_eq!(
        hierarchy_endpoint_paths("!space:example.org"),
        vec![
            "/_matrix/client/v1/rooms/%21space%3Aexample.org/hierarchy".to_owned(),
            "/_matrix/client/unstable/org.matrix.msc2946/rooms/%21space%3Aexample.org/hierarchy".to_owned(),
        ]
    );
    assert_eq!(hierarchy_status_action(404), HierarchyStatusAction::TryNextEndpoint);
    assert_eq!(hierarchy_status_action(405), HierarchyStatusAction::TryNextEndpoint);
    assert_eq!(hierarchy_status_action(200), HierarchyStatusAction::Accept);
    assert_eq!(hierarchy_status_action(500), HierarchyStatusAction::Fail);
    assert_eq!(hierarchy_status_action(403), HierarchyStatusAction::Fail);
}

#[test]
fn links_are_listed_by_room_without_case() {
    let mut store = SpaceLinkStore::new();
    store.upsert_space_auto_join_link("!space:x", "!C:x", false, 1);
    store.upsert_space_auto_join_link("!space:x", "!b:x", false, 2);
    store.upsert_space_auto_join_link("!space:x", "!a:x", true, 3);
    let children: Vec<String> = store
        .fetch_space_auto_join_links_for_space("!space:x")
        .into_iter()
        .map(|l| l.child_room_id)
        .collect();
    assert_eq!(children, vec!["!a:x", "!b:x", "!C:x"]);
    store.upsert_space_auto_join_link("!Zed:x", "!a:x", false, 4);
    store.upsert_space_auto_join_link("!alpha:x", "!a:x", false, 5);
    let spaces: Vec<String> = store
        .fetch_space_auto_join_links_for_child("!a:x")
        .into_iter()
        .map(|l| l.space_room_id)
        .collect();
    assert_eq!(spaces, vec!["!alpha:x", "!space:x", "!Zed:x"]);
}

#[test]
fn reconcile_writes_follow_the_join_outcomes() {
    let children = vec![child("!a:x", &["x"]), child("!b:x", &[]), child("!c:x", &[])];
    let existing = vec![link("!space:x", "!gone:x", true), link("!space:x", "!kept-off:x", false)];
    let joined = vec!["!b:x".to_owned()];
    let plan = plan_space_reconcile("!space:x", &children, &existing, &joined);
    assert_eq!(plan.to_join.len(), 2);
    let outcome: Vec<bool> = plan.to_join.iter().map(|c| c.room_id == "!a:x").collect();
    let writes = reconcile_writes(&plan, &outcome);
    assert_eq!(writes.link_writes, vec![("!b:x".to_owned(), false), ("!a:x".to_owned(), true)]);
    assert_eq!(writes.link_deletions.len(), 2);
    assert_eq!(writes.orphan_checks, vec!["!gone:x".to_owned()]);
    assert!(reconcile_changed(&outcome, &[false].to_vec()));
    assert!(!reconcile_changed(&vec![false, false], &vec![false]));
    assert!(reconcile_changed(&vec![false], &vec![true]));
    assert!(!reconcile_changed(&Vec::new(), &Vec::new()));
}

#[test]
fn space_join_and_leave_log_lines() {
    assert_eq!(space_join_log("!a:x", "!s:x", None), (AppLogLevel::Info, "Joined !a:x from space !s:x".to_owned()));
    assert_eq!(
        space_join_log("!a:x", "!s:x", Some("forbidden")),
        (AppLogLevel::Warning, "Failed joining !a:x from space !s:x: forbidden".to_owned())
    );
    assert_eq!(orphan_left_log("!a:x", "!s:x"), "Left !a:x after it was removed from space !s:x");
}

#[test]
fn hierarchy_request_urls_carry_the_query() {
    let paths = hierarchy_endpoint_paths("!space:example.org");
    assert_eq!(
        hierarchy_request_url("https://matrix.example.org", &paths[0], None).as_deref(),
        Some(
            "https://matrix.example.org/_matrix/client/v1/rooms/%21space%3Aexample.org/hierarchy\
             ?max_depth=1&limit=200&suggested_only=false"
        )
    );
    assert_eq!(
        hierarchy_request_url("https://matrix.example.org/base/", &paths[1], Some("next page")).as_deref(),
        Some(
            "https://matrix.example.org/_matrix/client/unstable/org.matrix.msc2946/rooms/\
             %21space%3Aexample.org/hierarchy?max_depth=1&limit=200&suggested_only=false&from=next+page"
        )
    );
    assert_eq!(hierarchy_request_url("not a url", &paths[0], None), None);
}
