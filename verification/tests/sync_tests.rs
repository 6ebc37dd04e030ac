use reminder_bot::matrix::{
    bearer_value, send_message_url, sync_url, Event, JoinedRoomsSyncResponse, RoomTimeline,
    RoomsSyncResponse, SyncResponse, SyncState,
};

fn event(etype: &str, sender: &str, body: Option<&str>) -> Event {
    Event {
        etype: String::from(etype),
        state_key: None,
        sender: String::from(sender),
        origin_server_ts: 0,
        body: body.map(String::from),
    }
}

#[test]
fn first_snapshot_is_catch_up_then_live() {
    let mut state = SyncState::new();
    assert!(!state.is_live);
    // The first success's snapshot is not yet live.
    let was_live = state.apply_success(String::from("batch-1"));
    assert!(!was_live);
    // Every later one is, failures in between or not.
    let was_live = state.apply_success(String::from("batch-2"));
    assert!(was_live);
    state.apply_failure();
    let was_live = state.apply_success(String::from("batch-3"));
    assert!(was_live);
}

#[test]
fn failures_keep_next_batch() {
    let mut state = SyncState::new();
    state.apply_success(String::from("batch-1"));
    state.apply_failure();
    state.apply_failure();
    assert_eq!(state.next_batch.as_deref(), Some("batch-1"));
    assert!(state.errored);
    assert!(state.is_live);
}

#[test]
fn backoff_follows_errors() {
    let mut state = SyncState::new();
    assert!(!state.needs_backoff());
    state.apply_failure();
    assert!(state.needs_backoff());
    state.apply_success(String::from("b"));
    assert!(!state.needs_backoff());
}

#[test]
fn request_urls() {
    let state = SyncState::new();
    assert_eq!(
        sync_url("https://chat.example.org", &state),
        "https://chat.example.org/_matrix/client/r0/sync"
    );
    let mut live = SyncState::new();
    live.apply_success(String::from("s72594_4483_1934"));
    assert_eq!(
        sync_url("https://chat.example.org", &live),
        "https://chat.example.org/_matrix/client/r0/sync?since=s72594_4483_1934&timeout=60000"
    );
    assert_eq!(bearer_value("syt_example_token"), "Bearer syt_example_token");
    assert_eq!(
        send_message_url("https://chat.example.org", "!room:example.org"),
        "https://chat.example.org/_matrix/client/r0/rooms/!room:example.org/send/m.room.message"
    );
}

#[test]
fn events_flatten_in_order() {
    let resp = SyncResponse {
        next_batch: String::from("nb"),
        rooms: RoomsSyncResponse {
            join: vec![
                (
                    String::from("!a:x"),
                    JoinedRoomsSyncResponse {
                        timeline: RoomTimeline {
                            events: vec![
                                event("m.room.message", "@u1:x", Some("one")),
                                event("m.room.message", "@u2:x", Some("two")),
                            ],
                        },
                    },
                ),
                (
                    String::from("!b:x"),
                    JoinedRoomsSyncResponse {
                        timeline: RoomTimeline { events: vec![event("m.room.member", "@u3:x", None)] },
                    },
                ),
            ],
        },
    };
    let evs = resp.events();
    assert_eq!(evs.len(), 3);
    assert_eq!(evs[0].0, "!a:x");
    assert_eq!(evs[0].1.sender, "@u1:x");
    assert_eq!(evs[1].0, "!a:x");
    assert_eq!(evs[1].1.sender, "@u2:x");
    assert_eq!(evs[2].0, "!b:x");
    assert_eq!(evs[2].1.etype, "m.room.member");
}
