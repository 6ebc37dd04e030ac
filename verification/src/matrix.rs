//! The chat-server side: the consumed slice of the sync response, the
//! long-poll state machine, and the request strings.
//!
//! The surrounding program performs the HTTP exchanges; the library decides
//! what to request, how each attempt's outcome changes the state, and what
//! each emitted snapshot carries. The state machine's laws: `next_batch`
//! advances only on success, and only the very first successful attempt
//! emits a snapshot that is not yet live.

use vstd::prelude::*;

verus! {

/// One room event, holding the fields the bot consumes. The wire event
/// carries a free-form content object; of it only the textual `body` is
/// read, so only that is kept.
#[derive(Debug)]
pub struct Event {
    /// The event's type; messages are "m.room.message".
    pub etype: String,
    pub state_key: Option<String>,
    /// The sending chat user.
    pub sender: String,
    pub origin_server_ts: u64,
    /// The textual message body, where the content holds one.
    pub body: Option<String>,
}

fn clone_opt_string(s: &Option<String>) -> (r: Option<String>)
    ensures
        r == *s,
{
    match s {
        Some(v) => Some(v.clone()),
        None => None,
    }
}

impl Clone for Event {
    fn clone(&self) -> (r: Self)
        ensures
            r == *self,
    {
        Event {
            etype: self.etype.clone(),
            state_key: clone_opt_string(&self.state_key),
            sender: self.sender.clone(),
            origin_server_ts: self.origin_server_ts,
            body: clone_opt_string(&self.body),
        }
    }
}

#[derive(Debug)]
pub struct RoomTimeline {
    pub events: Vec<Event>,
}

#[derive(Debug)]
pub struct JoinedRoomsSyncResponse {
    pub timeline: RoomTimeline,
}

#[derive(Debug)]
pub struct RoomsSyncResponse {
    /// The joined rooms, each with its timeline, in the order received.
    pub join: Vec<(String, JoinedRoomsSyncResponse)>,
}

/// The consumed fields of one sync response.
#[derive(Debug)]
pub struct SyncResponse {
    /// The server's continuation token for the next request.
    pub next_batch: String,
    pub rooms: RoomsSyncResponse,
}

/// One emitted snapshot: a parsed response, and whether the stream was
/// already live when the response arrived.
#[derive(Debug)]
pub struct SyncStreamItem {
    pub sync_response: SyncResponse,
    pub is_live: bool,
}

/// The events of one room, each paired with the room's identifier.
pub open spec fn spec_room_events(room_id: String, events: Seq<Event>) -> Seq<(String, Event)> {
    events.map_values(|e: Event| (room_id, e))
}

/// All events of a response's rooms, rooms in order, events in order within
/// each room.
pub open spec fn spec_events_of(join: Seq<(String, JoinedRoomsSyncResponse)>) -> Seq<
    (String, Event),
>
    decreases join.len(),
{
    if join.len() == 0 {
        Seq::empty()
    } else {
        spec_events_of(join.drop_last()) + spec_room_events(
            join.last().0,
            join.last().1.timeline.events@,
        )
    }
}

impl SyncResponse {
    /// Flattens the response into `(room id, event)` pairs, rooms in the
    /// order received and events in server order within each room.
    pub fn events(&self) -> (r: Vec<(String, Event)>)
        ensures
            r@ == spec_events_of(self.rooms.join@),
    {
        let mut r: Vec<(String, Event)> = Vec::new();
        let nr: usize = self.rooms.join.len();
        let mut i: usize = 0;
        while i < nr
            invariant
                0 <= i <= nr,
                nr == self.rooms.join@.len(),
                r@ == spec_events_of(self.rooms.join@.take(i as int)),
            decreases nr - i,
        {
            let room = &self.rooms.join[i];
            let ne: usize = room.1.timeline.events.len();
            let mut k: usize = 0;
            while k < ne
                invariant
                    0 <= k <= ne,
                    0 <= i < nr,
                    nr == self.rooms.join@.len(),
                    ne == self.rooms.join@[i as int].1.timeline.events@.len(),
                    room == &self.rooms.join@[i as int],
                    r@ == spec_events_of(self.rooms.join@.take(i as int)) + spec_room_events(
                        self.rooms.join@[i as int].0,
                        self.rooms.join@[i as int].1.timeline.events@.take(k as int),
                    ),
                decreases ne - k,
            {
                r.push((room.0.clone(), room.1.timeline.events[k].clone()));
                proof {
                    let evs = self.rooms.join@[i as int].1.timeline.events@;
                    assert(evs.take(k + 1) =~= evs.take(k as int).push(evs[k as int]));
                    assert(spec_room_events(self.rooms.join@[i as int].0, evs.take(k + 1))
                        =~= spec_room_events(self.rooms.join@[i as int].0, evs.take(k as int)).push(
                        (self.rooms.join@[i as int].0, evs[k as int]),
                    ));
                }
                k = k + 1;
            }
            proof {
                let evs = self.rooms.join@[i as int].1.timeline.events@;
                assert(evs.take(ne as int) =~= evs);
                assert(self.rooms.join@.take(i + 1).drop_last() =~= self.rooms.join@.take(
                    i as int,
                ));
                assert(self.rooms.join@.take(i + 1).last() == self.rooms.join@[i as int]);
            }
            i = i + 1;
        }
        proof {
            assert(self.rooms.join@.take(nr as int) =~= self.rooms.join@);
        }
        r
    }
}

/// The sync loop's state: whether the last attempt failed, whether a
/// successful response arrived yet, and the continuation token.
#[derive(Debug)]
pub struct SyncState {
    pub errored: bool,
    pub is_live: bool,
    pub next_batch: Option<String>,
}

/// One long-poll attempt's outcome, as the state machine sees it: a parsed
/// response's continuation token, or any transport, status or parse failure.
#[derive(Debug)]
pub enum SyncOutcome {
    Success(String),
    Failure,
}

impl SyncOutcome {
    pub open spec fn is_success(self) -> bool {
        self is Success
    }
}

/// How one outcome changes the state: a success stores its token, makes the
/// stream live and clears the error flag; a failure sets the error flag and
/// touches nothing else.
pub open spec fn spec_step(s: SyncState, o: SyncOutcome) -> SyncState {
    match o {
        SyncOutcome::Success(nb) => SyncState { errored: false, is_live: true, next_batch: Some(nb) },
        SyncOutcome::Failure => SyncState { errored: true, ..s },
    }
}

/// The state after a sequence of outcomes.
pub open spec fn spec_state_after(s0: SyncState, outs: Seq<SyncOutcome>) -> SyncState
    decreases outs.len(),
{
    if outs.len() == 0 {
        s0
    } else {
        spec_step(spec_state_after(s0, outs.drop_last()), outs.last())
    }
}

impl SyncState {
    /// The state before any attempt.
    pub open spec fn spec_init() -> SyncState {
        SyncState { errored: false, is_live: false, next_batch: None }
    }

    pub fn new() -> (r: SyncState)
        ensures
            r == SyncState::spec_init(),
    {
        SyncState { errored: false, is_live: false, next_batch: None }
    }

    /// Whether the next attempt must back off first.
    pub fn needs_backoff(&self) -> (r: bool)
        ensures
            r == self.errored,
    {
        self.errored
    }

    /// Records a successful response and returns whether the stream was
    /// live before it: the very first success returns `false`, so its
    /// snapshot can be treated as historical catch-up.
    pub fn apply_success(&mut self, next_batch: String) -> (was_live: bool)
        ensures
            *final(self) == spec_step(*old(self), SyncOutcome::Success(next_batch)),
            was_live == old(self).is_live,
    {
        let was_live = self.is_live;
        self.errored = false;
        self.is_live = true;
        self.next_batch = Some(next_batch);
        was_live
    }

    /// Records a failed attempt: only the error flag changes; in particular
    /// the continuation token stays where it was.
    pub fn apply_failure(&mut self)
        ensures
            *final(self) == spec_step(*old(self), SyncOutcome::Failure),
            final(self).next_batch == old(self).next_batch,
            final(self).is_live == old(self).is_live,
            final(self).errored,
    {
        self.errored = true;
    }
}

/// The continuation token survives any run of failures: a sequence of
/// outcomes with no success leaves `next_batch` untouched.
pub proof fn lemma_failures_keep_next_batch(s0: SyncState, outs: Seq<SyncOutcome>)
    requires
        forall|i: int| 0 <= i < outs.len() ==> !(#[trigger] outs[i]).is_success(),
    ensures
        spec_state_after(s0, outs).next_batch == s0.next_batch,
        spec_state_after(s0, outs).is_live == s0.is_live,
    decreases outs.len(),
{
    if outs.len() > 0 {
        lemma_failures_keep_next_batch(s0, outs.drop_last());
    }
}

/// The stream is live exactly after a success: starting from the initial
/// state, the state reached by any outcomes is live if and only if one of
/// them succeeded.
pub proof fn lemma_live_iff_some_success(outs: Seq<SyncOutcome>)
    ensures
        spec_state_after(SyncState::spec_init(), outs).is_live <==> exists|i: int|
            0 <= i < outs.len() && (#[trigger] outs[i]).is_success(),
    decreases outs.len(),
{
    if outs.len() > 0 {
        lemma_live_iff_some_success(outs.drop_last());
        let prev = spec_state_after(SyncState::spec_init(), outs.drop_last());
        if outs.last().is_success() {
            assert(outs[outs.len() - 1].is_success());
        } else {
            if prev.is_live {
                let i = choose|i: int|
                    0 <= i < outs.drop_last().len() && (#[trigger] outs.drop_last()[i]).is_success();
                assert(outs[i].is_success());
            } else {
                assert forall|i: int|
                    0 <= i < outs.len() implies !(#[trigger] outs[i]).is_success() by {
                    if i < outs.len() - 1 {
                        assert(outs.drop_last()[i] == outs[i]);
                    }
                }
            }
        }
    }
}

/// What each snapshot carries: the snapshot of the success at position `k`
/// carries `is_live` false exactly when it is the first success — the
/// initial catch-up — and true for every later one.
pub proof fn lemma_first_snapshot_not_live(outs: Seq<SyncOutcome>, k: int)
    requires
        0 <= k < outs.len(),
        outs[k].is_success(),
    ensures
        spec_state_after(SyncState::spec_init(), outs.take(k)).is_live <==> exists|i: int|
            0 <= i < k && (#[trigger] outs[i]).is_success(),
{
    lemma_live_iff_some_success(outs.take(k));
    if spec_state_after(SyncState::spec_init(), outs.take(k)).is_live {
        let i = choose|i: int|
            0 <= i < outs.take(k).len() && (#[trigger] outs.take(k)[i]).is_success();
        assert(outs[i].is_success());
    } else {
        assert forall|i: int| 0 <= i < k implies !(#[trigger] outs[i]).is_success() by {
            assert(outs.take(k)[i] == outs[i]);
        }
    }
}

/// The sync request's path and query: the catch-up request names no token;
/// a continuing request carries the token and a 60-second server timeout.
pub open spec fn spec_sync_url(host: Seq<char>, next_batch: Option<Seq<char>>) -> Seq<char> {
    match next_batch {
        None => host + "/_matrix/client/r0/sync"@,
        Some(nb) => host + "/_matrix/client/r0/sync?since="@ + nb + "&timeout=60000"@,
    }
}

/// Builds the sync request URL for the current state.
pub fn sync_url(base_host: &str, state: &SyncState) -> (r: String)
    ensures
        r@ == spec_sync_url(
            base_host@,
            match state.next_batch {
                Some(nb) => Some(nb@),
                None => None,
            },
        ),
{
    let mut url = String::from_str(base_host);
    match &state.next_batch {
        None => {
            url.append("/_matrix/client/r0/sync");
        },
        Some(nb) => {
            url.append("/_matrix/client/r0/sync?since=");
            url.append(nb.as_str());
            url.append("&timeout=60000");
        },
    }
    url
}

/// The authorization header's value: the word "Bearer", a space, the token.
pub open spec fn spec_bearer(token: Seq<char>) -> Seq<char> {
    "Bearer "@ + token
}

pub fn bearer_value(access_token: &str) -> (r: String)
    ensures
        r@ == spec_bearer(access_token@),
{
    let mut r = String::from_str("Bearer ");
    r.append(access_token);
    r
}

/// The URL a room message is posted to.
pub open spec fn spec_send_url(host: Seq<char>, room_id: Seq<char>) -> Seq<char> {
    host + "/_matrix/client/r0/rooms/"@ + room_id + "/send/m.room.message"@
}

pub fn send_message_url(base_host: &str, room_id: &str) -> (r: String)
    ensures
        r@ == spec_send_url(base_host@, room_id@),
{
    let mut url = String::from_str(base_host);
    url.append("/_matrix/client/r0/rooms/");
    url.append(room_id);
    url.append("/send/m.room.message");
    url
}

} // verus!
