//! The server store: what is written, and in which order, when a status has
//! come in. The caller talks to the database; each answer is handed to
//! [`store_step`], which says what to do next.

use vstd::prelude::*;
use vstd::string::*;
use crate::delta::{events_view, plan_events, player_events, EventValue, PlayerEvent};
use crate::status::{players_view, Players, PlayersValue};
use crate::uuid::{is_cracked, offline_uuid};

verus! {

/// How often the insert of a server row is tried before the status is given
/// up: once more after another probe has written the row first.
pub const MAX_INSERT_ATTEMPTS: u8 = 2;

/// What the store waits for.
#[derive(Debug, Clone, Copy, PartialEq, Eq, Structural)]
pub enum Stage {
    /// The row of the server, if there is one.
    FindingServer,
    /// The update of the row.
    UpdatingServer,
    /// The insert of a new row.
    InsertingServer,
    /// The id of the player of the current event.
    FindingPlayer,
    /// The insert of the player of the current event.
    AddingPlayer,
    /// The id of the player, after another probe has inserted the player first.
    RefindingPlayer,
    /// The insert of the current event.
    AddingAction,
    /// Nothing: the store is done.
    Finished,
}

/// How the store ended.
#[derive(Debug, Clone, Copy, PartialEq, Eq, Structural)]
pub enum StoreOutcome {
    /// The row is written. `is_new_server` tells whether it was inserted.
    Stored { server_id: i32, is_new_server: bool },
    /// The database failed before the row was written: nothing is recorded.
    Dropped,
}

/// What the database answered.
#[derive(Debug, Clone, PartialEq, Eq)]
pub enum StoreEvent {
    /// The newest row of the server: its id and its players, or no row.
    ServerRow(Option<(i32, Option<Players>)>),
    /// The row was written and has this id.
    Written(i32),
    /// The insert of the row met the row of another probe.
    Conflict,
    /// The id of the player, or none: no such player, or the insert met the
    /// row of another probe and returned nothing.
    Player(Option<i32>),
    /// The event was inserted.
    Done,
    /// The statement failed.
    Failed,
}

/// What to ask of the database next. An `index` names an event of
/// [`StoreState::events`].
#[derive(Debug, Clone, Copy, PartialEq, Eq, Structural)]
pub enum StoreAction {
    /// Select the newest row of the server.
    FindServer,
    /// Update the row `id` with the status and the time.
    UpdateServer { id: i32 },
    /// Insert a row with the status.
    InsertServer,
    /// Select the id of the player of the event `index`.
    FindPlayer { index: usize },
    /// Insert the player of the event `index`, unless there is one.
    AddPlayer { index: usize, cracked: bool },
    /// Insert the event `index` for the player `user_id`.
    AddAction { index: usize, user_id: i32 },
    /// Stop.
    Finish(StoreOutcome),
}

/// The state of the store between two answers of the database.
#[derive(Debug)]
pub struct StoreState {
    pub stage: Stage,
    /// The events to record, known once the row of the server is found.
    pub events: Vec<PlayerEvent>,
    /// The event that is being recorded.
    pub next: usize,
    pub server_id: i32,
    pub is_new_server: bool,
    /// How often the insert of the row has met the row of another probe.
    pub conflicts: u8,
}

impl StoreState {
    /// The current event exists while a player or an action is waited for.
    pub open spec fn wf(&self) -> bool {
        &&& self.next <= self.events@.len()
        &&& self.conflicts <= MAX_INSERT_ATTEMPTS
        &&& (self.stage is FindingPlayer || self.stage is AddingPlayer
            || self.stage is RefindingPlayer || self.stage is AddingAction) ==> self.next
            < self.events@.len()
        &&& (self.stage is FindingServer || self.stage is UpdatingServer
            || self.stage is InsertingServer) ==> self.next == 0
    }

    /// Whether the row of the server is written.
    pub open spec fn row_written(&self) -> bool {
        self.stage is FindingPlayer || self.stage is AddingPlayer || self.stage is RefindingPlayer
            || self.stage is AddingAction
    }
}

/// The state in which the store starts, and the first thing to ask.
pub fn store_start() -> (r: (StoreState, StoreAction))
    ensures
        r.0.wf(),
        r.0.stage == Stage::FindingServer,
        r.0.events@.len() == 0,
        r.0.conflicts == 0,
        r.1 == StoreAction::FindServer,
{
    (
        StoreState {
            stage: Stage::FindingServer,
            events: Vec::new(),
            next: 0,
            server_id: 0,
            is_new_server: false,
            conflicts: 0,
        },
        StoreAction::FindServer,
    )
}

/// Where the store stands when the event `next` is the next to record:
/// looking for its player, or done when there is no such event.
pub open spec fn stage_at(events: nat, next: int) -> Stage {
    if next < events {
        Stage::FindingPlayer
    } else {
        Stage::Finished
    }
}

/// What is asked when the event `next` is the next to record.
pub open spec fn action_at(events: nat, next: int, server_id: i32, is_new_server: bool)
    -> StoreAction {
    if next < events {
        StoreAction::FindPlayer { index: next as usize }
    } else {
        StoreAction::Finish(StoreOutcome::Stored { server_id, is_new_server })
    }
}

/// Whether the player of an event has the UUID that offline mode derives
/// from the name.
pub open spec fn event_cracked(e: EventValue) -> bool {
    offline_uuid(vstd::utf8::encode_utf8(e.name)) == e.uuid
}

/// The step of the store: from the state `pre` and the answer `event` to the
/// state `post` and the request `action`.
///
/// The row is looked up, then updated where there is one and inserted where
/// there is none; an insert that meets the row of another probe looks the row
/// up once more. A failure up to here drops the status. With the row written
/// the events are recorded one by one: the player is looked up and inserted
/// where missing, looked up again where the insert returned nothing, and then
/// the event is inserted. A failure here passes over the one event.
pub open spec fn store_transition(
    pre: StoreState,
    event: StoreEvent,
    new_players: Option<PlayersValue>,
    post: StoreState,
    action: StoreAction,
) -> bool {
    let n = pre.events@.len();
    let skip = {
        &&& post.stage == stage_at(n, pre.next + 1)
        &&& post.next == pre.next + 1
        &&& action == action_at(n, pre.next + 1, pre.server_id, pre.is_new_server)
    };
    let keep = {
        &&& post.events == pre.events
        &&& post.server_id == pre.server_id
        &&& post.is_new_server == pre.is_new_server
        &&& post.conflicts == pre.conflicts
    };
    let dropped = {
        &&& keep
        &&& post.stage == Stage::Finished
        &&& post.next == pre.next
        &&& action == StoreAction::Finish(StoreOutcome::Dropped)
    };
    match pre.stage {
        Stage::FindingServer => match event {
            StoreEvent::ServerRow(Some((id, old))) => {
                &&& events_view(post.events@) == player_events(
                    false,
                    players_view(old),
                    new_players,
                )
                &&& post.stage == Stage::UpdatingServer
                &&& post.next == 0
                &&& post.server_id == id
                &&& !post.is_new_server
                &&& post.conflicts == pre.conflicts
                &&& action == StoreAction::UpdateServer { id }
            },
            StoreEvent::ServerRow(None) => {
                &&& events_view(post.events@) == player_events(
                    true,
                    None,
                    new_players,
                )
                &&& post.stage == Stage::InsertingServer
                &&& post.next == 0
                &&& post.server_id == pre.server_id
                &&& post.is_new_server
                &&& post.conflicts == pre.conflicts
                &&& action == StoreAction::InsertServer
            },
            _ => dropped,
        },
        Stage::UpdatingServer => match event {
            StoreEvent::Written(id) => {
                &&& post.events == pre.events
                &&& post.stage == stage_at(n, 0)
                &&& post.next == 0
                &&& post.server_id == id
                &&& post.is_new_server == pre.is_new_server
                &&& post.conflicts == pre.conflicts
                &&& action == action_at(n, 0, id, pre.is_new_server)
            },
            _ => dropped,
        },
        Stage::InsertingServer => match event {
            StoreEvent::Written(id) => {
                &&& post.events == pre.events
                &&& post.stage == stage_at(n, 0)
                &&& post.next == 0
                &&& post.server_id == id
                &&& post.is_new_server == pre.is_new_server
                &&& post.conflicts == pre.conflicts
                &&& action == action_at(n, 0, id, pre.is_new_server)
            },
            StoreEvent::Conflict => if pre.conflicts + 1 < MAX_INSERT_ATTEMPTS {
                &&& post.events == pre.events
                &&& post.stage == Stage::FindingServer
                &&& post.next == 0
                &&& post.server_id == pre.server_id
                &&& post.is_new_server == pre.is_new_server
                &&& post.conflicts == pre.conflicts + 1
                &&& action == StoreAction::FindServer
            } else {
                dropped
            },
            _ => dropped,
        },
        Stage::FindingPlayer => keep && match event {
            StoreEvent::Player(Some(user_id)) => {
                &&& post.stage == Stage::AddingAction
                &&& post.next == pre.next
                &&& action == StoreAction::AddAction { index: pre.next, user_id }
            },
            StoreEvent::Player(None) => {
                &&& post.stage == Stage::AddingPlayer
                &&& post.next == pre.next
                &&& action == StoreAction::AddPlayer {
                    index: pre.next,
                    cracked: event_cracked(pre.events@[pre.next as int]@),
                }
            },
            _ => skip,
        },
        Stage::AddingPlayer => keep && match event {
            StoreEvent::Player(Some(user_id)) => {
                &&& post.stage == Stage::AddingAction
                &&& post.next == pre.next
                &&& action == StoreAction::AddAction { index: pre.next, user_id }
            },
            StoreEvent::Player(None) => {
                &&& post.stage == Stage::RefindingPlayer
                &&& post.next == pre.next
                &&& action == StoreAction::FindPlayer { index: pre.next }
            },
            _ => skip,
        },
        Stage::RefindingPlayer => keep && match event {
            StoreEvent::Player(Some(user_id)) => {
                &&& post.stage == Stage::AddingAction
                &&& post.next == pre.next
                &&& action == StoreAction::AddAction { index: pre.next, user_id }
            },
            _ => skip,
        },
        Stage::AddingAction => keep && skip,
        Stage::Finished => {
            &&& keep
            &&& post.stage == Stage::Finished
            &&& post.next == pre.next
            &&& action == StoreAction::Finish(StoreOutcome::Dropped)
        },
    }
}

fn proceed(state: StoreState, next: usize) -> (r: (StoreState, StoreAction))
    requires
        next <= state.events@.len(),
    ensures
        r.0.events == state.events,
        r.0.server_id == state.server_id,
        r.0.is_new_server == state.is_new_server,
        r.0.conflicts == state.conflicts,
        r.0.next == next,
        r.0.stage == stage_at(state.events@.len(), next as int),
        r.1 == action_at(state.events@.len(), next as int, state.server_id, state.is_new_server),
{
    let mut state = state;
    state.next = next;
    if next < state.events.len() {
        state.stage = Stage::FindingPlayer;
        (state, StoreAction::FindPlayer { index: next })
    } else {
        state.stage = Stage::Finished;
        let outcome = StoreOutcome::Stored {
            server_id: state.server_id,
            is_new_server: state.is_new_server,
        };
        (state, StoreAction::Finish(outcome))
    }
}

fn pass_over(state: StoreState) -> (r: (StoreState, StoreAction))
    requires
        state.next < state.events@.len(),
    ensures
        r.0.events == state.events,
        r.0.server_id == state.server_id,
        r.0.is_new_server == state.is_new_server,
        r.0.conflicts == state.conflicts,
        r.0.next == state.next + 1,
        r.0.stage == stage_at(state.events@.len(), state.next + 1),
        r.1 == action_at(
            state.events@.len(),
            state.next + 1,
            state.server_id,
            state.is_new_server,
        ),
{
    let next = if state.next < state.events.len() {
        state.next + 1
    } else {
        state.events.len()
    };
    proceed(state, next)
}

fn give_up(state: StoreState) -> (r: (StoreState, StoreAction))
    ensures
        r.0.events == state.events,
        r.0.server_id == state.server_id,
        r.0.is_new_server == state.is_new_server,
        r.0.conflicts == state.conflicts,
        r.0.next == state.next,
        r.0.stage == Stage::Finished,
        r.1 == StoreAction::Finish(StoreOutcome::Dropped),
{
    let mut state = state;
    state.stage = Stage::Finished;
    (state, StoreAction::Finish(StoreOutcome::Dropped))
}

/// Takes an answer of the database and says what to ask next. `new_players`
/// is the `players` field of the status that is being stored.
pub fn store_step(state: StoreState, event: StoreEvent, new_players: &Option<Players>) -> (r: (
    StoreState,
    StoreAction,
))
    requires
        state.wf(),
    ensures
        r.0.wf(),
        store_transition(state, event, players_view(*new_players), r.0, r.1),
{
    let mut state = state;
    match state.stage {
        Stage::FindingServer => match event {
            StoreEvent::ServerRow(Some((id, old))) => {
                state.events = plan_events(false, &old, new_players);
                state.stage = Stage::UpdatingServer;
                state.next = 0;
                state.server_id = id;
                state.is_new_server = false;
                (state, StoreAction::UpdateServer { id })
            },
            StoreEvent::ServerRow(None) => {
                state.events = plan_events(true, &None, new_players);
                state.stage = Stage::InsertingServer;
                state.next = 0;
                state.is_new_server = true;
                (state, StoreAction::InsertServer)
            },
            _ => give_up(state),
        },
        Stage::UpdatingServer => match event {
            StoreEvent::Written(id) => {
                state.server_id = id;
                proceed(state, 0)
            },
            _ => give_up(state),
        },
        Stage::InsertingServer => match event {
            StoreEvent::Written(id) => {
                state.server_id = id;
                proceed(state, 0)
            },
            StoreEvent::Conflict => {
                if state.conflicts + 1 < MAX_INSERT_ATTEMPTS {
                    state.conflicts = state.conflicts + 1;
                    state.stage = Stage::FindingServer;
                    (state, StoreAction::FindServer)
                } else {
                    give_up(state)
                }
            },
            _ => give_up(state),
        },
        Stage::FindingPlayer => match event {
            StoreEvent::Player(Some(user_id)) => {
                state.stage = Stage::AddingAction;
                let index = state.next;
                (state, StoreAction::AddAction { index, user_id })
            },
            StoreEvent::Player(None) => {
                let index = state.next;
                let cracked = is_cracked(
                    state.events[index].name.as_str(),
                    state.events[index].uuid.as_str(),
                );
                state.stage = Stage::AddingPlayer;
                (state, StoreAction::AddPlayer { index, cracked })
            },
            _ => pass_over(state),
        },
        Stage::AddingPlayer => match event {
            StoreEvent::Player(Some(user_id)) => {
                state.stage = Stage::AddingAction;
                let index = state.next;
                (state, StoreAction::AddAction { index, user_id })
            },
            StoreEvent::Player(None) => {
                state.stage = Stage::RefindingPlayer;
                let index = state.next;
                (state, StoreAction::FindPlayer { index })
            },
            _ => pass_over(state),
        },
        Stage::RefindingPlayer => match event {
            StoreEvent::Player(Some(user_id)) => {
                state.stage = Stage::AddingAction;
                let index = state.next;
                (state, StoreAction::AddAction { index, user_id })
            },
            _ => pass_over(state),
        },
        Stage::AddingAction => pass_over(state),
        Stage::Finished => give_up(state),
    }
}

/// Nothing is asked about a player or an event before the row of the server
/// is written: such a request comes only in answer to the write of the row or
/// to an answer about a player or an event.
pub proof fn lemma_row_comes_first(
    pre: StoreState,
    event: StoreEvent,
    new_players: Option<PlayersValue>,
    post: StoreState,
    action: StoreAction,
)
    requires
        pre.wf(),
        store_transition(pre, event, new_players, post, action),
    ensures
        (action is FindPlayer || action is AddPlayer || action is AddAction) ==> post.row_written()
            && (pre.row_written() || (event is Written && (pre.stage is UpdatingServer
            || pre.stage is InsertingServer))),
        action is Finish <==> post.stage is Finished,
        (action matches StoreAction::Finish(StoreOutcome::Stored { server_id, is_new_server })
            ==> server_id == post.server_id && is_new_server == post.is_new_server && post.next
            == post.events@.len()),
{
}

} // verus!
