//! The client's store: it owns the channel on which each new state goes to
//! the user interface, and decides what every input does to the state.
//!
//! The store decides; waiting for inputs, talking to the server and stopping
//! the client are its runtime's part. For each input the store says which
//! commands go to the server and how the runtime is to go on.

use vstd::prelude::*;
use crate::event::{
    Event, EventView, GetHistoryCommand, JoinRoomCommand, SendMessageCommand, UserCommand,
    UserCommandView,
};
use crate::state::{
    event_expected, state_activated, state_after_event, RoomData, State, StateView, StatusView,
};

verus! {

/// `tokio::sync::mpsc::UnboundedSender`, the sending end of a channel without
/// a bound. Nothing of its inside is known here.
#[verifier::external_type_specification]
#[verifier::external_body]
#[verifier::reject_recursive_types(T)]
pub struct ExUnboundedSender<T>(tokio::sync::mpsc::UnboundedSender<T>);

/// `tokio::sync::mpsc::UnboundedReceiver`, the receiving end of a channel
/// without a bound. Nothing of its inside is known here.
#[verifier::external_type_specification]
#[verifier::external_body]
#[verifier::reject_recursive_types(T)]
pub struct ExUnboundedReceiver<T>(tokio::sync::mpsc::UnboundedReceiver<T>);

/// `tokio::sync::mpsc::unbounded_channel`: the two ends of a new channel
/// without a bound. Nothing is claimed of them.
#[verifier::external_body]
fn state_channel() -> (ends: (
    tokio::sync::mpsc::UnboundedSender<State>,
    tokio::sync::mpsc::UnboundedReceiver<State>,
)) {
    tokio::sync::mpsc::unbounded_channel()
}

/// `tokio::sync::mpsc::UnboundedSender::send`: queues the state without
/// waiting, or hands it back where the receiving end is closed or gone. The
/// call ends the process only once `usize::MAX / 2` states are queued.
#[verifier::external_body]
fn state_send(tx: &tokio::sync::mpsc::UnboundedSender<State>, state: State) -> (outcome: Result<
    (),
    State,
>)
    ensures
        outcome matches Err(returned) ==> returned == state,
{
    match tx.send(state) {
        Ok(()) => Ok(()),
        Err(tokio::sync::mpsc::error::SendError(returned)) => Err(returned),
    }
}

/// Why the client stops.
#[derive(Debug, Clone, Copy, PartialEq, Eq, Structural)]
pub enum Interrupted {
    OsSigInt,
    UserInt,
}

/// What the user interface asks of the store.
#[derive(Debug, Clone, PartialEq, Eq)]
pub enum Action {
    ConnectToServerRequest { addr: String },
    SendMessage { content: String },
    SelectRoom { room: String },
    Exit,
}

/// Mathematical value of an [`Action`].
pub enum ActionView {
    ConnectToServerRequest { addr: Seq<char> },
    SendMessage { content: Seq<char> },
    SelectRoom { room: Seq<char> },
    Exit,
}

impl View for Action {
    type V = ActionView;

    open spec fn view(&self) -> ActionView {
        match *self {
            Action::ConnectToServerRequest { addr } => ActionView::ConnectToServerRequest {
                addr: addr@,
            },
            Action::SendMessage { content } => ActionView::SendMessage { content: content@ },
            Action::SelectRoom { room } => ActionView::SelectRoom { room: room@ },
            Action::Exit => ActionView::Exit,
        }
    }
}

/// One thing that happened to the client.
pub enum StoreInput {
    /// The server sent an event.
    ServerEvent(Event),
    /// The server sent something that is no event.
    ServerFault,
    /// The server closed the connection.
    ServerClosed,
    /// The user interface asks for something.
    Action(Action),
    /// A second has passed.
    Tick,
    /// The client was told to stop.
    Interrupt(Interrupted),
    /// A connection attempt ended: with the server's address, or with the
    /// failure in words.
    ConnectionOutcome(Result<String, String>),
}

/// Mathematical value of a [`StoreInput`].
pub enum InputView {
    ServerEvent(EventView),
    ServerFault,
    ServerClosed,
    Action(ActionView),
    Tick,
    Interrupt(Interrupted),
    ConnectionOutcome(Result<Seq<char>, Seq<char>>),
}

impl View for StoreInput {
    type V = InputView;

    open spec fn view(&self) -> InputView {
        match *self {
            StoreInput::ServerEvent(event) => InputView::ServerEvent(event@),
            StoreInput::ServerFault => InputView::ServerFault,
            StoreInput::ServerClosed => InputView::ServerClosed,
            StoreInput::Action(action) => InputView::Action(action@),
            StoreInput::Tick => InputView::Tick,
            StoreInput::Interrupt(reason) => InputView::Interrupt(reason),
            StoreInput::ConnectionOutcome(outcome) => InputView::ConnectionOutcome(
                match outcome {
                    Ok(addr) => Ok(addr@),
                    Err(err) => Err(err@),
                },
            ),
        }
    }
}

/// How the runtime goes on after an input.
#[derive(Debug, Clone, PartialEq, Eq)]
pub enum StoreControl {
    /// Publish the state and wait for the next input.
    Continue,
    /// Publish the state, try to connect to `addr`, and hand the outcome back
    /// as an input.
    Connect { addr: String },
    /// The connection stands: start the ticker afresh, publish the state and
    /// wait for the next input.
    Connected,
    /// Give up the connection, publish the state and wait for the next input.
    Disconnect,
    /// Stop for `reason` without publishing the state; where `terminate` is
    /// set, tell the rest of the client to stop too.
    Exit { reason: Interrupted, terminate: bool },
}

/// Mathematical value of a [`StoreControl`].
pub enum ControlView {
    Continue,
    Connect { addr: Seq<char> },
    Connected,
    Disconnect,
    Exit { reason: Interrupted, terminate: bool },
}

impl View for StoreControl {
    type V = ControlView;

    open spec fn view(&self) -> ControlView {
        match *self {
            StoreControl::Continue => ControlView::Continue,
            StoreControl::Connect { addr } => ControlView::Connect { addr: addr@ },
            StoreControl::Connected => ControlView::Connected,
            StoreControl::Disconnect => ControlView::Disconnect,
            StoreControl::Exit { reason, terminate } => ControlView::Exit { reason, terminate },
        }
    }
}

/// What the store asks of its runtime after an input.
pub struct StoreStep {
    /// The commands to write to the server, in this order.
    pub commands: Vec<UserCommand>,
    /// How to go on once they are written.
    pub control: StoreControl,
}

/// Mathematical value of the outcome of an input.
pub struct StepView {
    pub state: StateView,
    pub commands: Seq<UserCommandView>,
    pub control: ControlView,
}

/// The state of a client that has not connected yet.
pub open spec fn initial_state() -> StateView {
    StateView {
        server_connection_status: StatusView::Uninitialized,
        active_room: None,
        user_id: Seq::empty(),
        rooms: Map::empty(),
        timer: 0,
    }
}

/// Whether the store can take `input` while connected: an event must be one
/// the state can take, and the timer must have room for one more second.
pub open spec fn input_expected(state: StateView, input: InputView) -> bool {
    match input {
        InputView::ServerEvent(event) => event_expected(state, event),
        InputView::Tick => state.timer < usize::MAX,
        _ => true,
    }
}

/// The commands that selecting `room` sends: a join unless the user is in the
/// room, then a request for the history unless it was fetched before.
pub open spec fn select_commands(state: StateView, room: Seq<char>) -> Seq<UserCommandView> {
    if !state.rooms.dom().contains(room) {
        Seq::empty()
    } else {
        let join = if state.rooms[room].has_joined {
            Seq::<UserCommandView>::empty()
        } else {
            seq![UserCommandView::JoinRoom { room }]
        };
        if state.rooms[room].first_time {
            join.push(UserCommandView::GetHistory { room })
        } else {
            join
        }
    }
}

/// What an action of the user interface does while connected.
pub open spec fn action_connected(state: StateView, action: ActionView) -> StepView {
    match action {
        ActionView::SendMessage { content } => StepView {
            state,
            commands: match state.active_room {
                Some(room) => seq![UserCommandView::SendMessage { room, content }],
                None => Seq::empty(),
            },
            control: ControlView::Continue,
        },
        ActionView::SelectRoom { room } => StepView {
            state: state_activated(state, room),
            commands: select_commands(state, room),
            control: ControlView::Continue,
        },
        ActionView::Exit => StepView {
            state,
            commands: Seq::empty(),
            control: ControlView::Exit { reason: Interrupted::UserInt, terminate: true },
        },
        ActionView::ConnectToServerRequest { addr } => StepView {
            state,
            commands: Seq::empty(),
            control: ControlView::Continue,
        },
    }
}

/// What an action of the user interface does while not connected.
pub open spec fn action_disconnected(state: StateView, action: ActionView) -> StepView {
    match action {
        ActionView::ConnectToServerRequest { addr } => StepView {
            state: StateView { server_connection_status: StatusView::Connecting, ..state },
            commands: Seq::empty(),
            control: ControlView::Connect { addr },
        },
        ActionView::Exit => StepView {
            state,
            commands: Seq::empty(),
            control: ControlView::Exit { reason: Interrupted::UserInt, terminate: true },
        },
        _ => StepView { state, commands: Seq::empty(), control: ControlView::Continue },
    }
}

/// What `input` does to `state`, which commands it sends and how the runtime
/// goes on. Events, faults, the end of the connection and ticks count only
/// while connected.
pub open spec fn store_step(state: StateView, connected: bool, input: InputView) -> StepView {
    let unchanged = StepView { state, commands: Seq::empty(), control: ControlView::Continue };
    match input {
        InputView::Interrupt(reason) => StepView {
            control: ControlView::Exit { reason, terminate: false },
            ..unchanged
        },
        InputView::ConnectionOutcome(outcome) => match outcome {
            Ok(addr) => StepView {
                state: StateView {
                    server_connection_status: StatusView::Connected { addr },
                    ..state
                },
                control: ControlView::Connected,
                ..unchanged
            },
            Err(err) => StepView {
                state: StateView { server_connection_status: StatusView::Errored { err }, ..state },
                ..unchanged
            },
        },
        InputView::Action(action) => if connected {
            action_connected(state, action)
        } else {
            action_disconnected(state, action)
        },
        InputView::ServerEvent(event) => if connected {
            StepView { state: state_after_event(state, event), ..unchanged }
        } else {
            unchanged
        },
        InputView::ServerClosed => if connected {
            StepView { state: initial_state(), control: ControlView::Disconnect, ..unchanged }
        } else {
            unchanged
        },
        InputView::Tick => if connected {
            StepView { state: StateView { timer: state.timer + 1, ..state }, ..unchanged }
        } else {
            unchanged
        },
        InputView::ServerFault => unchanged,
    }
}

/// Why a state could not be published.
#[derive(Debug, Clone, Copy, PartialEq, Eq, Structural)]
pub enum StoreError {
    /// Nobody receives the states any more.
    ReceiverGone,
}

/// What `publish` returns for each outcome of the send.
pub fn publish_result(outcome: Result<(), State>) -> (result: Result<(), StoreError>)
    ensures
        result == match outcome {
            Ok(_) => Ok::<(), StoreError>(()),
            Err(_) => Err::<(), StoreError>(StoreError::ReceiverGone),
        },
{
    match outcome {
        Ok(_) => Ok(()),
        Err(_) => Err(StoreError::ReceiverGone),
    }
}

/// The sending end of the channel on which states go to the user interface.
pub struct StateStore {
    state_tx: tokio::sync::mpsc::UnboundedSender<State>,
    published: Ghost<Seq<StateView>>,
}

impl StateStore {
    /// The states that the channel has taken from this store, oldest first.
    pub closed spec fn published(&self) -> Seq<StateView> {
        self.published@
    }

    /// A store that has published nothing yet, and the receiving end of its
    /// channel.
    pub fn new() -> (ends: (Self, tokio::sync::mpsc::UnboundedReceiver<State>))
        ensures
            ends.0.published() == Seq::<StateView>::empty(),
    {
        let (state_tx, state_rx) = state_channel();
        (StateStore { state_tx, published: Ghost(Seq::empty()) }, state_rx)
    }

    /// Sends a copy of `state` to the user interface. Fails, and publishes
    /// nothing, where nobody receives the states any more.
    pub fn publish(&mut self, state: &State) -> (result: Result<(), StoreError>)
        ensures
            final(self).published() == match result {
                Ok(_) => old(self).published().push(state@),
                Err(_) => old(self).published(),
            },
    {
        let result = publish_result(state_send(&self.state_tx, state.clone()));
        if result.is_ok() {
            self.published = Ghost(self.published@.push(state@));
        }
        result
    }

    /// The commands that selecting `room` sends, going by what is known of it.
    fn commands_for_selection(room: String, data: Option<&RoomData>) -> (commands: Vec<UserCommand>)
        ensures
            commands.deep_view() == match data {
                None => Seq::<UserCommandView>::empty(),
                Some(d) => {
                    let join = if d@.has_joined {
                        Seq::<UserCommandView>::empty()
                    } else {
                        seq![UserCommandView::JoinRoom { room: room@ }]
                    };
                    if d@.first_time {
                        join.push(UserCommandView::GetHistory { room: room@ })
                    } else {
                        join
                    }
                },
            },
    {
        let mut commands: Vec<UserCommand> = Vec::new();
        if let Some(d) = data {
            if !d.has_joined {
                commands.push(UserCommand::JoinRoom(JoinRoomCommand { room: room.clone() }));
            }
            if d.first_time {
                commands.push(UserCommand::GetHistory(GetHistoryCommand { room }));
            }
        }
        assert(commands.deep_view() =~= match data {
            None => Seq::<UserCommandView>::empty(),
            Some(d) => {
                let join = if d@.has_joined {
                    Seq::<UserCommandView>::empty()
                } else {
                    seq![UserCommandView::JoinRoom { room: room@ }]
                };
                if d@.first_time {
                    join.push(UserCommandView::GetHistory { room: room@ })
                } else {
                    join
                }
            },
        });
        commands
    }

    /// Takes one input: changes `state` accordingly and says which commands
    /// go to the server and how the runtime is to go on. `connected` tells
    /// whether a connection to the server stands.
    pub fn step(state: &mut State, connected: bool, input: StoreInput) -> (step: StoreStep)
        requires
            old(state).wf(),
            connected ==> input_expected(old(state)@, input@),
        ensures
            final(state).wf(),
            final(state)@ == store_step(old(state)@, connected, input@).state,
            step.commands.deep_view() == store_step(old(state)@, connected, input@).commands,
            step.control@ == store_step(old(state)@, connected, input@).control,
    {
        let mut commands: Vec<UserCommand> = Vec::new();
        let mut control = StoreControl::Continue;
        assert(commands.deep_view() =~= Seq::empty());
        match input {
            StoreInput::Interrupt(reason) => {
                control = StoreControl::Exit { reason, terminate: false };
            },
            StoreInput::ConnectionOutcome(outcome) => {
                if outcome.is_ok() {
                    control = StoreControl::Connected;
                }
                state.process_connection_request_result(outcome);
            },
            StoreInput::Action(Action::Exit) => {
                control = StoreControl::Exit { reason: Interrupted::UserInt, terminate: true };
            },
            StoreInput::Action(Action::ConnectToServerRequest { addr }) => {
                if !connected {
                    state.mark_connection_request_start();
                    control = StoreControl::Connect { addr };
                }
            },
            StoreInput::Action(Action::SendMessage { content }) => {
                if connected {
                    if let Some(room) = &state.active_room {
                        commands.push(
                            UserCommand::SendMessage(
                                SendMessageCommand { room: room.clone(), content },
                            ),
                        );
                        assert(commands.deep_view() =~= seq![
                            UserCommandView::SendMessage { room: room@, content: content@ },
                        ]);
                    }
                }
            },
            StoreInput::Action(Action::SelectRoom { room }) => {
                if connected {
                    let data = state.try_set_active_room(room.as_str());
                    commands = Self::commands_for_selection(room, data);
                }
            },
            StoreInput::ServerEvent(event) => {
                if connected {
                    state.handle_server_event(&event);
                }
            },
            StoreInput::ServerClosed => {
                if connected {
                    *state = State::new();
                    control = StoreControl::Disconnect;
                }
            },
            StoreInput::Tick => {
                if connected {
                    state.tick_timer();
                }
            },
            StoreInput::ServerFault => {},
        }
        StoreStep { commands, control }
    }
}

} // verus!
