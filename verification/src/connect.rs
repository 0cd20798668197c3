//! One attempt to connect an endpoint, as a machine that decides what to do
//! next from what the last step brought.
use crate::failure::{
    handshake_error, handshake_failure, local_connect_failure, local_failure_kind, needs_attention,
    failure_needs_attention, ssh_connect_failure, ClientError, Failure, FailureKind,
};
use crate::profile::{ClientEndpointId, ClientEndpointStatus, ConnectTarget, SavedSshEndpoint};
use std::path::PathBuf;
use vstd::pervasive::unreached;
use vstd::prelude::*;
use vstd::string::StringExecFns;

verus! {

/// Size of the surface that a client shows.
#[derive(Clone, Copy, Debug, PartialEq, Eq, Structural)]
pub struct ClientSurfaceSize {
    pub cols: u16,
    pub rows: u16,
}

/// What the client asks for when it connects.
#[derive(Clone, Copy, Debug, PartialEq, Eq, Structural)]
pub struct EndpointConnectOptions {
    pub cols: u16,
    pub rows: u16,
    pub cell_width_px: u32,
    pub cell_height_px: u32,
    pub pixel_geometry_exact: bool,
    pub surface_size: ClientSurfaceSize,
    pub endpoint_keybindings: bool,
    pub mouse_capture: bool,
}

/// What the handshake is made with.
#[derive(Clone, Copy, Debug, PartialEq, Eq, Structural)]
pub struct HandshakeRequest {
    pub cols: u16,
    pub rows: u16,
    pub cell_width_px: u32,
    pub cell_height_px: u32,
    pub pixel_geometry_exact: bool,
    pub surface_size: Option<ClientSurfaceSize>,
    pub endpoint_keybindings: bool,
    pub mouse_capture: bool,
    /// The handshake's last switch, off for every supervised endpoint.
    pub last_switch: bool,
}

/// How the server will encode what it renders.
#[derive(Clone, Copy, Debug, PartialEq, Eq, Structural)]
pub enum RenderEncoding {
    SemanticFrame,
    Other,
}

/// What the two sides agreed on.
#[derive(Clone, Copy, Debug, PartialEq, Eq, Structural)]
pub struct Handshake {
    pub encoding: RenderEncoding,
    /// The server lets a client say which surfaces it shows.
    pub surface_interest: bool,
    /// The server answers health pings.
    pub health_check: bool,
}

/// How far the attempt has come.
#[derive(Clone, Copy, Debug, PartialEq, Eq, Structural)]
pub enum ConnectStage {
    Dialing,
    ShakingHands,
    CloningReader { handshake: Handshake },
    WrappingWriter { handshake: Handshake },
    Ended,
}

/// What to do next.
pub enum ConnectAction {
    DialLocal(PathBuf),
    DialSsh(SavedSshEndpoint),
    ShakeHands(HandshakeRequest),
    CloneReader,
    WrapWriter,
    /// The connection stands: hand it over as the one that was asked for, with
    /// what was agreed on.
    Connected { endpoint_id: ClientEndpointId, generation: u64, handshake: Handshake },
    Failed(Failure),
}

/// What the last step brought.
pub enum ConnectEvent {
    Dialed,
    /// Nobody could be reached. For a saved machine, `told` is whether its
    /// transport says that the user has to act, and `bootstrap_command` is what
    /// sets it up.
    DialFailed { error: Failure, told: bool, bootstrap_command: String },
    HandshakeDone(Handshake),
    HandshakeFailed(ClientError),
    ReaderCloned,
    WriterWrapped,
    /// The stream could not be cloned or wrapped.
    StreamFailed(Failure),
}

/// Whether the event is one that the stage can bring.
pub open spec fn expected(stage: ConnectStage, event: ConnectEvent) -> bool {
    match stage {
        ConnectStage::Dialing => event is Dialed || event is DialFailed,
        ConnectStage::ShakingHands => event is HandshakeDone || event is HandshakeFailed,
        ConnectStage::CloningReader { .. } => event is ReaderCloned || event is StreamFailed,
        ConnectStage::WrappingWriter { .. } => event is WriterWrapped || event is StreamFailed,
        ConnectStage::Ended => false,
    }
}

/// Whether the client can work with what was agreed on. Only another machine
/// has to answer health pings.
pub open spec fn admitted(local: bool, handshake: Handshake) -> bool {
    &&& handshake.encoding == RenderEncoding::SemanticFrame
    &&& handshake.surface_interest
    &&& local || handshake.health_check
}

/// The words for a server that renders in another way.
pub open spec fn wrong_encoding() -> Seq<char> {
    "endpoint did not negotiate the semantic client shell"@
}

/// The words for a server that is too old.
pub open spec fn outdated_server() -> Seq<char> {
    "this machine needs a server update before it can participate in multi-machine viewing"@
}

/// Whether the action ends the attempt with this kind of failure and words.
pub open spec fn fails_with(action: ConnectAction, kind: FailureKind, words: Seq<char>) -> bool {
    action matches ConnectAction::Failed(failure) && failure.kind == kind && failure.message@
        == words
}

/// What dialing the target is.
pub open spec fn dials(action: ConnectAction, target: ConnectTarget) -> bool {
    match target {
        ConnectTarget::Local(path) => action == ConnectAction::DialLocal(path),
        ConnectTarget::Ssh(profile) => action == ConnectAction::DialSsh(profile),
    }
}

pub open spec fn request_for(options: EndpointConnectOptions) -> HandshakeRequest {
    HandshakeRequest {
        cols: options.cols,
        rows: options.rows,
        cell_width_px: options.cell_width_px,
        cell_height_px: options.cell_height_px,
        pixel_geometry_exact: options.pixel_geometry_exact,
        surface_size: Some(options.surface_size),
        endpoint_keybindings: options.endpoint_keybindings,
        mouse_capture: options.mouse_capture,
        last_switch: false,
    }
}

/// One attempt to connect.
pub struct ConnectOnce {
    pub target: ConnectTarget,
    pub options: EndpointConnectOptions,
    pub endpoint_id: ClientEndpointId,
    /// What every report of the attempt carries.
    pub generation: u64,
    pub stage: ConnectStage,
}

impl ConnectOnce {
    /// Sets out, and says what to dial.
    pub fn begin(
        target: ConnectTarget,
        options: EndpointConnectOptions,
        endpoint_id: ClientEndpointId,
        generation: u64,
    ) -> (begun: (ConnectOnce, ConnectAction))
        ensures
            begun.0.target == target,
            begun.0.options == options,
            begun.0.endpoint_id == endpoint_id,
            begun.0.generation == generation,
            begun.0.stage == ConnectStage::Dialing,
            dials(begun.1, target),
    {
        let action = match target.clone() {
            ConnectTarget::Local(path) => ConnectAction::DialLocal(path),
            ConnectTarget::Ssh(profile) => ConnectAction::DialSsh(profile),
        };
        let once = ConnectOnce {
            target,
            options,
            endpoint_id,
            generation,
            stage: ConnectStage::Dialing,
        };
        (once, action)
    }

    /// What the step leads to, by stage and event.
    pub open spec fn leads_to(
        self,
        event: ConnectEvent,
        stage: ConnectStage,
        action: ConnectAction,
    ) -> bool {
        let local = self.endpoint_id@ == crate::profile::EndpointKey::Local;
        match event {
            ConnectEvent::Dialed => {
                &&& stage == ConnectStage::ShakingHands
                &&& action == ConnectAction::ShakeHands(request_for(self.options))
            },
            ConnectEvent::DialFailed { error, told, bootstrap_command } => {
                &&& stage == ConnectStage::Ended
                &&& match self.target {
                    ConnectTarget::Local(_) => fails_with(
                        action,
                        local_failure_kind(error.kind),
                        if error.kind == FailureKind::NotFound {
                            "Local is unavailable; start its server to reconnect"@
                        } else {
                            error.message@
                        },
                    ),
                    ConnectTarget::Ssh(_) => fails_with(
                        action,
                        error.kind,
                        if needs_attention(error.kind, told) {
                            error.message@ + ". Run `"@ + bootstrap_command@
                                + "` interactively to approve setup, then restart this client"@
                        } else {
                            error.message@
                        },
                    ),
                }
            },
            ConnectEvent::HandshakeFailed(error) => {
                &&& stage == ConnectStage::Ended
                &&& fails_with(action, handshake_failure(error).0, handshake_failure(error).1)
            },
            ConnectEvent::HandshakeDone(handshake) => if admitted(local, handshake) {
                stage == (ConnectStage::CloningReader { handshake }) && action
                    == ConnectAction::CloneReader
            } else if handshake.encoding != RenderEncoding::SemanticFrame {
                stage == ConnectStage::Ended && fails_with(
                    action,
                    FailureKind::InvalidData,
                    wrong_encoding(),
                )
            } else {
                stage == ConnectStage::Ended && fails_with(
                    action,
                    FailureKind::Unsupported,
                    outdated_server(),
                )
            },
            ConnectEvent::ReaderCloned => {
                &&& self.stage matches ConnectStage::CloningReader { handshake } && stage == (
                ConnectStage::WrappingWriter { handshake })
                &&& action == ConnectAction::WrapWriter
            },
            ConnectEvent::WriterWrapped => {
                &&& stage == ConnectStage::Ended
                &&& self.stage matches ConnectStage::WrappingWriter { handshake } && action == (
                ConnectAction::Connected {
                    endpoint_id: self.endpoint_id,
                    generation: self.generation,
                    handshake,
                })
            },
            ConnectEvent::StreamFailed(error) => {
                stage == ConnectStage::Ended && fails_with(action, error.kind, error.message@)
            },
        }
    }

    /// Takes in what the last step brought and says what to do next.
    pub fn step(&mut self, event: ConnectEvent) -> (action: ConnectAction)
        requires
            expected(old(self).stage, event),
        ensures
            final(self).target == old(self).target,
            final(self).options == old(self).options,
            final(self).endpoint_id == old(self).endpoint_id,
            final(self).generation == old(self).generation,
            old(self).leads_to(event, final(self).stage, action),
    {
        match event {
            ConnectEvent::Dialed => {
                self.stage = ConnectStage::ShakingHands;
                ConnectAction::ShakeHands(
                    HandshakeRequest {
                        cols: self.options.cols,
                        rows: self.options.rows,
                        cell_width_px: self.options.cell_width_px,
                        cell_height_px: self.options.cell_height_px,
                        pixel_geometry_exact: self.options.pixel_geometry_exact,
                        surface_size: Some(self.options.surface_size),
                        endpoint_keybindings: self.options.endpoint_keybindings,
                        mouse_capture: self.options.mouse_capture,
                        last_switch: false,
                    },
                )
            },
            ConnectEvent::DialFailed { error, told, bootstrap_command } => {
                self.stage = ConnectStage::Ended;
                match &self.target {
                    ConnectTarget::Local(_) => ConnectAction::Failed(local_connect_failure(error)),
                    ConnectTarget::Ssh(_) => ConnectAction::Failed(
                        ssh_connect_failure(error, told, bootstrap_command.as_str()),
                    ),
                }
            },
            ConnectEvent::HandshakeFailed(error) => {
                self.stage = ConnectStage::Ended;
                ConnectAction::Failed(handshake_error(error))
            },
            ConnectEvent::HandshakeDone(handshake) => {
                if handshake.encoding != RenderEncoding::SemanticFrame {
                    self.stage = ConnectStage::Ended;
                    return ConnectAction::Failed(
                        Failure {
                            kind: FailureKind::InvalidData,
                            message: "endpoint did not negotiate the semantic client shell".to_owned(),
                        },
                    );
                }
                if !handshake.surface_interest || (!self.endpoint_id.is_local()
                    && !handshake.health_check) {
                    self.stage = ConnectStage::Ended;
                    return ConnectAction::Failed(
                        Failure {
                            kind: FailureKind::Unsupported,
                            message: "this machine needs a server update before it can participate in multi-machine viewing".to_owned(),
                        },
                    );
                }
                self.stage = ConnectStage::CloningReader { handshake };
                ConnectAction::CloneReader
            },
            ConnectEvent::ReaderCloned => {
                self.stage = match self.stage {
                    ConnectStage::CloningReader { handshake } => ConnectStage::WrappingWriter {
                        handshake,
                    },
                    _ => unreached(),
                };
                ConnectAction::WrapWriter
            },
            ConnectEvent::WriterWrapped => {
                let handshake = match self.stage {
                    ConnectStage::WrappingWriter { handshake } => handshake,
                    _ => unreached(),
                };
                self.stage = ConnectStage::Ended;
                ConnectAction::Connected {
                    endpoint_id: self.endpoint_id.clone(),
                    generation: self.generation,
                    handshake,
                }
            },
            ConnectEvent::StreamFailed(error) => {
                self.stage = ConnectStage::Ended;
                ConnectAction::Failed(error)
            },
        }
    }
}

/// How an attempt ended.
pub enum AttemptOutcome {
    Connected,
    /// It failed, and `told` is whether the transport says that the user has to
    /// act.
    Failed { failure: Failure, told: bool },
    /// The task that made the attempt died, with these words.
    Crashed(String),
}

/// What an attempt that brought no connection has to report.
pub struct StatusReport {
    pub endpoint_id: ClientEndpointId,
    pub generation: u64,
    pub status: ClientEndpointStatus,
    pub message: String,
}

/// The report of an attempt; one that connected hands over its connection
/// instead. A failure that needs the user ends the retries, any other and a
/// crash do not.
pub fn attempt_report(
    endpoint_id: ClientEndpointId,
    generation: u64,
    outcome: AttemptOutcome,
) -> (report: Option<StatusReport>)
    ensures
        match outcome {
            AttemptOutcome::Connected => report is None,
            AttemptOutcome::Failed { failure, told: said } => report matches Some(told) && told.endpoint_id
                == endpoint_id && told.generation == generation && told.message@
                == failure.message@ && told.status == if needs_attention(failure.kind, said) {
                ClientEndpointStatus::Attention
            } else {
                ClientEndpointStatus::Reconnecting
            },
            AttemptOutcome::Crashed(words) => report matches Some(told) && told.endpoint_id
                == endpoint_id && told.generation == generation && told.message@
                == "endpoint connection task stopped unexpectedly: "@ + words@ && told.status
                == ClientEndpointStatus::Reconnecting,
        },
{
    match outcome {
        AttemptOutcome::Connected => None,
        AttemptOutcome::Failed { failure, told: said } => {
            let status = if failure_needs_attention(&failure, said) {
                ClientEndpointStatus::Attention
            } else {
                ClientEndpointStatus::Reconnecting
            };
            Some(StatusReport { endpoint_id, generation, status, message: failure.message })
        },
        AttemptOutcome::Crashed(words) => {
            let mut message = "endpoint connection task stopped unexpectedly: ".to_owned();
            message.append(words.as_str());
            Some(
                StatusReport {
                    endpoint_id,
                    generation,
                    status: ClientEndpointStatus::Reconnecting,
                    message,
                },
            )
        },
    }
}

/// Steps behind the attempt at each stage before the end.
pub open spec fn position(stage: ConnectStage) -> int {
    match stage {
        ConnectStage::Dialing => 0,
        ConnectStage::ShakingHands => 1,
        ConnectStage::CloningReader { .. } => 2,
        ConnectStage::WrappingWriter { .. } => 3,
        ConnectStage::Ended => 4,
    }
}

/// Whether an attempt that brought `events` one after another answered with
/// `actions` and went through `stages`.
pub open spec fn is_run(
    once: ConnectOnce,
    stages: Seq<ConnectStage>,
    events: Seq<ConnectEvent>,
    actions: Seq<ConnectAction>,
) -> bool {
    &&& stages.len() == events.len() + 1
    &&& actions.len() == events.len()
    &&& stages[0] == ConnectStage::Dialing
    &&& forall|i: int|
        #![trigger events[i]]
        0 <= i < events.len() ==> expected(stages[i], events[i]) && (ConnectOnce {
            stage: stages[i],
            ..once
        }).leads_to(events[i], stages[i + 1], actions[i])
}

proof fn lemma_stages_in_order(
    once: ConnectOnce,
    stages: Seq<ConnectStage>,
    events: Seq<ConnectEvent>,
    actions: Seq<ConnectAction>,
    i: int,
)
    requires
        is_run(once, stages, events, actions),
        0 <= i < stages.len(),
    ensures
        stages[i] != ConnectStage::Ended ==> i == position(stages[i]),
        i <= 4,
        i > 0 && i < events.len() ==> stages[i] != ConnectStage::Ended,
    decreases i,
{
    if i < events.len() {
        assert(expected(stages[i], events[i]));
    }
    if i > 0 {
        lemma_stages_in_order(once, stages, events, actions, i - 1);
        assert(expected(stages[i - 1], events[i - 1]));
    }
}

/// A connection is handed over only at the end of the whole way: dialed, agreed
/// with a server that the client can work with, and both halves of the stream
/// in hand. It carries the endpoint and the generation that the attempt was
/// started for, and what was agreed on.
pub proof fn law_connected_means_everything_went_well(
    once: ConnectOnce,
    stages: Seq<ConnectStage>,
    events: Seq<ConnectEvent>,
    actions: Seq<ConnectAction>,
    i: int,
)
    requires
        is_run(once, stages, events, actions),
        0 <= i < actions.len(),
        actions[i] is Connected,
    ensures
        i == 3,
        events.len() == 4,
        events[0] is Dialed,
        events[1] matches ConnectEvent::HandshakeDone(handshake) && admitted(
            once.endpoint_id@ == crate::profile::EndpointKey::Local,
            handshake,
        ) && actions[i] == (ConnectAction::Connected {
            endpoint_id: once.endpoint_id,
            generation: once.generation,
            handshake,
        }),
        events[2] is ReaderCloned,
        events[3] is WriterWrapped,
{
    assert(events[i] is WriterWrapped);
    lemma_stages_in_order(once, stages, events, actions, i);
    assert(stages[3] is WrappingWriter);
    assert(events[2] is ReaderCloned);
    assert(stages[2] is CloningReader);
    assert(events[1] is HandshakeDone);
    assert(stages[1] == ConnectStage::ShakingHands);
    assert(events[0] is Dialed);
    if events.len() > 4 {
        lemma_stages_in_order(once, stages, events, actions, 4);
    }
}

/// Whatever happens, an attempt is over after four steps at most, and its last
/// action is to hand over the connection or to fail.
pub proof fn law_attempts_end(
    once: ConnectOnce,
    stages: Seq<ConnectStage>,
    events: Seq<ConnectEvent>,
    actions: Seq<ConnectAction>,
)
    requires
        is_run(once, stages, events, actions),
    ensures
        events.len() <= 4,
        events.len() > 0 && stages.last() == ConnectStage::Ended ==> (actions.last() is Connected
            || actions.last() is Failed),
{
    lemma_stages_in_order(once, stages, events, actions, events.len() as int);
    if events.len() > 0 {
        let last = events.len() - 1;
        assert(expected(stages[last], events[last]));
    }
}

} // verus!
