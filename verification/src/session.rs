//! Running ffmpeg for a pipeline: setting it up, reading from it, and starting
//! it again when it ends by itself.
//!
//! Each of these waits for the outside world again and again. Here stands what
//! is decided in between, as steps from an event to the next action.
use vstd::prelude::*;
use vstd::string::*;

use crate::display::{DisplayInfo, DisplayTarget, TargetView};
use crate::elevate::ElevationMode;
use crate::encoder::Codec;
use crate::error::Error;
use crate::pipeline;
use crate::pipeline::{HwEncoderKind, Platform};
use crate::text;

verus! {

// ---------------------------------------------------------------------------
// Setting ffmpeg up
// ---------------------------------------------------------------------------

/// How long the stub may take to connect.
pub const RELAY_TIMEOUT_SECS: u64 = 5;

/// What ffmpeg is set up for.
pub struct SetupConfig {
    pub platform: Platform,
    pub display: DisplayTarget,
    pub codec: Codec,
    pub hw_encoder: Option<HwEncoderKind>,
    pub bitrate_kbps: u32,
    pub elevation: ElevationMode,
    /// The value of `DISPLAY`, where it is set.
    pub x11_display: Option<String>,
}

impl SetupConfig {
    /// The platform can capture, and there is an encoder.
    pub open spec fn valid(self) -> bool {
        &&& self.platform != Platform::Other
        &&& pipeline::encodable(self.codec, self.hw_encoder)
    }

    /// The arguments of ffmpeg once its output port and control socket are
    /// known.
    pub open spec fn arguments(self, port: u16, idr_control_path: Seq<char>) -> Seq<Seq<char>> {
        pipeline::ffmpeg_arguments(
            self.platform,
            self.display@,
            self.codec,
            self.hw_encoder,
            self.bitrate_kbps,
            match self.x11_display {
                Some(d) => Some(d@),
                None => None,
            },
            idr_control_path,
            port,
        )
    }
}

/// How far a setup has come.
#[derive(Debug, Clone, Copy, PartialEq, Eq, Structural)]
pub enum SetupStage {
    /// Nothing has been asked for.
    Idle,
    /// The listener for ffmpeg's output is being bound.
    OutputListener,
    /// Its port is being read.
    OutputPort,
    /// The path of the control socket is being found.
    ControlSocket,
    /// The listener for the stub is being bound.
    RelayListener,
    /// Its port is being read.
    RelayPort,
    /// ffmpeg is being started.
    Process,
    /// ffmpeg is to connect.
    Connection,
    /// ffmpeg is to connect that was started through PAExec.
    ElevatedConnection,
    /// PAExec failed, and ffmpeg is being started without it.
    Fallback,
    /// The stub is to connect.
    Relay,
    /// The first key frame is being asked for.
    KeyFrame,
    /// ffmpeg runs.
    Done,
    /// It does not, for the reason that was given.
    Failed,
}

/// What came of the last action.
pub enum SetupEvent {
    /// The setup is asked for.
    Begin,
    /// A listener was bound, or not for this reason.
    Bound(Result<(), String>),
    /// The port of a listener, or why it is not known.
    Port(Result<u16, String>),
    /// The path of the control socket.
    Socket(String),
    /// ffmpeg was started with the rights of this process, or not at all for
    /// this reason.
    Spawned(Result<(), String>),
    /// PAExec was started, which is to start ffmpeg.
    SpawnedElevated,
    /// ffmpeg connected, or the connection could not be taken.
    Connected(Result<(), String>),
    /// ffmpeg, or PAExec in its place, ended with this status instead, or could
    /// not be waited for.
    Exited(Result<String, String>),
    /// Whether the stub connected in time.
    Relayed(bool),
    /// The key frame was asked for, whether or not that was heard.
    Requested,
}

/// What is to be done next.
pub enum SetupAction {
    BindOutput,
    ReadOutputPort,
    /// Find the path of the control socket for this output port.
    FindSocket(u16),
    BindRelay,
    ReadRelayPort,
    /// Start ffmpeg with these arguments and the rights of this process.
    SpawnNormal(Vec<String>),
    /// Start ffmpeg with these arguments, with the rights of the system
    /// account if possible; the stub is told this port and this path.
    SpawnPreferringSystem(Vec<String>, u16, String),
    /// Start ffmpeg with these arguments and the rights of this process, now
    /// that PAExec has failed.
    SpawnFallback(Vec<String>),
    /// Wait until ffmpeg connects or ends.
    AwaitConnection,
    /// Wait for the stub, but not for long.
    AwaitRelay,
    /// Ask for a key frame, with a connection of the stub or without one.
    RequestKeyFrame(bool),
    Finish,
    Fail(Error),
    /// The event does not belong to this stage, and nothing is done.
    Nothing,
}

/// A setup in the model.
#[verifier::ext_equal]
pub struct SetupView {
    pub stage: SetupStage,
    pub output_port: u16,
    pub relay_port: u16,
    pub idr_control_path: Seq<char>,
}

/// An action in the model.
#[verifier::ext_equal]
pub enum SetupMove {
    BindOutput,
    ReadOutputPort,
    FindSocket(u16),
    BindRelay,
    ReadRelayPort,
    SpawnNormal(Seq<Seq<char>>),
    SpawnPreferringSystem(Seq<Seq<char>>, u16, Seq<char>),
    SpawnFallback(Seq<Seq<char>>),
    AwaitConnection,
    AwaitRelay,
    RequestKeyFrame(bool),
    Finish,
    Fail(Seq<char>),
    Nothing,
}

impl View for SetupAction {
    type V = SetupMove;

    open spec fn view(&self) -> SetupMove {
        match *self {
            SetupAction::BindOutput => SetupMove::BindOutput,
            SetupAction::ReadOutputPort => SetupMove::ReadOutputPort,
            SetupAction::FindSocket(port) => SetupMove::FindSocket(port),
            SetupAction::BindRelay => SetupMove::BindRelay,
            SetupAction::ReadRelayPort => SetupMove::ReadRelayPort,
            SetupAction::SpawnNormal(args) => SetupMove::SpawnNormal(text::texts(args@)),
            SetupAction::SpawnPreferringSystem(args, port, path) => {
                SetupMove::SpawnPreferringSystem(text::texts(args@), port, path@)
            },
            SetupAction::SpawnFallback(args) => SetupMove::SpawnFallback(text::texts(args@)),
            SetupAction::AwaitConnection => SetupMove::AwaitConnection,
            SetupAction::AwaitRelay => SetupMove::AwaitRelay,
            SetupAction::RequestKeyFrame(relayed) => SetupMove::RequestKeyFrame(relayed),
            SetupAction::Finish => SetupMove::Finish,
            SetupAction::Fail(e) => SetupMove::Fail(e@),
            SetupAction::Nothing => SetupMove::Nothing,
        }
    }
}

impl SetupView {
    /// Nothing has been asked for yet.
    pub open spec fn fresh() -> SetupView {
        SetupView {
            stage: SetupStage::Idle,
            output_port: 0,
            relay_port: 0,
            idr_control_path: Seq::empty(),
        }
    }

    pub open spec fn at(self, stage: SetupStage) -> SetupView {
        SetupView { stage, ..self }
    }

    pub open spec fn failed(self, message: Seq<char>) -> (SetupView, SetupMove) {
        (self.at(SetupStage::Failed), SetupMove::Fail(message))
    }

    /// ffmpeg is started, in the way that is asked for.
    pub open spec fn spawn(self, config: SetupConfig) -> (SetupView, SetupMove) {
        let args = config.arguments(self.output_port, self.idr_control_path);
        (
            self.at(SetupStage::Process),
            match config.elevation {
                ElevationMode::Normal => SetupMove::SpawnNormal(args),
                ElevationMode::PreferSystem => SetupMove::SpawnPreferringSystem(
                    args,
                    self.relay_port,
                    self.idr_control_path,
                ),
            },
        )
    }

    /// The state and the action after an event.
    pub open spec fn after(self, config: SetupConfig, event: SetupEvent) -> (SetupView, SetupMove) {
        match (self.stage, event) {
            (SetupStage::Idle, SetupEvent::Begin) => (
                self.at(SetupStage::OutputListener),
                SetupMove::BindOutput,
            ),
            (SetupStage::OutputListener, SetupEvent::Bound(Ok(()))) => (
                self.at(SetupStage::OutputPort),
                SetupMove::ReadOutputPort,
            ),
            (SetupStage::OutputListener, SetupEvent::Bound(Err(e))) => self.failed(
                "failed to bind local TCP listener for ffmpeg output: "@ + e@,
            ),
            (SetupStage::OutputPort, SetupEvent::Port(Ok(port))) => (
                SetupView { output_port: port, ..self.at(SetupStage::ControlSocket) },
                SetupMove::FindSocket(port),
            ),
            (SetupStage::OutputPort, SetupEvent::Port(Err(e))) => self.failed(
                "failed to read output TCP listener address: "@ + e@,
            ),
            (SetupStage::ControlSocket, SetupEvent::Socket(path)) => {
                let found = SetupView { idr_control_path: path@, ..self };
                if config.platform == Platform::Windows {
                    (found.at(SetupStage::RelayListener), SetupMove::BindRelay)
                } else {
                    found.spawn(config)
                }
            },
            (SetupStage::RelayListener, SetupEvent::Bound(Ok(()))) => (
                self.at(SetupStage::RelayPort),
                SetupMove::ReadRelayPort,
            ),
            (SetupStage::RelayListener, SetupEvent::Bound(Err(e))) => self.failed(
                "failed to bind local TCP listener for idr relay: "@ + e@,
            ),
            (SetupStage::RelayPort, SetupEvent::Port(Ok(port))) => (SetupView {
                relay_port: port,
                ..self
            }).spawn(config),
            (SetupStage::RelayPort, SetupEvent::Port(Err(e))) => self.failed(
                "failed to read idr relay listener address: "@ + e@,
            ),
            (SetupStage::Process, SetupEvent::Spawned(Ok(()))) => (
                self.at(SetupStage::Connection),
                SetupMove::AwaitConnection,
            ),
            (SetupStage::Process, SetupEvent::Spawned(Err(e))) => self.failed(
                match config.elevation {
                    ElevationMode::Normal => "failed to spawn ffmpeg: "@ + e@,
                    ElevationMode::PreferSystem => e@,
                },
            ),
            (SetupStage::Process, SetupEvent::SpawnedElevated) => match config.elevation {
                ElevationMode::Normal => (self, SetupMove::Nothing),
                ElevationMode::PreferSystem => (
                    self.at(SetupStage::ElevatedConnection),
                    SetupMove::AwaitConnection,
                ),
            },
            (
                SetupStage::Connection | SetupStage::ElevatedConnection,
                SetupEvent::Connected(Ok(())),
            ) => if config.platform == Platform::Windows {
                (self.at(SetupStage::Relay), SetupMove::AwaitRelay)
            } else {
                (self.at(SetupStage::KeyFrame), SetupMove::RequestKeyFrame(false))
            },
            (
                SetupStage::Connection | SetupStage::ElevatedConnection,
                SetupEvent::Connected(Err(e)),
            ) => self.failed("failed to accept ffmpeg's output TCP connection: "@ + e@),
            (SetupStage::Connection, SetupEvent::Exited(Ok(status))) => self.failed(
                "ffmpeg exited before connecting to the output TCP listener (status="@ + status@
                    + ")"@,
            ),
            (SetupStage::ElevatedConnection, SetupEvent::Exited(Ok(_))) => (
                self.at(SetupStage::Fallback),
                SetupMove::SpawnFallback(
                    config.arguments(self.output_port, self.idr_control_path),
                ),
            ),
            (
                SetupStage::Connection | SetupStage::ElevatedConnection,
                SetupEvent::Exited(Err(e)),
            ) => self.failed("failed to wait for ffmpeg process: "@ + e@),
            (SetupStage::Fallback, SetupEvent::Spawned(Ok(()))) => (
                self.at(SetupStage::Connection),
                SetupMove::AwaitConnection,
            ),
            (SetupStage::Fallback, SetupEvent::Spawned(Err(e))) => self.failed(
                "failed to spawn program (both elevated and normal attempts failed): "@ + e@,
            ),
            (SetupStage::Relay, SetupEvent::Relayed(relayed)) => (
                self.at(SetupStage::KeyFrame),
                SetupMove::RequestKeyFrame(relayed),
            ),
            (SetupStage::KeyFrame, SetupEvent::Requested) => (
                self.at(SetupStage::Done),
                SetupMove::Finish,
            ),
            _ => (self, SetupMove::Nothing),
        }
    }
}

/// The setup of one ffmpeg process.
pub struct Setup {
    stage: SetupStage,
    output_port: u16,
    relay_port: u16,
    idr_control_path: String,
}

impl View for Setup {
    type V = SetupView;

    closed spec fn view(&self) -> SetupView {
        SetupView {
            stage: self.stage,
            output_port: self.output_port,
            relay_port: self.relay_port,
            idr_control_path: self.idr_control_path@,
        }
    }
}

impl Setup {
    pub fn new() -> (r: Setup)
        ensures
            r@ == SetupView::fresh(),
    {
        let r = Setup {
            stage: SetupStage::Idle,
            output_port: 0,
            relay_port: 0,
            idr_control_path: String::new(),
        };
        assert(r@ =~= SetupView::fresh());
        r
    }

    /// How far the setup has come.
    pub fn stage(&self) -> (r: SetupStage)
        ensures
            r == self@.stage,
    {
        self.stage
    }

    /// The path of the control socket, once it is known.
    pub fn idr_control_path(&self) -> (r: &str)
        ensures
            r@ == self@.idr_control_path,
    {
        self.idr_control_path.as_str()
    }

    fn fail(&mut self, e: Error) -> (r: SetupAction)
        ensures
            (final(self)@, r@) == old(self)@.failed(e@),
    {
        self.stage = SetupStage::Failed;
        assert(self@ =~= old(self)@.at(SetupStage::Failed));
        SetupAction::Fail(e)
    }

    fn arguments(&self, config: &SetupConfig) -> (r: Vec<String>)
        requires
            config.valid(),
        ensures
            text::texts(r@) == config.arguments(self@.output_port, self@.idr_control_path),
    {
        let x11_display = match &config.x11_display {
            Some(d) => Some(d.as_str()),
            None => None,
        };
        pipeline::ffmpeg_args(
            config.platform,
            &config.display,
            config.codec,
            config.hw_encoder,
            config.bitrate_kbps,
            x11_display,
            self.idr_control_path.as_str(),
            self.output_port,
        )
    }

    fn spawn(&mut self, config: &SetupConfig) -> (r: SetupAction)
        requires
            config.valid(),
        ensures
            (final(self)@, r@) == old(self)@.spawn(*config),
    {
        let args = self.arguments(config);
        self.stage = SetupStage::Process;
        assert(self@ =~= old(self)@.at(SetupStage::Process));
        match config.elevation {
            ElevationMode::Normal => SetupAction::SpawnNormal(args),
            ElevationMode::PreferSystem => SetupAction::SpawnPreferringSystem(
                args,
                self.relay_port,
                self.idr_control_path.clone(),
            ),
        }
    }

    /// Takes what came of the last action and says what is to be done next.
    pub fn step(&mut self, config: &SetupConfig, event: SetupEvent) -> (r: SetupAction)
        requires
            config.valid(),
        ensures
            (final(self)@, r@) == old(self)@.after(*config, event),
    {
        let windows = matches!(config.platform, Platform::Windows);
        match (self.stage, event) {
            (SetupStage::Idle, SetupEvent::Begin) => {
                self.stage = SetupStage::OutputListener;
                SetupAction::BindOutput
            },
            (SetupStage::OutputListener, SetupEvent::Bound(Ok(()))) => {
                self.stage = SetupStage::OutputPort;
                SetupAction::ReadOutputPort
            },
            (SetupStage::OutputListener, SetupEvent::Bound(Err(e))) => self.fail(
                Error::about("failed to bind local TCP listener for ffmpeg output: ", e.as_str()),
            ),
            (SetupStage::OutputPort, SetupEvent::Port(Ok(port))) => {
                self.output_port = port;
                self.stage = SetupStage::ControlSocket;
                SetupAction::FindSocket(port)
            },
            (SetupStage::OutputPort, SetupEvent::Port(Err(e))) => self.fail(
                Error::about("failed to read output TCP listener address: ", e.as_str()),
            ),
            (SetupStage::ControlSocket, SetupEvent::Socket(path)) => {
                self.idr_control_path = path;
                if windows {
                    self.stage = SetupStage::RelayListener;
                    SetupAction::BindRelay
                } else {
                    self.spawn(config)
                }
            },
            (SetupStage::RelayListener, SetupEvent::Bound(Ok(()))) => {
                self.stage = SetupStage::RelayPort;
                SetupAction::ReadRelayPort
            },
            (SetupStage::RelayListener, SetupEvent::Bound(Err(e))) => self.fail(
                Error::about("failed to bind local TCP listener for idr relay: ", e.as_str()),
            ),
            (SetupStage::RelayPort, SetupEvent::Port(Ok(port))) => {
                self.relay_port = port;
                self.spawn(config)
            },
            (SetupStage::RelayPort, SetupEvent::Port(Err(e))) => self.fail(
                Error::about("failed to read idr relay listener address: ", e.as_str()),
            ),
            (SetupStage::Process, SetupEvent::Spawned(Ok(()))) => {
                self.stage = SetupStage::Connection;
                SetupAction::AwaitConnection
            },
            (SetupStage::Process, SetupEvent::Spawned(Err(e))) => match config.elevation {
                ElevationMode::Normal => self.fail(
                    Error::about("failed to spawn ffmpeg: ", e.as_str()),
                ),
                ElevationMode::PreferSystem => self.fail(Error { message: e }),
            },
            (SetupStage::Process, SetupEvent::SpawnedElevated) => match config.elevation {
                ElevationMode::Normal => SetupAction::Nothing,
                ElevationMode::PreferSystem => {
                    self.stage = SetupStage::ElevatedConnection;
                    SetupAction::AwaitConnection
                },
            },
            (
                SetupStage::Connection | SetupStage::ElevatedConnection,
                SetupEvent::Connected(Ok(())),
            ) => {
                if windows {
                    self.stage = SetupStage::Relay;
                    SetupAction::AwaitRelay
                } else {
                    self.stage = SetupStage::KeyFrame;
                    SetupAction::RequestKeyFrame(false)
                }
            },
            (
                SetupStage::Connection | SetupStage::ElevatedConnection,
                SetupEvent::Connected(Err(e)),
            ) => self.fail(
                Error::about("failed to accept ffmpeg's output TCP connection: ", e.as_str()),
            ),
            (SetupStage::Connection, SetupEvent::Exited(Ok(status))) => {
                let mut message =
                    "ffmpeg exited before connecting to the output TCP listener (status=".to_owned();
                message.append(status.as_str());
                message.append(")");
                self.fail(Error { message })
            },
            (SetupStage::ElevatedConnection, SetupEvent::Exited(Ok(_))) => {
                let args = self.arguments(config);
                self.stage = SetupStage::Fallback;
                SetupAction::SpawnFallback(args)
            },
            (
                SetupStage::Connection | SetupStage::ElevatedConnection,
                SetupEvent::Exited(Err(e)),
            ) => self.fail(Error::about("failed to wait for ffmpeg process: ", e.as_str())),
            (SetupStage::Fallback, SetupEvent::Spawned(Ok(()))) => {
                self.stage = SetupStage::Connection;
                SetupAction::AwaitConnection
            },
            (SetupStage::Fallback, SetupEvent::Spawned(Err(e))) => self.fail(
                Error::about(
                    "failed to spawn program (both elevated and normal attempts failed): ",
                    e.as_str(),
                ),
            ),
            (SetupStage::Relay, SetupEvent::Relayed(relayed)) => {
                self.stage = SetupStage::KeyFrame;
                SetupAction::RequestKeyFrame(relayed)
            },
            (SetupStage::KeyFrame, SetupEvent::Requested) => {
                self.stage = SetupStage::Done;
                SetupAction::Finish
            },
            _ => SetupAction::Nothing,
        }
    }
}

/// The actions of a setup that got these events.
pub open spec fn setup_run(config: SetupConfig, events: Seq<SetupEvent>) -> (
    SetupView,
    Seq<SetupMove>,
)
    decreases events.len(),
{
    if events.len() == 0 {
        (SetupView::fresh(), Seq::empty())
    } else {
        let (before, moves) = setup_run(config, events.drop_last());
        let (state, action) = before.after(config, events.last());
        (state, moves.push(action))
    }
}

/// An action that starts ffmpeg for the first time.
pub open spec fn spawns(action: SetupMove) -> bool {
    action is SpawnNormal || action is SpawnPreferringSystem
}

/// In how many places of a row of actions ffmpeg is started for the first time.
pub open spec fn spawn_count(moves: Seq<SetupMove>) -> nat
    decreases moves.len(),
{
    if moves.len() == 0 {
        0
    } else {
        spawn_count(moves.drop_last()) + if spawns(moves.last()) {
            1nat
        } else {
            0
        }
    }
}

/// ffmpeg has been started, or the setup has failed.
pub open spec fn past_spawn(stage: SetupStage) -> bool {
    match stage {
        SetupStage::Process
        | SetupStage::Connection
        | SetupStage::ElevatedConnection
        | SetupStage::Fallback
        | SetupStage::Relay
        | SetupStage::KeyFrame
        | SetupStage::Done
        | SetupStage::Failed => true,
        _ => false,
    }
}

/// Whatever happens, one setup starts ffmpeg at most once, but for the start
/// that follows where PAExec fails. It is started with the arguments for the
/// port that the listener got and the socket that was found, and with the
/// rights that are asked for.
pub proof fn setup_spawns_once(config: SetupConfig, events: Seq<SetupEvent>)
    ensures
        ({
            let (state, moves) = setup_run(config, events);
            &&& moves.len() == events.len()
            &&& spawn_count(moves) <= 1
            &&& !past_spawn(state.stage) ==> spawn_count(moves) == 0
            &&& forall|i: int|
                0 <= i < moves.len() && spawns(#[trigger] moves[i]) ==> moves[i] == state.spawn(
                    config,
                ).1
        }),
    decreases events.len(),
{
    if events.len() > 0 {
        setup_spawns_once(config, events.drop_last());
        let (before, moves) = setup_run(config, events.drop_last());
        let (state, action) = before.after(config, events.last());
        assert(moves.push(action).drop_last() =~= moves);
        if !past_spawn(before.stage) {
            assert forall|i: int| 0 <= i < moves.len() implies !spawns(#[trigger] moves[i]) by {
                lemma_no_spawn(moves, i);
            }
        }
    }
}

proof fn lemma_no_spawn(moves: Seq<SetupMove>, i: int)
    requires
        spawn_count(moves) == 0,
        0 <= i < moves.len(),
    ensures
        !spawns(moves[i]),
    decreases moves.len(),
{
    if i < moves.len() - 1 {
        lemma_no_spawn(moves.drop_last(), i);
        assert(moves.drop_last()[i] == moves[i]);
    }
}

/// With event `i` ffmpeg was started because PAExec had failed.
pub open spec fn fell_back_at(config: SetupConfig, events: Seq<SetupEvent>, i: int) -> bool {
    0 <= i < events.len() && setup_run(config, events).1[i] is SpawnFallback
}

/// The event that a process ended before it connected.
pub open spec fn exits(event: SetupEvent) -> bool {
    match event {
        SetupEvent::Exited(Ok(_)) => true,
        _ => false,
    }
}

/// ffmpeg is started without PAExec at most once in a setup, and only where
/// the rights of the system account are preferred and PAExec was started and
/// then ended. The arguments are those of the first start.
pub proof fn fallback_follows_a_failure(config: SetupConfig, events: Seq<SetupEvent>, i: int)
    requires
        fell_back_at(config, events, i),
    ensures
        ({
            let (state, moves) = setup_run(config, events);
            &&& config.elevation == ElevationMode::PreferSystem
            &&& exits(events[i])
            &&& exists|j: int| 0 <= j < i && #[trigger] events[j] is SpawnedElevated
            &&& moves[i] == SetupMove::SpawnFallback(
                config.arguments(state.output_port, state.idr_control_path),
            )
            &&& forall|k: int| #[trigger] fell_back_at(config, events, k) ==> k == i
        }),
{
    lemma_fallback(config, events);
}

/// The stages in which ffmpeg cannot have been started without PAExec.
spec fn before_fallback(stage: SetupStage) -> bool {
    !past_spawn(stage) || stage == SetupStage::Process || stage == SetupStage::ElevatedConnection
}

proof fn lemma_fallback(config: SetupConfig, events: Seq<SetupEvent>)
    ensures
        ({
            let (state, moves) = setup_run(config, events);
            &&& moves.len() == events.len()
            &&& state.stage == SetupStage::ElevatedConnection ==> {
                &&& config.elevation == ElevationMode::PreferSystem
                &&& exists|j: int| 0 <= j < events.len() && #[trigger] events[j] is SpawnedElevated
            }
            &&& before_fallback(state.stage) ==> forall|i: int| !fell_back_at(config, events, i)
            &&& forall|i: int| #[trigger]
                fell_back_at(config, events, i) ==> {
                    &&& config.elevation == ElevationMode::PreferSystem
                    &&& exits(events[i])
                    &&& exists|j: int| 0 <= j < i && #[trigger] events[j] is SpawnedElevated
                    &&& moves[i] == SetupMove::SpawnFallback(
                        config.arguments(state.output_port, state.idr_control_path),
                    )
                    &&& forall|k: int| #[trigger] fell_back_at(config, events, k) ==> k == i
                }
        }),
    decreases events.len(),
{
    if events.len() > 0 {
        let front = events.drop_last();
        lemma_fallback(config, front);
        let n = front.len() as int;
        let (before, old_moves) = setup_run(config, front);
        let (state, moves) = setup_run(config, events);
        assert forall|i: int| 0 <= i < n implies #[trigger] moves[i] == old_moves[i] && events[i]
            == front[i] && fell_back_at(config, events, i) == fell_back_at(config, front, i) by {}
        if before.stage == SetupStage::ElevatedConnection {
            let j = choose|j: int| 0 <= j < n && #[trigger] front[j] is SpawnedElevated;
            assert(events[j] is SpawnedElevated);
        }
        if state.stage == SetupStage::ElevatedConnection && before.stage == SetupStage::Process {
            assert(events[n] is SpawnedElevated);
        }
        assert forall|i: int| #[trigger] fell_back_at(config, events, i) implies {
            &&& config.elevation == ElevationMode::PreferSystem
            &&& exits(events[i])
            &&& exists|j: int| 0 <= j < i && #[trigger] events[j] is SpawnedElevated
            &&& moves[i] == SetupMove::SpawnFallback(
                config.arguments(state.output_port, state.idr_control_path),
            )
            &&& forall|k: int| #[trigger] fell_back_at(config, events, k) ==> k == i
        } by {
            if i < n {
                assert(moves[i] == old_moves[i]);
                assert(fell_back_at(config, front, i));
                let j = choose|j: int| 0 <= j < i && #[trigger] front[j] is SpawnedElevated;
                assert(events[j] is SpawnedElevated);
                assert(!before_fallback(before.stage));
                assert(!fell_back_at(config, events, n));
                assert forall|k: int| #[trigger] fell_back_at(config, events, k) implies k == i by {
                    assert(moves[k] == old_moves[k]);
                    assert(fell_back_at(config, front, k));
                }
            } else {
                assert(before.stage == SetupStage::ElevatedConnection);
                assert forall|k: int| #[trigger] fell_back_at(config, events, k) implies k == i by {
                    if k < n {
                        assert(moves[k] == old_moves[k]);
                        assert(fell_back_at(config, front, k));
                    }
                }
            }
        }
        if before_fallback(state.stage) {
            assert forall|i: int| !fell_back_at(config, events, i) by {
                if fell_back_at(config, events, i) && i < n {
                    assert(moves[i] == old_moves[i]);
                    assert(fell_back_at(config, front, i));
                }
            }
        }
    }
}

/// A setup that has finished or failed does nothing more.
pub proof fn setup_ends(state: SetupView, config: SetupConfig, event: SetupEvent)
    requires
        state.stage == SetupStage::Done || state.stage == SetupStage::Failed,
    ensures
        state.after(config, event) == (state, SetupMove::Nothing),
{
}

/// The event that ffmpeg has connected.
pub open spec fn connects(event: SetupEvent) -> bool {
    match event {
        SetupEvent::Connected(Ok(_)) => true,
        _ => false,
    }
}

/// ffmpeg connected with event `i`, and with event `j`, that one or a later one,
/// a key frame was asked for.
pub open spec fn asked_at(config: SetupConfig, events: Seq<SetupEvent>, i: int, j: int) -> bool {
    &&& 0 <= i <= j < events.len()
    &&& connects(events[i])
    &&& setup_run(config, events).1[j] is RequestKeyFrame
}

/// A setup finishes only after ffmpeg has connected and a key frame has been
/// asked for.
pub proof fn setup_asks_for_a_key_frame(config: SetupConfig, events: Seq<SetupEvent>)
    ensures
        setup_run(config, events).0.stage == SetupStage::Done ==> exists|i: int, j: int|
            asked_at(config, events, i, j),
{
    lemma_asked(config, events);
}

proof fn lemma_asked(config: SetupConfig, events: Seq<SetupEvent>)
    ensures
        ({
            let stage = setup_run(config, events).0.stage;
            &&& setup_run(config, events).1.len() == events.len()
            &&& stage == SetupStage::Relay ==> exists|i: int|
                0 <= i < events.len() && connects(#[trigger] events[i])
            &&& stage == SetupStage::KeyFrame || stage == SetupStage::Done ==> exists|
                i: int,
                j: int,
            |
                asked_at(config, events, i, j)
        }),
    decreases events.len(),
{
    if events.len() > 0 {
        let front = events.drop_last();
        lemma_asked(config, front);
        let before = setup_run(config, front).0.stage;
        let stage = setup_run(config, events).0.stage;
        let n = events.len() - 1;
        if before == SetupStage::Connection || before == SetupStage::ElevatedConnection {
            if stage == SetupStage::Relay {
                assert(connects(events[n]));
            }
            if stage == SetupStage::KeyFrame {
                assert(asked_at(config, events, n, n));
            }
        } else if before == SetupStage::Relay {
            let i = choose|i: int|
                0 <= i < front.len() && connects(#[trigger] front[i]);
            assert(events[i] == front[i]);
            if stage == SetupStage::KeyFrame {
                assert(asked_at(config, events, i, n));
            }
        } else if before == SetupStage::KeyFrame || before == SetupStage::Done {
            let (i, j) = choose|i: int, j: int| asked_at(config, front, i, j);
            assert(events[i] == front[i]);
            assert(setup_run(config, events).1[j] == setup_run(config, front).1[j]);
            assert(asked_at(config, events, i, j));
        }
    }
}

proof fn lemma_one_more(config: SetupConfig, events: Seq<SetupEvent>, event: SetupEvent)
    ensures
        setup_run(config, events.push(event)).0 == setup_run(config, events).0.after(
            config,
            event,
        ).0,
        setup_run(config, events.push(event)).1 == setup_run(config, events).1.push(
            setup_run(config, events).0.after(config, event).1,
        ),
{
    assert(events.push(event).drop_last() =~= events);
}

/// The event that ffmpeg was started, through PAExec or without it.
pub open spec fn started(elevated: bool) -> SetupEvent {
    if elevated {
        SetupEvent::SpawnedElevated
    } else {
        SetupEvent::Spawned(Ok(()))
    }
}

/// The events of a setup in which nothing fails.
pub open spec fn smooth_events(
    config: SetupConfig,
    port: u16,
    path: String,
    relay_port: u16,
    elevated: bool,
    relayed: bool,
) -> Seq<SetupEvent> {
    if config.platform == Platform::Windows {
        seq![
            SetupEvent::Begin,
            SetupEvent::Bound(Ok(())),
            SetupEvent::Port(Ok(port)),
            SetupEvent::Socket(path),
            SetupEvent::Bound(Ok(())),
            SetupEvent::Port(Ok(relay_port)),
            started(elevated),
            SetupEvent::Connected(Ok(())),
            SetupEvent::Relayed(relayed),
            SetupEvent::Requested,
        ]
    } else {
        seq![
            SetupEvent::Begin,
            SetupEvent::Bound(Ok(())),
            SetupEvent::Port(Ok(port)),
            SetupEvent::Socket(path),
            SetupEvent::Spawned(Ok(())),
            SetupEvent::Connected(Ok(())),
            SetupEvent::Requested,
        ]
    }
}

/// The start of ffmpeg in such a setup.
pub open spec fn smooth_spawn(
    config: SetupConfig,
    port: u16,
    path: Seq<char>,
    relay_port: u16,
) -> SetupMove {
    match config.elevation {
        ElevationMode::Normal => SetupMove::SpawnNormal(config.arguments(port, path)),
        ElevationMode::PreferSystem => SetupMove::SpawnPreferringSystem(
            config.arguments(port, path),
            relay_port,
            path,
        ),
    }
}

/// The actions of such a setup.
pub open spec fn smooth_moves(
    config: SetupConfig,
    port: u16,
    path: Seq<char>,
    relay_port: u16,
    relayed: bool,
) -> Seq<SetupMove> {
    if config.platform == Platform::Windows {
        seq![
            SetupMove::BindOutput,
            SetupMove::ReadOutputPort,
            SetupMove::FindSocket(port),
            SetupMove::BindRelay,
            SetupMove::ReadRelayPort,
            smooth_spawn(config, port, path, relay_port),
            SetupMove::AwaitConnection,
            SetupMove::AwaitRelay,
            SetupMove::RequestKeyFrame(relayed),
            SetupMove::Finish,
        ]
    } else {
        seq![
            SetupMove::BindOutput,
            SetupMove::ReadOutputPort,
            SetupMove::FindSocket(port),
            smooth_spawn(config, port, path, 0),
            SetupMove::AwaitConnection,
            SetupMove::RequestKeyFrame(false),
            SetupMove::Finish,
        ]
    }
}

/// Where nothing fails, a setup runs through: the listener, its port, the
/// control socket, ffmpeg, its connection, a key frame. On Windows the listener
/// for the stub comes before ffmpeg is started, and the stub's connection is
/// waited for; that it stays away is no failure.
pub proof fn setup_runs_through(
    config: SetupConfig,
    port: u16,
    path: String,
    relay_port: u16,
    elevated: bool,
    relayed: bool,
)
    requires
        elevated ==> config.elevation == ElevationMode::PreferSystem,
    ensures
        ({
            let (state, moves) = setup_run(
                config,
                smooth_events(config, port, path, relay_port, elevated, relayed),
            );
            &&& state.stage == SetupStage::Done
            &&& state.idr_control_path == path@
            &&& moves == smooth_moves(config, port, path@, relay_port, relayed)
        }),
{
    let e0 = Seq::<SetupEvent>::empty();
    let e1 = e0.push(SetupEvent::Begin);
    let e2 = e1.push(SetupEvent::Bound(Ok(())));
    let e3 = e2.push(SetupEvent::Port(Ok(port)));
    let e4 = e3.push(SetupEvent::Socket(path));
    lemma_one_more(config, e0, SetupEvent::Begin);
    lemma_one_more(config, e1, SetupEvent::Bound(Ok(())));
    lemma_one_more(config, e2, SetupEvent::Port(Ok(port)));
    lemma_one_more(config, e3, SetupEvent::Socket(path));
    let events = smooth_events(config, port, path, relay_port, elevated, relayed);
    if config.platform != Platform::Windows {
        let e5 = e4.push(SetupEvent::Spawned(Ok(())));
        let e6 = e5.push(SetupEvent::Connected(Ok(())));
        lemma_one_more(config, e4, SetupEvent::Spawned(Ok(())));
        lemma_one_more(config, e5, SetupEvent::Connected(Ok(())));
        lemma_one_more(config, e6, SetupEvent::Requested);
        assert(events =~= e6.push(SetupEvent::Requested));
    } else {
        let e5 = e4.push(SetupEvent::Bound(Ok(())));
        let e6 = e5.push(SetupEvent::Port(Ok(relay_port)));
        let e7 = e6.push(started(elevated));
        let e8 = e7.push(SetupEvent::Connected(Ok(())));
        let e9 = e8.push(SetupEvent::Relayed(relayed));
        lemma_one_more(config, e4, SetupEvent::Bound(Ok(())));
        lemma_one_more(config, e5, SetupEvent::Port(Ok(relay_port)));
        lemma_one_more(config, e6, started(elevated));
        lemma_one_more(config, e7, SetupEvent::Connected(Ok(())));
        lemma_one_more(config, e8, SetupEvent::Relayed(relayed));
        lemma_one_more(config, e9, SetupEvent::Requested);
        assert(events =~= e9.push(SetupEvent::Requested));
    }
    assert(setup_run(config, events).1 =~= smooth_moves(config, port, path@, relay_port, relayed));
}

/// On Windows, where the rights of the system account are preferred, a setup
/// runs through though PAExec fails: once it has ended, ffmpeg is started with
/// the same arguments and the rights of this process, and all goes on.
pub proof fn setup_falls_back(
    config: SetupConfig,
    port: u16,
    path: String,
    relay_port: u16,
    status: String,
    relayed: bool,
)
    requires
        config.platform == Platform::Windows,
        config.elevation == ElevationMode::PreferSystem,
    ensures
        ({
            let (state, moves) = setup_run(
                config,
                seq![
                    SetupEvent::Begin,
                    SetupEvent::Bound(Ok(())),
                    SetupEvent::Port(Ok(port)),
                    SetupEvent::Socket(path),
                    SetupEvent::Bound(Ok(())),
                    SetupEvent::Port(Ok(relay_port)),
                    SetupEvent::SpawnedElevated,
                    SetupEvent::Exited(Ok(status)),
                    SetupEvent::Spawned(Ok(())),
                    SetupEvent::Connected(Ok(())),
                    SetupEvent::Relayed(relayed),
                    SetupEvent::Requested,
                ],
            );
            &&& state.stage == SetupStage::Done
            &&& moves == seq![
                SetupMove::BindOutput,
                SetupMove::ReadOutputPort,
                SetupMove::FindSocket(port),
                SetupMove::BindRelay,
                SetupMove::ReadRelayPort,
                SetupMove::SpawnPreferringSystem(
                    config.arguments(port, path@),
                    relay_port,
                    path@,
                ),
                SetupMove::AwaitConnection,
                SetupMove::SpawnFallback(config.arguments(port, path@)),
                SetupMove::AwaitConnection,
                SetupMove::AwaitRelay,
                SetupMove::RequestKeyFrame(relayed),
                SetupMove::Finish,
            ]
        }),
{
    let e0 = Seq::<SetupEvent>::empty();
    let e1 = e0.push(SetupEvent::Begin);
    let e2 = e1.push(SetupEvent::Bound(Ok(())));
    let e3 = e2.push(SetupEvent::Port(Ok(port)));
    let e4 = e3.push(SetupEvent::Socket(path));
    let e5 = e4.push(SetupEvent::Bound(Ok(())));
    let e6 = e5.push(SetupEvent::Port(Ok(relay_port)));
    let e7 = e6.push(SetupEvent::SpawnedElevated);
    let e8 = e7.push(SetupEvent::Exited(Ok(status)));
    let e9 = e8.push(SetupEvent::Spawned(Ok(())));
    let e10 = e9.push(SetupEvent::Connected(Ok(())));
    let e11 = e10.push(SetupEvent::Relayed(relayed));
    lemma_one_more(config, e0, SetupEvent::Begin);
    lemma_one_more(config, e1, SetupEvent::Bound(Ok(())));
    lemma_one_more(config, e2, SetupEvent::Port(Ok(port)));
    lemma_one_more(config, e3, SetupEvent::Socket(path));
    lemma_one_more(config, e4, SetupEvent::Bound(Ok(())));
    lemma_one_more(config, e5, SetupEvent::Port(Ok(relay_port)));
    lemma_one_more(config, e6, SetupEvent::SpawnedElevated);
    lemma_one_more(config, e7, SetupEvent::Exited(Ok(status)));
    lemma_one_more(config, e8, SetupEvent::Spawned(Ok(())));
    lemma_one_more(config, e9, SetupEvent::Connected(Ok(())));
    lemma_one_more(config, e10, SetupEvent::Relayed(relayed));
    lemma_one_more(config, e11, SetupEvent::Requested);
    assert(e11.push(SetupEvent::Requested) =~= seq![
        SetupEvent::Begin,
        SetupEvent::Bound(Ok(())),
        SetupEvent::Port(Ok(port)),
        SetupEvent::Socket(path),
        SetupEvent::Bound(Ok(())),
        SetupEvent::Port(Ok(relay_port)),
        SetupEvent::SpawnedElevated,
        SetupEvent::Exited(Ok(status)),
        SetupEvent::Spawned(Ok(())),
        SetupEvent::Connected(Ok(())),
        SetupEvent::Relayed(relayed),
        SetupEvent::Requested,
    ]);
}

// ---------------------------------------------------------------------------
// Reading from ffmpeg
// ---------------------------------------------------------------------------

/// What came of the last action while ffmpeg runs.
#[derive(Debug, Clone, Copy, PartialEq, Eq, Structural)]
pub enum InstanceEvent {
    /// Whether the pipeline is to stop.
    StopFlag(bool),
    /// So many bytes were read.
    Read(usize),
    /// The connection failed.
    ReadFailed,
    /// The bytes were handed out.
    Delivered,
}

/// What is to be done next while ffmpeg runs.
#[derive(Debug, Clone, Copy, PartialEq, Eq, Structural)]
pub enum InstanceAction {
    /// Look whether the pipeline is to stop.
    CheckStopFlag,
    /// Read from the connection.
    Read,
    /// Hand out so many bytes.
    Deliver(usize),
    /// End the process; whether that was intended.
    End(bool),
}

/// The next action while ffmpeg runs. It is read from until the pipeline is to
/// stop, which is intended, or the connection ends or fails, which is not.
pub open spec fn instance_after(event: InstanceEvent) -> InstanceAction {
    match event {
        InstanceEvent::StopFlag(true) => InstanceAction::End(true),
        InstanceEvent::StopFlag(false) => InstanceAction::Read,
        InstanceEvent::Read(n) => if n == 0 {
            InstanceAction::End(false)
        } else {
            InstanceAction::Deliver(n)
        },
        InstanceEvent::ReadFailed => InstanceAction::End(false),
        InstanceEvent::Delivered => InstanceAction::CheckStopFlag,
    }
}

/// The next action while ffmpeg runs. It is read from until the pipeline is to
/// stop, which is intended, or the connection ends or fails, which is not.
pub fn instance_step(event: InstanceEvent) -> (r: InstanceAction)
    ensures
        r == instance_after(event),
{
    match event {
        InstanceEvent::StopFlag(stop) => if stop {
            InstanceAction::End(true)
        } else {
            InstanceAction::Read
        },
        InstanceEvent::Read(n) => if n == 0 {
            InstanceAction::End(false)
        } else {
            InstanceAction::Deliver(n)
        },
        InstanceEvent::ReadFailed => InstanceAction::End(false),
        InstanceEvent::Delivered => InstanceAction::CheckStopFlag,
    }
}

/// The events while pieces of these lengths are read and then the connection
/// ends, if the pipeline is not to stop.
pub open spec fn read_events(lengths: Seq<usize>) -> Seq<InstanceEvent>
    decreases lengths.len(),
{
    if lengths.len() == 0 {
        seq![InstanceEvent::StopFlag(false), InstanceEvent::Read(0)]
    } else {
        seq![
            InstanceEvent::StopFlag(false),
            InstanceEvent::Read(lengths[0]),
            InstanceEvent::Delivered,
        ] + read_events(lengths.skip(1))
    }
}

/// The actions that hand out pieces of these lengths, once each and in order,
/// and then end.
pub open spec fn read_actions(lengths: Seq<usize>) -> Seq<InstanceAction>
    decreases lengths.len(),
{
    if lengths.len() == 0 {
        seq![InstanceAction::Read, InstanceAction::End(false)]
    } else {
        seq![
            InstanceAction::Read,
            InstanceAction::Deliver(lengths[0]),
            InstanceAction::CheckStopFlag,
        ] + read_actions(lengths.skip(1))
    }
}

/// Where the pipeline is not to stop, every piece that is read is handed out
/// once, in order, and the end of the connection ends the process, which was
/// not intended.
pub proof fn each_piece_is_handed_out_once(lengths: Seq<usize>)
    requires
        forall|i: int| 0 <= i < lengths.len() ==> #[trigger] lengths[i] > 0,
    ensures
        read_events(lengths).map_values(|event: InstanceEvent| instance_after(event))
            == read_actions(lengths),
    decreases lengths.len(),
{
    let step = |event: InstanceEvent| instance_after(event);
    if lengths.len() > 0 {
        let rest = lengths.skip(1);
        assert forall|i: int| 0 <= i < rest.len() implies #[trigger] rest[i] > 0 by {
            assert(rest[i] == lengths[i + 1]);
        }
        each_piece_is_handed_out_once(rest);
        assert(lengths[0] > 0);
        assert(read_events(lengths).map_values(step) =~= read_actions(lengths)) by {
            assert forall|i: int| 3 <= i < read_events(lengths).len() implies #[trigger] read_events(
                lengths,
            ).map_values(step)[i] == read_actions(lengths)[i] by {
                assert(read_events(rest).map_values(step)[i - 3] == read_actions(rest)[i - 3]);
            }
            assert(read_events(rest).map_values(step).len() == read_actions(rest).len());
        }
    } else {
        assert(read_events(lengths).map_values(step) =~= read_actions(lengths));
    }
}

// ---------------------------------------------------------------------------
// Starting ffmpeg again
// ---------------------------------------------------------------------------

/// How long to wait before ffmpeg is started again.
pub const FFMPEG_RESTART_BACKOFF_MILLIS: u64 = 500;

/// What the supervisor of a pipeline waits for.
#[derive(Debug, Clone, Copy, PartialEq, Eq, Structural)]
pub enum SupervisorStage {
    /// ffmpeg runs.
    Running,
    /// The pause before the next start.
    Pausing,
    /// The display is being looked up again.
    Resolving,
    /// ffmpeg is being set up again.
    Restarting,
    /// The pipeline was stopped.
    Ended,
}

/// What the supervisor is told.
pub enum SupervisorEvent {
    /// ffmpeg has ended: whether that was intended, and whether the pipeline is
    /// to stop.
    InstanceEnded(bool, bool),
    /// The pause is over: whether the pipeline is to stop.
    Paused(bool),
    /// The display that has the name now.
    Resolved(Option<DisplayInfo>),
    /// Whether ffmpeg was set up.
    SetUp(bool),
}

/// What the supervisor asks for.
#[derive(Debug, Clone, Copy, PartialEq, Eq, Structural)]
pub enum SupervisorAction {
    /// Read from ffmpeg until it ends.
    RunInstance,
    /// Wait for the backoff.
    Pause,
    /// Look the display up by its name.
    Resolve,
    /// Set ffmpeg up for the display.
    SetUp,
    /// Nothing more.
    End,
    /// The event does not belong to this stage, and nothing is done.
    Nothing,
}

/// A supervisor in the model.
#[verifier::ext_equal]
pub struct SupervisorView {
    pub stage: SupervisorStage,
    pub display: TargetView,
    /// Whether displays change their positions when others come and go.
    pub resolves: bool,
}

impl SupervisorView {
    /// ffmpeg runs for this display.
    pub open spec fn fresh(display: TargetView, resolves: bool) -> SupervisorView {
        SupervisorView { stage: SupervisorStage::Running, display, resolves }
    }

    pub open spec fn at(self, stage: SupervisorStage) -> SupervisorView {
        SupervisorView { stage, ..self }
    }

    /// The state and the action after an event.
    pub open spec fn after(self, event: SupervisorEvent) -> (SupervisorView, SupervisorAction) {
        match (self.stage, event) {
            (SupervisorStage::Running, SupervisorEvent::InstanceEnded(intended, stop)) => if intended
                || stop {
                (self.at(SupervisorStage::Ended), SupervisorAction::End)
            } else {
                (self.at(SupervisorStage::Pausing), SupervisorAction::Pause)
            },
            (SupervisorStage::Pausing, SupervisorEvent::Paused(stop)) => if stop {
                (self.at(SupervisorStage::Ended), SupervisorAction::End)
            } else if self.resolves {
                (self.at(SupervisorStage::Resolving), SupervisorAction::Resolve)
            } else {
                (self.at(SupervisorStage::Restarting), SupervisorAction::SetUp)
            },
            (SupervisorStage::Resolving, SupervisorEvent::Resolved(found)) => match found {
                Some(d) => (
                    SupervisorView {
                        display: TargetView {
                            width: d.width,
                            height: d.height,
                            adapter_output_idx: d.adapter_output_idx,
                            ..self.display
                        },
                        ..self.at(SupervisorStage::Restarting)
                    },
                    SupervisorAction::SetUp,
                ),
                None => (self.at(SupervisorStage::Pausing), SupervisorAction::Pause),
            },
            (SupervisorStage::Restarting, SupervisorEvent::SetUp(done)) => if done {
                (self.at(SupervisorStage::Running), SupervisorAction::RunInstance)
            } else {
                (self.at(SupervisorStage::Pausing), SupervisorAction::Pause)
            },
            _ => (self, SupervisorAction::Nothing),
        }
    }
}

/// Keeps ffmpeg running for one display until the pipeline is stopped.
pub struct Supervisor {
    stage: SupervisorStage,
    display: DisplayTarget,
    resolves: bool,
}

impl View for Supervisor {
    type V = SupervisorView;

    closed spec fn view(&self) -> SupervisorView {
        SupervisorView { stage: self.stage, display: self.display@, resolves: self.resolves }
    }
}

impl Supervisor {
    /// The supervisor of an ffmpeg that runs for this display. `resolves` says
    /// whether the display is looked up again before each further start.
    pub fn new(display: DisplayTarget, resolves: bool) -> (r: Supervisor)
        ensures
            r@ == SupervisorView::fresh(display@, resolves),
    {
        Supervisor { stage: SupervisorStage::Running, display, resolves }
    }

    /// The display, as it was found last.
    pub fn display(&self) -> (r: &DisplayTarget)
        ensures
            r@ == self@.display,
    {
        &self.display
    }

    /// Takes an event and says what is to be done next.
    pub fn step(&mut self, event: SupervisorEvent) -> (r: SupervisorAction)
        ensures
            (final(self)@, r) == old(self)@.after(event),
    {
        match (self.stage, event) {
            (SupervisorStage::Running, SupervisorEvent::InstanceEnded(intended, stop)) => {
                if intended || stop {
                    self.stage = SupervisorStage::Ended;
                    SupervisorAction::End
                } else {
                    self.stage = SupervisorStage::Pausing;
                    SupervisorAction::Pause
                }
            },
            (SupervisorStage::Pausing, SupervisorEvent::Paused(stop)) => {
                if stop {
                    self.stage = SupervisorStage::Ended;
                    SupervisorAction::End
                } else if self.resolves {
                    self.stage = SupervisorStage::Resolving;
                    SupervisorAction::Resolve
                } else {
                    self.stage = SupervisorStage::Restarting;
                    SupervisorAction::SetUp
                }
            },
            (SupervisorStage::Resolving, SupervisorEvent::Resolved(found)) => match found {
                Some(d) => {
                    self.display.adapter_output_idx = d.adapter_output_idx;
                    self.display.width = d.width;
                    self.display.height = d.height;
                    self.stage = SupervisorStage::Restarting;
                    SupervisorAction::SetUp
                },
                None => {
                    self.stage = SupervisorStage::Pausing;
                    SupervisorAction::Pause
                },
            },
            (SupervisorStage::Restarting, SupervisorEvent::SetUp(done)) => {
                if done {
                    self.stage = SupervisorStage::Running;
                    SupervisorAction::RunInstance
                } else {
                    self.stage = SupervisorStage::Pausing;
                    SupervisorAction::Pause
                }
            },
            _ => SupervisorAction::Nothing,
        }
    }
}

/// The state and the actions of a supervisor that got these events.
pub open spec fn supervised(start: SupervisorView, events: Seq<SupervisorEvent>) -> (
    SupervisorView,
    Seq<SupervisorAction>,
)
    decreases events.len(),
{
    if events.len() == 0 {
        (start, Seq::empty())
    } else {
        let (before, actions) = supervised(start, events.drop_last());
        let (state, action) = before.after(events.last());
        (state, actions.push(action))
    }
}

/// How often an action is asked for.
pub open spec fn times(actions: Seq<SupervisorAction>, action: SupervisorAction) -> nat
    decreases actions.len(),
{
    if actions.len() == 0 {
        0
    } else {
        times(actions.drop_last(), action) + if actions.last() == action {
            1nat
        } else {
            0
        }
    }
}

/// An event that reports the wish to stop.
pub open spec fn tells_stop(event: SupervisorEvent) -> bool {
    match event {
        SupervisorEvent::InstanceEnded(intended, stop) => intended || stop,
        SupervisorEvent::Paused(stop) => stop,
        _ => false,
    }
}

/// A supervisor goes on until it is told to stop, however often ffmpeg ends and
/// however many starts fail.
pub proof fn supervisor_ends_only_when_told(
    display: TargetView,
    resolves: bool,
    events: Seq<SupervisorEvent>,
)
    ensures
        supervised(SupervisorView::fresh(display, resolves), events).0.stage
            == SupervisorStage::Ended ==> exists|i: int|
            0 <= i < events.len() && tells_stop(#[trigger] events[i]),
    decreases events.len(),
{
    if events.len() > 0 {
        let front = events.drop_last();
        supervisor_ends_only_when_told(display, resolves, front);
        let before = supervised(SupervisorView::fresh(display, resolves), front).0;
        if before.stage == SupervisorStage::Ended {
            let i = choose|i: int| 0 <= i < front.len() && tells_stop(#[trigger] front[i]);
            assert(events[i] == front[i]);
        } else {
            assert(events[events.len() - 1] == events.last());
        }
    }
}

/// A supervisor that has ended asks for nothing more.
pub proof fn supervisor_stays_ended(state: SupervisorView, event: SupervisorEvent)
    requires
        state.stage == SupervisorStage::Ended,
    ensures
        state.after(event) == (state, SupervisorAction::Nothing),
{
}

/// Every further start has a pause of its own before it, and ffmpeg is read
/// from again only after such a start: there are never two at a time.
pub proof fn supervisor_pauses_before_each_start(
    display: TargetView,
    resolves: bool,
    events: Seq<SupervisorEvent>,
)
    ensures
        ({
            let (state, actions) = supervised(SupervisorView::fresh(display, resolves), events);
            let pauses = times(actions, SupervisorAction::Pause);
            let starts = times(actions, SupervisorAction::SetUp);
            let runs = times(actions, SupervisorAction::RunInstance);
            &&& starts <= pauses
            &&& runs <= starts
            &&& state.stage == SupervisorStage::Pausing || state.stage == SupervisorStage::Resolving
                ==> starts < pauses
            &&& state.stage == SupervisorStage::Restarting ==> runs < starts
        }),
    decreases events.len(),
{
    if events.len() > 0 {
        let front = events.drop_last();
        supervisor_pauses_before_each_start(display, resolves, front);
        let (before, actions) = supervised(SupervisorView::fresh(display, resolves), front);
        let (state, action) = before.after(events.last());
        assert(actions.push(action).drop_last() =~= actions);
    }
}

/// The display keeps its name, and where displays are looked up again ffmpeg is
/// set up with the position and size found last.
pub proof fn supervisor_follows_the_display(
    display: TargetView,
    resolves: bool,
    events: Seq<SupervisorEvent>,
)
    ensures
        ({
            let (state, actions) = supervised(SupervisorView::fresh(display, resolves), events);
            &&& state.display.name == display.name
            &&& !resolves ==> state.display == display
            &&& resolves && actions.len() > 0 && actions.last() == SupervisorAction::SetUp ==> {
                &&& events.last() matches SupervisorEvent::Resolved(Some(d))
                &&& state.display == (TargetView {
                    name: display.name,
                    width: d.width,
                    height: d.height,
                    adapter_output_idx: d.adapter_output_idx,
                })
            }
        }),
    decreases events.len(),
{
    if events.len() > 0 {
        lemma_resolves_kept(display, resolves, events.drop_last());
        supervisor_follows_the_display(display, resolves, events.drop_last());
    }
}

proof fn lemma_resolves_kept(display: TargetView, resolves: bool, events: Seq<SupervisorEvent>)
    ensures
        supervised(SupervisorView::fresh(display, resolves), events).0.resolves == resolves,
        !resolves ==> supervised(SupervisorView::fresh(display, resolves), events).0.stage
            != SupervisorStage::Resolving,
    decreases events.len(),
{
    if events.len() > 0 {
        lemma_resolves_kept(display, resolves, events.drop_last());
    }
}

// ---------------------------------------------------------------------------
// More on setups, instances and supervisors
// ---------------------------------------------------------------------------

/// ffmpeg is called with what the setup is configured for.
pub proof fn setup_passes_the_configuration(config: SetupConfig, port: u16, path: Seq<char>)
    ensures
        config.arguments(port, path) == pipeline::ffmpeg_arguments(
            config.platform,
            config.display@,
            config.codec,
            config.hw_encoder,
            config.bitrate_kbps,
            if config.x11_display is Some {
                Some(config.x11_display->0@)
            } else {
                None
            },
            path,
            port,
        ),
        config.valid() <==> config.platform != Platform::Other && (config.codec != Codec::Hevc
            || config.hw_encoder is Some),
{
}

/// What a setup waits for at a stage has failed, for this reason.
pub open spec fn fails_with(stage: SetupStage, event: SetupEvent, reason: Seq<char>) -> bool {
    match (stage, event) {
        (
            SetupStage::OutputListener | SetupStage::RelayListener,
            SetupEvent::Bound(Err(e)),
        ) => e@ == reason,
        (SetupStage::OutputPort | SetupStage::RelayPort, SetupEvent::Port(Err(e))) => e@ == reason,
        (SetupStage::Process | SetupStage::Fallback, SetupEvent::Spawned(Err(e))) => e@ == reason,
        (
            SetupStage::Connection | SetupStage::ElevatedConnection,
            SetupEvent::Connected(Err(e)),
        ) => e@ == reason,
        (
            SetupStage::Connection | SetupStage::ElevatedConnection,
            SetupEvent::Exited(Err(e)),
        ) => e@ == reason,
        _ => false,
    }
}

/// A failure of what a setup waits for ends it, with a message that ends with
/// the reason. So does an ffmpeg that ends before it connects, with its status in
/// the message. What does not belong to the stage changes nothing.
pub proof fn setup_failures_are_told(
    state: SetupView,
    config: SetupConfig,
    event: SetupEvent,
    reason: Seq<char>,
)
    ensures
        fails_with(state.stage, event, reason) ==> {
            let (next, action) = state.after(config, event);
            &&& next.stage == SetupStage::Failed
            &&& action matches SetupMove::Fail(message) && reason.is_suffix_of(message)
        },
        state.stage == SetupStage::Connection && exits(event) ==> {
            let (next, action) = state.after(config, event);
            &&& next.stage == SetupStage::Failed
            &&& action matches SetupMove::Fail(message) && text::contains_text(
                message,
                event->Exited_0->Ok_0@,
            )
        },
        state.after(config, event).1 is Fail ==> state.after(config, event).0.stage
            == SetupStage::Failed,
        state.after(config, event).1 == SetupMove::Nothing ==> state.after(config, event).0
            == state,
{
    let (next, action) = state.after(config, event);
    if fails_with(state.stage, event, reason) {
        let message = action->Fail_0;
        let n = message.len() as int;
        assert(message.subrange(n - reason.len(), n) =~= reason);
    }
    if state.stage == SetupStage::Connection && exits(event) {
        let message = action->Fail_0;
        let status = event->Exited_0->Ok_0@;
        let head = "ffmpeg exited before connecting to the output TCP listener (status="@;
        assert(message.subrange(head.len() as int, head.len() + status.len() as int) =~= status);
        assert(text::stands_at(message, status, head.len() as int));
    }
}

/// Reading stops when the pipeline is to stop, which was intended, and when the
/// connection fails, which was not. Before each read it is looked whether the
/// pipeline is to stop.
pub proof fn reading_stops_when_told(event: InstanceEvent, n: usize)
    ensures
        instance_after(InstanceEvent::StopFlag(true)) == InstanceAction::End(true),
        instance_after(InstanceEvent::ReadFailed) == InstanceAction::End(false),
        instance_after(event) == InstanceAction::End(true) ==> event == InstanceEvent::StopFlag(
            true,
        ),
        instance_after(event) == InstanceAction::Read ==> event == InstanceEvent::StopFlag(false),
        instance_after(event) == InstanceAction::Deliver(n) ==> event == InstanceEvent::Read(n),
{
}

/// A supervisor that is told to stop ends: when ffmpeg has ended and that was
/// intended or the pipeline is to stop, and after a pause when the pipeline is to
/// stop. No ffmpeg is started then.
pub proof fn supervisor_ends_when_told(state: SupervisorView, event: SupervisorEvent)
    ensures
        state.stage == SupervisorStage::Running ==> (event matches SupervisorEvent::InstanceEnded(
            intended,
            stop,
        ) ==> (intended || stop <==> state.after(event).1 == SupervisorAction::End) && (intended
            || stop <==> state.after(event).0.stage == SupervisorStage::Ended)),
        state.stage == SupervisorStage::Pausing ==> (event matches SupervisorEvent::Paused(stop)
            ==> (stop <==> state.after(event).1 == SupervisorAction::End) && (stop <==> state.after(
            event,
        ).0.stage == SupervisorStage::Ended)),
{
}

/// An ffmpeg that ends by itself is started again: after a pause, for the
/// display as it is found then where displays are looked up, and it is read from
/// once it is set up. Where the display is not there, or the setup fails, there
/// is another pause, and so on.
pub proof fn ffmpeg_is_started_again(state: SupervisorView, d: DisplayInfo)
    requires
        state.stage == SupervisorStage::Running,
    ensures
        ({
            let (paused, a) = state.after(SupervisorEvent::InstanceEnded(false, false));
            let (looked, b) = paused.after(SupervisorEvent::Paused(false));
            let (ready, c) = looked.after(SupervisorEvent::Resolved(Some(d)));
            let start = if state.resolves {
                ready
            } else {
                looked
            };
            let (running, e) = start.after(SupervisorEvent::SetUp(true));
            let (again, f) = start.after(SupervisorEvent::SetUp(false));
            &&& a == SupervisorAction::Pause
            &&& state.resolves ==> b == SupervisorAction::Resolve && c == SupervisorAction::SetUp
            &&& !state.resolves ==> b == SupervisorAction::SetUp
            &&& e == SupervisorAction::RunInstance && running.stage == SupervisorStage::Running
            &&& f == SupervisorAction::Pause && again.stage == paused.stage
            &&& running.display.name == state.display.name
            &&& state.resolves ==> {
                &&& running.display.width == d.width
                &&& running.display.height == d.height
                &&& running.display.adapter_output_idx == d.adapter_output_idx
                &&& looked.after(SupervisorEvent::Resolved(None)).1 == SupervisorAction::Pause
                &&& looked.after(SupervisorEvent::Resolved(None)).0.stage == paused.stage
            }
            &&& !state.resolves ==> running.display == state.display
        }),
{
}

} // verus!
