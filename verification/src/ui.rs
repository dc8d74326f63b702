//! The user interface: what its controls do, and how samples are read.
//!
//! The caller owns the page, the device and the audio output. It reports what
//! happened and does what is asked for here.

use vstd::prelude::*;

use crate::config::DemodMode;
use crate::number::{
    append_decimal, decimal, distance_from_zero, parse_i32, parsed, sign_of, signed,
};
use crate::receiver::RtlSdrConfig;

verus! {

// ── The page ───────────────────────────────────────────────────────────────

/// The buttons that are enabled and disabled.
#[derive(Clone, Copy, Debug, PartialEq, Eq, Structural)]
pub enum Button {
    Connect,
    Mock,
    Disconnect,
    Play,
    Stop,
}

impl Button {
    /// The element of the button.
    pub open spec fn spec_id(self) -> Seq<char> {
        match self {
            Button::Connect => "btn-connect"@,
            Button::Mock => "btn-mock"@,
            Button::Disconnect => "btn-disconnect"@,
            Button::Play => "btn-play"@,
            Button::Stop => "btn-stop"@,
        }
    }

    /// The element of the button.
    pub fn id(&self) -> (res: &'static str)
        ensures
            res@ == self.spec_id(),
    {
        match self {
            Button::Connect => "btn-connect",
            Button::Mock => "btn-mock",
            Button::Disconnect => "btn-disconnect",
            Button::Play => "btn-play",
            Button::Stop => "btn-stop",
        }
    }
}

/// What the status line says.
#[derive(Clone, Copy, Debug, PartialEq, Eq, Structural)]
pub enum Status {
    Disconnected,
    Connected,
    MockMode,
    Streaming,
    Stopped,
}

impl Status {
    /// The text of the status line.
    pub open spec fn spec_text(self) -> Seq<char> {
        match self {
            Status::Disconnected => "Disconnected"@,
            Status::Connected => "Connected"@,
            Status::MockMode => "Mock Mode"@,
            Status::Streaming => "Streaming"@,
            Status::Stopped => "Stopped"@,
        }
    }

    /// The style classes of the status line.
    pub open spec fn spec_class(self) -> Seq<char> {
        match self {
            Status::Disconnected => "status disconnected"@,
            Status::Connected => "status connected"@,
            Status::MockMode => "status mock"@,
            Status::Streaming => "status streaming"@,
            Status::Stopped => "status connected"@,
        }
    }

    /// The text of the status line.
    pub fn text(&self) -> (res: &'static str)
        ensures
            res@ == self.spec_text(),
    {
        match self {
            Status::Disconnected => "Disconnected",
            Status::Connected => "Connected",
            Status::MockMode => "Mock Mode",
            Status::Streaming => "Streaming",
            Status::Stopped => "Stopped",
        }
    }

    /// The style classes of the status line.
    pub fn class(&self) -> (res: &'static str)
        ensures
            res@ == self.spec_class(),
    {
        match self {
            Status::Disconnected => "status disconnected",
            Status::Connected => "status connected",
            Status::MockMode => "status mock",
            Status::Streaming => "status streaming",
            Status::Stopped => "status connected",
        }
    }
}

/// A button and whether it can be pressed from now on.
#[derive(Clone, Copy, Debug, PartialEq, Eq, Structural)]
pub struct ButtonChange {
    pub button: Button,
    pub enabled: bool,
}

/// A change of the page.
#[derive(Debug)]
pub struct PageUpdate {
    pub buttons: Vec<ButtonChange>,
    pub status: Status,
}

/// The button can be pressed.
pub open spec fn on(button: Button) -> ButtonChange {
    ButtonChange { button, enabled: true }
}

/// The button cannot be pressed.
pub open spec fn off(button: Button) -> ButtonChange {
    ButtonChange { button, enabled: false }
}

fn enable(button: Button) -> (res: ButtonChange)
    ensures
        res == on(button),
{
    ButtonChange { button, enabled: true }
}

fn disable(button: Button) -> (res: ButtonChange)
    ensures
        res == off(button),
{
    ButtonChange { button, enabled: false }
}

/// The buttons once there is a source of samples.
pub open spec fn source_buttons() -> Seq<ButtonChange> {
    seq![off(Button::Connect), off(Button::Mock), on(Button::Disconnect), on(Button::Play)]
}

/// The buttons once there is no source of samples.
pub open spec fn idle_buttons() -> Seq<ButtonChange> {
    seq![
        on(Button::Connect),
        on(Button::Mock),
        off(Button::Disconnect),
        off(Button::Play),
        off(Button::Stop),
    ]
}

/// The buttons while samples are read.
pub open spec fn streaming_buttons() -> Seq<ButtonChange> {
    seq![off(Button::Play), on(Button::Stop)]
}

/// The buttons once reading was stopped.
pub open spec fn stopped_buttons() -> Seq<ButtonChange> {
    seq![on(Button::Play), off(Button::Stop)]
}

/// The buttons that can be pressed after `changes`, of a page on which those in
/// `usable` can.
pub open spec fn usable_after(usable: Set<Button>, changes: Seq<ButtonChange>) -> Set<Button>
    decreases changes.len(),
{
    if changes.len() == 0 {
        usable
    } else {
        let before: Set<Button> = usable_after(usable, changes.drop_last());
        if changes.last().enabled {
            before.insert(changes.last().button)
        } else {
            before.remove(changes.last().button)
        }
    }
}

/// The buttons that can be pressed while there is no source of samples.
pub open spec fn idle_page() -> Set<Button> {
    set![Button::Connect, Button::Mock]
}

/// The buttons that can be pressed while there is a source that is not read.
pub open spec fn ready_page() -> Set<Button> {
    set![Button::Disconnect, Button::Play]
}

/// The buttons that can be pressed while a source is read.
pub open spec fn streaming_page() -> Set<Button> {
    set![Button::Disconnect, Button::Stop]
}

/// Whatever page it is pressed on, the disconnect button leads back to the page
/// without a source.
pub proof fn disconnecting_leads_to_idle_page(usable: Set<Button>)
    ensures
        usable_after(usable, idle_buttons()) == idle_page(),
{
    reveal_with_fuel(usable_after, 6);
    let changes: Seq<ButtonChange> = idle_buttons();
    assert(changes.drop_last().drop_last().drop_last().drop_last().drop_last().len() == 0);
    assert(usable_after(usable, changes) =~= idle_page());
}

/// A source that is set up on the page without one can be read or given up.
pub proof fn setting_up_leads_to_ready_page()
    ensures
        usable_after(idle_page(), source_buttons()) == ready_page(),
{
    reveal_with_fuel(usable_after, 5);
    let changes: Seq<ButtonChange> = source_buttons();
    assert(changes.drop_last().drop_last().drop_last().drop_last().len() == 0);
    assert(usable_after(idle_page(), changes) =~= ready_page());
}

/// The stop button takes back what the play button did to the page.
pub proof fn stopping_takes_playing_back()
    ensures
        usable_after(ready_page(), streaming_buttons()) == streaming_page(),
        usable_after(streaming_page(), stopped_buttons()) == ready_page(),
{
    reveal_with_fuel(usable_after, 3);
    assert(streaming_buttons().drop_last().drop_last().len() == 0);
    assert(stopped_buttons().drop_last().drop_last().len() == 0);
    assert(usable_after(ready_page(), streaming_buttons()) =~= streaming_page());
    assert(usable_after(streaming_page(), stopped_buttons()) =~= ready_page());
}

fn source_update(status: Status) -> (res: PageUpdate)
    ensures
        res.buttons@ == source_buttons(),
        res.status == status,
{
    PageUpdate {
        buttons: vec![
            disable(Button::Connect),
            disable(Button::Mock),
            enable(Button::Disconnect),
            enable(Button::Play),
        ],
        status,
    }
}

fn idle_update() -> (res: PageUpdate)
    ensures
        res.buttons@ == idle_buttons(),
        res.status == Status::Disconnected,
{
    PageUpdate {
        buttons: vec![
            enable(Button::Connect),
            enable(Button::Mock),
            disable(Button::Disconnect),
            disable(Button::Play),
            disable(Button::Stop),
        ],
        status: Status::Disconnected,
    }
}

// ── Messages ───────────────────────────────────────────────────────────────

/// How many bytes of made-up samples one message asks for.
pub const MOCK_BYTES: u32 = 16384;

/// A message to the worker.
#[derive(Debug)]
pub enum WorkerMessage {
    Configure { sample_rate: u32, fft_size: u32, mode: String },
    SetMode { mode: String },
    Mock { num_bytes: u32 },
    IqData { data: Vec<u8> },
}

impl WorkerMessage {
    /// The type that the worker tells messages apart by.
    pub open spec fn spec_kind(self) -> Seq<char> {
        match self {
            WorkerMessage::Configure { .. } => "configure"@,
            WorkerMessage::SetMode { .. } => "set_mode"@,
            WorkerMessage::Mock { .. } => "mock"@,
            WorkerMessage::IqData { .. } => "iq_data"@,
        }
    }

    /// The type that the worker tells messages apart by.
    pub fn kind(&self) -> (res: &'static str)
        ensures
            res@ == self.spec_kind(),
    {
        match self {
            WorkerMessage::Configure { .. } => "configure",
            WorkerMessage::SetMode { .. } => "set_mode",
            WorkerMessage::Mock { .. } => "mock",
            WorkerMessage::IqData { .. } => "iq_data",
        }
    }
}

// ── Events and what follows from them ──────────────────────────────────────

/// Progress of connecting a device.
#[derive(Clone, Copy, Debug, PartialEq, Eq, Structural)]
pub enum ConnectEvent {
    Clicked,
    /// The user granted a device.
    Granted,
    /// The device was started.
    Started,
    /// The audio output was opened.
    AudioOpened,
    /// The worker got its message.
    Configured,
    Failed,
}

/// Progress of setting up mock mode.
#[derive(Clone, Copy, Debug, PartialEq, Eq, Structural)]
pub enum MockEvent {
    Clicked,
    /// The audio output was opened.
    AudioOpened,
    /// The worker got its message.
    Configured,
    Failed,
}

/// What to do next when a source of samples is set up.
#[derive(Debug)]
pub enum SetupStep {
    /// Ask the user for a device.
    RequestDevice,
    /// Start the granted device.
    StartDevice { config: RtlSdrConfig },
    /// Open the audio output.
    OpenAudio,
    /// Send a message to the worker.
    Post { message: WorkerMessage },
    /// Keep device and audio output, and update the page.
    Finish { update: PageUpdate },
    /// Show the error.
    Abandon,
}

/// What follows from the attempt to resume the audio output.
#[derive(Debug)]
pub enum PlayStep {
    /// Read samples, and update the page.
    Stream { update: PageUpdate },
    /// Show the error.
    Abandon,
}

/// What follows from an attempt to reach the device.
#[derive(Clone, Copy, Debug, PartialEq, Eq, Structural)]
pub enum AccessStep {
    /// Carry out the command.
    Proceed,
    /// The device is in use elsewhere: wait and try again.
    Retry { wait_ms: u32 },
    /// Leave the device as it is.
    GiveUp,
}

/// Progress of giving the source of samples up.
#[derive(Clone, Copy, Debug, PartialEq, Eq, Structural)]
pub enum DisconnectEvent {
    /// The button was pressed, while a device was held or not.
    Clicked { device_held: bool },
    /// The attempt to close the device came to an end.
    DeviceClosed { succeeded: bool },
    /// The audio output was taken, if there was one.
    AudioTaken { held: bool },
    /// The attempt to suspend the audio output came to an end.
    AudioSuspended { succeeded: bool },
}

/// What to do next when the source of samples is given up.
#[derive(Debug)]
pub enum DisconnectStep {
    /// Take the device, so that none is held any more, and close it.
    CloseDevice,
    /// Take the audio output, so that none is held any more.
    TakeAudio,
    /// Suspend the audio output that was taken.
    SuspendAudio,
    /// Update the page.
    Finish { update: PageUpdate },
}

/// What is sent to the device; whether it succeeds does not matter.
#[derive(Clone, Copy, Debug, PartialEq, Eq, Structural)]
pub enum DeviceStep {
    /// Tune to a frequency (Hz).
    Tune { freq: u32 },
    /// Empty the sample buffer.
    EmptyBuffer,
}

/// How the gain is shown.
#[derive(Clone, Copy, Debug, PartialEq, Eq, Structural)]
pub enum GainLabel {
    Auto,
    /// A gain in tenths of a decibel.
    TenthsOfDecibel(i32),
}

impl GainLabel {
    /// The text of the label: the gain in decibels with one decimal.
    pub open spec fn spec_text(self) -> Seq<char> {
        match self {
            GainLabel::Auto => "Auto"@,
            GainLabel::TenthsOfDecibel(v) => {
                let magnitude: nat = distance_from_zero(v as int);
                sign_of(v as int) + decimal(magnitude / 10) + "."@ + decimal(magnitude % 10)
                    + " dB"@
            },
        }
    }

    /// The text of the label.
    pub fn text(&self) -> (res: String)
        ensures
            res@ == self.spec_text(),
    {
        match *self {
            GainLabel::Auto => "Auto".to_owned(),
            GainLabel::TenthsOfDecibel(v) => {
                let (text, magnitude): (String, u64) = signed(v as i64);
                let mut text: String = text;
                append_decimal(&mut text, magnitude / 10);
                text.append(".");
                append_decimal(&mut text, magnitude % 10);
                text.append(" dB");
                text
            },
        }
    }
}

/// The label of a gain shows it in decibels with one decimal: the digits around
/// the point are those of the gain in tenths.
pub proof fn gain_labels_show_decibels(gain: i32) -> (parts: (nat, nat))
    ensures
        GainLabel::TenthsOfDecibel(gain).spec_text() == sign_of(gain as int) + decimal(parts.0)
            + "."@ + decimal(parts.1) + " dB"@,
        parts.1 < 10,
        gain >= 0 ==> 10 * parts.0 + parts.1 == gain,
        gain < 0 ==> 10 * parts.0 + parts.1 == -gain,
{
    let magnitude = distance_from_zero(gain as int);
    (magnitude / 10, magnitude % 10)
}

/// What follows from a change of the gain.
#[derive(Clone, Copy, Debug, PartialEq, Eq, Structural)]
pub struct GainChange {
    pub label: GainLabel,
    /// The gain that the device is sent, in tenths of a decibel.
    pub device_gain: i32,
}

/// What follows from a change of the mode.
#[derive(Debug)]
pub struct ModeChange {
    pub message: WorkerMessage,
    /// Width of the mode's passband (Hz).
    pub passband_hz: u32,
    /// Short name of the mode.
    pub label: &'static str,
}

/// What the read loop does next.
#[derive(Clone, Copy, Debug, PartialEq, Eq, Structural)]
pub enum ReadStep {
    /// End the loop.
    Stop,
    /// Ask the worker for made-up samples.
    AskForMock,
    /// Read a block from the device.
    ReadBlock,
}

/// What came of reading a block.
#[derive(Debug)]
pub enum ReadOutcome {
    Block { data: Vec<u8> },
    /// The device is in use elsewhere.
    Busy,
    Failed,
}

/// What follows from reading a block.
#[derive(Debug)]
pub enum ReadReaction {
    /// Send the samples to the worker and go on.
    Forward { message: WorkerMessage },
    /// Go on.
    Skip,
    /// End the loop.
    Stop,
}

/// How many blocks the read loop has read, and what it tells of that.
#[derive(Clone, Copy, Debug, PartialEq, Eq, Structural)]
pub struct ReadLog {
    pub frames: u32,
}

impl ReadLog {
    /// Whether block number `frames` is reported: the first three are, and every
    /// hundredth.
    pub open spec fn is_reported(frames: u32) -> bool {
        frames <= 3 || frames % 100 == 0
    }

    /// The count when the loop begins.
    pub fn new() -> (res: ReadLog)
        ensures
            res.frames == 0,
    {
        ReadLog { frames: 0 }
    }

    /// Whether an attempt to read is announced: until a block was read.
    pub fn announces_read(&self) -> (res: bool)
        ensures
            res == (self.frames == 0),
    {
        self.frames == 0
    }

    /// Counts a block, and gives its number where it is reported. The count
    /// starts over once it no longer fits.
    pub fn count_block(&mut self) -> (res: Option<u32>)
        ensures
            final(self).frames == (if old(self).frames == u32::MAX {
                0
            } else {
                old(self).frames + 1
            }),
            res == (if Self::is_reported(final(self).frames) {
                Some(final(self).frames)
            } else {
                None
            }),
    {
        self.frames = if self.frames == u32::MAX {
            0
        } else {
            self.frames + 1
        };
        if self.frames <= 3 || self.frames % 100 == 0 {
            Some(self.frames)
        } else {
            None
        }
    }
}

/// How long a command waits for the device in all (milliseconds).
pub const ACCESS_LIMIT_MS: u32 = 1000;

/// How long a command waits between two attempts (milliseconds).
pub const ACCESS_WAIT_MS: u32 = 10;

/// How long the read loop sleeps between two rounds (milliseconds): it only
/// lets others run.
pub const READ_PAUSE_MS: u32 = 0;

/// The state of the user interface.
#[derive(Debug)]
pub struct AppState {
    /// Whether samples are read.
    pub running: bool,
    /// Whether the samples are made up.
    pub mock_mode: bool,
    /// Centre frequency (Hz).
    pub frequency: u32,
    /// Gain in tenths of a decibel; zero for automatic gain.
    pub gain: i32,
    /// Value of the mode selector.
    pub mode: String,
    /// Sample rate (Hz).
    pub sample_rate: u32,
    /// Size of the spectrum.
    pub fft_size: u32,
}

impl AppState {
    /// The state at the start.
    pub fn new() -> (res: AppState)
        ensures
            !res.running,
            !res.mock_mode,
            res.frequency == 100_000_000,
            res.gain == 0,
            res.mode@ == "wfm"@,
            res.sample_rate == 2_400_000,
            res.fft_size == 2048,
    {
        AppState {
            running: false,
            mock_mode: false,
            frequency: 100_000_000,
            gain: 0,
            mode: "wfm".to_owned(),
            sample_rate: 2_400_000,
            fft_size: 2048,
        }
    }

    /// Whether `message` configures the worker for the state's settings.
    pub open spec fn is_configuration(self, message: WorkerMessage) -> bool {
        message matches WorkerMessage::Configure { sample_rate, fft_size, mode } && sample_rate
            == self.sample_rate && fft_size == self.fft_size && mode@ == self.mode@
    }

    fn configuration(&self) -> (res: WorkerMessage)
        ensures
            self.is_configuration(res),
    {
        WorkerMessage::Configure {
            sample_rate: self.sample_rate,
            fft_size: self.fft_size,
            mode: self.mode.clone(),
        }
    }

    /// Connects a device: the user grants it, it is started with the settings
    /// of that moment, the audio output is opened, the worker is configured,
    /// and the page shows the connection. The first step that fails ends it.
    pub fn connect_device(&mut self, event: ConnectEvent) -> (res: SetupStep)
        ensures
            match event {
                ConnectEvent::Clicked => res is RequestDevice,
                ConnectEvent::Granted => res == (SetupStep::StartDevice {
                    config: RtlSdrConfig {
                        center_freq: old(self).frequency,
                        sample_rate: old(self).sample_rate,
                        gain: old(self).gain,
                    },
                }),
                ConnectEvent::Started => res is OpenAudio,
                ConnectEvent::AudioOpened => res matches SetupStep::Post { message } && old(
                    self,
                ).is_configuration(message),
                ConnectEvent::Configured => res matches SetupStep::Finish { update }
                    && update.buttons@ == source_buttons() && update.status == Status::Connected,
                ConnectEvent::Failed => res is Abandon,
            },
            *final(self) == (if event == ConnectEvent::Configured {
                AppState { mock_mode: false, ..*old(self) }
            } else {
                *old(self)
            }),
    {
        match event {
            ConnectEvent::Clicked => SetupStep::RequestDevice,
            ConnectEvent::Granted => SetupStep::StartDevice {
                config: RtlSdrConfig {
                    center_freq: self.frequency,
                    sample_rate: self.sample_rate,
                    gain: self.gain,
                },
            },
            ConnectEvent::Started => SetupStep::OpenAudio,
            ConnectEvent::AudioOpened => SetupStep::Post { message: self.configuration() },
            ConnectEvent::Configured => {
                self.mock_mode = false;
                SetupStep::Finish { update: source_update(Status::Connected) }
            },
            ConnectEvent::Failed => SetupStep::Abandon,
        }
    }

    /// Sets up mock mode: the audio output is opened, the worker is configured,
    /// and the page shows the mode. The first step that fails ends it.
    pub fn start_mock_mode(&mut self, event: MockEvent) -> (res: SetupStep)
        ensures
            match event {
                MockEvent::Clicked => res is OpenAudio,
                MockEvent::AudioOpened => res matches SetupStep::Post { message } && old(
                    self,
                ).is_configuration(message),
                MockEvent::Configured => res matches SetupStep::Finish { update } && update.buttons@
                    == source_buttons() && update.status == Status::MockMode,
                MockEvent::Failed => res is Abandon,
            },
            *final(self) == (if event == MockEvent::Configured {
                AppState { mock_mode: true, ..*old(self) }
            } else {
                *old(self)
            }),
    {
        match event {
            MockEvent::Clicked => SetupStep::OpenAudio,
            MockEvent::AudioOpened => SetupStep::Post { message: self.configuration() },
            MockEvent::Configured => {
                self.mock_mode = true;
                SetupStep::Finish { update: source_update(Status::MockMode) }
            },
            MockEvent::Failed => SetupStep::Abandon,
        }
    }

    /// Gives the source of samples up: reading ends, a device that is held is
    /// closed and an audio output that is held is suspended, whatever comes of
    /// either, and the page shows that there is no source.
    pub fn disconnect(&mut self, event: DisconnectEvent) -> (res: DisconnectStep)
        ensures
            match event {
                DisconnectEvent::Clicked { device_held: true } => res is CloseDevice,
                DisconnectEvent::Clicked { device_held: false } => res is TakeAudio,
                DisconnectEvent::DeviceClosed { .. } => res is TakeAudio,
                DisconnectEvent::AudioTaken { held: true } => res is SuspendAudio,
                _ => res matches DisconnectStep::Finish { update } && update.buttons@
                    == idle_buttons() && update.status == Status::Disconnected,
            },
            *final(self) == (if event is Clicked {
                AppState { running: false, ..*old(self) }
            } else {
                *old(self)
            }),
    {
        match event {
            DisconnectEvent::Clicked { device_held } => {
                self.running = false;
                if device_held {
                    DisconnectStep::CloseDevice
                } else {
                    DisconnectStep::TakeAudio
                }
            },
            DisconnectEvent::DeviceClosed { .. } => DisconnectStep::TakeAudio,
            DisconnectEvent::AudioTaken { held } => {
                if held {
                    DisconnectStep::SuspendAudio
                } else {
                    DisconnectStep::Finish { update: idle_update() }
                }
            },
            DisconnectEvent::AudioSuspended { .. } => DisconnectStep::Finish {
                update: idle_update(),
            },
        }
    }

    /// Begins reading; the audio output is to be resumed next.
    pub fn start_streaming(&mut self)
        ensures
            *final(self) == (AppState { running: true, ..*old(self) }),
    {
        self.running = true;
    }

    /// Judges the attempt to resume the audio output.
    pub fn audio_resumed(&self, resumed: bool) -> (res: PlayStep)
        ensures
            if resumed {
                res matches PlayStep::Stream { update } && update.buttons@ == streaming_buttons()
                    && update.status == Status::Streaming
            } else {
                res is Abandon
            },
    {
        if resumed {
            PlayStep::Stream {
                update: PageUpdate {
                    buttons: vec![disable(Button::Play), enable(Button::Stop)],
                    status: Status::Streaming,
                },
            }
        } else {
            PlayStep::Abandon
        }
    }

    /// Ends reading on the user's request.
    pub fn stop(&mut self) -> (res: PageUpdate)
        ensures
            *final(self) == (AppState { running: false, ..*old(self) }),
            res.buttons@ == stopped_buttons(),
            res.status == Status::Stopped,
    {
        self.running = false;
        PageUpdate {
            buttons: vec![enable(Button::Play), disable(Button::Stop)],
            status: Status::Stopped,
        }
    }

    /// Takes a new frequency. The device is tuned to it, and then its buffer is
    /// emptied of what came before.
    pub fn set_frequency(&mut self, freq: u32) -> (res: Vec<DeviceStep>)
        ensures
            *final(self) == (AppState { frequency: freq, ..*old(self) }),
            res@ == seq![DeviceStep::Tune { freq }, DeviceStep::EmptyBuffer],
    {
        self.frequency = freq;
        vec![DeviceStep::Tune { freq }, DeviceStep::EmptyBuffer]
    }

    /// Takes the text of the gain slider. A whole number becomes the gain, which
    /// is shown and sent to the device; any other text changes nothing.
    pub fn set_gain(&mut self, text: &str) -> (res: Option<GainChange>)
        ensures
            match parsed(text@) {
                Some(gain) => {
                    &&& *final(self) == (AppState { gain, ..*old(self) })
                    &&& res == Some(
                        GainChange {
                            label: if gain == 0 {
                                GainLabel::Auto
                            } else {
                                GainLabel::TenthsOfDecibel(gain)
                            },
                            device_gain: gain,
                        },
                    )
                },
                None => res is None && *final(self) == *old(self),
            },
    {
        match parse_i32(text) {
            None => None,
            Some(gain) => {
                self.gain = gain;
                let label: GainLabel = if gain == 0 {
                    GainLabel::Auto
                } else {
                    GainLabel::TenthsOfDecibel(gain)
                };
                Some(GainChange { label, device_gain: gain })
            },
        }
    }

    /// Takes the value of the mode selector.
    pub fn set_mode(&mut self, mode: &str) -> (res: ModeChange)
        ensures
            final(self).mode@ == mode@,
            *final(self) == (AppState { mode: final(self).mode, ..*old(self) }),
            res.message matches WorkerMessage::SetMode { mode: told } && told@ == mode@,
            res.passband_hz == DemodMode::named(mode@).spec_passband(),
            res.label@ == DemodMode::named(mode@).spec_label(),
    {
        self.mode = mode.to_owned();
        let demod: DemodMode = DemodMode::from_name(mode);
        ModeChange {
            message: WorkerMessage::SetMode { mode: mode.to_owned() },
            passband_hz: demod.passband(),
            label: demod.label(),
        }
    }

    /// What the read loop does next: it ends once reading has ended, and reads
    /// from the source that was set up.
    pub fn next_read(&self) -> (res: ReadStep)
        ensures
            res == (if !self.running {
                ReadStep::Stop
            } else if self.mock_mode {
                ReadStep::AskForMock
            } else {
                ReadStep::ReadBlock
            }),
    {
        if !self.running {
            ReadStep::Stop
        } else if self.mock_mode {
            ReadStep::AskForMock
        } else {
            ReadStep::ReadBlock
        }
    }

    /// The message that asks the worker for made-up samples.
    pub fn mock_request(&self) -> (res: WorkerMessage)
        ensures
            res == (WorkerMessage::Mock { num_bytes: MOCK_BYTES }),
            res matches WorkerMessage::Mock { num_bytes } && num_bytes == 16_384,
    {
        WorkerMessage::Mock { num_bytes: MOCK_BYTES }
    }

    /// What follows from reading a block: samples go to the worker, a device
    /// that is in use elsewhere is tried again, and a failure ends reading.
    pub fn after_read(&mut self, outcome: ReadOutcome) -> (res: ReadReaction)
        ensures
            match outcome {
                ReadOutcome::Block { data } => res == (ReadReaction::Forward {
                    message: WorkerMessage::IqData { data },
                }) && *final(self) == *old(self),
                ReadOutcome::Busy => res is Skip && *final(self) == *old(self),
                ReadOutcome::Failed => res is Stop && *final(self) == (AppState {
                    running: false,
                    ..*old(self)
                }),
            },
    {
        match outcome {
            ReadOutcome::Block { data } => ReadReaction::Forward {
                message: WorkerMessage::IqData { data },
            },
            ReadOutcome::Busy => ReadReaction::Skip,
            ReadOutcome::Failed => {
                self.running = false;
                ReadReaction::Stop
            },
        }
    }
}

/// What a command does that needs the device.
pub open spec fn access_step(at_hand: bool, waited_ms: int) -> AccessStep {
    if at_hand {
        AccessStep::Proceed
    } else if waited_ms < ACCESS_LIMIT_MS {
        AccessStep::Retry { wait_ms: ACCESS_WAIT_MS }
    } else {
        AccessStep::GiveUp
    }
}

/// What a command does that needs the device: it carries on where the device is
/// at hand, and else tries again until it has waited for a second.
pub fn access_device(at_hand: bool, waited_ms: u32) -> (res: AccessStep)
    ensures
        res == access_step(at_hand, waited_ms as int),
{
    if at_hand {
        AccessStep::Proceed
    } else if waited_ms < ACCESS_LIMIT_MS {
        AccessStep::Retry { wait_ms: ACCESS_WAIT_MS }
    } else {
        AccessStep::GiveUp
    }
}

/// A command for a device that stays out of reach is given up once its waits
/// add up to exactly one second, and no sooner.
pub proof fn commands_wait_for_a_second(retries: nat)
    ensures
        access_step(false, retries * ACCESS_WAIT_MS) is GiveUp <==> retries * ACCESS_WAIT_MS
            >= 1000,
        access_step(false, retries * ACCESS_WAIT_MS) is Retry ==> (retries + 1) * ACCESS_WAIT_MS
            <= 1000,
        access_step(false, 10 * retries as int) is GiveUp <==> retries >= 100,
        access_step(false, 10 * retries as int) matches AccessStep::Retry { wait_ms } ==> wait_ms
            == 10,
        access_step(true, 10 * retries as int) is Proceed,
{
}

} // verus!
