use radioband::number::{append_decimal, parse_i32};
use radioband::ui::{
    access_device, AccessStep, AppState, Button, ConnectEvent, DeviceStep, DisconnectEvent,
    DisconnectStep, GainChange, GainLabel, MockEvent, PageUpdate, PlayStep, ReadLog,
    ReadOutcome, ReadReaction, ReadStep, SetupStep, Status, WorkerMessage, READ_PAUSE_MS,
};

/// The page's buttons as they are at the start.
fn first_page() -> Vec<(Button, bool)> {
    vec![
        (Button::Connect, true),
        (Button::Mock, true),
        (Button::Disconnect, false),
        (Button::Play, false),
        (Button::Stop, false),
    ]
}

fn apply(page: &mut Vec<(Button, bool)>, update: &PageUpdate) {
    for change in &update.buttons {
        for entry in page.iter_mut() {
            if entry.0 == change.button {
                entry.1 = change.enabled;
            }
        }
    }
}

fn usable(page: &[(Button, bool)]) -> Vec<Button> {
    page.iter().filter(|entry| entry.1).map(|entry| entry.0).collect()
}

#[test]
fn text_is_read_as_the_standard_library_reads_it() {
    let texts = [
        "0", "7", "007", "-7", "+7", "500", "", "+", "-", "--1", "1 ", " 1", "1.5", "12a", "a",
        "2147483647", "2147483648", "-2147483648", "-2147483649", "99999999999999999999",
        "0000000000000000000005", "\u{0661}", "1_000", "0x10", "+-3",
    ];
    for text in texts {
        assert_eq!(parse_i32(text), text.parse::<i32>().ok(), "{:?}", text);
    }
}

#[test]
fn the_application_starts_idle_at_100_megahertz() {
    let state = AppState::new();
    assert!(!state.running && !state.mock_mode);
    assert_eq!((state.frequency, state.gain), (100_000_000, 0));
    assert_eq!((state.sample_rate, state.fft_size), (2_400_000, 2048));
    assert_eq!(state.mode, "wfm");
}

#[test]
fn connecting_takes_five_steps() {
    let mut state = AppState::new();
    state.mock_mode = true;
    state.set_frequency(93_300_000);
    state.set_gain("120");
    assert!(matches!(state.connect_device(ConnectEvent::Clicked), SetupStep::RequestDevice));
    match state.connect_device(ConnectEvent::Granted) {
        SetupStep::StartDevice { config } => {
            assert_eq!(config.center_freq, 93_300_000);
            assert_eq!(config.sample_rate, 2_400_000);
            assert_eq!(config.gain, 120);
        }
        other => panic!("{:?}", other),
    }
    assert!(matches!(state.connect_device(ConnectEvent::Started), SetupStep::OpenAudio));
    match state.connect_device(ConnectEvent::AudioOpened) {
        SetupStep::Post { message } => {
            assert_eq!(message.kind(), "configure");
            assert!(matches!(
                message,
                WorkerMessage::Configure { sample_rate: 2_400_000, fft_size: 2048, mode }
                    if mode == "wfm"
            ));
        }
        other => panic!("{:?}", other),
    }
    assert!(state.mock_mode);
    match state.connect_device(ConnectEvent::Configured) {
        SetupStep::Finish { update } => {
            assert_eq!(update.status, Status::Connected);
            assert_eq!((update.status.text(), update.status.class()), ("Connected", "status connected"));
            let mut page = first_page();
            apply(&mut page, &update);
            assert_eq!(usable(&page), vec![Button::Disconnect, Button::Play]);
        }
        other => panic!("{:?}", other),
    }
    assert!(!state.mock_mode);
    assert!(matches!(state.connect_device(ConnectEvent::Failed), SetupStep::Abandon));
}

#[test]
fn mock_mode_needs_no_device() {
    let mut state = AppState::new();
    assert!(matches!(state.start_mock_mode(MockEvent::Clicked), SetupStep::OpenAudio));
    assert!(matches!(state.start_mock_mode(MockEvent::AudioOpened), SetupStep::Post { .. }));
    assert!(!state.mock_mode);
    match state.start_mock_mode(MockEvent::Configured) {
        SetupStep::Finish { update } => {
            assert_eq!((update.status.text(), update.status.class()), ("Mock Mode", "status mock"));
        }
        other => panic!("{:?}", other),
    }
    assert!(state.mock_mode);
    assert!(matches!(state.start_mock_mode(MockEvent::Failed), SetupStep::Abandon));
}

#[test]
fn buttons_follow_the_state() {
    let mut state = AppState::new();
    let mut page = first_page();
    if let SetupStep::Finish { update } = state.start_mock_mode(MockEvent::Configured) {
        apply(&mut page, &update);
    }
    state.start_streaming();
    assert!(state.running);
    match state.audio_resumed(true) {
        PlayStep::Stream { update } => {
            assert_eq!((update.status.text(), update.status.class()), ("Streaming", "status streaming"));
            apply(&mut page, &update);
        }
        PlayStep::Abandon => panic!("playing was given up"),
    }
    assert_eq!(usable(&page), vec![Button::Disconnect, Button::Stop]);
    let update = state.stop();
    assert_eq!((update.status.text(), update.status.class()), ("Stopped", "status connected"));
    apply(&mut page, &update);
    assert!(!state.running);
    assert_eq!(usable(&page), vec![Button::Disconnect, Button::Play]);
    state.start_streaming();
    let mut event = DisconnectEvent::Clicked { device_held: false };
    let update = loop {
        match state.disconnect(event) {
            DisconnectStep::TakeAudio => event = DisconnectEvent::AudioTaken { held: false },
            DisconnectStep::Finish { update } => break update,
            other => panic!("{:?}", other),
        }
    };
    assert_eq!(
        (update.status.text(), update.status.class()),
        ("Disconnected", "status disconnected")
    );
    apply(&mut page, &update);
    assert!(!state.running);
    assert_eq!(usable(&page), vec![Button::Connect, Button::Mock]);
    assert!(matches!(state.audio_resumed(false), PlayStep::Abandon));
    let ids: Vec<&str> = page.iter().map(|entry| entry.0.id()).collect();
    assert_eq!(ids, vec!["btn-connect", "btn-mock", "btn-disconnect", "btn-play", "btn-stop"]);
}

#[test]
fn disconnecting_closes_and_suspends_whatever_comes_of_it() {
    for succeeded in [false, true] {
        let mut state = AppState::new();
        state.start_streaming();
        let step = state.disconnect(DisconnectEvent::Clicked { device_held: true });
        assert!(matches!(step, DisconnectStep::CloseDevice));
        assert!(!state.running);
        let step = state.disconnect(DisconnectEvent::DeviceClosed { succeeded });
        assert!(matches!(step, DisconnectStep::TakeAudio));
        let step = state.disconnect(DisconnectEvent::AudioTaken { held: true });
        assert!(matches!(step, DisconnectStep::SuspendAudio));
        let step = state.disconnect(DisconnectEvent::AudioSuspended { succeeded });
        assert!(matches!(step, DisconnectStep::Finish { .. }));
    }
}

#[test]
fn a_new_frequency_is_tuned_before_the_buffer_is_emptied() {
    let mut state = AppState::new();
    let steps = state.set_frequency(93_300_000);
    assert_eq!(state.frequency, 93_300_000);
    assert_eq!(steps, vec![DeviceStep::Tune { freq: 93_300_000 }, DeviceStep::EmptyBuffer]);
}

#[test]
fn the_gain_slider_reaches_state_label_and_device() {
    let mut state = AppState::new();
    let label = GainLabel::TenthsOfDecibel(250);
    assert_eq!(state.set_gain("250"), Some(GainChange { label, device_gain: 250 }));
    assert_eq!(state.gain, 250);
    assert_eq!(state.set_gain("loud"), None);
    assert_eq!(state.gain, 250);
    let auto = GainChange { label: GainLabel::Auto, device_gain: 0 };
    assert_eq!(state.set_gain("0"), Some(auto));
    assert_eq!(state.gain, 0);
}

#[test]
fn gains_are_shown_with_one_decimal() {
    assert_eq!(GainLabel::Auto.text(), "Auto");
    for gain in -2000..=2000 {
        let expected = format!("{:.1} dB", gain as f32 / 10.0);
        if gain != 0 {
            assert_eq!(GainLabel::TenthsOfDecibel(gain).text(), expected);
        }
    }
    assert_eq!(GainLabel::TenthsOfDecibel(i32::MIN).text(), "-214748364.8 dB");
    assert_eq!(GainLabel::TenthsOfDecibel(i32::MAX).text(), "214748364.7 dB");
}

#[test]
fn written_numbers_are_read_back() {
    for n in [0u64, 7, 10, 99, 100, 4096, 2147483647] {
        let mut text = String::new();
        append_decimal(&mut text, n);
        assert_eq!(text, n.to_string());
        assert_eq!(parse_i32(&text), Some(n as i32));
    }
}

#[test]
fn a_new_mode_is_told_to_worker_and_display() {
    let mut state = AppState::new();
    for (mode, passband, label) in
        [("nfm", 16_000, "NFM"), ("am", 10_000, "AM"), ("wfm", 240_000, "WFM"), ("", 240_000, "WFM")]
    {
        let change = state.set_mode(mode);
        assert_eq!(state.mode, mode);
        assert_eq!((change.passband_hz, change.label), (passband, label));
        assert_eq!(change.message.kind(), "set_mode");
        assert!(matches!(change.message, WorkerMessage::SetMode { mode: told } if told == mode));
    }
}

#[test]
fn reading_goes_on_until_it_is_stopped_or_fails() {
    let mut state = AppState::new();
    assert_eq!(state.next_read(), ReadStep::Stop);
    state.start_streaming();
    assert_eq!(state.next_read(), ReadStep::ReadBlock);
    match state.after_read(ReadOutcome::Block { data: vec![1, 2] }) {
        ReadReaction::Forward { message } => {
            assert_eq!(message.kind(), "iq_data");
            assert!(matches!(message, WorkerMessage::IqData { data } if data == [1, 2]));
        }
        other => panic!("{:?}", other),
    }
    // A device that is in use elsewhere does not end reading.
    assert!(matches!(state.after_read(ReadOutcome::Busy), ReadReaction::Skip));
    assert_eq!(state.next_read(), ReadStep::ReadBlock);
    assert!(matches!(state.after_read(ReadOutcome::Failed), ReadReaction::Stop));
    assert!(!state.running);
    assert_eq!(state.next_read(), ReadStep::Stop);
    state.start_streaming();
    state.mock_mode = true;
    assert_eq!(state.next_read(), ReadStep::AskForMock);
    let message = state.mock_request();
    assert_eq!(message.kind(), "mock");
    assert!(matches!(message, WorkerMessage::Mock { num_bytes: 16384 }));
    assert_eq!(READ_PAUSE_MS, 0);
}

#[test]
fn commands_wait_for_the_device_for_a_second() {
    let mut waited = 0;
    let mut retries = 0;
    while let AccessStep::Retry { wait_ms } = access_device(false, waited) {
        waited += wait_ms;
        retries += 1;
    }
    assert_eq!(waited, 1000);
    assert!(retries > 1);
    assert_eq!(access_device(false, waited), AccessStep::GiveUp);
    assert_eq!(access_device(true, waited), AccessStep::Proceed);
    assert_eq!(access_device(true, 0), AccessStep::Proceed);
}

#[test]
fn the_first_three_blocks_and_every_hundredth_are_reported() {
    let mut log = ReadLog::new();
    assert!(log.announces_read());
    let mut reported = Vec::new();
    for _ in 0..350 {
        reported.extend(log.count_block());
        assert!(!log.announces_read());
    }
    assert_eq!(reported, vec![1, 2, 3, 100, 200, 300]);
    assert_eq!(log.frames, 350);
    let mut last = ReadLog { frames: u32::MAX };
    assert_eq!(last.count_block(), Some(0));
}
