use fugue::recorder_config::{
    live_endpoint_setting, normalize_upload_endpoint, parse_setting_u64, parse_user_id,
    required_setting,
};
use fugue::recorder_state::RecorderState;
use fugue::smf_track::{events_to_track, TrackItem};
use fugue::live_stream::{LiveStream, StreamStep};
use fugue::take::{midi_file_name, session_name, upload_title, TakeTracker};
use std::time::{Duration, Instant};

fn pause() {
    let start = Instant::now();
    while start.elapsed() < Duration::from_millis(5) {}
}

#[test]
fn held_key_keeps_the_session_busy() {
    let mut state = RecorderState::new();
    state.handle_midi(&[0x90, 60, 100]);
    assert!(!state.is_idle(Duration::ZERO));
    state.handle_midi(&[0x80, 60, 0]);
    pause();
    assert!(state.is_idle(Duration::ZERO));
}

#[test]
fn note_on_with_zero_velocity_releases() {
    let mut state = RecorderState::new();
    state.handle_midi(&[0x91, 64, 90]);
    state.handle_midi(&[0x91, 64, 0]);
    pause();
    assert!(state.is_idle(Duration::ZERO));
}

#[test]
fn sustain_pedal_keeps_the_session_busy() {
    let mut state = RecorderState::new();
    state.handle_midi(&[0xB0, 64, 127]);
    assert!(!state.is_idle(Duration::ZERO));
    state.handle_midi(&[0xB0, 64, 63]);
    pause();
    assert!(state.is_idle(Duration::ZERO));
}

#[test]
fn other_messages_and_short_messages_are_ignored() {
    let mut state = RecorderState::new();
    state.handle_midi(&[0xB0, 7, 127]);
    state.handle_midi(&[0xC0, 5]);
    state.handle_midi(&[0xF8]);
    pause();
    assert!(state.is_idle(Duration::ZERO));
    // a one-byte note-on has velocity 0: a release of key 0
    state.handle_midi(&[0x90]);
    pause();
    assert!(state.is_idle(Duration::ZERO));
}

#[test]
fn idle_needs_the_timeout_to_pass() {
    let state = RecorderState::new();
    assert!(!state.is_idle(Duration::from_secs(3600)));
}

#[test]
fn reset_clears_keys_and_pedal() {
    let mut state = RecorderState::new();
    state.handle_midi(&[0x90, 60, 100]);
    state.handle_midi(&[0xB0, 64, 127]);
    state.reset();
    pause();
    assert!(state.is_idle(Duration::ZERO));
}

#[test]
fn upload_endpoint_is_normalized() {
    assert_eq!(normalize_upload_endpoint("http://h:3000/sessions/".to_string()), "http://h:3000/sessions/add");
    assert_eq!(normalize_upload_endpoint("http://h:3000/sessions".to_string()), "http://h:3000/sessions/add");
    assert_eq!(normalize_upload_endpoint("http://h:3000/sessions/add//".to_string()), "http://h:3000/sessions/add");
    assert_eq!(normalize_upload_endpoint("http://h/api".to_string()), "http://h/api");
    let once = normalize_upload_endpoint("http://h/sessions///".to_string());
    assert_eq!(normalize_upload_endpoint(once.clone()), once);
}

#[test]
fn user_id_must_be_a_uuid() {
    let id = "9e20b80e-5143-4f77-ad9d-3637ca4c3eba".to_string();
    assert_eq!(parse_user_id(id.clone()).unwrap(), id);
    assert_eq!(parse_user_id("9E20B80E-5143-4F77-AD9D-3637CA4C3EBA".to_string()).unwrap(), "9E20B80E-5143-4F77-AD9D-3637CA4C3EBA");
    let msg = "RECORDER_USER_ID must be a valid user UUID from the backend";
    assert_eq!(parse_user_id("9e20b80e51434f77ad9d3637ca4c3eba".to_string()).unwrap_err(), msg);
    assert_eq!(parse_user_id("9e20b80e-5143-4f77-ad9d-3637ca4c3ebg".to_string()).unwrap_err(), msg);
    assert_eq!(parse_user_id("9e20b80e-5143-4f77-ad9d_3637ca4c3eba".to_string()).unwrap_err(), msg);
    assert_eq!(parse_user_id(String::new()).unwrap_err(), msg);
}

#[test]
fn live_endpoint_settings() {
    let default = Some("ws://localhost:3000/sessions/live/record".to_string());
    assert_eq!(live_endpoint_setting(None), default);
    assert_eq!(live_endpoint_setting(Some("off".to_string())), None);
    assert_eq!(live_endpoint_setting(Some("OfF".to_string())), None);
    assert_eq!(live_endpoint_setting(Some("   ".to_string())), default);
    assert_eq!(live_endpoint_setting(Some("ws://x/live".to_string())), Some("ws://x/live".to_string()));
}

#[test]
fn required_settings() {
    assert_eq!(required_setting("API_KEY", Some("k".to_string())).unwrap(), "k");
    assert_eq!(required_setting("API_KEY", Some(" \t".to_string())).unwrap_err(), "API_KEY must be set in recorder/.env");
    assert_eq!(required_setting("API_KEY", None).unwrap_err(), "API_KEY must be set in recorder/.env");
}

#[test]
fn numeric_settings() {
    assert_eq!(parse_setting_u64(None, 5).unwrap(), 5);
    assert_eq!(parse_setting_u64(Some("12".to_string()), 5).unwrap(), 12);
    assert_eq!(parse_setting_u64(Some("+7".to_string()), 5).unwrap(), 7);
    assert_eq!(parse_setting_u64(Some(String::new()), 5).unwrap_err(), "".parse::<u64>().unwrap_err().to_string());
    assert_eq!(parse_setting_u64(Some("1x".to_string()), 5).unwrap_err(), "1x".parse::<u64>().unwrap_err().to_string());
    assert_eq!(parse_setting_u64(Some("-1".to_string()), 5).unwrap_err(), "-1".parse::<u64>().unwrap_err().to_string());
    assert_eq!(parse_setting_u64(Some("18446744073709551616".to_string()), 5).unwrap_err(), "18446744073709551616".parse::<u64>().unwrap_err().to_string());
    assert_eq!(parse_setting_u64(Some("18446744073709551615".to_string()), 5).unwrap(), u64::MAX);
    assert_eq!(parse_setting_u64(Some(" 3".to_string()), 5).unwrap_err(), " 3".parse::<u64>().unwrap_err().to_string());
}

#[test]
fn empty_take_has_no_track() {
    assert_eq!(events_to_track(&Vec::new()).unwrap_err(), "No events to write");
}

#[test]
fn track_orders_events_and_adds_tempo_and_end() {
    let events = vec![
        (960u32, vec![0x80, 60, 0]),
        (0u32, vec![0x90, 60, 100]),
        (480u32, vec![0xB1, 64, 127]),
        (480u32, vec![0x91, 62, 0]),
        (100u32, vec![0xB0, 7, 100]),
        (100u32, vec![0xF8]),
        (720u32, vec![0xA0, 60, 10]),
    ];
    let track = events_to_track(&events).unwrap();
    assert_eq!(
        track,
        vec![
            (0, TrackItem::Tempo(500_000)),
            (0, TrackItem::NoteOn { channel: 0, key: 60, velocity: 100 }),
            (480, TrackItem::Controller { channel: 1, controller: 64, value: 127 }),
            (0, TrackItem::NoteOff { channel: 1, key: 62, velocity: 0 }),
            (480, TrackItem::NoteOff { channel: 0, key: 60, velocity: 0 }),
            (0, TrackItem::EndOfTrack),
        ]
    );
}

#[test]
fn track_of_ignored_messages_has_tempo_and_end_only() {
    let events = vec![(5u32, vec![0xC0, 1, 2])];
    assert_eq!(events_to_track(&events).unwrap(), vec![(0, TrackItem::Tempo(500_000)), (0, TrackItem::EndOfTrack)]);
}

#[test]
fn idle_given_the_timeout() {
    let mut state = RecorderState::new();
    assert!(state.is_idle_after(true));
    assert!(!state.is_idle_after(false));
    state.handle_midi(&[0x90, 60, 1]);
    assert!(!state.is_idle_after(true));
    state.handle_midi(&[0x90, 60, 0]);
    assert!(state.is_idle_after(true));
    state.handle_midi(&[0xB5, 64, 64]);
    assert!(!state.is_idle_after(true));
}

#[test]
fn take_names_carry_the_start_second() {
    assert_eq!(session_name(1700000000), "fp30x-1700000000");
    assert_eq!(session_name(0), "fp30x-0");
    assert_eq!(session_name(-42), "fp30x--42");
    assert_eq!(session_name(i64::MIN), "fp30x--9223372036854775808");
}

#[test]
fn a_take_runs_from_the_first_message_to_rest() {
    let mut take: TakeTracker<u8> = TakeTracker::new();
    assert_eq!(take.session_id(), None);
    assert!(take.finish_if_idle(true).is_none());

    let id = take.begin_if_resting(1700000000);
    assert_eq!(id.as_deref(), Some("fp30x-1700000000"));
    take.record(1);
    // a second message within the take starts nothing
    assert_eq!(take.begin_if_resting(1700000005), None);
    take.record(2);
    assert_eq!(take.session_id().as_deref(), Some("fp30x-1700000000"));

    // busy: the take goes on
    assert!(take.finish_if_idle(false).is_none());
    take.record(3);

    let finished = take.finish_if_idle(true).expect("the take ends at rest");
    assert_eq!(finished.events, vec![1, 2, 3]);
    assert_eq!(finished.session_id.as_deref(), Some("fp30x-1700000000"));
    assert_eq!(take.session_id(), None);
    assert!(take.finish_if_idle(true).is_none());

    // the next message starts a new, empty take
    let next = take.begin_if_resting(1700000100);
    assert_eq!(next.as_deref(), Some("fp30x-1700000100"));
    take.record(9);
    let finished = take.finish_if_idle(true).expect("second take");
    assert_eq!(finished.events, vec![9]);
}

#[test]
fn uploads_are_titled_by_the_take_or_the_upload_second() {
    assert_eq!(upload_title(Some("fp30x-1700000000"), 1700000999), "fp30x-1700000000");
    assert_eq!(upload_title(None, 1700000999), "fp30x-1700000999");
    assert_eq!(upload_title(Some(""), 5), "");
    assert_eq!(midi_file_name("fp30x-1700000000"), "fp30x-1700000000.mid");
}

#[test]
fn the_live_stream_resends_what_failed() {
    let mut stream: LiveStream<u32> = LiveStream::new();
    assert_eq!(stream.next_step(), StreamStep::Receive);
    stream.received(7);
    assert_eq!(stream.next_step(), StreamStep::Connect);
    // a failed connection pauses and tries again
    assert!(stream.connect_result(false));
    assert_eq!(stream.next_step(), StreamStep::Connect);
    assert!(!stream.connect_result(true));
    assert_eq!(stream.next_step(), StreamStep::Send);
    assert_eq!(*stream.pending(), Some(7));
    // a failed send reconnects and sends the same event again
    stream.send_result(false);
    assert_eq!(stream.next_step(), StreamStep::Connect);
    assert!(!stream.connect_result(true));
    assert_eq!(stream.next_step(), StreamStep::Send);
    assert_eq!(*stream.pending(), Some(7));
    stream.send_result(true);
    assert_eq!(*stream.pending(), None);
    // connected and empty: the next event is sent without reconnecting
    assert_eq!(stream.next_step(), StreamStep::Receive);
    stream.received(8);
    assert_eq!(stream.next_step(), StreamStep::Send);
}

#[test]
fn the_idle_clock_follows_musical_messages_only() {
    let start = Instant::now();
    let at = |secs: u64| start + Duration::from_secs(secs);
    let timeout = Duration::from_secs(5);
    let mut state = RecorderState::new_at(start);
    assert!(!state.is_idle_at(at(5), timeout));
    assert!(state.is_idle_at(at(6), timeout));
    // a held key is never idle; its release restarts the clock
    state.handle_midi_at(&[0x90, 60, 100], at(10));
    assert!(!state.is_idle_at(at(100), timeout));
    state.handle_midi_at(&[0x80, 60, 0], at(20));
    assert!(!state.is_idle_at(at(25), timeout));
    assert!(state.is_idle_at(at(26), timeout));
    // other messages leave the clock where it was
    state.handle_midi_at(&[0xB0, 7, 100], at(30));
    assert!(state.is_idle_at(at(26), timeout));
    // a pedal change restarts it too
    state.handle_midi_at(&[0xB0, 64, 0], at(40));
    assert!(!state.is_idle_at(at(45), timeout));
    assert!(state.is_idle_at(at(46), timeout));
    // a reset lets go of everything and restarts the clock
    state.handle_midi_at(&[0xB0, 64, 127], at(50));
    state.reset_at(at(60));
    assert!(!state.is_idle_at(at(65), timeout));
    assert!(state.is_idle_at(at(66), timeout));
}
