use fugue::auth::{authenticate, JwtManager, UserLookup};
use fugue::config::missing_setting;
use fugue::errors::{check_api_key, ApiError, DbFailure};
use fugue::live::{listener_action, recorder_frame_action, ListenerAction, ListenerInput, LiveSessionEvent, RecorderAction, RecorderFrame};
use fugue::mscore::{check_rendered_output, MscoreManager};
use fugue::sessions::{
    normalize_midi_extension, sanitize_s3_key_part, session_object_key, validate_session_upload,
    AddSessionRequest, Timestamp,
};
use std::path::PathBuf;

fn request(title: &str, start: (i64, u32), end: Option<(i64, u32)>) -> AddSessionRequest {
    AddSessionRequest {
        title: title.to_string(),
        user_id: uuid::Uuid::nil(),
        start_time: Timestamp { seconds: start.0, nanos: start.1 },
        end_time: end.map(|(seconds, nanos)| Timestamp { seconds, nanos }),
    }
}

#[test]
fn upload_validation_accepts_a_midi_take() {
    let r = request("take", (10, 0), Some((10, 0)));
    assert!(validate_session_upload(&r, b"MThd\0\0\0\x06").is_ok());
    let r = request("take", (10, 0), None);
    assert!(validate_session_upload(&r, b"MThd").is_ok());
}

#[test]
fn upload_validation_errors() {
    let e = validate_session_upload(&request(" \n", (0, 0), None), b"MThd").unwrap_err();
    assert_eq!((e.status, e.message.as_str()), (400, "title is required"));
    let e = validate_session_upload(&request("t", (10, 5), Some((10, 4))), b"MThd").unwrap_err();
    assert_eq!((e.status, e.message.as_str()), (400, "end_time cannot be earlier than start_time"));
    let e = validate_session_upload(&request("t", (10, 5), Some((9, 999))), b"MThd").unwrap_err();
    assert_eq!(e.message, "end_time cannot be earlier than start_time");
    let e = validate_session_upload(&request("t", (0, 0), None), b"").unwrap_err();
    assert_eq!((e.status, e.message.as_str()), (400, "midi file is empty"));
    let e = validate_session_upload(&request("t", (0, 0), None), b"RIFF1234").unwrap_err();
    assert_eq!((e.status, e.message.as_str()), (400, "uploaded file is not a valid MIDI file"));
    let e = validate_session_upload(&request("t", (0, 0), None), b"MTh").unwrap_err();
    assert_eq!(e.message, "uploaded file is not a valid MIDI file");
    // the title is checked first
    let e = validate_session_upload(&request("", (10, 0), Some((0, 0))), b"").unwrap_err();
    assert_eq!(e.message, "title is required");
}

#[test]
fn midi_extensions() {
    assert_eq!(normalize_midi_extension(None).unwrap(), "mid");
    assert_eq!(normalize_midi_extension(Some("MID")).unwrap(), "mid");
    assert_eq!(normalize_midi_extension(Some("Midi")).unwrap(), "midi");
    let e = normalize_midi_extension(Some("wav")).unwrap_err();
    assert_eq!((e.status, e.message.as_str()), (400, "midi_file must have a .mid or .midi extension"));
    assert!(normalize_midi_extension(Some("")).is_err());
}

#[test]
fn key_parts_are_sanitized() {
    assert_eq!(sanitize_s3_key_part("My Take #1"), "My-Take--1");
    assert_eq!(sanitize_s3_key_part("--fp30x-1700000000--"), "fp30x-1700000000");
    assert_eq!(sanitize_s3_key_part("a_b.c"), "a_b.c");
    assert_eq!(sanitize_s3_key_part("---"), "session");
    assert_eq!(sanitize_s3_key_part(""), "session");
    assert_eq!(sanitize_s3_key_part("Étude"), "tude");
    assert_eq!(session_object_key("My Take", "midi"), "My-Take.midi");
    assert_eq!(session_object_key("?", "mid"), "session.mid");
}

#[test]
fn status_errors_use_reason_phrases() {
    let e = ApiError::from_status(401);
    assert_eq!((e.status, e.message.as_str()), (401, "Unauthorized"));
    assert_eq!(ApiError::from_status(404).message, "Not Found");
    assert_eq!(ApiError::from_status(599).message, "Unknown error");
    assert_eq!(ApiError::from_status(42).message, "Unknown error");
}

#[test]
fn api_key_check() {
    assert!(check_api_key(Some("secret"), "secret").is_ok());
    let e = check_api_key(Some("other"), "secret").unwrap_err();
    assert_eq!((e.status, e.message.as_str()), (401, ""));
    let e = check_api_key(None, "secret").unwrap_err();
    assert_eq!((e.status, e.message.as_str()), (401, "Unauthorized"));
    assert!(check_api_key(Some(""), "secret").is_err());
}

#[test]
fn database_failures() {
    let e = ApiError::from_db_failure(DbFailure::RecordNotFound);
    assert_eq!((e.status, e.message.as_str()), (404, "Record not found"));
    let e = ApiError::from_db_failure(DbFailure::Connection);
    assert_eq!((e.status, e.message.as_str()), (503, "Database unavailable"));
    let e = ApiError::from_db_failure(DbFailure::Other("boom".to_string()));
    assert_eq!((e.status, e.message.as_str()), (400, "boom"));
}

#[test]
fn failure_messages() {
    assert_eq!(ApiError::from_multipart_failure("x").message, "Invalid multipart request: x");
    assert_eq!(ApiError::from_json_failure("y").message, "Invalid JSON payload: y");
    assert_eq!(ApiError::from_storage_failure("z").message, "Invalid S3 request: z");
    assert_eq!(ApiError::from_io_failure("w").message, "std::io::Error request: w");
    let e = ApiError::new(418, "teapot".to_string());
    assert_eq!((e.status, e.message.as_str()), (418, "teapot"));
    assert_eq!(missing_setting("JWT_SECRET"), "JWT_SECRET must be set");
}

#[test]
fn sign_in_outcomes() {
    let hash = bcrypt::hash("hunter2", 4).unwrap();
    assert!(authenticate(UserLookup::Found(hash.clone()), "hunter2").is_ok());
    assert_eq!(authenticate(UserLookup::Found(hash), "hunter3").unwrap_err(), (401, "Wrong password".to_string()));
    assert_eq!(authenticate(UserLookup::Found("not a hash".to_string()), "x").unwrap_err(), (500, "Verify error".to_string()));
    assert_eq!(authenticate(UserLookup::Missing, "x").unwrap_err(), (401, "User not found".to_string()));
    assert_eq!(authenticate(UserLookup::Failed, "x").unwrap_err(), (500, "DB error".to_string()));
}

#[test]
fn jwt_manager_keeps_its_settings() {
    let jwt = JwtManager::new("s3cret".to_string(), 24);
    assert_eq!(jwt.secret(), "s3cret");
    assert_eq!(jwt.expiration_hours(), 24);
}

#[test]
fn renderer_keeps_its_soundfont() {
    let m = MscoreManager::new(PathBuf::from("/usr/share/sounds/piano.sf2"));
    assert_eq!(m.soundfont_path(), &PathBuf::from("/usr/share/sounds/piano.sf2"));
}

fn midi_event(id: &str) -> LiveSessionEvent {
    LiveSessionEvent::MidiEvent { session_id: id.to_string(), timestamp_ms: 5, bytes: vec![0x90, 60, 1] }
}

#[test]
fn live_events_know_their_session() {
    let started = LiveSessionEvent::SessionStarted { session_id: "a".to_string(), title: "t".to_string(), started_at: "now".to_string() };
    let finished = LiveSessionEvent::SessionFinished { session_id: "c".to_string(), ended_at: "later".to_string() };
    assert_eq!(started.session_id(), "a");
    assert_eq!(midi_event("b").session_id(), "b");
    assert_eq!(finished.session_id(), "c");
    assert!(finished.belongs_to("c"));
    assert!(!finished.belongs_to("a"));
}

#[test]
fn listeners_get_only_their_session() {
    match listener_action("fp30x-1", ListenerInput::Event(midi_event("fp30x-1"))) {
        ListenerAction::Forward(e) => assert_eq!(e.session_id(), "fp30x-1"),
        _ => panic!("event of the session not forwarded"),
    }
    assert!(matches!(listener_action("fp30x-1", ListenerInput::Event(midi_event("fp30x-2"))), ListenerAction::Skip));
    assert!(matches!(listener_action("x", ListenerInput::Lagged), ListenerAction::Skip));
    assert!(matches!(listener_action("x", ListenerInput::ClientOther), ListenerAction::Skip));
    assert!(matches!(listener_action("x", ListenerInput::ClientClosed), ListenerAction::Stop));
    assert!(matches!(listener_action("x", ListenerInput::ClientFailed), ListenerAction::Stop));
}

#[test]
fn recorder_frames() {
    assert_eq!(recorder_frame_action(RecorderFrame::Text), RecorderAction::Publish);
    assert_eq!(recorder_frame_action(RecorderFrame::Binary), RecorderAction::Publish);
    assert_eq!(recorder_frame_action(RecorderFrame::Ping), RecorderAction::Skip);
    assert_eq!(recorder_frame_action(RecorderFrame::Pong), RecorderAction::Skip);
    assert_eq!(recorder_frame_action(RecorderFrame::Close), RecorderAction::Stop);
    assert_eq!(recorder_frame_action(RecorderFrame::Failed), RecorderAction::Stop);
}

#[test]
fn rendered_output_checks() {
    let e = check_rendered_output("PDF", "no such file", None).unwrap_err();
    assert_eq!((e.status, e.message.as_str()), (500, "Renderer failed generating PDF: no such file"));
    let e = check_rendered_output("FLAC audio", "", Some(0)).unwrap_err();
    assert_eq!((e.status, e.message.as_str()), (500, "Renderer produced empty FLAC audio"));
    assert!(check_rendered_output("MP3", "", Some(10)).is_ok());
}

#[test]
fn a_listener_gets_its_own_session_in_order_until_it_leaves() {
    let inputs = vec![
        ListenerInput::Event(midi_event("a")),
        ListenerInput::Event(midi_event("b")),
        ListenerInput::Lagged,
        ListenerInput::Event(midi_event("a")),
        ListenerInput::ClientOther,
        ListenerInput::Event(midi_event("a")),
        ListenerInput::ClientClosed,
        ListenerInput::Event(midi_event("a")),
    ];
    let mut sent = 0;
    let mut ended = false;
    for input in inputs {
        match listener_action("a", input) {
            ListenerAction::Forward(event) => {
                assert_eq!(event.session_id(), "a");
                sent += 1;
            }
            ListenerAction::Skip => {}
            ListenerAction::Stop => {
                ended = true;
                break;
            }
        }
    }
    assert!(ended);
    assert_eq!(sent, 3);
}
