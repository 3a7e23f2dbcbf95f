use fugue::musicxml::{measures, measures_arithmetic_fits, performed_measure_duration};
use fugue::pedal::{add_pedal_markings, add_pedal_markings_in_range, pedal_direction, pedal_events, pedal_percentage, PedalEvent, PedalKind};
use fugue::natural::{nat_from_u128, nat_mul_small, nat_sub};

const TEST_MIDI: [u8; 35] = [
    b'M', b'T', b'h', b'd', 0, 0, 0, 6, 0, 0, 0, 1, 1, 0xe0, b'M', b'T', b'r', b'k', 0, 0, 0, 13,
    0, 0xb0, 64, 127, 0x83, 0x60, 0xb0, 64, 0, 0, 0xff, 0x2f, 0,
];

#[test]
fn measures_include_pickups_and_multiple_voices() {
    let xml = r#"<part><measure number="1"><attributes><divisions>4</divisions><time><beats>4</beats><beat-type>4</beat-type></time><staves>2</staves></attributes><note><rest/><duration>4</duration></note><backup><duration>4</duration></backup><note><rest/><duration>4</duration><staff>2</staff></note></measure></part>"#;
    let parsed = measures(xml).unwrap();
    assert_eq!(parsed[0].duration, 4);
    assert_eq!(parsed[0].staff, 2);
}

#[test]
fn injects_standard_musicxml_pedal_directions() {
    let midi = TEST_MIDI;
    let xml = r#"<score-partwise><part><measure number="1"><attributes><divisions>4</divisions></attributes><note><rest/><duration>16</duration></note></measure></part></score-partwise>"#;
    let result = add_pedal_markings(&midi, xml).unwrap();
    assert!(result.contains("<pedal type=\"start\" line=\"yes\"/>"));
    assert!(result.contains("<pedal type=\"stop\" line=\"yes\"/>"));
    assert!(result.contains("<offset sound=\"yes\">4</offset>"));
}

fn midi_file(format: u8, division: u16, tracks: &[&[u8]]) -> Vec<u8> {
    let mut out = vec![b'M', b'T', b'h', b'd', 0, 0, 0, 6, 0, format, 0, tracks.len() as u8];
    out.push((division >> 8) as u8);
    out.push((division & 0xff) as u8);
    for track in tracks {
        out.extend_from_slice(b"MTrk");
        out.extend_from_slice(&(track.len() as u32).to_be_bytes());
        out.extend_from_slice(track);
    }
    out
}

#[test]
fn test_midi_pedal_events_are_read_in_order() {
    let (tpq, events) = pedal_events(&TEST_MIDI).unwrap();
    assert_eq!(tpq, 480);
    assert_eq!(events.len(), 2);
    assert_eq!((events[0].tick, events[0].kind, events[0].value), (0, PedalKind::Start, 127));
    assert_eq!((events[1].tick, events[1].kind, events[1].value), (480, PedalKind::Stop, 0));
}

#[test]
fn pedal_events_sort_tracks_stably_and_keep_only_moves() {
    let track_a: &[u8] = &[0x64, 0xB0, 0x40, 0x64, 0x00, 0xFF, 0x2F, 0x00];
    let track_b: &[u8] = &[0x32, 0xB0, 0x40, 0x7F, 0x32, 0xB0, 0x40, 0x00, 0x00, 0xFF, 0x2F, 0x00];
    let midi = midi_file(1, 96, &[track_a, track_b]);
    let (tpq, events) = pedal_events(&midi).unwrap();
    assert_eq!(tpq, 96);
    assert_eq!(events.len(), 2);
    assert_eq!((events[0].tick, events[0].kind, events[0].value), (50, PedalKind::Start, 127));
    assert_eq!((events[1].tick, events[1].kind, events[1].value), (100, PedalKind::Stop, 0));
}

#[test]
fn pedal_events_ignore_other_controllers_and_repeated_values() {
    // controller 7 (volume), then two presses in a row, then a release
    let track: &[u8] = &[
        0x00, 0xB0, 0x07, 0x64, 0x10, 0xB0, 0x40, 0x50, 0x10, 0xB0, 0x40, 0x7F, 0x10, 0xB0, 0x40,
        0x3F, 0x00, 0xFF, 0x2F, 0x00,
    ];
    let midi = midi_file(0, 480, &[track]);
    let (_, events) = pedal_events(&midi).unwrap();
    assert_eq!(events.len(), 2);
    assert_eq!((events[0].tick, events[0].kind, events[0].value), (16, PedalKind::Start, 80));
    assert_eq!((events[1].tick, events[1].kind, events[1].value), (48, PedalKind::Stop, 63));
}

#[test]
fn invalid_midi_is_reported() {
    let err = add_pedal_markings(b"not a midi file", "<score/>").unwrap_err();
    assert!(err.starts_with("Invalid MIDI: "));
    assert!(err.len() > "Invalid MIDI: ".len());
}

#[test]
fn smpte_timing_is_refused() {
    let track: &[u8] = &[0x00, 0xFF, 0x2F, 0x00];
    // -25 fps, 40 subframes
    let midi = midi_file(0, 0xE728, &[track]);
    let err = pedal_events(&midi).unwrap_err();
    assert_eq!(err, "SMPTE-timed MIDI is not supported for pedal notation");
}

#[test]
fn take_without_pedal_leaves_score_unchanged() {
    let track: &[u8] = &[0x00, 0x90, 0x3C, 0x40, 0x60, 0x80, 0x3C, 0x00, 0x00, 0xFF, 0x2F, 0x00];
    let midi = midi_file(0, 480, &[track]);
    let xml = "<score>no measures at all</score>";
    assert_eq!(add_pedal_markings(&midi, xml).unwrap(), xml);
}

#[test]
fn score_without_measures_is_refused() {
    let err = add_pedal_markings(&TEST_MIDI, "<score-partwise></score-partwise>").unwrap_err();
    assert_eq!(err, "MuseScore MusicXML contains no measures");
}

#[test]
fn malformed_and_unclosed_measures_are_refused() {
    assert_eq!(measures("<measure number=\"1\"").unwrap_err(), "Malformed MusicXML measure");
    assert_eq!(measures("<measure number=\"1\"><note/>").unwrap_err(), "Unclosed MusicXML measure");
    assert_eq!(add_pedal_markings(&TEST_MIDI, "<measure x").unwrap_err(), "Malformed MusicXML measure");
}

#[test]
fn directions_go_after_the_attributes_with_exact_text() {
    let xml = r#"<score-partwise><part><measure number="1"><attributes><divisions>4</divisions></attributes><note><rest/><duration>16</duration></note></measure></part></score-partwise>"#;
    let result = add_pedal_markings(&TEST_MIDI, xml).unwrap();
    let start = "\n      <direction placement=\"below\">\n        <direction-type>\n          <pedal type=\"start\" line=\"yes\"/>\n          </direction-type>\n        <offset sound=\"yes\">0</offset>\n        <staff>1</staff>\n        <sound damper-pedal=\"100\"/>\n        </direction>";
    let stop = "\n      <direction placement=\"below\">\n        <direction-type>\n          <pedal type=\"stop\" line=\"yes\"/>\n          </direction-type>\n        <offset sound=\"yes\">4</offset>\n        <staff>1</staff>\n        <sound damper-pedal=\"no\"/>\n        </direction>";
    let expected = xml.replacen("</attributes>", &format!("</attributes>{start}{stop}"), 1);
    assert_eq!(result, expected);
}

#[test]
fn events_are_placed_in_the_measure_that_holds_them() {
    // quarter 4 and quarter 5.5 with a first measure of 4 quarters at 2
    // divisions and a second one at 4 divisions
    let track: &[u8] = &[
        0x8F, 0x00, 0xB0, 0x40, 0x7F, 0x85, 0x50, 0xB0, 0x40, 0x00, 0x00, 0xFF, 0x2F, 0x00,
    ];
    let midi = midi_file(0, 480, &[track]);
    let xml = r#"<part><measure number="1"><attributes><divisions>2</divisions></attributes></measure><measure number="2"><attributes><divisions>4</divisions></attributes><print/></measure></part>"#;
    let ms = measures(xml).unwrap();
    assert_eq!(ms.len(), 2);
    assert_eq!((ms[0].divisions, ms[0].duration), (2, 8));
    assert_eq!((ms[1].divisions, ms[1].duration), (4, 16));
    let result = add_pedal_markings(&midi, xml).unwrap();
    let second = &result[result.find("<measure number=\"2\">").unwrap()..];
    assert!(second.contains("<offset sound=\"yes\">0</offset>"));
    assert!(second.contains("<offset sound=\"yes\">6</offset>"));
    let first = &result[..result.find("<measure number=\"2\">").unwrap()];
    assert!(!first.contains("<pedal"));
}

#[test]
fn late_events_go_to_the_end_of_the_last_measure() {
    // a release 40 quarters in, far beyond one 4/4 measure
    let track: &[u8] = &[0x00, 0xB0, 0x40, 0x7F, 0x81, 0x96, 0x00, 0xB0, 0x40, 0x00, 0x00, 0xFF, 0x2F, 0x00];
    let midi = midi_file(0, 480, &[track]);
    let xml = r#"<measure number="1"><attributes><divisions>1</divisions></attributes></measure>"#;
    let result = add_pedal_markings(&midi, xml).unwrap();
    assert!(result.contains("<offset sound=\"yes\">4</offset>"));
    assert!(result.contains("<offset sound=\"yes\">0</offset>"));
}

#[test]
fn offsets_round_half_up() {
    // tick 60 at 480 ticks per quarter with 4 divisions: 0.5 division -> 1
    let track: &[u8] = &[0x3C, 0xB0, 0x40, 0x7F, 0x00, 0xFF, 0x2F, 0x00];
    let midi = midi_file(0, 480, &[track]);
    let xml = r#"<measure number="1"><attributes><divisions>4</divisions></attributes></measure>"#;
    let result = add_pedal_markings(&midi, xml).unwrap();
    assert!(result.contains("<offset sound=\"yes\">1</offset>"));
}

#[test]
fn pedal_percentage_scales_to_percent() {
    assert_eq!(pedal_percentage(127), "100");
    assert_eq!(pedal_percentage(64), "50");
    assert_eq!(pedal_percentage(0), "0");
    assert_eq!(pedal_percentage(1), "0");
    assert_eq!(pedal_percentage(255), "200");
}

#[test]
fn pedal_direction_texts() {
    let start = PedalEvent { tick: 0, kind: PedalKind::Start, value: 100 };
    let stop = PedalEvent { tick: 0, kind: PedalKind::Stop, value: 0 };
    assert_eq!(
        pedal_direction(12, 2, start),
        "\n      <direction placement=\"below\">\n        <direction-type>\n          <pedal type=\"start\" line=\"yes\"/>\n          </direction-type>\n        <offset sound=\"yes\">12</offset>\n        <staff>2</staff>\n        <sound damper-pedal=\"78\"/>\n        </direction>"
    );
    assert!(pedal_direction(0, 1, stop).contains("<sound damper-pedal=\"no\"/>"));
}

#[test]
fn performed_duration_follows_voices() {
    assert_eq!(performed_measure_duration("<note><duration>4</duration></note><backup><duration>4</duration></backup><note><duration>6</duration></note>"), Some(6));
    assert_eq!(performed_measure_duration("<note><duration>4</duration></note><note><chord/><duration>8</duration></note>"), Some(4));
    assert_eq!(performed_measure_duration("<note><grace/><duration>8</duration></note>"), None);
    assert_eq!(performed_measure_duration("<forward><duration>3</duration></forward><note><duration> 2 </duration></note>"), Some(5));
    assert_eq!(performed_measure_duration("<backup><duration>9</duration></backup><note><duration>1</duration></note>"), Some(1));
    assert_eq!(performed_measure_duration("<attributes/>"), None);
    assert_eq!(performed_measure_duration("<note><duration>x</duration></note>"), None);
}

#[test]
fn measures_carry_settings_forward() {
    let xml = r#"<measure number="1"><attributes><divisions>8</divisions><time><beats>3</beats><beat-type>4</beat-type></time><staves>1</staves></attributes><print/></measure><measure number="2"></measure>"#;
    let ms = measures(xml).unwrap();
    assert_eq!(ms.len(), 2);
    assert_eq!((ms[0].divisions, ms[0].duration, ms[0].staff), (8, 24, 1));
    assert_eq!((ms[1].divisions, ms[1].duration, ms[1].staff), (8, 24, 1));
    let second = r#"<measure number="2">"#;
    assert_eq!(ms[1].insertion_at, xml.find(second).unwrap() + second.len());
    assert_eq!(ms[0].insertion_at, xml.find("</attributes>").unwrap() + "</attributes>".len());
}

#[test]
fn measure_arithmetic_limits_are_detected() {
    assert!(measures_arithmetic_fits("<measure n=\"1\"><beats>4</beats></measure>"));
    assert!(!measures_arithmetic_fits("<measure n=\"1\"><beats>2000000000</beats></measure>"));
    assert!(!measures_arithmetic_fits("<measure n=\"1\"><note><duration>9223372036854775807</duration></note><forward><duration>1</duration></forward></measure>"));
}

#[test]
fn overflowing_scores_are_left_alone_only_without_pedal_moves() {
    let huge = "<measure n=\"1\"><beats>2000000000</beats></measure>";
    let track: &[u8] = &[0x00, 0x90, 0x3C, 0x40, 0x60, 0x80, 0x3C, 0x00, 0x00, 0xFF, 0x2F, 0x00];
    let quiet = midi_file(0, 480, &[track]);
    // no pedal moves: the score is not read, so its size does not matter
    assert_eq!(add_pedal_markings(&quiet, huge).unwrap(), huge);
    assert_eq!(add_pedal_markings_in_range(&quiet, huge), Some(Ok(huge.to_string())));
    // pedal moves in a score whose measure arithmetic overflows
    assert_eq!(add_pedal_markings_in_range(&TEST_MIDI, huge), None);
    // an unreadable take is reported whatever the score
    assert!(matches!(add_pedal_markings_in_range(b"junk", huge), Some(Err(_))));
    // in range, the answer is that of add_pedal_markings
    let xml = "<score-partwise><part><measure number=\"1\"><attributes><divisions>4</divisions></attributes><note><rest/><duration>16</duration></note></measure></part></score-partwise>";
    assert_eq!(add_pedal_markings_in_range(&TEST_MIDI, xml), Some(add_pedal_markings(&TEST_MIDI, xml)));
}

fn measure_xml(number: usize, divisions: u32, duration: u32) -> String {
    format!(
        "<measure number=\"{number}\"><attributes><divisions>{divisions}</divisions><time><beats>1</beats><beat-type>4</beat-type></time></attributes><note><duration>{duration}</duration></note></measure>"
    )
}

#[test]
fn fine_alternating_divisions_still_place_late_events() {
    // four measures of one division each, at 10^9 and 10^9 - 1 divisions:
    // a release one quarter in lies after all of them
    let mut xml = String::from("<part>");
    for (k, v) in [1_000_000_000u32, 999_999_999, 1_000_000_000, 999_999_999].iter().enumerate() {
        xml.push_str(&measure_xml(k + 1, *v, 1));
    }
    xml.push_str("</part>");
    assert!(measures_arithmetic_fits(&xml));
    let result = add_pedal_markings(&TEST_MIDI, &xml).unwrap();
    let last = &result[result.find("<measure number=\"4\">").unwrap()..];
    assert!(last.contains("<pedal type=\"stop\" line=\"yes\"/>"));
    assert!(last.contains("<offset sound=\"yes\">1</offset>"));
    let first = &result[..result.find("<measure number=\"2\">").unwrap()];
    assert!(first.contains("<pedal type=\"start\" line=\"yes\"/>"));
    assert!(first.contains("<offset sound=\"yes\">0</offset>"));
}

#[test]
fn changing_divisions_keep_positions_exact() {
    // six measures of one quarter each at six different divisions; a
    // release four and a half quarters in lies half way through the fifth
    let track: &[u8] = &[
        0x00, 0xB0, 0x40, 0x7F, 0x90, 0x70, 0xB0, 0x40, 0x00, 0x00, 0xFF, 0x2F, 0x00,
    ];
    let midi = midi_file(0, 480, &[track]);
    let divisions = [1_000_000_000u32, 999_999_999, 999_999_998, 999_999_997, 999_999_996, 999_999_995];
    let mut xml = String::from("<part>");
    for (k, v) in divisions.iter().enumerate() {
        xml.push_str(&measure_xml(k + 1, *v, *v));
    }
    xml.push_str("</part>");
    assert!(measures_arithmetic_fits(&xml));
    let result = add_pedal_markings(&midi, &xml).unwrap();
    let fifth = &result[result.find("<measure number=\"5\">").unwrap()..result.find("<measure number=\"6\">").unwrap()];
    assert!(fifth.contains("<pedal type=\"stop\" line=\"yes\"/>"));
    assert!(fifth.contains("<offset sound=\"yes\">499999998</offset>"));
}

#[test]
fn large_naturals_multiply_and_subtract() {
    let a = nat_from_u128(u128::MAX);
    let b = nat_mul_small(&a, u64::MAX);
    // (2^128 - 1)(2^64 - 1) - (2^128 - 1) * (2^64 - 2) = 2^128 - 1
    let c = nat_mul_small(&a, u64::MAX - 1);
    let (d, below) = nat_sub(&b, &c);
    assert!(!below);
    let (e, below) = nat_sub(&d, &a);
    assert!(!below);
    assert!(e.iter().all(|limb| *limb == 0));
    let (_, below) = nat_sub(&c, &b);
    assert!(below);
    assert_eq!(nat_from_u128(0x1_0000_0002), vec![2, 1]);
    assert_eq!(nat_mul_small(&vec![3], 5), vec![15, 0, 0]);
}
