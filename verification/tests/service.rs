use moodpulse::focus::{analyze_focus_time, FocusAnalysis};
use moodpulse::ingest::{build_record, normalize_confidence, DetectorChannel, DetectorPayload};
use moodpulse::record::{check_storable, decode_row, encode_row, EmotionRecord};
use moodpulse::supervisor::{
    DetectorError, DetectorState, EmotionService, PollEvent, StopAction,
};
use moodpulse::timeline::get_emotion_timeline;

fn tick(timestamp: i64, valid: bool) -> EmotionRecord {
    EmotionRecord {
        id: None,
        timestamp,
        datetime: "2025-06-01 10:00:00".to_string(),
        fer_emotion: "happy".to_string(),
        fer_confidence: 9_000,
        deepface_emotion: None,
        deepface_confidence: None,
        mapped_emotion: "happy".to_string(),
        work_minutes: 0,
        is_away: false,
        has_face: valid,
    }
}

fn at_time(datetime: &str, emotion: &str) -> EmotionRecord {
    EmotionRecord {
        id: None,
        timestamp: 0,
        datetime: datetime.to_string(),
        fer_emotion: emotion.to_string(),
        fer_confidence: 9_000,
        deepface_emotion: None,
        deepface_confidence: None,
        mapped_emotion: emotion.to_string(),
        work_minutes: 0,
        is_away: false,
        has_face: true,
    }
}

fn zeroed(f: &FocusAnalysis) -> bool {
    f.total_focus_sessions == 0 && f.current_focus_duration == 0 && !f.is_currently_focusing
        && f.total_focus_time == 0
}

#[test]
fn focus_of_empty_input_is_all_zero() {
    assert!(zeroed(&analyze_focus_time(vec![])));
}

#[test]
fn focus_of_all_invalid_input_is_all_zero() {
    let records = vec![tick(100, false), tick(200, false)];
    assert!(zeroed(&analyze_focus_time(records)));
}

#[test]
fn records_thirty_seconds_apart_merge_into_one_session() {
    let f = analyze_focus_time(vec![tick(1_000, true), tick(1_030, true)]);
    // one 30-second session: no qualifying session, 0.5 minutes in all
    assert_eq!(f.total_focus_sessions, 0);
    assert_eq!(f.total_focus_time, 5);
    assert!(f.is_currently_focusing);
    assert_eq!(f.current_focus_duration, 5);
}

#[test]
fn records_ninety_seconds_apart_split_into_two_sessions() {
    let f = analyze_focus_time(vec![tick(1_000, true), tick(1_090, true)]);
    // two single-record sessions of zero length
    assert_eq!(f.total_focus_sessions, 0);
    assert_eq!(f.total_focus_time, 0);
    assert!(f.is_currently_focusing);
    assert_eq!(f.current_focus_duration, 0);
}

#[test]
fn session_of_exactly_thirty_minutes_qualifies() {
    let mut records = Vec::new();
    let mut t: i64 = 0;
    while t <= 1_800 {
        records.push(tick(t, true));
        t += 60;
    }
    let f = analyze_focus_time(records);
    assert_eq!(f.total_focus_sessions, 1);
    assert_eq!(f.total_focus_time, 300);
    assert!(f.is_currently_focusing);
    assert_eq!(f.current_focus_duration, 300);
}

#[test]
fn focus_sorts_records_before_segmenting() {
    let f = analyze_focus_time(vec![tick(1_030, true), tick(1_000, true)]);
    assert_eq!(f.total_focus_time, 5);
    assert!(f.is_currently_focusing);
}

#[test]
fn an_invalid_record_closes_the_session() {
    let f = analyze_focus_time(vec![tick(1_000, true), tick(1_030, true), tick(1_060, false)]);
    assert_eq!(f.total_focus_time, 5);
    assert!(!f.is_currently_focusing);
    assert_eq!(f.current_focus_duration, 0);
}

#[test]
fn timeline_of_empty_input_is_empty() {
    assert!(get_emotion_timeline(vec![]).is_empty());
}

#[test]
fn timeline_skips_invalid_and_unparsable_records() {
    let mut away = at_time("2025-06-01 09:00:00", "happy");
    away.is_away = true;
    let garbled = at_time("yesterday about nine", "happy");
    assert!(get_emotion_timeline(vec![away, garbled]).is_empty());
}

#[test]
fn timeline_buckets_by_half_hour_boundary() {
    let points = get_emotion_timeline(vec![
        at_time("2025-06-01 10:30:00", "calm"),
        at_time("2025-06-01 10:29:00", "happy"),
    ]);
    assert_eq!(points.len(), 2);
    assert_eq!(points[0].time, "10:00");
    assert_eq!(points[0].emotion, "happy");
    assert_eq!(points[0].value, 100);
    assert_eq!(points[0].emoji, "😊");
    assert_eq!(points[1].time, "10:30");
    assert_eq!(points[1].emotion, "calm");
    assert_eq!(points[1].value, 70);
    assert_eq!(points[1].emoji, "😌");
}

#[test]
fn timeline_averages_within_a_bucket() {
    let points = get_emotion_timeline(vec![
        at_time("2025-06-01 08:05:00", "happy"),
        at_time("2025-06-01 08:20:00", "worried"),
    ]);
    // average (10 + 3) / 2 = 6.5: calm, value 0.65
    assert_eq!(points.len(), 1);
    assert_eq!(points[0].time, "8:00");
    assert_eq!(points[0].emotion, "calm");
    assert_eq!(points[0].value, 65);
}

#[test]
fn timeline_classifies_tired_and_worried_buckets() {
    let points = get_emotion_timeline(vec![
        at_time("2025-06-01 11:00:00", "tired"),
        at_time("2025-06-01 12:00:00", "angry"),
    ]);
    assert_eq!(points.len(), 2);
    assert_eq!(points[0].emotion, "tired");
    assert_eq!(points[0].value, 40);
    assert_eq!(points[1].emotion, "worried");
    assert_eq!(points[1].value, 10);
}

#[test]
fn supervisor_walks_the_session_lifecycle() {
    let mut sv = EmotionService::new();
    assert_eq!(sv.state, DetectorState::NotStarted);
    assert_eq!(sv.detect_request(), Err(DetectorError::NotStarted));
    assert!(sv.needs_launch());
    sv.on_launch_result(true);
    assert_eq!(sv.state, DetectorState::Running);
    assert!(!sv.needs_launch());
    assert_eq!(sv.detect_request(), Ok(()));
    assert!(sv.begin_stop());
    sv.confirm_stopped();
    assert_eq!(sv.state, DetectorState::Stopped);
}

#[test]
fn second_stop_is_a_no_op() {
    let mut sv = EmotionService::new();
    sv.on_launch_result(true);
    assert!(sv.begin_stop());
    sv.confirm_stopped();
    assert!(!sv.begin_stop());
    assert_eq!(sv.state, DetectorState::Stopped);
}

#[test]
fn ignored_quit_token_escalates_to_a_kill() {
    let mut sv = EmotionService::new();
    sv.on_launch_result(true);
    assert!(sv.begin_stop());
    // the process never exits: polls stay StillRunning until the timeout
    assert_eq!(sv.stop_step(0, PollEvent::StillRunning), StopAction::SleepAndPoll);
    assert_eq!(sv.stop_step(4_900, PollEvent::StillRunning), StopAction::SleepAndPoll);
    assert_eq!(sv.stop_step(5_000, PollEvent::StillRunning), StopAction::Kill);
    sv.confirm_stopped();
    assert_eq!(sv.state, DetectorState::Stopped);
}

#[test]
fn graceful_exit_finishes_without_a_kill() {
    let mut sv = EmotionService::new();
    sv.on_launch_result(true);
    assert!(sv.begin_stop());
    assert_eq!(sv.stop_step(200, PollEvent::Exited), StopAction::Finished);
    assert_eq!(sv.stop_step(200, PollEvent::PollFailed), StopAction::Kill);
    sv.confirm_stopped();
    assert_eq!(sv.state, DetectorState::Stopped);
}

#[test]
fn failed_launch_leaves_the_supervisor_unstarted() {
    let mut sv = EmotionService::new();
    sv.on_launch_result(false);
    assert_eq!(sv.state, DetectorState::NotStarted);
    assert_eq!(sv.detect_request(), Err(DetectorError::NotStarted));
    assert_eq!(
        DetectorError::NotStarted.message(),
        "Python process not started"
    );
}

#[test]
fn percentage_confidence_normalizes_to_fraction() {
    // a reported 85 becomes 0.85; a reported 0.85 stays 0.85
    assert_eq!(normalize_confidence(850_000), 8_500);
    assert_eq!(normalize_confidence(8_500), 8_500);
    assert_eq!(normalize_confidence(10_000), 10_000);
    assert_eq!(normalize_confidence(10_100), 101);
}

#[test]
fn ingest_builds_a_record_from_a_two_channel_payload() {
    let payload = DetectorPayload {
        channels: vec![
            DetectorChannel { emotion: Some("happy".to_string()), confidence: Some(850_000) },
            DetectorChannel { emotion: Some("calm".to_string()), confidence: Some(7_000) },
        ],
        work_minutes: Some(1_550),
        is_away: Some(false),
        has_face: Some(true),
    };
    let rec = build_record(1_234, "2025-06-01 10:00:00".to_string(), payload).unwrap();
    assert_eq!(rec.timestamp, 1_234);
    assert_eq!(rec.fer_emotion, "happy");
    assert_eq!(rec.mapped_emotion, "happy");
    assert_eq!(rec.fer_confidence, 8_500);
    assert_eq!(rec.deepface_emotion, Some("calm".to_string()));
    assert_eq!(rec.deepface_confidence, Some(7_000));
    assert_eq!(rec.work_minutes, 1_550);
    assert!(!rec.is_away);
    assert!(rec.has_face);
}

#[test]
fn ingest_defaults_missing_fields() {
    let payload = DetectorPayload {
        channels: vec![DetectorChannel { emotion: None, confidence: None }],
        work_minutes: None,
        is_away: None,
        has_face: None,
    };
    let rec = build_record(7, "2025-06-01 10:00:00".to_string(), payload).unwrap();
    assert_eq!(rec.fer_emotion, "calm");
    assert_eq!(rec.mapped_emotion, "calm");
    assert_eq!(rec.fer_confidence, 0);
    assert_eq!(rec.deepface_emotion, None);
    assert_eq!(rec.deepface_confidence, None);
    assert_eq!(rec.work_minutes, 0);
    assert!(!rec.is_away);
    assert!(!rec.has_face);
}

#[test]
fn ingest_stores_nothing_without_channels() {
    let payload = DetectorPayload {
        channels: vec![],
        work_minutes: Some(100),
        is_away: Some(false),
        has_face: Some(true),
    };
    assert!(build_record(7, "2025-06-01 10:00:00".to_string(), payload).is_none());
}

#[test]
fn stored_row_round_trip_reproduces_every_field() {
    let rec = EmotionRecord {
        id: None,
        timestamp: 1_234_567_890,
        datetime: "2025-12-27 12:00:00".to_string(),
        fer_emotion: "happy".to_string(),
        fer_confidence: 8_500,
        deepface_emotion: Some("happy".to_string()),
        deepface_confidence: Some(7_850),
        mapped_emotion: "happy".to_string(),
        work_minutes: 1_550,
        is_away: false,
        has_face: true,
    };
    let row = encode_row(rec);
    assert_eq!(row.is_away, 0);
    assert_eq!(row.has_face, 1);
    let back = decode_row(1, row);
    assert_eq!(back.id, Some(1));
    assert_eq!(back.timestamp, 1_234_567_890);
    assert_eq!(back.datetime, "2025-12-27 12:00:00");
    assert_eq!(back.fer_emotion, "happy");
    assert_eq!(back.fer_confidence, 8_500);
    assert_eq!(back.deepface_emotion, Some("happy".to_string()));
    assert_eq!(back.deepface_confidence, Some(7_850));
    assert_eq!(back.mapped_emotion, "happy");
    assert_eq!(back.work_minutes, 1_550);
    assert!(!back.is_away);
    assert!(back.has_face);
}

#[test]
fn the_store_rejects_labels_outside_the_closed_set() {
    let good = tick(1, true);
    assert!(check_storable(&good));
    let mut neutral = tick(1, true);
    neutral.mapped_emotion = "neutral".to_string();
    assert!(!check_storable(&neutral));
    let mut overconfident = tick(1, true);
    overconfident.fer_confidence = 15_000;
    assert!(!check_storable(&overconfident));
}

#[test]
fn focus_durations_round_half_up_to_tenths_of_a_minute() {
    // a 9-second session is 0.15 minutes and reports as 0.2
    let f = analyze_focus_time(vec![tick(1_000, true), tick(1_009, true)]);
    assert_eq!(f.total_focus_time, 2);
    assert_eq!(f.current_focus_duration, 2);
}

#[test]
fn focus_handles_timestamps_before_the_epoch() {
    let f = analyze_focus_time(vec![tick(-100, true), tick(-70, true)]);
    assert_eq!(f.total_focus_time, 5);
    assert!(f.is_currently_focusing);
    assert_eq!(f.current_focus_duration, 5);
}
