use moodpulse::analysis::{
    analyze_today_emotions, calculate_emotion_index, calculate_stress_level, emotion_to_score,
};
use moodpulse::record::EmotionRecord;

fn record(timestamp: i64, emotion: &str, conf: u64, has_face: bool, is_away: bool) -> EmotionRecord {
    EmotionRecord {
        id: None,
        timestamp,
        datetime: "2025-06-01 10:00:00".to_string(),
        fer_emotion: emotion.to_string(),
        fer_confidence: conf,
        deepface_emotion: None,
        deepface_confidence: None,
        mapped_emotion: emotion.to_string(),
        work_minutes: 0,
        is_away,
        has_face,
    }
}

#[test]
fn test_emotion_to_score() {
    assert_eq!(emotion_to_score(&"happy".to_string()), 10);
    assert_eq!(emotion_to_score(&"calm".to_string()), 7);
    assert_eq!(emotion_to_score(&"worried".to_string()), 3);
}

#[test]
fn test_calculate_emotion_index_empty() {
    let records = vec![];
    let index = calculate_emotion_index(&records);
    assert_eq!(index, 50_000);
}

#[test]
fn test_calculate_stress_level_empty() {
    let records = vec![];
    let stress = calculate_stress_level(&records);
    assert_eq!(stress, 500_000);
}

#[test]
fn score_table_covers_all_labels() {
    assert_eq!(emotion_to_score(&"neutral".to_string()), 5);
    assert_eq!(emotion_to_score(&"sad".to_string()), 2);
    assert_eq!(emotion_to_score(&"angry".to_string()), 1);
    assert_eq!(emotion_to_score(&"tired".to_string()), 4);
    assert_eq!(emotion_to_score(&"surprised".to_string()), 5);
    assert_eq!(emotion_to_score(&"".to_string()), 5);
}

#[test]
fn index_of_single_confident_happy_record_is_ten() {
    let records = vec![record(100, "happy", 10_000, true, false)];
    assert_eq!(calculate_emotion_index(&records), 100_000);
}

#[test]
fn index_of_single_confident_calm_record_is_seven() {
    let records = vec![record(100, "calm", 10_000, true, false)];
    assert_eq!(calculate_emotion_index(&records), 70_000);
}

#[test]
fn consistency_bonus_lifts_agreeing_channels() {
    let mut r = record(100, "calm", 10_000, true, false);
    r.deepface_emotion = Some("calm".to_string());
    r.deepface_confidence = Some(10_000);
    // fused = 7.0 + 0.5 bonus; index = 7.5
    assert_eq!(calculate_emotion_index(&vec![r]), 75_000);
}

#[test]
fn stress_of_single_confident_calm_record() {
    // weighted score 7.0: no spread, nothing negative, low-mood
    // component (10 - 7) / 9 * 40 = 13.3333
    let records = vec![record(100, "calm", 10_000, true, false)];
    assert_eq!(calculate_stress_level(&records), 133_333);
}

#[test]
fn outputs_stay_in_range_on_mixed_batches() {
    let mut records = Vec::new();
    let labels = ["happy", "angry", "sad", "tired", "worried", "calm", "neutral", "odd"];
    for (i, l) in labels.iter().enumerate() {
        records.push(record(i as i64 * 45, l, (i as u64 * 1_700) % 10_001, true, false));
    }
    records.push(record(1_000, "happy", 0, false, false));
    let index = calculate_emotion_index(&records);
    assert!((10_000..=100_000).contains(&index));
    let stress = calculate_stress_level(&records);
    assert!(stress <= 1_000_000);
}

#[test]
fn all_invalid_records_behave_like_empty_input() {
    let records = vec![
        record(100, "happy", 10_000, false, false),
        record(200, "angry", 9_000, true, true),
        record(300, "sad", 8_000, false, true),
    ];
    assert_eq!(calculate_emotion_index(&records), 50_000);
    assert_eq!(calculate_stress_level(&records), 500_000);
}

#[test]
fn same_input_gives_identical_output() {
    let make = || {
        vec![
            record(100, "happy", 9_000, true, false),
            record(160, "worried", 4_000, true, false),
            record(220, "calm", 7_500, true, false),
        ]
    };
    let a = make();
    let b = make();
    assert_eq!(calculate_emotion_index(&a), calculate_emotion_index(&b));
    assert_eq!(calculate_stress_level(&a), calculate_stress_level(&b));
}

#[test]
fn reporting_rounds_to_hundredths() {
    let analysis = analyze_today_emotions(vec![]);
    assert_eq!(analysis.emotion_index, 500);
    assert_eq!(analysis.stress_level, 5_000);
    assert_eq!(analysis.total_records, 0);
    assert_eq!(analysis.valid_records, 0);

    let batch = vec![
        record(100, "calm", 10_000, true, false),
        record(200, "happy", 10_000, false, false),
    ];
    let analysis = analyze_today_emotions(batch);
    assert_eq!(analysis.total_records, 2);
    assert_eq!(analysis.valid_records, 1);
    assert_eq!(analysis.emotion_index, 700);
    // stress 13.3333 rounds to 13.33
    assert_eq!(analysis.stress_level, 1_333);
}
