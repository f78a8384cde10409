use vstd::prelude::*;

verus! {

use crate::UNIT;

/// One sampling tick from the detector. Real-valued quantities are held in
/// fixed point: confidences in ten-thousandths of `1.0` (so `8_500` stands
/// for `0.85`), work time in hundredths of a minute.
pub struct EmotionRecord {
    pub id: Option<i64>,
    /// Seconds since the epoch; the ordering key.
    pub timestamp: i64,
    /// Local time as `YYYY-MM-DD HH:MM:SS`.
    pub datetime: String,
    /// Label reported by the first detector channel.
    pub fer_emotion: String,
    /// Confidence of the first channel, in ten-thousandths of `1.0`.
    pub fer_confidence: u64,
    /// Label reported by the second channel, when available.
    pub deepface_emotion: Option<String>,
    /// Confidence of the second channel, in ten-thousandths of `1.0`.
    pub deepface_confidence: Option<u64>,
    /// The label persisted and used for grouping.
    pub mapped_emotion: String,
    /// Work time attributed to this tick, in hundredths of a minute.
    pub work_minutes: u64,
    pub is_away: bool,
    pub has_face: bool,
}

/// Both confidences lie in `[0, 1]`, that is in `[0, UNIT]` fixed point.
pub open spec fn wf_record(r: EmotionRecord) -> bool {
    &&& r.fer_confidence <= UNIT as u64
    &&& match r.deepface_confidence {
        Some(c) => c <= UNIT as u64,
        None => true,
    }
}

/// A record counts for emotion, stress and focus computation exactly when
/// a face was seen and the subject was present.
pub open spec fn spec_valid(r: EmotionRecord) -> bool {
    r.has_face && !r.is_away
}

impl EmotionRecord {
    /// Whether this record counts for analysis (face seen, subject present).
    pub fn is_valid(&self) -> (b: bool)
        ensures
            b == spec_valid(*self),
    {
        self.has_face && !self.is_away
    }
}

/// A record as the store persists it: boolean flags become the integers
/// 0 and 1, the row id is assigned by the store.
pub struct StoredRow {
    pub timestamp: i64,
    pub datetime: String,
    pub fer_emotion: String,
    pub fer_confidence: u64,
    pub deepface_emotion: Option<String>,
    pub deepface_confidence: Option<u64>,
    pub mapped_emotion: String,
    pub work_minutes: u64,
    pub is_away: i64,
    pub has_face: i64,
}

pub open spec fn spec_encode_row(r: EmotionRecord) -> StoredRow {
    StoredRow {
        timestamp: r.timestamp,
        datetime: r.datetime,
        fer_emotion: r.fer_emotion,
        fer_confidence: r.fer_confidence,
        deepface_emotion: r.deepface_emotion,
        deepface_confidence: r.deepface_confidence,
        mapped_emotion: r.mapped_emotion,
        work_minutes: r.work_minutes,
        is_away: if r.is_away { 1 } else { 0 },
        has_face: if r.has_face { 1 } else { 0 },
    }
}

pub open spec fn spec_decode_row(id: i64, row: StoredRow) -> EmotionRecord {
    EmotionRecord {
        id: Some(id),
        timestamp: row.timestamp,
        datetime: row.datetime,
        fer_emotion: row.fer_emotion,
        fer_confidence: row.fer_confidence,
        deepface_emotion: row.deepface_emotion,
        deepface_confidence: row.deepface_confidence,
        mapped_emotion: row.mapped_emotion,
        work_minutes: row.work_minutes,
        is_away: row.is_away != 0,
        has_face: row.has_face != 0,
    }
}

/// Turns a record into the row shape the store persists.
pub fn encode_row(r: EmotionRecord) -> (row: StoredRow)
    ensures
        row == spec_encode_row(r),
{
    StoredRow {
        timestamp: r.timestamp,
        datetime: r.datetime,
        fer_emotion: r.fer_emotion,
        fer_confidence: r.fer_confidence,
        deepface_emotion: r.deepface_emotion,
        deepface_confidence: r.deepface_confidence,
        mapped_emotion: r.mapped_emotion,
        work_minutes: r.work_minutes,
        is_away: if r.is_away { 1 } else { 0 },
        has_face: if r.has_face { 1 } else { 0 },
    }
}

/// Rebuilds a record from a stored row and the id the store assigned.
pub fn decode_row(id: i64, row: StoredRow) -> (r: EmotionRecord)
    ensures
        r == spec_decode_row(id, row),
{
    EmotionRecord {
        id: Some(id),
        timestamp: row.timestamp,
        datetime: row.datetime,
        fer_emotion: row.fer_emotion,
        fer_confidence: row.fer_confidence,
        deepface_emotion: row.deepface_emotion,
        deepface_confidence: row.deepface_confidence,
        mapped_emotion: row.mapped_emotion,
        work_minutes: row.work_minutes,
        is_away: row.is_away != 0,
        has_face: row.has_face != 0,
    }
}

/// Encoding a record to its stored row and decoding it back reproduces
/// every field, including the boolean flags and the optional second
/// channel; the id becomes the one the store assigned.
pub proof fn lemma_row_round_trip(r: EmotionRecord, id: i64)
    ensures
        spec_decode_row(id, spec_encode_row(r)) == (EmotionRecord {
            id: Some(id),
            timestamp: r.timestamp,
            datetime: r.datetime,
            fer_emotion: r.fer_emotion,
            fer_confidence: r.fer_confidence,
            deepface_emotion: r.deepface_emotion,
            deepface_confidence: r.deepface_confidence,
            mapped_emotion: r.mapped_emotion,
            work_minutes: r.work_minutes,
            is_away: r.is_away,
            has_face: r.has_face,
        }),
{
}

/// The constraints the record store enforces on a row before persisting
/// it: confidences within `[0, 1]` and a mapped emotion from the closed
/// four-label set.
pub open spec fn spec_storable(r: EmotionRecord) -> bool {
    &&& wf_record(r)
    &&& (r.mapped_emotion@ == "happy"@ || r.mapped_emotion@ == "calm"@
        || r.mapped_emotion@ == "worried"@ || r.mapped_emotion@ == "tired"@)
}

/// Checks the store's constraints on a record; an insert of a record that
/// fails this check is rejected by the store.
pub fn check_storable(r: &EmotionRecord) -> (b: bool)
    ensures
        b == spec_storable(*r),
{
    let conf_ok = r.fer_confidence <= UNIT as u64 && match &r.deepface_confidence {
        Some(c) => *c <= UNIT as u64,
        None => true,
    };
    let mapped_ok = r.mapped_emotion == String::from_str("happy")
        || r.mapped_emotion == String::from_str("calm")
        || r.mapped_emotion == String::from_str("worried")
        || r.mapped_emotion == String::from_str("tired");
    conf_ok && mapped_ok
}

} // verus!
