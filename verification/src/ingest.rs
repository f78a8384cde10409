use vstd::prelude::*;

verus! {

use crate::UNIT;
use crate::record::EmotionRecord;

/// One detected channel of a detector response: an emotion label and a
/// confidence, either of which the response may omit. The confidence is
/// the raw reported number in ten-thousandths, so `8_500` stands for a
/// reported `0.85` and `850_000` for a reported `85`.
pub struct DetectorChannel {
    pub emotion: Option<String>,
    pub confidence: Option<u64>,
}

/// A decoded detector response: the detected channels in report order,
/// plus the work-time and presence fields, each of which may be missing.
/// Work time is in hundredths of a minute.
pub struct DetectorPayload {
    pub channels: Vec<DetectorChannel>,
    pub work_minutes: Option<u64>,
    pub is_away: Option<bool>,
    pub has_face: Option<bool>,
}

/// A reported confidence above `1` is taken as a percentage and divided
/// by `100`; one within `[0, 1]` is kept as it is.
pub open spec fn spec_normalize_confidence(raw: int) -> int {
    if raw > UNIT as int {
        raw / 100
    } else {
        raw
    }
}

/// Normalizes a reported confidence to the `[0, 1]` scale: values above
/// `1` arrive as percentages.
pub fn normalize_confidence(raw: u64) -> (c: u64)
    ensures
        c == spec_normalize_confidence(raw as int),
        raw <= UNIT as u64 ==> c == raw,
{
    if raw > UNIT as u64 {
        raw / 100
    } else {
        raw
    }
}

/// The raw confidence of a channel; zero when it is missing.
pub open spec fn spec_channel_conf(c: DetectorChannel) -> int {
    match c.confidence {
        Some(v) => v as int,
        None => 0,
    }
}

/// Builds the observation of one sampling tick from a decoded detector
/// response. A response without channels stores nothing. The first
/// channel's label becomes both the primary and the mapped emotion, with
/// `calm` for a missing label; missing confidences count as zero,
/// missing flags as false, missing work time as zero.
pub fn build_record(timestamp: i64, datetime: String, payload: DetectorPayload) -> (r: Option<
    EmotionRecord,
>)
    ensures
        r is None <==> payload.channels@.len() == 0,
        r matches Some(rec) ==> {
            &&& rec.id is None
            &&& rec.timestamp == timestamp
            &&& rec.datetime == datetime
            &&& match payload.channels@[0].emotion {
                Some(e) => rec.fer_emotion == e && rec.mapped_emotion@ == e@,
                None => rec.fer_emotion@ == "calm"@ && rec.mapped_emotion@ == "calm"@,
            }
            &&& rec.fer_confidence as int == spec_normalize_confidence(
                spec_channel_conf(payload.channels@[0]),
            )
            &&& rec.deepface_emotion == (if payload.channels@.len() > 1 {
                payload.channels@[1].emotion
            } else {
                None::<String>
            })
            &&& rec.deepface_confidence == (if payload.channels@.len() > 1 {
                match payload.channels@[1].confidence {
                    Some(v) => Some(spec_normalize_confidence(v as int) as u64),
                    None => None::<u64>,
                }
            } else {
                None::<u64>
            })
            &&& rec.work_minutes == (match payload.work_minutes {
                Some(w) => w,
                None => 0u64,
            })
            &&& rec.is_away == (match payload.is_away {
                Some(v) => v,
                None => false,
            })
            &&& rec.has_face == (match payload.has_face {
                Some(v) => v,
                None => false,
            })
        },
{
    let mut channels = payload.channels;
    if channels.len() == 0 {
        return None;
    }
    let first = channels.remove(0);
    let second = if channels.len() > 0 {
        channels.remove(0)
    } else {
        DetectorChannel { emotion: None, confidence: None }
    };
    let fer_confidence = normalize_confidence(
        match first.confidence {
            Some(v) => v,
            None => 0,
        },
    );
    let deepface_confidence = match second.confidence {
        Some(v) => Some(normalize_confidence(v)),
        None => None,
    };
    let (fer_emotion, mapped_emotion) = match first.emotion {
        Some(e) => {
            let m = e.clone();
            (e, m)
        },
        None => (String::from_str("calm"), String::from_str("calm")),
    };
    Some(
        EmotionRecord {
            id: None,
            timestamp,
            datetime,
            fer_emotion,
            fer_confidence,
            deepface_emotion: second.emotion,
            deepface_confidence,
            mapped_emotion,
            work_minutes: match payload.work_minutes {
                Some(w) => w,
                None => 0,
            },
            is_away: match payload.is_away {
                Some(v) => v,
                None => false,
            },
            has_face: match payload.has_face {
                Some(v) => v,
                None => false,
            },
        },
    )
}

/// A confidence reported as a percentage, `85`, and one reported as the
/// fraction `0.85` normalize to the same value.
pub proof fn lemma_percent_and_fraction_agree()
    ensures
        spec_normalize_confidence(850_000) == 8_500,
        spec_normalize_confidence(8_500) == 8_500,
{
}

} // verus!
