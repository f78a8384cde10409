use vstd::prelude::*;
use chrono::Timelike;

verus! {

use vstd::arithmetic::div_mod::{
    lemma_div_is_ordered,
    lemma_div_multiples_vanish_fancy,
    lemma_div_pos_is_pos,
};
use crate::record::{EmotionRecord, spec_valid};
use crate::analysis::{score_of, emotion_to_score};

/// One point of the emotion timeline: a 30-minute bucket with its
/// averaged emotion value. The value is rounded to two decimal places of
/// the 0..=1 range and carried in hundredths: a `value` of `70` stands
/// for `0.70`.
pub struct TimelinePoint {
    /// Bucket label, `"8:00"` or `"8:30"`.
    pub time: String,
    /// Averaged emotion value of the bucket, in hundredths, `0..=100`.
    pub value: u32,
    /// Decorative glyph for the bucket's category.
    pub emoji: String,
    /// Emotion category of the bucket.
    pub emotion: String,
}

/// Hour and minute that the datetime text of a record parses to, when it
/// parses at all.
pub uninterp spec fn parsed_hour_minute(s: Seq<char>) -> Option<(u8, u8)>;

/// Relies on chrono::NaiveDateTime::parse_from_str with the fixed
/// `%Y-%m-%d %H:%M:%S` format, and on chrono::Timelike::hour and
/// Timelike::minute: the outcome is a function of the text alone, a
/// parsed hour lies in 0..=23 and a parsed minute in 0..=59.
#[verifier::external_body]
fn parse_hour_minute(s: &String) -> (r: Option<(u8, u8)>)
    ensures
        r == parsed_hour_minute(s@),
        r matches Some(hm) ==> hm.0 < 24 && hm.1 < 60,
{
    match chrono::NaiveDateTime::parse_from_str(s.as_str(), "%Y-%m-%d %H:%M:%S") {
        Ok(dt) => Some((dt.hour() as u8, dt.minute() as u8)),
        Err(_) => None,
    }
}

/// Index of a time's 30-minute bucket: two per hour, the second for
/// minutes 30 and above.
pub open spec fn bucket_of(hm: (u8, u8)) -> int {
    2 * (hm.0 as int) + if hm.1 >= 30 {
        1int
    } else {
        0int
    }
}

/// The bucket a record falls into: none when the record is invalid or
/// its datetime text does not parse.
pub open spec fn record_bucket(r: EmotionRecord) -> Option<int> {
    if !spec_valid(r) {
        None
    } else {
        match parsed_hour_minute(r.datetime@) {
            Some(hm) => Some(bucket_of(hm)),
            None => None,
        }
    }
}

pub open spec fn in_bucket(r: EmotionRecord, b: int) -> bool {
    record_bucket(r) == Some(b)
}

/// How many records of the batch fall into bucket `b`.
pub open spec fn bucket_count(s: Seq<EmotionRecord>, b: int) -> int
    decreases s.len(),
{
    if s.len() == 0 {
        0
    } else {
        bucket_count(s.drop_last(), b) + (if in_bucket(s.last(), b) {
            1int
        } else {
            0int
        })
    }
}

/// Summed categorical score of the records in bucket `b`.
pub open spec fn bucket_sum(s: Seq<EmotionRecord>, b: int) -> int
    decreases s.len(),
{
    if s.len() == 0 {
        0
    } else {
        bucket_sum(s.drop_last(), b) + (if in_bucket(s.last(), b) {
            score_of(s.last().mapped_emotion@)
        } else {
            0int
        })
    }
}

/// The bucket's averaged score, normalized to 0..=1 and rounded to two
/// decimal places, in hundredths: `round(sum / count / 10 * 100)`.
pub open spec fn bucket_value(s: Seq<EmotionRecord>, b: int) -> int {
    (20 * bucket_sum(s, b) + bucket_count(s, b)) / (2 * bucket_count(s, b))
}

/// The bucket's emotion category, by its average raw score: at least 8
/// is happy, at least 6 calm, at least 4 tired, below that worried.
pub open spec fn bucket_emotion(s: Seq<EmotionRecord>, b: int) -> Seq<char> {
    if bucket_sum(s, b) >= 8 * bucket_count(s, b) {
        "happy"@
    } else if bucket_sum(s, b) >= 6 * bucket_count(s, b) {
        "calm"@
    } else if bucket_sum(s, b) >= 4 * bucket_count(s, b) {
        "tired"@
    } else {
        "worried"@
    }
}

/// The glyph that decorates the bucket's category.
pub open spec fn bucket_emoji(s: Seq<EmotionRecord>, b: int) -> Seq<char> {
    if bucket_sum(s, b) >= 8 * bucket_count(s, b) {
        "😊"@
    } else if bucket_sum(s, b) >= 6 * bucket_count(s, b) {
        "😌"@
    } else if bucket_sum(s, b) >= 4 * bucket_count(s, b) {
        "😴"@
    } else {
        "😟"@
    }
}

/// Decimal text of an hour, without padding.
pub open spec fn hour_str(h: int) -> Seq<char> {
    if h == 0 { "0"@ } else if h == 1 { "1"@ } else if h == 2 { "2"@ }
    else if h == 3 { "3"@ } else if h == 4 { "4"@ } else if h == 5 { "5"@ }
    else if h == 6 { "6"@ } else if h == 7 { "7"@ } else if h == 8 { "8"@ }
    else if h == 9 { "9"@ } else if h == 10 { "10"@ } else if h == 11 { "11"@ }
    else if h == 12 { "12"@ } else if h == 13 { "13"@ } else if h == 14 { "14"@ }
    else if h == 15 { "15"@ } else if h == 16 { "16"@ } else if h == 17 { "17"@ }
    else if h == 18 { "18"@ } else if h == 19 { "19"@ } else if h == 20 { "20"@ }
    else if h == 21 { "21"@ } else if h == 22 { "22"@ } else { "23"@ }
}

/// Label of bucket `b`: the hour, a colon, and `00` or `30`.
pub open spec fn time_label(b: int) -> Seq<char> {
    hour_str(b / 2) + if b % 2 == 1 {
        ":30"@
    } else {
        ":00"@
    }
}

/// The ascending list of buckets from `b` upward that hold at least one
/// record of the batch.
pub open spec fn buckets_from(s: Seq<EmotionRecord>, b: int) -> Seq<int>
    decreases 48 - b,
    when b <= 48
{
    if b >= 48 {
        Seq::empty()
    } else if bucket_count(s, b) > 0 {
        seq![b] + buckets_from(s, b + 1)
    } else {
        buckets_from(s, b + 1)
    }
}

/// The ascending list of all buckets that hold at least one record.
pub open spec fn nonempty_buckets(s: Seq<EmotionRecord>) -> Seq<int> {
    buckets_from(s, 0)
}

/// Decimal text of an hour, without padding.
fn hour_label(h: u8) -> (r: &'static str)
    requires
        h < 24,
    ensures
        r@ == hour_str(h as int),
{
    if h == 0 { "0" } else if h == 1 { "1" } else if h == 2 { "2" }
    else if h == 3 { "3" } else if h == 4 { "4" } else if h == 5 { "5" }
    else if h == 6 { "6" } else if h == 7 { "7" } else if h == 8 { "8" }
    else if h == 9 { "9" } else if h == 10 { "10" } else if h == 11 { "11" }
    else if h == 12 { "12" } else if h == 13 { "13" } else if h == 14 { "14" }
    else if h == 15 { "15" } else if h == 16 { "16" } else if h == 17 { "17" }
    else if h == 18 { "18" } else if h == 19 { "19" } else if h == 20 { "20" }
    else if h == 21 { "21" } else if h == 22 { "22" } else { "23" }
}

/// Buckets each valid record of one day into 30-minute intervals by its
/// local-time text, averages each bucket's categorical score, and labels
/// the bucket by its average. Records that are invalid, or whose
/// datetime text does not parse, are skipped silently. Buckets without
/// records do not appear; the points come out ascending by time of day.
pub fn get_emotion_timeline(records: Vec<EmotionRecord>) -> (timeline: Vec<TimelinePoint>)
    ensures
        timeline@.len() == nonempty_buckets(records@).len(),
        forall|i: int| 0 <= i < timeline@.len() ==> {
            let b = nonempty_buckets(records@)[i];
            &&& (#[trigger] timeline@[i]).time@ == time_label(b)
            &&& timeline@[i].value == bucket_value(records@, b)
            &&& timeline@[i].value <= 100
            &&& timeline@[i].emotion@ == bucket_emotion(records@, b)
            &&& timeline@[i].emoji@ == bucket_emoji(records@, b)
        },
{
    let n = records.len();
    // what the bucketing reads of each record: its bucket and its score
    let mut info: Vec<(Option<u8>, u32)> = Vec::new();
    let mut i: usize = 0;
    while i < n
        invariant
            i <= n == records@.len(),
            info@.len() == i,
            forall|q: int| 0 <= q < i ==> (#[trigger] info@[q]).1 == score_of(
                records@[q].mapped_emotion@,
            ) && 1 <= info@[q].1 <= 10,
            forall|q: int| 0 <= q < i ==> (match (#[trigger] info@[q]).0 {
                Some(bb) => record_bucket(records@[q]) == Some(bb as int) && bb < 48,
                None => record_bucket(records@[q]) is None,
            }),
        decreases n - i,
    {
        let r = &records[i];
        let score = emotion_to_score(&r.mapped_emotion);
        let bu: Option<u8> = if r.is_valid() {
            match parse_hour_minute(&r.datetime) {
                Some((h, m)) => Some(2 * h + if m >= 30 { 1 } else { 0 }),
                None => None,
            }
        } else {
            None
        };
        info.push((bu, score));
        i = i + 1;
    }
    // walk the 48 buckets in ascending order
    let mut timeline: Vec<TimelinePoint> = Vec::new();
    let ghost mut done: Seq<int> = Seq::empty();
    let mut b: u8 = 0;
    proof {
        assert(nonempty_buckets(records@) =~= done + buckets_from(records@, 0));
    }
    while b < 48
        invariant
            b <= 48,
            n == records@.len(),
            info@.len() == n,
            forall|q: int| 0 <= q < n ==> (#[trigger] info@[q]).1 == score_of(
                records@[q].mapped_emotion@,
            ) && 1 <= info@[q].1 <= 10,
            forall|q: int| 0 <= q < n ==> (match (#[trigger] info@[q]).0 {
                Some(bb) => record_bucket(records@[q]) == Some(bb as int) && bb < 48,
                None => record_bucket(records@[q]) is None,
            }),
            nonempty_buckets(records@) =~= done + buckets_from(records@, b as int),
            timeline@.len() == done.len(),
            forall|i: int| 0 <= i < done.len() ==> {
                let bb = done[i];
                &&& (#[trigger] timeline@[i]).time@ == time_label(bb)
                &&& timeline@[i].value == bucket_value(records@, bb)
                &&& timeline@[i].value <= 100
                &&& timeline@[i].emotion@ == bucket_emotion(records@, bb)
                &&& timeline@[i].emoji@ == bucket_emoji(records@, bb)
            },
        decreases 48 - b,
    {
        // count and sum the records of bucket b
        let mut q: usize = 0;
        let mut cnt: u64 = 0;
        let mut sum: u128 = 0;
        while q < n
            invariant
                q <= n == records@.len(),
                info@.len() == n,
                forall|p: int| 0 <= p < n ==> (#[trigger] info@[p]).1 == score_of(
                    records@[p].mapped_emotion@,
                ) && 1 <= info@[p].1 <= 10,
                forall|p: int| 0 <= p < n ==> (match (#[trigger] info@[p]).0 {
                    Some(bb) => record_bucket(records@[p]) == Some(bb as int) && bb < 48,
                    None => record_bucket(records@[p]) is None,
                }),
                cnt == bucket_count(records@.take(q as int), b as int),
                sum == bucket_sum(records@.take(q as int), b as int),
                sum <= 10 * cnt,
                cnt <= q,
            decreases n - q,
        {
            proof {
                assert(records@.take(q as int + 1).drop_last() =~= records@.take(q as int));
                assert(records@.take(q as int + 1).last() == records@[q as int]);
            }
            let e = info[q];
            match e.0 {
                Some(bb) => {
                    if bb == b {
                        cnt = cnt + 1;
                        sum = sum + e.1 as u128;
                    }
                },
                None => {},
            }
            q = q + 1;
        }
        proof {
            assert(records@.take(n as int) =~= records@);
        }
        if cnt > 0 {
            let value: u32 = {
                proof {
                    let x = 20 * (sum as int) + cnt as int;
                    let d = 2 * (cnt as int);
                    lemma_div_pos_is_pos(x, d);
                    assert(x <= d * 100 + (d - 1));
                    lemma_div_is_ordered(x, d * 100 + (d - 1), d);
                    lemma_div_multiples_vanish_fancy(100, d - 1, d);
                }
                ((20 * sum + cnt as u128) / (2 * cnt as u128)) as u32
            };
            let h: u8 = b / 2;
            let time: String = String::from_str(hour_label(h)).concat(
                if b % 2 == 1 {
                    ":30"
                } else {
                    ":00"
                },
            );
            let emoji: String;
            let emotion: String;
            if sum >= 8 * cnt as u128 {
                emoji = String::from_str("😊");
                emotion = String::from_str("happy");
            } else if sum >= 6 * cnt as u128 {
                emoji = String::from_str("😌");
                emotion = String::from_str("calm");
            } else if sum >= 4 * cnt as u128 {
                emoji = String::from_str("😴");
                emotion = String::from_str("tired");
            } else {
                emoji = String::from_str("😟");
                emotion = String::from_str("worried");
            }
            timeline.push(TimelinePoint { time, value, emoji, emotion });
            proof {
                assert(buckets_from(records@, b as int) =~= seq![b as int] + buckets_from(
                    records@,
                    b as int + 1,
                ));
                done = done.push(b as int);
            }
        } else {
            proof {
                assert(buckets_from(records@, b as int) =~= buckets_from(records@, b as int + 1));
            }
        }
        b = b + 1;
    }
    proof {
        assert(buckets_from(records@, 48) =~= Seq::<int>::empty());
        assert(nonempty_buckets(records@) =~= done);
    }
    timeline
}

/// A time in the first half of an hour buckets to that hour's `:00`
/// point; from minute 30 on it buckets to `:30`.
pub proof fn lemma_bucket_boundary(hm: (u8, u8))
    ensures
        hm.1 < 30 ==> bucket_of(hm) == 2 * (hm.0 as int),
        hm.1 >= 30 ==> bucket_of(hm) == 2 * (hm.0 as int) + 1,
{
}

proof fn lemma_bucket_count_all_invalid(s: Seq<EmotionRecord>, b: int)
    requires
        forall|i: int| 0 <= i < s.len() ==> !spec_valid(#[trigger] s[i]),
    ensures
        bucket_count(s, b) == 0,
    decreases s.len(),
{
    if s.len() > 0 {
        assert(forall|i: int| 0 <= i < s.drop_last().len() ==> !spec_valid(
            #[trigger] s.drop_last()[i],
        ));
        lemma_bucket_count_all_invalid(s.drop_last(), b);
        assert(!spec_valid(s.last()));
    }
}

proof fn lemma_buckets_from_all_invalid(s: Seq<EmotionRecord>, b: int)
    requires
        forall|i: int| 0 <= i < s.len() ==> !spec_valid(#[trigger] s[i]),
        0 <= b <= 48,
    ensures
        buckets_from(s, b) =~= Seq::<int>::empty(),
    decreases 48 - b,
{
    if b < 48 {
        lemma_bucket_count_all_invalid(s, b);
        lemma_buckets_from_all_invalid(s, b + 1);
    }
}

proof fn lemma_buckets_from_props(s: Seq<EmotionRecord>, b: int)
    requires
        0 <= b <= 48,
    ensures
        forall|k: int| #[trigger] buckets_from(s, b).contains(k) <==> (b <= k < 48
            && bucket_count(s, k) > 0),
        forall|i: int, j: int| 0 <= i < j < buckets_from(s, b).len() ==> buckets_from(s, b)[i]
            < buckets_from(s, b)[j],
        forall|i: int| 0 <= i < buckets_from(s, b).len() ==> b <= #[trigger] buckets_from(s, b)[i]
            < 48,
    decreases 48 - b,
{
    if b < 48 {
        lemma_buckets_from_props(s, b + 1);
        let rest = buckets_from(s, b + 1);
        if bucket_count(s, b) > 0 {
            let cur = seq![b] + rest;
            assert(buckets_from(s, b) == cur);
            assert forall|k: int| #[trigger] cur.contains(k) implies (b <= k < 48 && bucket_count(
                s,
                k,
            ) > 0) by {
                let i = choose|i: int| 0 <= i < cur.len() && cur[i] == k;
                if i == 0 {
                } else {
                    assert(rest[i - 1] == k);
                    assert(rest.contains(k));
                }
            }
            assert forall|k: int| (b <= k < 48 && bucket_count(s, k) > 0) implies #[trigger] cur
                .contains(k) by {
                if k == b {
                    assert(cur[0] == b);
                } else {
                    assert(rest.contains(k));
                    let i = choose|i: int| 0 <= i < rest.len() && rest[i] == k;
                    assert(cur[i + 1] == k);
                }
            }
            assert forall|i: int| 0 <= i < cur.len() implies b <= #[trigger] cur[i] < 48 by {
                if i > 0 {
                    assert(cur[i] == rest[i - 1]);
                }
            }
        } else {
            assert(buckets_from(s, b) == rest);
        }
    }
}

/// The timeline's buckets are exactly the ones that hold a record, each
/// exactly once, in ascending order of time of day.
pub proof fn lemma_nonempty_buckets_exact(s: Seq<EmotionRecord>)
    ensures
        forall|k: int| #[trigger] nonempty_buckets(s).contains(k) <==> (0 <= k < 48
            && bucket_count(s, k) > 0),
        forall|i: int, j: int| 0 <= i < j < nonempty_buckets(s).len() ==> nonempty_buckets(s)[i]
            < nonempty_buckets(s)[j],
{
    lemma_buckets_from_props(s, 0);
}

/// A day whose records are all invalid produces an empty timeline, the
/// same as an empty day.
pub proof fn lemma_timeline_all_invalid(s: Seq<EmotionRecord>)
    requires
        forall|i: int| 0 <= i < s.len() ==> !spec_valid(#[trigger] s[i]),
    ensures
        nonempty_buckets(s) =~= Seq::<int>::empty(),
        nonempty_buckets(Seq::<EmotionRecord>::empty()) =~= Seq::<int>::empty(),
{
    lemma_buckets_from_all_invalid(s, 0);
    lemma_buckets_from_all_invalid(Seq::empty(), 0);
}

} // verus!
