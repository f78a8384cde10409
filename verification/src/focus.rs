use vstd::prelude::*;

verus! {

use crate::record::{EmotionRecord, spec_valid};

/// A valid record more than this many seconds after the previous valid
/// one opens a new focus session.
pub const MAX_GAP_SECONDS: i64 = 60;

/// A session must last at least this many seconds (30 minutes) to count
/// as a qualifying focus session.
pub const MIN_FOCUS_SECONDS: i64 = 1800;

/// Focus statistics over one day's records. Durations are rounded to one
/// decimal place and carried in tenths of a minute: a
/// `total_focus_time` of `305` stands for `30.5` minutes.
pub struct FocusAnalysis {
    /// Sessions of at least 30 minutes.
    pub total_focus_sessions: usize,
    /// Length of the in-progress session, in tenths of a minute.
    pub current_focus_duration: u64,
    /// Whether the chronologically last record is itself valid.
    pub is_currently_focusing: bool,
    /// Summed length of all sessions, in tenths of a minute.
    pub total_focus_time: u64,
}

/// What focus segmentation reads from a record: its timestamp and
/// whether it counts as valid presence.
pub open spec fn ticks_of(s: Seq<EmotionRecord>) -> Seq<(i64, bool)> {
    s.map_values(|r: EmotionRecord| (r.timestamp, spec_valid(r)))
}

pub open spec fn sorted_ts(s: Seq<(i64, bool)>) -> bool {
    forall|i: int, j: int| 0 <= i < j < s.len() ==> s[i].0 <= s[j].0
}

/// Inserts a tick into an ascending sequence, after any tick with the
/// same timestamp, so that sorting is stable.
pub open spec fn insert_by_ts(s: Seq<(i64, bool)>, x: (i64, bool)) -> Seq<(i64, bool)>
    decreases s.len(),
{
    if s.len() == 0 {
        seq![x]
    } else if s.last().0 <= x.0 {
        s.push(x)
    } else {
        insert_by_ts(s.drop_last(), x).push(s.last())
    }
}

/// Stable insertion sort of ticks by timestamp.
pub open spec fn sort_by_ts(s: Seq<(i64, bool)>) -> Seq<(i64, bool)>
    decreases s.len(),
{
    if s.len() == 0 {
        Seq::empty()
    } else {
        insert_by_ts(sort_by_ts(s.drop_last()), s.last())
    }
}

pub proof fn lemma_insert_by_ts_props(s: Seq<(i64, bool)>, x: (i64, bool))
    requires
        sorted_ts(s),
    ensures
        sorted_ts(insert_by_ts(s, x)),
        insert_by_ts(s, x).len() == s.len() + 1,
        forall|e: (i64, bool)| insert_by_ts(s, x).contains(e) ==> s.contains(e) || e == x,
    decreases s.len(),
{
    if s.len() == 0 {
        assert(insert_by_ts(s, x) == seq![x]);
        assert forall|e: (i64, bool)| insert_by_ts(s, x).contains(e) implies s.contains(e)
            || e == x by {
            assert(insert_by_ts(s, x)[0] == x);
        }
    } else if s.last().0 <= x.0 {
        assert forall|e: (i64, bool)| s.push(x).contains(e) implies s.contains(e) || e == x by {
            let i = choose|i: int| 0 <= i < s.push(x).len() && s.push(x)[i] == e;
            if i < s.len() {
                assert(s[i] == e);
            }
        }
    } else {
        assert(sorted_ts(s.drop_last()));
        lemma_insert_by_ts_props(s.drop_last(), x);
        let t = insert_by_ts(s.drop_last(), x);
        // every element of t is at most the popped last element
        assert forall|i: int, j: int| 0 <= i < j < t.push(s.last()).len()
            implies t.push(s.last())[i].0 <= t.push(s.last())[j].0 by {
            if j < t.len() {
            } else {
                assert(t.push(s.last())[j] == s.last());
                let e = t[i];
                assert(t.contains(e));
                if s.drop_last().contains(e) {
                    let m = choose|m: int| 0 <= m < s.drop_last().len() && s.drop_last()[m] == e;
                    assert(s[m] == e);
                    assert(s[m].0 <= s.last().0);
                } else {
                    assert(e == x);
                }
            }
        }
        assert forall|e: (i64, bool)| t.push(s.last()).contains(e) implies s.contains(e)
            || e == x by {
            let i = choose|i: int| 0 <= i < t.push(s.last()).len() && t.push(s.last())[i] == e;
            if i < t.len() {
                assert(t.contains(e));
                if s.drop_last().contains(e) {
                    let m = choose|m: int| 0 <= m < s.drop_last().len() && s.drop_last()[m] == e;
                    assert(s[m] == e);
                }
            } else {
                assert(e == s.last());
            }
        }
    }
}

pub proof fn lemma_sort_by_ts_props(s: Seq<(i64, bool)>)
    ensures
        sorted_ts(sort_by_ts(s)),
        sort_by_ts(s).len() == s.len(),
        forall|e: (i64, bool)| sort_by_ts(s).contains(e) ==> s.contains(e),
    decreases s.len(),
{
    if s.len() > 0 {
        lemma_sort_by_ts_props(s.drop_last());
        lemma_insert_by_ts_props(sort_by_ts(s.drop_last()), s.last());
        assert(sort_by_ts(s) == insert_by_ts(sort_by_ts(s.drop_last()), s.last()));
        assert forall|e: (i64, bool)| sort_by_ts(s).contains(e) implies s.contains(e) by {
            assert(sort_by_ts(s.drop_last()).contains(e) || e == s.last());
            if sort_by_ts(s.drop_last()).contains(e) {
                assert(s.drop_last().contains(e));
                let m = choose|m: int| 0 <= m < s.drop_last().len() && s.drop_last()[m] == e;
                assert(s[m] == e);
            } else {
                assert(s[s.len() - 1] == e);
            }
        }
    }
}

/// A sorted sequence absorbs an insertion at the position scanned from
/// the back: right after every element at most the new timestamp.
proof fn lemma_insert_by_ts_at(s: Seq<(i64, bool)>, x: (i64, bool), p: int)
    requires
        sorted_ts(s),
        0 <= p <= s.len(),
        forall|i: int| 0 <= i < p ==> s[i].0 <= x.0,
        forall|i: int| p <= i < s.len() ==> s[i].0 > x.0,
    ensures
        insert_by_ts(s, x) =~= s.subrange(0, p) + seq![x] + s.subrange(p, s.len() as int),
    decreases s.len(),
{
    if s.len() == 0 {
    } else if s.last().0 <= x.0 {
        assert(p == s.len());
    } else {
        assert(p < s.len());
        assert(sorted_ts(s.drop_last()));
        lemma_insert_by_ts_at(s.drop_last(), x, p);
    }
}

/// Sorts the projected ticks ascending by timestamp, keeping the input
/// order of ticks with equal timestamps.
fn sort_ticks(input: &Vec<(i64, bool)>) -> (out: Vec<(i64, bool)>)
    ensures
        out@ == sort_by_ts(input@),
{
    let n = input.len();
    let mut out: Vec<(i64, bool)> = Vec::new();
    let mut i: usize = 0;
    proof {
        assert(input@.take(0) =~= Seq::<(i64, bool)>::empty());
    }
    while i < n
        invariant
            i <= n == input@.len(),
            out@ == sort_by_ts(input@.take(i as int)),
            out@.len() == i,
            sorted_ts(out@),
        decreases n - i,
    {
        let x = input[i];
        proof {
            lemma_sort_by_ts_props(input@.take(i as int));
        }
        // scan from the back for the insertion point
        let mut p: usize = out.len();
        while p > 0 && out[p - 1].0 > x.0
            invariant
                p <= out@.len(),
                forall|q: int| p <= q < out@.len() ==> out@[q].0 > x.0,
            decreases p,
        {
            p = p - 1;
        }
        proof {
            assert forall|q: int| 0 <= q < p implies out@[q].0 <= x.0 by {
                assert(out@[p - 1].0 <= x.0);
            }
            lemma_insert_by_ts_at(out@, x, p as int);
        }
        out.insert(p, x);
        i = i + 1;
        proof {
            assert(input@.take(i as int).drop_last() =~= input@.take(i as int - 1));
            assert(input@.take(i as int).last() == input@[i as int - 1]);
            lemma_insert_by_ts_props(sort_by_ts(input@.take(i as int - 1)), x);
            assert(out@ =~= sort_by_ts(input@.take(i as int)));
        }
    }
    proof {
        assert(input@.take(n as int) =~= input@);
    }
    out
}

/// One segmentation step over the next tick in time order. The state is
/// the closed sessions so far and the open session, each a pair of start
/// and last-seen timestamps. A valid tick extends the open session, or
/// closes it and opens a new one when the gap tolerance is exceeded; an
/// invalid tick closes the open session.
pub open spec fn scan_step(
    st: (Seq<(int, int)>, Option<(int, int)>),
    t: (i64, bool),
) -> (Seq<(int, int)>, Option<(int, int)>) {
    if t.1 {
        match st.1 {
            None => (st.0, Some((t.0 as int, t.0 as int))),
            Some(o) => if t.0 as int - o.1 > MAX_GAP_SECONDS as int {
                (st.0.push(o), Some((t.0 as int, t.0 as int)))
            } else {
                (st.0, Some((o.0, t.0 as int)))
            },
        }
    } else {
        match st.1 {
            None => st,
            Some(o) => (st.0.push(o), None),
        }
    }
}

/// Scans ticks in order and returns the closed sessions and the session
/// still open at the end, if any.
pub open spec fn scan(s: Seq<(i64, bool)>) -> (Seq<(int, int)>, Option<(int, int)>)
    decreases s.len(),
{
    if s.len() == 0 {
        (Seq::empty(), None)
    } else {
        scan_step(scan(s.drop_last()), s.last())
    }
}

/// All focus sessions of a day: the closed ones, plus the one still open
/// at the end of the scan.
pub open spec fn spec_sessions(s: Seq<(i64, bool)>) -> Seq<(int, int)> {
    match scan(s).1 {
        Some(o) => scan(s).0.push(o),
        None => scan(s).0,
    }
}

/// Summed duration of the sessions, in seconds.
pub open spec fn sum_dur(ss: Seq<(int, int)>) -> int
    decreases ss.len(),
{
    if ss.len() == 0 {
        0
    } else {
        sum_dur(ss.drop_last()) + (ss.last().1 - ss.last().0)
    }
}

/// How many sessions last at least the qualifying threshold.
pub open spec fn qual_count(ss: Seq<(int, int)>) -> int
    decreases ss.len(),
{
    if ss.len() == 0 {
        0
    } else {
        qual_count(ss.drop_last()) + (if ss.last().1 - ss.last().0 >= MIN_FOCUS_SECONDS as int {
            1int
        } else {
            0int
        })
    }
}

pub open spec fn spec_total_secs(s: Seq<(i64, bool)>) -> int {
    sum_dur(spec_sessions(s))
}

pub open spec fn spec_qualifying(s: Seq<(i64, bool)>) -> int {
    qual_count(spec_sessions(s))
}

/// Whether the chronologically last tick shows valid presence.
pub open spec fn spec_currently(s: Seq<(i64, bool)>) -> bool {
    s.len() > 0 && s.last().1
}

/// Duration of the in-progress session: the last session, when the last
/// tick is valid.
pub open spec fn spec_current_secs(s: Seq<(i64, bool)>) -> int {
    if spec_currently(s) && spec_sessions(s).len() > 0 {
        spec_sessions(s).last().1 - spec_sessions(s).last().0
    } else {
        0
    }
}

/// Reconstructs the day's focus sessions and reports the count of
/// qualifying sessions (at least 30 minutes), the total focus time, and
/// the state of the in-progress session. The records are sorted by
/// timestamp first, ticks with equal timestamps keeping their input
/// order; `st` below names that sorted projection.
pub fn analyze_focus_time(records: Vec<EmotionRecord>) -> (f: FocusAnalysis)
    ensures
        f.total_focus_sessions == spec_qualifying(sort_by_ts(ticks_of(records@))),
        f.total_focus_time == (spec_total_secs(sort_by_ts(ticks_of(records@))) + 3) / 6,
        f.is_currently_focusing == spec_currently(sort_by_ts(ticks_of(records@))),
        f.current_focus_duration == (spec_current_secs(sort_by_ts(ticks_of(records@))) + 3) / 6,
{
    let n = records.len();
    // project each record onto what segmentation reads
    let mut ticks: Vec<(i64, bool)> = Vec::new();
    let mut i: usize = 0;
    while i < n
        invariant
            i <= n == records@.len(),
            ticks@ =~= ticks_of(records@.take(i as int)),
        decreases n - i,
    {
        let r = &records[i];
        let v = r.is_valid();
        ticks.push((r.timestamp, v));
        i = i + 1;
        proof {
            assert(ticks@ =~= ticks_of(records@.take(i as int)));
        }
    }
    proof {
        assert(records@.take(n as int) =~= records@);
    }
    let sorted = sort_ticks(&ticks);
    proof {
        lemma_sort_by_ts_props(ticks@);
    }
    // scan the sorted ticks once, keeping running totals
    let mut j: usize = 0;
    let mut qc: usize = 0;
    let mut tot: u64 = 0;
    let mut open: Option<(i64, i64)> = None;
    while j < n
        invariant
            j <= n == sorted@.len(),
            sorted_ts(sorted@),
            qc == qual_count(scan(sorted@.take(j as int)).0),
            tot == sum_dur(scan(sorted@.take(j as int)).0),
            qc <= scan(sorted@.take(j as int)).0.len(),
            scan(sorted@.take(j as int)).0.len() <= j,
            match open {
                Some(o) => scan(sorted@.take(j as int)).1 == Some((o.0 as int, o.1 as int)),
                None => scan(sorted@.take(j as int)).1 is None,
            },
            match scan(sorted@.take(j as int)).1 {
                Some(o) => {
                    &&& sorted@[0].0 <= o.0 <= o.1
                    &&& j > 0 && o.1 <= sorted@[j as int - 1].0
                    &&& tot + (o.1 - o.0) <= o.1 - sorted@[0].0
                    &&& scan(sorted@.take(j as int)).0.len() + 1 <= j
                },
                None => {
                    let cl = scan(sorted@.take(j as int)).0;
                    cl.len() > 0 ==> j > 0 && tot <= cl.last().1 - sorted@[0].0
                        && sorted@[0].0 <= cl.last().1 <= sorted@[j as int - 1].0
                },
            },
        decreases n - j,
    {
        let ghost pre = sorted@.take(j as int);
        let t = sorted[j];
        j = j + 1;
        let ghost cur = sorted@.take(j as int);
        proof {
            assert(cur.drop_last() =~= pre);
            assert(cur.last() == sorted@[j as int - 1]);
            assert(scan(cur) == scan_step(scan(pre), sorted@[j as int - 1]));
            if j >= 2 {
                assert(sorted@[j as int - 2].0 <= sorted@[j as int - 1].0);
            }
        }
        if t.1 {
            match open {
                None => {
                    open = Some((t.0, t.0));
                },
                Some(o) => {
                    if (t.0 as i128) - (o.1 as i128) > MAX_GAP_SECONDS as i128 {
                        let dur: u64 = ((o.1 as i128) - (o.0 as i128)) as u64;
                        if dur >= MIN_FOCUS_SECONDS as u64 {
                            qc = qc + 1;
                        }
                        tot = tot + dur;
                        open = Some((t.0, t.0));
                        proof {
                            assert(scan(cur).0.drop_last() =~= scan(pre).0);
                        }
                    } else {
                        open = Some((o.0, t.0));
                    }
                },
            }
        } else {
            match open {
                None => {},
                Some(o) => {
                    let dur: u64 = ((o.1 as i128) - (o.0 as i128)) as u64;
                    if dur >= MIN_FOCUS_SECONDS as u64 {
                        qc = qc + 1;
                    }
                    tot = tot + dur;
                    open = None;
                    proof {
                        assert(scan(cur).0.drop_last() =~= scan(pre).0);
                    }
                },
            }
        }
    }
    proof {
        assert(sorted@.take(n as int) =~= sorted@);
    }
    let ghost st = sorted@;
    // flush the session still open at the end of the scan
    let is_currently_focusing = if n == 0 {
        false
    } else {
        sorted[n - 1].1
    };
    let mut total_focus_sessions = qc;
    let mut total_secs: u64 = tot;
    let mut current_secs: u64 = 0;
    match open {
        Some(o) => {
            let dur: u64 = ((o.1 as i128) - (o.0 as i128)) as u64;
            if dur >= MIN_FOCUS_SECONDS as u64 {
                total_focus_sessions = total_focus_sessions + 1;
            }
            total_secs = total_secs + dur;
            if is_currently_focusing {
                current_secs = dur;
            }
            proof {
                assert(spec_sessions(st) == scan(st).0.push((o.0 as int, o.1 as int)));
                assert(spec_sessions(st).drop_last() =~= scan(st).0);
            }
        },
        None => {
            proof {
                assert(spec_sessions(st) == scan(st).0);
                if n > 0 && st.last().1 {
                    // a valid last tick always leaves a session open
                    assert(scan(st) == scan_step(scan(st.drop_last()), st.last()));
                    assert(scan(st).1 is Some);
                }
            }
        },
    }
    FocusAnalysis {
        total_focus_sessions,
        current_focus_duration: (((current_secs as u128) + 3) / 6) as u64,
        is_currently_focusing,
        total_focus_time: (((total_secs as u128) + 3) / 6) as u64,
    }
}

/// Two valid ticks no more than the gap tolerance apart merge into one
/// session running from the first to the second.
pub proof fn lemma_focus_merge(t1: i64, t2: i64)
    requires
        t1 <= t2,
        t2 - t1 <= MAX_GAP_SECONDS,
    ensures
        spec_sessions(seq![(t1, true), (t2, true)]) =~= seq![(t1 as int, t2 as int)],
{
    let s = seq![(t1, true), (t2, true)];
    let one = seq![(t1, true)];
    assert(s.drop_last() =~= one);
    assert(s.last() == (t2, true));
    assert(one.drop_last() =~= Seq::<(i64, bool)>::empty());
    assert(one.last() == (t1, true));
    assert(scan(Seq::<(i64, bool)>::empty()) == (Seq::<(int, int)>::empty(), None::<(int, int)>));
    assert(scan(one) == scan_step(scan(one.drop_last()), (t1, true)));
    assert(scan(one).1 == Some((t1 as int, t1 as int)));
    assert(scan(s) == scan_step(scan(one), (t2, true)));
    assert(scan(s).1 == Some((t1 as int, t2 as int)));
    assert(scan(s).0 =~= Seq::<(int, int)>::empty());
}

/// Two valid ticks more than the gap tolerance apart split into two
/// sessions of one tick each.
pub proof fn lemma_focus_split(t1: i64, t2: i64)
    requires
        t1 <= t2,
        t2 - t1 > MAX_GAP_SECONDS,
    ensures
        spec_sessions(seq![(t1, true), (t2, true)]) =~= seq![
            (t1 as int, t1 as int),
            (t2 as int, t2 as int),
        ],
{
    let s = seq![(t1, true), (t2, true)];
    let one = seq![(t1, true)];
    assert(s.drop_last() =~= one);
    assert(s.last() == (t2, true));
    assert(one.drop_last() =~= Seq::<(i64, bool)>::empty());
    assert(one.last() == (t1, true));
    assert(scan(Seq::<(i64, bool)>::empty()) == (Seq::<(int, int)>::empty(), None::<(int, int)>));
    assert(scan(one) == scan_step(scan(one.drop_last()), (t1, true)));
    assert(scan(one).1 == Some((t1 as int, t1 as int)));
    assert(scan(s) == scan_step(scan(one), (t2, true)));
    assert(scan(s).1 == Some((t2 as int, t2 as int)));
    assert(scan(s).0 =~= seq![(t1 as int, t1 as int)]);
}

/// A session qualifies exactly when it lasts at least the threshold, so
/// one of exactly 30 minutes counts.
pub proof fn lemma_qualifying_threshold(a: int, b: int)
    ensures
        qual_count(seq![(a, b)]) == (if b - a >= MIN_FOCUS_SECONDS as int {
            1int
        } else {
            0int
        }),
{
    assert(seq![(a, b)].drop_last() =~= Seq::<(int, int)>::empty());
    assert(seq![(a, b)].last() == (a, b));
    assert(qual_count(Seq::<(int, int)>::empty()) == 0);
}

/// Ticks that never show valid presence segment exactly like an empty
/// day: no sessions, no focus time, not currently focusing.
pub proof fn lemma_focus_all_invalid(s: Seq<(i64, bool)>)
    requires
        forall|i: int| 0 <= i < s.len() ==> !(#[trigger] s[i]).1,
    ensures
        scan(s) == (Seq::<(int, int)>::empty(), None::<(int, int)>),
        spec_qualifying(s) == spec_qualifying(Seq::<(i64, bool)>::empty()),
        spec_total_secs(s) == spec_total_secs(Seq::<(i64, bool)>::empty()),
        spec_currently(s) == spec_currently(Seq::<(i64, bool)>::empty()),
        spec_current_secs(s) == spec_current_secs(Seq::<(i64, bool)>::empty()),
    decreases s.len(),
{
    if s.len() > 0 {
        assert(forall|i: int| 0 <= i < s.drop_last().len() ==> !(#[trigger] s.drop_last()[i]).1);
        lemma_focus_all_invalid(s.drop_last());
        assert(!s.last().1);
    }
}

/// A day whose records are all invalid segments exactly like an empty
/// day, whatever order the records arrive in.
pub proof fn lemma_focus_all_invalid_records(records: Seq<EmotionRecord>)
    requires
        forall|i: int| 0 <= i < records.len() ==> !spec_valid(#[trigger] records[i]),
    ensures
        spec_qualifying(sort_by_ts(ticks_of(records))) == 0,
        spec_total_secs(sort_by_ts(ticks_of(records))) == 0,
        !spec_currently(sort_by_ts(ticks_of(records))),
        spec_current_secs(sort_by_ts(ticks_of(records))) == 0,
{
    let ticks = ticks_of(records);
    assert(forall|i: int| 0 <= i < ticks.len() ==> !(#[trigger] ticks[i]).1);
    let sorted = sort_by_ts(ticks);
    lemma_sort_by_ts_props(ticks);
    assert forall|i: int| 0 <= i < sorted.len() implies !(#[trigger] sorted[i]).1 by {
        assert(sorted.contains(sorted[i]));
        assert(ticks.contains(sorted[i]));
        let m = choose|m: int| 0 <= m < ticks.len() && ticks[m] == sorted[i];
    }
    lemma_focus_all_invalid(sorted);
    lemma_focus_all_invalid(Seq::empty());
}

} // verus!
