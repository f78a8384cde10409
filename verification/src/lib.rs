use vstd::prelude::*;

pub mod analysis;
pub mod focus;
pub mod ingest;
pub mod record;
pub mod supervisor;
pub mod timeline;

verus! {

/// Fixed-point scale for confidences and scores: one unit is
/// one ten-thousandth, so `10_000` stands for the real value `1.0`.
pub const UNIT: u32 = 10_000;

use crate::record::EmotionRecord;

/// Every engine's output is a function of its input sequence alone:
/// the same records in the same order give identical results — there is
/// no hidden randomness and no dependence on the clock.
pub proof fn lemma_deterministic(a: Seq<EmotionRecord>, b: Seq<EmotionRecord>)
    requires
        a == b,
    ensures
        crate::analysis::emotion_index_spec(a) == crate::analysis::emotion_index_spec(b),
        crate::analysis::stress_spec(a) == crate::analysis::stress_spec(b),
        crate::timeline::nonempty_buckets(a) == crate::timeline::nonempty_buckets(b),
        forall|k: int| #[trigger] crate::timeline::bucket_value(a, k) == crate::timeline::bucket_value(b, k),
        crate::focus::spec_sessions(crate::focus::sort_by_ts(crate::focus::ticks_of(a)))
            == crate::focus::spec_sessions(crate::focus::sort_by_ts(crate::focus::ticks_of(b))),
{
}

} // verus!
