//! Pure rendering of timeline buckets: one character per bucket for the
//! terminal listing, one HTML segment per bucket for the dashboard.

use vstd::prelude::*;

use crate::types::TimelineBucketState;

verus! {

/// Number of buckets a timeline query uses when the caller names none.
pub fn default_num_buckets() -> (r: usize)
    ensures
        r == 20,
{
    20
}

/// The terminal character for one bucket: a high line for `Online`, a low
/// line for `Offline`, a dot for `NoData`.
pub open spec fn bucket_char(s: TimelineBucketState) -> char {
    match s {
        TimelineBucketState::Online => '-',
        TimelineBucketState::Offline => '_',
        TimelineBucketState::NoData => '\u{b7}',
    }
}

/// Render at most `max_width` buckets as one character each.
pub fn render_timeline(buckets: &Vec<TimelineBucketState>, max_width: usize) -> (r: String)
    ensures
        r@.len() == if max_width <= buckets@.len() {
            max_width as int
        } else {
            buckets@.len() as int
        },
        forall|i: int| 0 <= i < r@.len() ==> r@[i] == bucket_char(buckets@[i]),
{
    proof {
        reveal_strlit("-");
        reveal_strlit("_");
        reveal_strlit("\u{b7}");
        assert("-"@ =~= seq!['-']);
        assert("_"@ =~= seq!['_']);
        assert("\u{b7}"@ =~= seq!['\u{b7}']);
    }
    let n = if max_width <= buckets.len() {
        max_width
    } else {
        buckets.len()
    };
    let mut r = String::new();
    let mut i: usize = 0;
    while i < n
        invariant
            i <= n,
            n <= buckets@.len(),
            r@.len() == i,
            forall|k: int| 0 <= k < i ==> r@[k] == bucket_char(buckets@[k]),
            "-"@ == seq!['-'],
            "_"@ == seq!['_'],
            "\u{b7}"@ == seq!['\u{b7}'],
        decreases n - i,
    {
        match buckets[i] {
            TimelineBucketState::Online => r.append("-"),
            TimelineBucketState::Offline => r.append("_"),
            TimelineBucketState::NoData => r.append("\u{b7}"),
        }
        i += 1;
    }
    r
}

/// The HTML segment for one bucket.
pub open spec fn segment_html(s: TimelineBucketState) -> Seq<char> {
    match s {
        TimelineBucketState::Online => "<span class=\"timeline-segment online\"></span>"@,
        TimelineBucketState::Offline => "<span class=\"timeline-segment offline\"></span>"@,
        TimelineBucketState::NoData => "<span class=\"timeline-segment nodata\"></span>"@,
    }
}

/// The HTML for a whole bucket sequence, one segment per bucket.
pub open spec fn timeline_bar_html(buckets: Seq<TimelineBucketState>) -> Seq<char>
    decreases buckets.len(),
{
    if buckets.len() == 0 {
        Seq::empty()
    } else {
        timeline_bar_html(buckets.drop_last()) + segment_html(buckets.last())
    }
}

/// Render a bucket sequence as a bar of HTML segments.
pub fn render_timeline_bar(buckets: &Vec<TimelineBucketState>) -> (r: String)
    ensures
        r@ == timeline_bar_html(buckets@),
{
    let mut r = String::new();
    let n = buckets.len();
    let mut i: usize = 0;
    while i < n
        invariant
            i <= n,
            n == buckets@.len(),
            r@ == timeline_bar_html(buckets@.take(i as int)),
        decreases n - i,
    {
        proof {
            assert(buckets@.take(i + 1).drop_last() =~= buckets@.take(i as int));
            assert(buckets@.take(i + 1).last() == buckets@[i as int]);
        }
        match buckets[i] {
            TimelineBucketState::Online => r.append("<span class=\"timeline-segment online\"></span>"),
            TimelineBucketState::Offline => r.append("<span class=\"timeline-segment offline\"></span>"),
            TimelineBucketState::NoData => r.append("<span class=\"timeline-segment nodata\"></span>"),
        }
        i += 1;
    }
    proof {
        assert(buckets@.take(n as int) =~= buckets@);
    }
    r
}

} // verus!
