use std::collections::VecDeque;
use vstd::prelude::*;

verus! {

pub open spec fn sum(s: Seq<u128>) -> int
    decreases s.len(),
{
    if s.len() == 0 {
        0
    } else {
        sum(s.drop_last()) + s.last()
    }
}

proof fn lemma_sum_bound(s: Seq<u128>)
    requires
        forall|i: int| 0 <= i < s.len() ==> #[trigger] s[i] <= u64::MAX,
    ensures
        0 <= sum(s) <= s.len() * u64::MAX,
    decreases s.len(),
{
    if s.len() > 0 {
        lemma_sum_bound(s.drop_last());
    }
}

/// The frame times kept after recording `e`: it comes first, and only the
/// last `WINDOW` are kept.
pub open spec fn recorded(ts: Seq<u128>, e: u128) -> Seq<u128> {
    seq![e] + (if ts.len() < WINDOW {
        ts
    } else {
        ts.subrange(0, WINDOW - 1)
    })
}

/// The frame times kept after recording `es` in turn from none.
pub open spec fn recorded_all(es: Seq<u128>) -> Seq<u128>
    decreases es.len(),
{
    if es.len() == 0 {
        Seq::empty()
    } else {
        recorded(recorded_all(es.drop_last()), es.last())
    }
}

/// After recording frame times in turn, the timer keeps the last `WINDOW`
/// of them, the most recent first; its average is theirs.
pub proof fn law_moving_window(es: Seq<u128>)
    ensures
        recorded_all(es) == es.reverse().take(if es.len() < WINDOW { es.len() as int } else { WINDOW as int }),
    decreases es.len(),
{
    if es.len() > 0 {
        let d = es.drop_last();
        law_moving_window(d);
        let m = if d.len() < WINDOW { d.len() as int } else { WINDOW as int };
        let m2 = if es.len() < WINDOW { es.len() as int } else { WINDOW as int };
        assert(es.reverse() =~= seq![es.last()] + d.reverse());
        assert(recorded_all(es) =~= es.reverse().take(m2));
    }
}

/// Keeps a moving average of the time taken by the last frames.
pub struct FrameTimer {
    timings: VecDeque<u128>,
    avg: u64,
}

/// The number of frames averaged over.
pub const WINDOW: usize = 60;

impl FrameTimer {
    /// Frame times in microseconds, the most recent first.
    pub closed spec fn timings(&self) -> Seq<u128> {
        self.timings@
    }

    /// The average frame time in microseconds.
    pub closed spec fn spec_avg(&self) -> u64 {
        self.avg
    }

    pub closed spec fn wf(&self) -> bool {
        &&& self.timings@.len() <= WINDOW
        &&& forall|i: int| 0 <= i < self.timings@.len() ==> #[trigger] self.timings@[i] <= u64::MAX
    }

    pub fn new() -> (t: Self)
        ensures
            t.wf(),
            t.timings() == Seq::<u128>::empty(),
            t.spec_avg() == 0,
    {
        Self { timings: VecDeque::new(), avg: 0 }
    }

    /// The average frame time in microseconds.
    pub fn avg(&self) -> (a: u64)
        ensures
            a == self.spec_avg(),
    {
        self.avg
    }

    /// Record the time a frame took, in microseconds, and update the
    /// average over the last `WINDOW` frames.
    pub fn record(&mut self, elapsed: u128)
        requires
            old(self).wf(),
            elapsed <= u64::MAX,
        ensures
            final(self).wf(),
            final(self).timings() == recorded(old(self).timings(), elapsed),
            final(self).spec_avg() == sum(final(self).timings()) / (final(self).timings().len() as int),
    {
        let ghost old_t = self.timings@;
        self.timings.truncate(WINDOW - 1);
        self.timings.push_front(elapsed);
        assert(self.timings@ =~= seq![elapsed] + (if old_t.len() < WINDOW {
            old_t
        } else {
            old_t.subrange(0, WINDOW - 1)
        }));
        let n = self.timings.len();
        let mut total: u128 = 0;
        let mut i: usize = 0;
        proof {
            lemma_sum_bound(self.timings@);
        }
        while i < n
            invariant
                n == self.timings@.len(),
                n <= WINDOW,
                forall|j: int| 0 <= j < n ==> #[trigger] self.timings@[j] <= u64::MAX,
                i <= n,
                total == sum(self.timings@.subrange(0, i as int)),
            decreases n - i,
        {
            proof {
                assert(self.timings@.subrange(0, i + 1).drop_last() =~= self.timings@.subrange(0, i as int));
                lemma_sum_bound(self.timings@.subrange(0, i as int));
            }
            total = total + self.timings[i];
            i = i + 1;
        }
        assert(self.timings@.subrange(0, n as int) =~= self.timings@);
        proof {
            lemma_sum_bound(self.timings@);
            assert(total / (n as u128) <= total);
            assert(total / (n as u128) <= u64::MAX) by (nonlinear_arith)
                requires
                    total <= n * u64::MAX,
                    n >= 1,
            ;
        }
        self.avg = (total / (n as u128)) as u64;
    }
}

} // verus!
