//! The traffic chart: a window of the newest upload and download samples and the peak
//! that scales them.
use vstd::prelude::*;

verus! {

/// How many samples the chart keeps (about a minute of frames).
pub const MAX_POINTS: usize = 60;

/// The samples of the chart, oldest first: upload and download bytes per second, one
/// pair per traffic frame.
pub struct SpeedWindow {
    pub up: Vec<u64>,
    pub down: Vec<u64>,
}

/// A sequence after a new sample: the sample appended, and the oldest one dropped once
/// there are more than `MAX_POINTS`.
pub open spec fn keep_newest(s: Seq<u64>, x: u64) -> Seq<u64> {
    if s.len() + 1 > MAX_POINTS { s.push(x).drop_first() } else { s.push(x) }
}

/// The window after a whole history of samples, one at a time from empty.
pub open spec fn window_after(history: Seq<u64>) -> Seq<u64>
    decreases history.len(),
{
    if history.len() == 0 {
        Seq::empty()
    } else {
        keep_newest(window_after(history.drop_last()), history.last())
    }
}

/// The newest `MAX_POINTS` samples of a history (all of them while there are fewer).
pub open spec fn newest(history: Seq<u64>) -> Seq<u64> {
    if history.len() <= MAX_POINTS {
        history
    } else {
        history.subrange(history.len() - MAX_POINTS, history.len() as int)
    }
}

/// The largest sample of a sequence, 0 when it is empty.
pub open spec fn seq_max(s: Seq<u64>) -> u64
    decreases s.len(),
{
    if s.len() == 0 {
        0
    } else {
        let m = seq_max(s.drop_last());
        if s.last() > m { s.last() } else { m }
    }
}

/// The peak that scales the chart: the largest upload or download sample, at least 1.
pub open spec fn peak_of(up: Seq<u64>, down: Seq<u64>) -> u64 {
    let m = if seq_max(up) > seq_max(down) { seq_max(up) } else { seq_max(down) };
    if m > 1 { m } else { 1 }
}

impl SpeedWindow {
    /// Both sequences hold one sample per frame, at most `MAX_POINTS` of them.
    pub open spec fn wf(&self) -> bool {
        &&& self.up@.len() == self.down@.len()
        &&& self.up@.len() <= MAX_POINTS
    }

    /// An empty chart.
    pub fn new() -> (r: SpeedWindow)
        ensures
            r.wf(),
            r.up@ == Seq::<u64>::empty(),
            r.down@ == Seq::<u64>::empty(),
    {
        SpeedWindow { up: Vec::new(), down: Vec::new() }
    }

    /// Records the samples of one traffic frame.
    pub fn record(&mut self, up: u64, down: u64)
        requires
            old(self).wf(),
        ensures
            final(self).wf(),
            final(self).up@ == keep_newest(old(self).up@, up),
            final(self).down@ == keep_newest(old(self).down@, down),
    {
        self.up.push(up);
        self.down.push(down);
        if self.up.len() > MAX_POINTS {
            self.up.remove(0);
            self.down.remove(0);
        }
        proof {
            assert(keep_newest(old(self).up@, up) =~= self.up@);
            assert(keep_newest(old(self).down@, down) =~= self.down@);
        }
    }

    /// The peak that scales the chart.
    pub fn peak(&self) -> (r: u64)
        ensures
            r == peak_of(self.up@, self.down@),
    {
        let a = max_sample(&self.up);
        let b = max_sample(&self.down);
        let m = if a > b { a } else { b };
        if m > 1 { m } else { 1 }
    }
}

/// The largest sample, 0 for none.
pub fn max_sample(v: &Vec<u64>) -> (r: u64)
    ensures
        r == seq_max(v@),
{
    let mut m: u64 = 0;
    let mut i: usize = 0;
    proof { assert(v@.subrange(0, 0) =~= Seq::<u64>::empty()); }
    while i < v.len()
        invariant
            i <= v@.len(),
            m == seq_max(v@.subrange(0, i as int)),
        decreases v@.len() - i,
    {
        proof { assert(v@.subrange(0, i + 1).drop_last() =~= v@.subrange(0, i as int)); }
        if v[i] > m {
            m = v[i];
        }
        i = i + 1;
    }
    proof { assert(v@.subrange(0, v@.len() as int) =~= v@); }
    m
}

/// The largest sample bounds every sample, and is one of them unless the sequence is
/// empty.
pub proof fn lemma_seq_max(s: Seq<u64>)
    ensures
        forall|i: int| 0 <= i < s.len() ==> s[i] <= seq_max(s),
        s.len() > 0 ==> s.contains(seq_max(s)),
    decreases s.len(),
{
    if s.len() > 0 {
        lemma_seq_max(s.drop_last());
        assert forall|i: int| 0 <= i < s.len() implies s[i] <= seq_max(s) by {
            if i < s.len() - 1 {
                assert(s[i] == s.drop_last()[i]);
            }
        }
        if seq_max(s) == s.last() {
            assert(s[s.len() - 1] == seq_max(s));
        } else {
            let j = choose|j: int| 0 <= j < s.drop_last().len() && s.drop_last()[j] == seq_max(s.drop_last());
            assert(s[j] == seq_max(s));
        }
    }
}

/// The chart always shows the newest samples: after any history of frames, the window
/// holds exactly the last `MAX_POINTS` samples of it, oldest first.
pub proof fn law_window_keeps_newest(history: Seq<u64>)
    ensures
        window_after(history) == newest(history),
    decreases history.len(),
{
    if history.len() > 0 {
        let h = history.drop_last();
        law_window_keeps_newest(h);
        if h.len() + 1 > MAX_POINTS {
            if h.len() <= MAX_POINTS {
                assert(h.push(history.last()).drop_first() =~= history.subrange(history.len() - MAX_POINTS, history.len() as int));
            } else {
                assert(h.subrange(h.len() - MAX_POINTS, h.len() as int).push(history.last()).drop_first()
                    =~= history.subrange(history.len() - MAX_POINTS, history.len() as int));
            }
        } else {
            assert(h.push(history.last()) =~= history);
        }
    }
}

/// The peak scales every sample into the chart: no sample exceeds it, it is at least 1,
/// and above 1 it is one of the samples.
pub proof fn law_peak_bounds_samples(up: Seq<u64>, down: Seq<u64>)
    ensures
        forall|i: int| 0 <= i < up.len() ==> up[i] <= peak_of(up, down),
        forall|i: int| 0 <= i < down.len() ==> down[i] <= peak_of(up, down),
        peak_of(up, down) >= 1,
        peak_of(up, down) > 1 ==> up.contains(peak_of(up, down)) || down.contains(peak_of(up, down)),
{
    lemma_seq_max(up);
    lemma_seq_max(down);
    if up.len() == 0 {
        assert(seq_max(up) == 0);
    }
    if down.len() == 0 {
        assert(seq_max(down) == 0);
    }
}

} // verus!
