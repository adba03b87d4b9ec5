//! The buffer of recent samples that feeds the pitch detector.
//!
//! Captured samples are appended as they arrive. Whenever it holds a full
//! analysis window (`min_samples` samples), the newest window is analysed and
//! then all but the newest half window is dropped, so that consecutive windows
//! overlap by half. A backlog of more than four windows is cut back to two.

use vstd::prelude::*;

verus! {

/// Recent samples awaiting pitch analysis, oldest first.
pub struct SampleWindow<T> {
    samples: Vec<T>,
    min_samples: usize,
}

impl<T> View for SampleWindow<T> {
    type V = Seq<T>;

    /// The buffered samples, oldest first.
    closed spec fn view(&self) -> Seq<T> {
        self.samples@
    }
}

impl<T> SampleWindow<T> {
    /// The window length is positive.
    pub open spec fn well_formed(self) -> bool {
        self.window_len() > 0
    }


    /// Number of samples in one analysis window.
    pub closed spec fn window_len(self) -> nat {
        self.min_samples as nat
    }
}

/// The number of samples kept after a window was analysed: half a window.
pub open spec fn overlap_len(window_len: nat) -> nat {
    window_len / 2
}

impl<T: Copy> SampleWindow<T> {
    /// Creates an empty buffer for analysis windows of `min_samples` samples.
    pub fn new(min_samples: usize) -> (window: Self)
        requires
            min_samples > 0,
        ensures
            window.well_formed(),
            window.window_len() == min_samples,
            window.view() == Seq::<T>::empty(),
    {
        SampleWindow { samples: Vec::new(), min_samples }
    }

    /// Number of samples in one analysis window.
    pub fn min_samples(&self) -> (count: usize)
        ensures
            count == self.window_len(),
    {
        self.min_samples
    }

    /// Number of buffered samples.
    pub fn len(&self) -> (count: usize)
        ensures
            count == self.view().len(),
    {
        self.samples.len()
    }

    /// Appends newly captured samples.
    pub fn extend(&mut self, chunk: &[T])
        ensures
            final(self).well_formed() == old(self).well_formed(),
            final(self).window_len() == old(self).window_len(),
            final(self).view() == old(self).view() + chunk@,
    {
        let ghost before = self.samples@;
        let mut i: usize = 0;
        while i < chunk.len()
            invariant
                i <= chunk.len(),
                self.min_samples == old(self).min_samples,
                self.samples@ == before + chunk@.subrange(0, i as int),
            decreases chunk.len() - i,
        {
            self.samples.push(chunk[i]);
            i = i + 1;
            assert(self.samples@ =~= before + chunk@.subrange(0, i as int));
        }
        assert(chunk@.subrange(0, chunk@.len() as int) =~= chunk@);
    }

    /// Whether a full analysis window is buffered.
    pub fn has_full_window(&self) -> (full: bool)
        ensures
            full == (self.view().len() >= self.window_len()),
    {
        self.samples.len() >= self.min_samples
    }

    /// The newest `min_samples` samples, oldest first.
    pub fn latest_window(&self) -> (window: &[T])
        requires
            self.view().len() >= self.window_len(),
        ensures
            window@ == self.view().subrange(
                self.view().len() - self.window_len(),
                self.view().len() as int,
            ),
    {
        let len = self.samples.len();
        let start = len - self.min_samples;
        &self.samples.as_slice()[start..len]
    }

    /// Drops the samples of an analysed window, keeping only its newest half
    /// so that the next window overlaps it.
    pub fn advance(&mut self)
        requires
            old(self).view().len() >= old(self).window_len(),
        ensures
            final(self).well_formed() == old(self).well_formed(),
            final(self).window_len() == old(self).window_len(),
            final(self).view() == old(self).view().subrange(
                old(self).view().len() - overlap_len(old(self).window_len()),
                old(self).view().len() as int,
            ),
            2 * final(self).view().len() <= old(self).window_len() < 2 * final(self).view().len() + 2,
    {
        let keep = self.min_samples / 2;
        let start = self.samples.len() - keep;
        let kept = self.samples.split_off(start);
        self.samples = kept;
    }

    /// One step of the analysis: appends newly captured samples and, when a
    /// full window is buffered, hands out a copy of the newest window and
    /// advances past it; then cuts any backlog. Since advancing leaves only
    /// half a window, at most one window is analysed per step and the buffer
    /// always ends shorter than one window, so the backlog cut never fires.
    pub fn push_chunk(&mut self, chunk: &[T]) -> (window: Option<Vec<T>>)
        requires
            old(self).well_formed(),
        ensures
            final(self).well_formed(),
            final(self).window_len() == old(self).window_len(),
            final(self).view().len() < old(self).window_len(),
            ({
                let all = old(self).view() + chunk@;
                let m = old(self).window_len();
                match window {
                    Some(w) => all.len() >= m && w@ == all.subrange(all.len() - m, all.len() as int)
                        && final(self).view() == all.subrange(
                        all.len() - overlap_len(m),
                        all.len() as int,
                    ),
                    None => all.len() < m && final(self).view() == all,
                }
            }),
            window is Some ==> 2 * final(self).view().len() <= old(self).window_len() < 2
                * final(self).view().len() + 2,
    {
        self.extend(chunk);
        let mut analysed: Option<Vec<T>> = None;
        if self.has_full_window() {
            analysed = Some(vstd::slice::slice_to_vec(self.latest_window()));
            self.advance();
        }
        self.trim_backlog();
        analysed
    }

    /// Cuts a backlog of more than four windows back to the newest two.
    pub fn trim_backlog(&mut self)
        ensures
            final(self).well_formed() == old(self).well_formed(),
            final(self).window_len() == old(self).window_len(),
            old(self).view().len() > 4 * old(self).window_len() ==> final(self).view()
                == old(self).view().subrange(
                old(self).view().len() - 2 * old(self).window_len(),
                old(self).view().len() as int,
            ),
            old(self).view().len() <= 4 * old(self).window_len() ==> final(self).view()
                == old(self).view(),
    {
        let len = self.samples.len();
        if len > 0 && (len - 1) / 4 >= self.min_samples {
            let start = len - 2 * self.min_samples;
            let kept = self.samples.split_off(start);
            self.samples = kept;
        }
    }
}

/// After a window is analysed, the samples kept are its newest half,
/// rounded down: twice the overlap is the window length or one less.
pub proof fn lemma_overlap_is_half(window_len: nat)
    ensures
        2 * overlap_len(window_len) <= window_len < 2 * overlap_len(window_len) + 2,
        window_len > 0 ==> overlap_len(window_len) < window_len,
{
}

} // verus!
