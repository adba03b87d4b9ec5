//! The pitch history behind the scrolling spectrograph: a fixed-size ring
//! buffer of per-frame measurements, read from the oldest frame to the newest,
//! and the rule that splits the drawn pitch trail where frames are missing.

use vstd::prelude::*;

verus! {

/// A ring buffer holding the last `history_len` frames pushed into it.
///
/// Its view is the frames in the order they were pushed, oldest first; the
/// frames that a new history starts with (all equal to one blank frame) count
/// as pushed before any other.
pub struct Spectrograph<T> {
    /// Number of frames kept.
    history_len: usize,
    /// The stored frames; `cursor` is the slot that the next push overwrites.
    history: Vec<T>,
    /// Slot of the oldest frame, which is also the next one to be overwritten.
    cursor: usize,
}

impl<T> View for Spectrograph<T> {
    type V = Seq<T>;

    /// The frames, oldest first.
    closed spec fn view(&self) -> Seq<T> {
        Seq::new(self.history_len as nat, |age: int| self.history@[self.slot(age)])
    }
}

impl<T> Spectrograph<T> {
    /// The stored frames fill `history_len` slots and the cursor points at one of them.
    pub closed spec fn well_formed(self) -> bool {
        &&& self.history@.len() == self.history_len
        &&& if self.history_len == 0 {
            self.cursor == 0
        } else {
            self.cursor < self.history_len
        }
    }

    /// The slot that holds the `age`-th oldest frame.
    spec fn slot(self, age: int) -> int {
        if age < self.history_len - self.cursor {
            self.cursor + age
        } else {
            self.cursor + age - self.history_len
        }
    }


    /// Number of frames the history keeps.
    pub closed spec fn capacity(self) -> nat {
        self.history_len as nat
    }

    /// A history shows exactly as many frames as it keeps.
    pub proof fn lemma_view_len(self)
        ensures
            self.view().len() == self.capacity(),
    {
    }

}

impl<T: Copy> Spectrograph<T> {
    /// Creates a history of `history_len` frames, each equal to `blank`.
    pub fn new(history_len: usize, blank: T) -> (graph: Self)
        ensures
            graph.well_formed(),
            graph.capacity() == history_len,
            graph.view() == Seq::new(history_len as nat, |age: int| blank),
    {
        let mut history: Vec<T> = Vec::new();
        while history.len() < history_len
            invariant
                history.len() <= history_len,
                forall|i: int| 0 <= i < history.len() ==> history@[i] == blank,
            decreases history_len - history.len(),
        {
            history.push(blank);
        }
        let graph = Spectrograph { history_len, history, cursor: 0 };
        assert(graph.view() =~= Seq::new(history_len as nat, |age: int| blank));
        graph
    }

    /// Number of frames the history keeps.
    pub fn history_len(&self) -> (len: usize)
        ensures
            len == self.capacity(),
    {
        self.history_len
    }

    /// Pushes a new frame, dropping the oldest one.
    pub fn push(&mut self, frame: T)
        requires
            old(self).well_formed(),
            old(self).capacity() > 0,
        ensures
            final(self).well_formed(),
            final(self).capacity() == old(self).capacity(),
            final(self).view() == old(self).view().drop_first().push(frame),
            final(self).view() == after_pushes(old(self).view(), seq![frame]),
    {
        let ghost before = self.view();
        let ghost old_cursor = self.cursor;
        let cursor = self.cursor;
        self.history.set(cursor, frame);
        if self.cursor + 1 < self.history_len {
            self.cursor = self.cursor + 1;
        } else {
            self.cursor = 0;
        }
        proof {
            let after = self.view();
            let expected = before.drop_first().push(frame);
            assert forall|age: int| 0 <= age < after.len() implies after[age] == expected[age] by {
                if age < self.history_len - 1 {
                    assert(self.slot(age) != old_cursor);
                } else {
                    assert(self.slot(age) == old_cursor);
                }
            }
            assert(after =~= expected);
            assert(seq![frame].drop_last() =~= Seq::<T>::empty());
            assert(seq![frame].last() == frame);
            assert(after_pushes(before, seq![frame].drop_last()) == before);
            assert(after_pushes(before, seq![frame]) == before.drop_first().push(frame));
        }
    }

    /// The `age`-th oldest frame (0 is the oldest, `history_len() - 1` the newest).
    pub fn frame(&self, age: usize) -> (frame: T)
        requires
            self.well_formed(),
            age < self.capacity(),
        ensures
            frame == self.view()[age as int],
    {
        if age < self.history_len - self.cursor {
            self.history[self.cursor + age]
        } else {
            self.history[age - (self.history_len - self.cursor)]
        }
    }

    /// The most recently pushed frame.
    pub fn newest(&self) -> (frame: T)
        requires
            self.well_formed(),
            self.capacity() > 0,
        ensures
            frame == self.view().last(),
    {
        self.frame(self.history_len - 1)
    }
}

/// The frames of a history whose frames were `frames_before`, after `pushed`
/// was pushed into it frame by frame.
pub open spec fn after_pushes<T>(frames_before: Seq<T>, pushed: Seq<T>) -> Seq<T>
    decreases pushed.len(),
{
    if pushed.len() == 0 {
        frames_before
    } else {
        after_pushes(frames_before, pushed.drop_last()).drop_first().push(pushed.last())
    }
}

/// A history always shows the latest frames: after a run of pushes it holds
/// the last `capacity` frames of what it held followed by what was pushed.
pub proof fn lemma_history_keeps_latest<T>(frames_before: Seq<T>, pushed: Seq<T>)
    requires
        frames_before.len() > 0,
    ensures
        after_pushes(frames_before, pushed) == (frames_before + pushed).subrange(
            pushed.len() as int,
            (frames_before.len() + pushed.len()) as int,
        ),
    decreases pushed.len(),
{
    if pushed.len() > 0 {
        lemma_history_keeps_latest(frames_before, pushed.drop_last());
        let n = frames_before.len() as int;
        let m = pushed.len() as int;
        assert((frames_before + pushed.drop_last()).subrange(m - 1, n + m - 1).drop_first().push(
            pushed.last(),
        ) =~= (frames_before + pushed).subrange(m, n + m));
    }
}

/// Pushing one more frame extends a run of pushes: the frames after pushing
/// `pushed` and then `frame` are those after pushing `pushed.push(frame)`.
/// With `push`'s `ensures`, this carries the frames through any number of
/// calls of `push`, and `lemma_history_keeps_latest` gives them in closed form.
pub proof fn lemma_after_pushes_step<T>(frames_before: Seq<T>, pushed: Seq<T>, frame: T)
    ensures
        after_pushes(after_pushes(frames_before, pushed), seq![frame]) == after_pushes(
            frames_before,
            pushed.push(frame),
        ),
{
    let mid = after_pushes(frames_before, pushed);
    assert(seq![frame].drop_last() =~= Seq::<T>::empty());
    assert(seq![frame].last() == frame);
    assert(after_pushes(mid, seq![frame].drop_last()) == mid);
    assert(after_pushes(mid, seq![frame]) == mid.drop_first().push(frame));
    assert(pushed.push(frame).drop_last() =~= pushed);
    assert(pushed.push(frame).last() == frame);
}

/// Once at least `capacity` frames were pushed, the history holds exactly
/// the last `capacity` of them, oldest first.
pub proof fn lemma_history_is_last_pushed<T>(frames_before: Seq<T>, pushed: Seq<T>)
    requires
        frames_before.len() > 0,
        pushed.len() >= frames_before.len(),
    ensures
        after_pushes(frames_before, pushed) == pushed.subrange(
            pushed.len() - frames_before.len(),
            pushed.len() as int,
        ),
{
    lemma_history_keeps_latest(frames_before, pushed);
    let n = frames_before.len() as int;
    let m = pushed.len() as int;
    assert((frames_before + pushed).subrange(m, n + m) =~= pushed.subrange(m - n, m));
}

/// A point of the drawn pitch trail: the age of its frame (0 = oldest) and
/// whether a line joins it to the point of the frame just before it.
#[derive(Clone, Copy, Debug, PartialEq, Eq, Structural)]
pub struct TrailPoint {
    pub age: usize,
    pub joined: bool,
}

/// Lays out the pitch trail over frames of which `shown[age]` tells whether
/// the frame is drawn (it has a pitch, confidently enough). Every drawn frame
/// gives one point, oldest first; a frame that is not drawn breaks the trail,
/// so a point is joined to the previous one exactly when the frame before it
/// is drawn too.
pub fn trail_points(shown: &[bool]) -> (points: Vec<TrailPoint>)
    ensures
        forall|k: int|
            0 <= k < points.len() ==> {
                &&& #[trigger] points[k].age < shown.len()
                &&& shown[points[k].age as int]
                &&& points[k].joined == (points[k].age > 0 && shown[points[k].age - 1])
            },
        forall|k1: int, k2: int|
            0 <= k1 < k2 < points.len() ==> points[k1].age < points[k2].age,
        forall|age: int|
            0 <= age < shown.len() && #[trigger] shown[age] ==> exists|k: int|
                0 <= k < points.len() && points[k].age == age,
{
    let mut points: Vec<TrailPoint> = Vec::new();
    let mut age: usize = 0;
    while age < shown.len()
        invariant
            age <= shown.len(),
            forall|k: int|
                0 <= k < points.len() ==> {
                    &&& #[trigger] points[k].age < age
                    &&& shown[points[k].age as int]
                    &&& points[k].joined == (points[k].age > 0 && shown[points[k].age - 1])
                },
            forall|k1: int, k2: int|
                0 <= k1 < k2 < points.len() ==> points[k1].age < points[k2].age,
            forall|a: int|
                0 <= a < age && #[trigger] shown[a] ==> exists|k: int|
                    0 <= k < points.len() && points[k].age == a,
        decreases shown.len() - age,
    {
        if shown[age] {
            let joined = age > 0 && shown[age - 1];
            let ghost before = points@;
            points.push(TrailPoint { age, joined });
            proof {
                assert forall|a: int|
                    0 <= a < age + 1 && #[trigger] shown[a] implies exists|k: int|
                        0 <= k < points.len() && points[k].age == a by {
                    if a == age {
                        assert(points[before.len() as int].age == a);
                    } else {
                        let k = choose|k: int| 0 <= k < before.len() && before[k].age == a;
                        assert(points[k].age == a);
                    }
                }
            }
        }
        age = age + 1;
    }
    points
}

} // verus!
