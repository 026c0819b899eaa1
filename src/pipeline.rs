//! The receiving side of the link: one frame accumulator and one sliding
//! window per magnetometer axis, fed from successive read windows.
use vstd::prelude::*;
use crate::frame::{Buffer, decoded, frames, held_at_end};
use crate::record::Record;
use crate::window::{MovingWindow, filled, sum_of};

verus! {

/// The window `w` (slots, cursor) after `v` is added to it.
pub open spec fn ring_push(w: (Seq<i16>, int), v: i16) -> (Seq<i16>, int) {
    (w.0.update(w.1, v), (w.1 + 1) % (w.0.len() as int))
}

/// The window `w` after the values `vs` are added to it in order.
pub open spec fn ring_after(w: (Seq<i16>, int), vs: Seq<i16>) -> (Seq<i16>, int)
    decreases vs.len(),
{
    if vs.len() == 0 {
        w
    } else {
        ring_push(ring_after(w, vs.drop_last()), vs.last())
    }
}

/// The magnetometer X values of the records `vs` of shape `T`.
pub open spec fn x_values<T: Record>(vs: Seq<T::V>) -> Seq<i16> {
    vs.map_values(|v: T::V| T::axes_of(v).0)
}

/// The magnetometer Y values of the records `vs` of shape `T`.
pub open spec fn y_values<T: Record>(vs: Seq<T::V>) -> Seq<i16> {
    vs.map_values(|v: T::V| T::axes_of(v).1)
}

/// The smoothed magnetometer after one record: for each axis, the sum of
/// its window and the window's length. The mean of an axis is its sum over
/// its length.
#[derive(Clone, Copy, Debug, PartialEq, Eq, Structural)]
pub struct Smoothed {
    pub mag_x_sum: i128,
    pub mag_x_len: usize,
    pub mag_y_sum: i128,
    pub mag_y_len: usize,
}

/// What one read window yielded: the records that decoded, in stream
/// order, and for each the smoothed magnetometer once it was added.
pub struct Batch<T> {
    pub records: Vec<T>,
    pub smoothed: Vec<Smoothed>,
}

/// The length of each magnetometer window of the client.
pub const MAG_WINDOW: usize = 32;

/// The receiving pipeline: the frame accumulator and the X and Y
/// magnetometer windows, owned together by the reading task.
pub struct TelemetryPipeline {
    frames: Buffer,
    mag_x: MovingWindow<i16>,
    mag_y: MovingWindow<i16>,
}

proof fn lemma_ring_after_len(w: (Seq<i16>, int), vs: Seq<i16>)
    requires
        0 <= w.1 < w.0.len(),
    ensures
        ring_after(w, vs).0.len() == w.0.len(),
        0 <= ring_after(w, vs).1 < w.0.len(),
    decreases vs.len(),
{
    if vs.len() > 0 {
        lemma_ring_after_len(w, vs.drop_last());
        let c = ring_after(w, vs.drop_last()).1;
        vstd::arithmetic::div_mod::lemma_mod_pos_bound(c + 1, w.0.len() as int);
    }
}

impl TelemetryPipeline {
    pub closed spec fn wf(&self) -> bool {
        &&& self.frames.wf()
        &&& self.mag_x.wf()
        &&& self.mag_y.wf()
        &&& 0 <= self.mag_x.cursor() < self.mag_x@.len()
        &&& 0 <= self.mag_y.cursor() < self.mag_y@.len()
    }

    /// The encoded bytes of the frame in progress.
    pub closed spec fn held(&self) -> Seq<u8> {
        self.frames@
    }

    /// The X window: its slots and its cursor.
    pub closed spec fn x_window(&self) -> (Seq<i16>, int) {
        (self.mag_x@, self.mag_x.cursor())
    }

    /// The Y window: its slots and its cursor.
    pub closed spec fn y_window(&self) -> (Seq<i16>, int) {
        (self.mag_y@, self.mag_y.cursor())
    }

    /// A pipeline with nothing held and both windows of length
    /// `mag_window` (one where it is zero) filled with `initial`.
    pub fn new(mag_window: usize, initial: i16) -> (r: TelemetryPipeline)
        ensures
            r.wf(),
            r.held() == Seq::<u8>::empty(),
            r.x_window() == (filled(mag_window as nat, initial), 0int),
            r.y_window() == (filled(mag_window as nat, initial), 0int),
    {
        TelemetryPipeline {
            frames: Buffer::new(),
            mag_x: MovingWindow::new(mag_window, initial),
            mag_y: MovingWindow::new(mag_window, initial),
        }
    }

    /// Adds one magnetometer reading to the windows and returns the
    /// smoothed values.
    pub fn observe(&mut self, axes: (i16, i16)) -> (r: Smoothed)
        requires
            old(self).wf(),
        ensures
            final(self).wf(),
            final(self).held() == old(self).held(),
            final(self).x_window() == ring_push(old(self).x_window(), axes.0),
            final(self).y_window() == ring_push(old(self).y_window(), axes.1),
            r.mag_x_sum == sum_of(final(self).x_window().0),
            r.mag_x_len == old(self).x_window().0.len(),
            r.mag_y_sum == sum_of(final(self).y_window().0),
            r.mag_y_len == old(self).y_window().0.len(),
    {
        self.mag_x.add(axes.0);
        self.mag_y.add(axes.1);
        Smoothed {
            mag_x_sum: self.mag_x.sum(),
            mag_x_len: self.mag_x.len(),
            mag_y_sum: self.mag_y.sum(),
            mag_y_len: self.mag_y.len(),
        }
    }

    /// Scans one read window (see `Buffer::drain`) and feeds the
    /// magnetometer of each record that decoded, in order, to the windows.
    pub fn process<T: Record>(&mut self, window: &[u8]) -> (r: Batch<T>)
        requires
            old(self).wf(),
        ensures
            final(self).wf(),
            final(self).held() == held_at_end(old(self).held(), window@),
            r.records@.map_values(|t: T| t@) == decoded::<T>(frames(old(self).held(), window@)),
            r.smoothed@.len() == r.records@.len(),
            final(self).x_window() == ring_after(
                old(self).x_window(),
                x_values::<T>(decoded::<T>(frames(old(self).held(), window@))),
            ),
            final(self).y_window() == ring_after(
                old(self).y_window(),
                y_values::<T>(decoded::<T>(frames(old(self).held(), window@))),
            ),
            forall|k: int|
                0 <= k < r.smoothed@.len() ==> {
                    let vs = decoded::<T>(frames(old(self).held(), window@));
                    &&& (#[trigger] r.smoothed@[k]).mag_x_sum == sum_of(
                        ring_after(old(self).x_window(), x_values::<T>(vs).take(k + 1)).0,
                    )
                    &&& r.smoothed@[k].mag_y_sum == sum_of(
                        ring_after(old(self).y_window(), y_values::<T>(vs).take(k + 1)).0,
                    )
                    &&& r.smoothed@[k].mag_x_len == old(self).x_window().0.len()
                    &&& r.smoothed@[k].mag_y_len == old(self).y_window().0.len()
                },
    {
        let ghost xw = self.x_window();
        let ghost yw = self.y_window();
        let records = self.frames.drain::<T>(window);
        let ghost vs = records@.map_values(|t: T| t@);
        let ghost xs = x_values::<T>(vs);
        let ghost ys = y_values::<T>(vs);
        let mut smoothed: Vec<Smoothed> = Vec::new();
        let mut k: usize = 0;
        while k < records.len()
            invariant
                self.wf(),
                self.held() == held_at_end(old(self).held(), window@),
                vs == records@.map_values(|t: T| t@),
                xs == x_values::<T>(vs),
                ys == y_values::<T>(vs),
                k <= records@.len(),
                0 <= xw.1 < xw.0.len(),
                0 <= yw.1 < yw.0.len(),
                smoothed@.len() == k,
                self.x_window() == ring_after(xw, xs.take(k as int)),
                self.y_window() == ring_after(yw, ys.take(k as int)),
                forall|j: int|
                    0 <= j < k ==> {
                        &&& (#[trigger] smoothed@[j]).mag_x_sum == sum_of(
                            ring_after(xw, xs.take(j + 1)).0,
                        )
                        &&& smoothed@[j].mag_y_sum == sum_of(ring_after(yw, ys.take(j + 1)).0)
                        &&& smoothed@[j].mag_x_len == xw.0.len()
                        &&& smoothed@[j].mag_y_len == yw.0.len()
                    },
            decreases records@.len() - k,
        {
            let axes = records[k].magnetometer();
            proof {
                assert(vs[k as int] == records@[k as int]@);
                assert(xs.take(k + 1).drop_last() =~= xs.take(k as int));
                assert(ys.take(k + 1).drop_last() =~= ys.take(k as int));
                lemma_ring_after_len(xw, xs.take(k as int));
                lemma_ring_after_len(yw, ys.take(k as int));
            }
            let s = self.observe(axes);
            smoothed.push(s);
            k = k + 1;
        }
        assert(xs.take(k as int) =~= xs);
        assert(ys.take(k as int) =~= ys);
        Batch { records, smoothed }
    }
}

} // verus!
