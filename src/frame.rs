//! A fixed-capacity accumulator that cuts a byte stream into COBS frames and
//! decodes each complete frame into a record.
use vstd::prelude::*;
use crate::record::Record;

verus! {

/// How many encoded bytes one frame may hold, its terminator not counted.
pub const CAPACITY: usize = 256;

/// `s` holds no frame terminator.
pub open spec fn zero_free(s: Seq<u8>) -> bool {
    forall|j: int| 0 <= j < s.len() ==> s[j] != 0
}

/// `i` is the position of the first zero byte of `s`.
pub open spec fn is_first_zero(s: Seq<u8>, i: int) -> bool {
    0 <= i < s.len() && s[i] == 0 && forall|j: int| 0 <= j < i ==> s[j] != 0
}

/// The position of the first zero byte of `s`, or `s.len()` where there is
/// none.
pub open spec fn delimiter(s: Seq<u8>) -> int {
    if exists|i: int| is_first_zero(s, i) {
        choose|i: int| is_first_zero(s, i)
    } else {
        s.len() as int
    }
}

/// A write of `data` onto the held bytes `held` completes a frame that fits.
pub open spec fn completes(held: Seq<u8>, data: Seq<u8>) -> bool {
    delimiter(data) < data.len() && held.len() + delimiter(data) <= CAPACITY
}

/// A write of `data` onto `held` overflows the capacity: the frame in
/// progress is discarded.
pub open spec fn overflows(held: Seq<u8>, data: Seq<u8>) -> bool {
    if delimiter(data) < data.len() {
        held.len() + delimiter(data) > CAPACITY
    } else {
        held.len() + data.len() > CAPACITY
    }
}

/// The encoded bytes of the frame that a completing write hands to the
/// decoder: what was held, then `data` up to its first zero.
pub open spec fn frame_of(held: Seq<u8>, data: Seq<u8>) -> Seq<u8> {
    held + data.subrange(0, delimiter(data))
}

/// The part of `data` that a write hands back for the next frame: what
/// follows the first zero; on an overflow without a zero, what did not fit;
/// otherwise nothing.
pub open spec fn remainder(held: Seq<u8>, data: Seq<u8>) -> Seq<u8> {
    if delimiter(data) < data.len() {
        data.subrange(delimiter(data) + 1, data.len() as int)
    } else if held.len() + data.len() > CAPACITY {
        data.subrange(CAPACITY - held.len(), data.len() as int)
    } else {
        Seq::empty()
    }
}

/// The bytes held after a write of `data` onto `held`: both, while no zero
/// came and they fit; otherwise nothing.
pub open spec fn held_after(held: Seq<u8>, data: Seq<u8>) -> Seq<u8> {
    if delimiter(data) == data.len() && held.len() + data.len() <= CAPACITY {
        held + data
    } else {
        Seq::empty()
    }
}

/// The four outcomes of one write.
pub enum BufferResult<'a, T> {
    /// All input was taken and no frame is complete yet.
    Consumed,
    /// The frame in progress did not fit and was discarded; the bytes that
    /// belong to the next frame are handed back.
    Overfull(&'a [u8]),
    /// A complete frame did not decode; the bytes after it are handed back.
    DeserErr(&'a [u8]),
    /// A complete frame decoded to `data`; the bytes after it are handed back.
    Success { data: T, remaining: &'a [u8] },
}

/// The result `r` of writing `data` onto `held` is the one the model gives.
pub open spec fn write_result<T: Record>(held: Seq<u8>, data: Seq<u8>, r: BufferResult<T>) -> bool {
    if completes(held, data) {
        match T::from_frame(frame_of(held, data)) {
            Some(v) => r matches BufferResult::Success { data: t, remaining } && t@ == v
                && remaining@ == remainder(held, data),
            None => r matches BufferResult::DeserErr(rest) && rest@ == remainder(held, data),
        }
    } else if overflows(held, data) {
        r matches BufferResult::Overfull(rest) && rest@ == remainder(held, data)
    } else {
        r is Consumed
    }
}

/// The complete frames, in order, that a caller meets when it writes
/// `data` onto `held` and writes each handed-back remainder again until
/// nothing is handed back. Frames discarded by an overflow are not listed.
pub open spec fn frames(held: Seq<u8>, data: Seq<u8>) -> Seq<Seq<u8>>
    decreases data.len(), held.len(),
    via frames_decreases
{
    if held.len() > CAPACITY {
        Seq::empty()
    } else if completes(held, data) {
        seq![frame_of(held, data)] + frames(Seq::empty(), remainder(held, data))
    } else if overflows(held, data) {
        frames(Seq::empty(), remainder(held, data))
    } else {
        Seq::empty()
    }
}

/// The bytes held once that loop has handed everything back.
pub open spec fn held_at_end(held: Seq<u8>, data: Seq<u8>) -> Seq<u8>
    decreases data.len(), held.len(),
    via held_at_end_decreases
{
    if held.len() > CAPACITY {
        held
    } else if completes(held, data) || overflows(held, data) {
        held_at_end(Seq::empty(), remainder(held, data))
    } else {
        held_after(held, data)
    }
}

/// The values that the frames `fs` decode to as records of shape `T`, in
/// order; frames that do not decode are skipped.
pub open spec fn decoded<T: Record>(fs: Seq<Seq<u8>>) -> Seq<T::V>
    decreases fs.len(),
{
    if fs.len() == 0 {
        Seq::empty()
    } else {
        let rest = decoded::<T>(fs.drop_first());
        match T::from_frame(fs[0]) {
            Some(v) => seq![v] + rest,
            None => rest,
        }
    }
}

proof fn lemma_first_zero_exists(s: Seq<u8>, k: int)
    requires
        0 <= k < s.len(),
        s[k] == 0,
    ensures
        exists|i: int| is_first_zero(s, i),
    decreases k,
{
    if forall|j: int| 0 <= j < k ==> s[j] != 0 {
        assert(is_first_zero(s, k));
    } else {
        let j = choose|j: int| 0 <= j < k && s[j] == 0;
        lemma_first_zero_exists(s, j);
    }
}

/// What `delimiter` gives: a first zero, or the length where `s` has none.
pub proof fn lemma_delimiter_bounds(s: Seq<u8>)
    ensures
        0 <= delimiter(s) <= s.len(),
        delimiter(s) < s.len() ==> s[delimiter(s)] == 0,
        forall|j: int| 0 <= j < delimiter(s) ==> s[j] != 0,
        delimiter(s) == s.len() <==> zero_free(s),
{
    if exists|i: int| is_first_zero(s, i) {
        let i = choose|i: int| is_first_zero(s, i);
        assert(!zero_free(s)) by {
            assert(s[i] == 0);
        }
    } else {
        assert forall|j: int| 0 <= j < s.len() implies s[j] != 0 by {
            if s[j] == 0 {
                lemma_first_zero_exists(s, j);
            }
        }
    }
}

proof fn lemma_remainder_shrinks(held: Seq<u8>, data: Seq<u8>)
    requires
        held.len() <= CAPACITY,
        completes(held, data) || overflows(held, data),
    ensures
        remainder(held, data).len() < data.len()
            || (remainder(held, data).len() == data.len() && held.len() > 0),
{
    lemma_delimiter_bounds(data);
}

proof fn lemma_remainder_shrinks_or_stops(held: Seq<u8>, data: Seq<u8>)
    requires
        held.len() <= CAPACITY,
    ensures
        (completes(held, data) || overflows(held, data)) ==> (remainder(held, data).len() < data.len()
            || (remainder(held, data).len() == data.len() && held.len() > 0)),
{
    if completes(held, data) || overflows(held, data) {
        lemma_remainder_shrinks(held, data);
    }
}

proof fn lemma_decoded_step<T: Record>(f: Seq<u8>, fs: Seq<Seq<u8>>)
    ensures
        decoded::<T>(seq![f] + fs) == match T::from_frame(f) {
            Some(v) => seq![v] + decoded::<T>(fs),
            None => decoded::<T>(fs),
        },
{
    assert((seq![f] + fs).drop_first() =~= fs);
}

#[via_fn]
proof fn frames_decreases(held: Seq<u8>, data: Seq<u8>) {
    if held.len() <= CAPACITY && (completes(held, data) || overflows(held, data)) {
        lemma_remainder_shrinks(held, data);
    }
}

#[via_fn]
proof fn held_at_end_decreases(held: Seq<u8>, data: Seq<u8>) {
    if held.len() <= CAPACITY && (completes(held, data) || overflows(held, data)) {
        lemma_remainder_shrinks(held, data);
    }
}

/// The encoded frame `f` followed by its terminator, as it travels.
pub open spec fn terminated(f: Seq<u8>) -> Seq<u8> {
    f.push(0)
}

/// The windows `ws` one after another.
pub open spec fn concat(ws: Seq<Seq<u8>>) -> Seq<u8>
    decreases ws.len(),
{
    if ws.len() == 0 {
        Seq::empty()
    } else {
        ws[0] + concat(ws.drop_first())
    }
}

/// Writing the windows `ws` in turn onto `held`, each write neither
/// completes nor discards a frame.
pub open spec fn all_consumed(held: Seq<u8>, ws: Seq<Seq<u8>>) -> bool
    decreases ws.len(),
{
    ws.len() == 0 || (!completes(held, ws[0]) && !overflows(held, ws[0]) && all_consumed(
        held_after(held, ws[0]),
        ws.drop_first(),
    ))
}

/// The bytes held after writing the windows `ws` in turn onto `held`.
pub open spec fn held_after_all(held: Seq<u8>, ws: Seq<Seq<u8>>) -> Seq<u8>
    decreases ws.len(),
{
    if ws.len() == 0 {
        held
    } else {
        held_after_all(held_after(held, ws[0]), ws.drop_first())
    }
}

/// Partial writes accumulate: windows without a zero byte that together fit
/// in the capacity are each taken whole, no write yields a record or an
/// overflow, and the held bytes are the windows in order.
pub proof fn lemma_partial_writes_accumulate(held: Seq<u8>, ws: Seq<Seq<u8>>)
    requires
        held.len() + concat(ws).len() <= CAPACITY,
        forall|k: int| 0 <= k < ws.len() ==> zero_free(#[trigger] ws[k]),
    ensures
        all_consumed(held, ws),
        held_after_all(held, ws) == held + concat(ws),
    decreases ws.len(),
{
    if ws.len() == 0 {
        assert(held + concat(ws) =~= held);
    } else {
        let w = ws[0];
        let tail = ws.drop_first();
        lemma_delimiter_bounds(w);
        assert(zero_free(w));
        assert forall|k: int| 0 <= k < tail.len() implies zero_free(#[trigger] tail[k]) by {
            assert(tail[k] == ws[k + 1]);
        }
        assert((held + w) + concat(tail) =~= held + concat(ws));
        lemma_partial_writes_accumulate(held + w, tail);
    }
}

/// An unterminated write that does not fit overflows: nothing stays held,
/// and exactly the part of the window past the free room is handed back.
pub proof fn lemma_overflow_hands_back_suffix(held: Seq<u8>, data: Seq<u8>)
    requires
        held.len() <= CAPACITY,
        zero_free(data),
        held.len() + data.len() > CAPACITY,
    ensures
        overflows(held, data),
        !completes(held, data),
        remainder(held, data) == data.subrange(CAPACITY - held.len(), data.len() as int),
        held_after(held, data) == Seq::<u8>::empty(),
{
    lemma_delimiter_bounds(data);
}

proof fn lemma_empty_window()
    ensures
        frames(Seq::empty(), Seq::empty()) == Seq::<Seq<u8>>::empty(),
        held_at_end(Seq::empty(), Seq::empty()) == Seq::<u8>::empty(),
{
    lemma_delimiter_bounds(Seq::<u8>::empty());
    assert(Seq::<u8>::empty() + Seq::<u8>::empty() =~= Seq::<u8>::empty());
}

proof fn lemma_terminated_delimiter(f: Seq<u8>, rest: Seq<u8>)
    requires
        zero_free(f),
    ensures
        delimiter(terminated(f) + rest) == f.len(),
        (terminated(f) + rest).subrange(0, f.len() as int) == f,
        (terminated(f) + rest).subrange(f.len() + 1int, (terminated(f) + rest).len() as int) == rest,
{
    let data = terminated(f) + rest;
    assert forall|j: int| 0 <= j < f.len() implies data[j] != 0 by {
        assert(data[j] == f[j]);
    }
    lemma_delimiter(data, f.len() as int);
    assert(data.subrange(0, f.len() as int) =~= f);
    assert(data.subrange(f.len() + 1int, data.len() as int) =~= rest);
}

proof fn lemma_frame_then(f: Seq<u8>, rest: Seq<u8>)
    requires
        zero_free(f),
    ensures
        f.len() <= CAPACITY ==> frames(Seq::empty(), terminated(f) + rest) == seq![f] + frames(
            Seq::empty(),
            rest,
        ),
        f.len() > CAPACITY ==> frames(Seq::empty(), terminated(f) + rest) == frames(
            Seq::empty(),
            rest,
        ),
        held_at_end(Seq::empty(), terminated(f) + rest) == held_at_end(Seq::empty(), rest),
{
    lemma_terminated_delimiter(f, rest);
    let data = terminated(f) + rest;
    assert(frame_of(Seq::empty(), data) =~= f);
}

/// Two complete frames that arrive in one window both decode, in order, when
/// the caller loops on the handed-back remainder, and nothing stays held.
pub proof fn lemma_two_frames_in_one_window<T: Record>(f1: Seq<u8>, f2: Seq<u8>)
    requires
        zero_free(f1),
        zero_free(f2),
        f1.len() <= CAPACITY,
        f2.len() <= CAPACITY,
        T::from_frame(f1) is Some,
        T::from_frame(f2) is Some,
    ensures
        decoded::<T>(frames(Seq::empty(), terminated(f1) + terminated(f2))) == seq![
            T::from_frame(f1)->Some_0,
            T::from_frame(f2)->Some_0,
        ],
        held_at_end(Seq::empty(), terminated(f1) + terminated(f2)) == Seq::<u8>::empty(),
{
    lemma_empty_window();
    lemma_frame_then(f2, Seq::empty());
    assert(terminated(f2) + Seq::empty() =~= terminated(f2));
    lemma_frame_then(f1, terminated(f2));
    lemma_decoded_step::<T>(f2, Seq::empty());
    lemma_decoded_step::<T>(f1, seq![f2] + Seq::empty());
    assert(decoded::<T>(Seq::<Seq<u8>>::empty()) =~= Seq::<T::V>::empty());
    assert(seq![f2] + Seq::<Seq<u8>>::empty() =~= seq![f2]);
}

/// A corrupted frame (one that does not decode, or that is longer than the
/// capacity) between two good frames in one window costs only itself: both
/// good frames decode, in order, and nothing stays held.
pub proof fn lemma_corrupt_frame_is_skipped<T: Record>(f1: Seq<u8>, bad: Seq<u8>, f2: Seq<u8>)
    requires
        zero_free(f1),
        zero_free(bad),
        zero_free(f2),
        f1.len() <= CAPACITY,
        f2.len() <= CAPACITY,
        bad.len() > CAPACITY || T::from_frame(bad) is None,
        T::from_frame(f1) is Some,
        T::from_frame(f2) is Some,
    ensures
        decoded::<T>(frames(Seq::empty(), terminated(f1) + terminated(bad) + terminated(f2)))
            == seq![T::from_frame(f1)->Some_0, T::from_frame(f2)->Some_0],
        held_at_end(Seq::empty(), terminated(f1) + terminated(bad) + terminated(f2))
            == Seq::<u8>::empty(),
{
    lemma_two_frames_in_one_window::<T>(f1, f2);
    lemma_frame_then(bad, terminated(f2));
    lemma_frame_then(f1, terminated(bad) + terminated(f2));
    lemma_frame_then(f1, terminated(f2));
    assert(terminated(f1) + terminated(bad) + terminated(f2) =~= terminated(f1) + (terminated(bad)
        + terminated(f2)));
    let tail = frames(Seq::empty(), terminated(f2));
    if bad.len() <= CAPACITY {
        lemma_decoded_step::<T>(bad, tail);
    }
    lemma_decoded_step::<T>(f1, tail);
    lemma_decoded_step::<T>(f1, frames(Seq::empty(), terminated(bad) + terminated(f2)));
}

/// The frame accumulator. Its view is the encoded bytes of the frame in
/// progress.
pub struct Buffer {
    buffer: Vec<u8>,
    index: usize,
}

impl View for Buffer {
    type V = Seq<u8>;

    closed spec fn view(&self) -> Seq<u8> {
        self.buffer@.subrange(0, self.index as int)
    }
}

proof fn lemma_delimiter(s: Seq<u8>, i: int)
    requires
        0 <= i <= s.len(),
        i < s.len() ==> s[i] == 0,
        forall|j: int| 0 <= j < i ==> s[j] != 0,
    ensures
        delimiter(s) == i,
{
    if i < s.len() {
        assert(is_first_zero(s, i));
        let k = choose|k: int| is_first_zero(s, k);
        if k < i {
            assert(s[k] != 0);
        } else if k > i {
            assert(s[i] != 0);
        }
    } else {
        assert forall|k: int| !is_first_zero(s, k) by {
            if 0 <= k < s.len() {
                assert(s[k] != 0);
            }
        }
    }
}

impl Buffer {
    /// The storage is allocated once and the held count never exceeds it.
    pub closed spec fn wf(&self) -> bool {
        self.buffer@.len() == CAPACITY && self.index <= CAPACITY
    }

    pub fn new() -> (r: Buffer)
        ensures
            r.wf(),
            r@ == Seq::<u8>::empty(),
    {
        Buffer { buffer: vec![0u8; CAPACITY], index: 0 }
    }

    /// The number of encoded bytes held for the frame in progress.
    pub fn len(&self) -> (r: usize)
        requires
            self.wf(),
        ensures
            r == self@.len(),
    {
        self.index
    }

    fn append_unchecked(&mut self, data: &[u8])
        requires
            old(self).wf(),
            old(self).index + data@.len() <= CAPACITY,
        ensures
            final(self).wf(),
            final(self)@ == old(self)@ + data@,
    {
        let start = self.index;
        let mut k: usize = 0;
        while k < data.len()
            invariant
                self.buffer@.len() == CAPACITY,
                self.index == start,
                start + data@.len() <= CAPACITY,
                k <= data@.len(),
                forall|j: int| 0 <= j < start ==> self.buffer@[j] == old(self).buffer@[j],
                forall|j: int| 0 <= j < k ==> self.buffer@[start + j] == data@[j],
            decreases data@.len() - k,
        {
            self.buffer[start + k] = data[k];
            k = k + 1;
        }
        self.index = start + data.len();
        assert(self@ =~= old(self)@ + data@);
    }

    /// Takes the next window of the stream. See `write_result` for the
    /// outcome; after any outcome but `Consumed` nothing is held.
    pub fn write<'a, T: Record>(&mut self, data: &'a [u8]) -> (r: BufferResult<'a, T>)
        requires
            old(self).wf(),
        ensures
            final(self).wf(),
            final(self)@ == held_after(old(self)@, data@),
            write_result(old(self)@, data@, r),
    {
        proof {
            if data@.len() == 0 {
                lemma_delimiter(data@, 0);
                assert(old(self)@ + data@ =~= old(self)@);
            }
        }
        if data.len() == 0 {
            return BufferResult::Consumed;
        }
        let mut i: usize = 0;
        while i < data.len() && data[i] != 0
            invariant
                i <= data@.len(),
                forall|j: int| 0 <= j < i ==> data@[j] != 0,
            decreases data@.len() - i,
        {
            i = i + 1;
        }
        proof {
            lemma_delimiter(data@, i as int);
        }
        if i < data.len() {
            let (take, release) = data.split_at(i + 1);
            if i <= CAPACITY - self.index {
                let (frame_tail, _) = take.split_at(i);
                self.append_unchecked(frame_tail);
                assert(frame_tail@ =~= data@.subrange(0, i as int));
                assert(self.buffer@.subrange(0, self.index as int) == frame_of(old(self)@, data@));
                let decoded = T::decode_frame(&mut self.buffer, self.index);
                self.index = 0;
                assert(self@ =~= Seq::<u8>::empty());
                match decoded {
                    Some(t) => BufferResult::Success { data: t, remaining: release },
                    None => BufferResult::DeserErr(release),
                }
            } else {
                self.index = 0;
                assert(self@ =~= Seq::<u8>::empty());
                BufferResult::Overfull(release)
            }
        } else if data.len() > CAPACITY - self.index {
            let new_start = CAPACITY - self.index;
            self.index = 0;
            assert(self@ =~= Seq::<u8>::empty());
            let (_, rest) = data.split_at(new_start);
            BufferResult::Overfull(rest)
        } else {
            self.append_unchecked(data);
            BufferResult::Consumed
        }
    }

    /// Scans one read window: writes it, then each handed-back remainder,
    /// until nothing is handed back, and returns the records that decoded,
    /// in stream order. Frames that overflow or fail to decode are dropped
    /// and scanning goes on after them.
    pub fn drain<T: Record>(&mut self, window: &[u8]) -> (r: Vec<T>)
        requires
            old(self).wf(),
        ensures
            final(self).wf(),
            final(self)@ == held_at_end(old(self)@, window@),
            r@.map_values(|t: T| t@) == decoded::<T>(frames(old(self)@, window@)),
    {
        let mut out: Vec<T> = Vec::new();
        let mut rest = window;
        while rest.len() > 0
            invariant
                self.wf(),
                held_at_end(old(self)@, window@) == held_at_end(self@, rest@),
                decoded::<T>(frames(old(self)@, window@))
                    == out@.map_values(|t: T| t@) + decoded::<T>(frames(self@, rest@)),
            decreases rest@.len(), self@.len(),
        {
            let ghost held = self@;
            let ghost data = rest@;
            let ghost before = out@;
            proof {
                lemma_remainder_shrinks_or_stops(held, data);
            }
            match self.write::<T>(rest) {
                BufferResult::Consumed => {
                    let (_, empty) = rest.split_at(rest.len());
                    rest = empty;
                    proof {
                        lemma_delimiter_bounds(rest@);
                    }
                },
                BufferResult::Overfull(next) => {
                    rest = next;
                },
                BufferResult::DeserErr(next) => {
                    rest = next;
                    proof {
                        lemma_decoded_step::<T>(frame_of(held, data), frames(Seq::empty(), rest@));
                    }
                },
                BufferResult::Success { data: t, remaining } => {
                    out.push(t);
                    rest = remaining;
                    proof {
                        lemma_decoded_step::<T>(frame_of(held, data), frames(Seq::empty(), rest@));
                        assert(out@.map_values(|t: T| t@) =~= before.map_values(|t: T| t@) + seq![t@]);
                    }
                },
            }
        }
        proof {
            lemma_delimiter_bounds(rest@);
        }
        out
    }
}

} // verus!
