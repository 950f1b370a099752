//! Ring buffers for audio data transfer.
//!
//! `RingBuffer` is a fixed-capacity circular buffer with first-in first-out
//! semantics: a short write drops the excess input, a short read returns only
//! what is buffered. Neither blocks, retries or grows storage; callers detect
//! truncation and starvation by comparing the returned count with the
//! requested length. `TripleRingBuffer` composes three such buffers into a
//! staged pipeline.

use vstd::prelude::*;
use vstd::arithmetic::div_mod::{
    lemma_fundamental_div_mod, lemma_mod_sub_multiples_vanish, lemma_small_mod, lemma_sub_mod_noop,
};
use vstd::arithmetic::power::{lemma_pow_positive, pow};
use vstd::arithmetic::power2::{is_pow2, is_pow2_equiv, lemma2_to64, lemma2_to64_rest, pow2};
use vstd::math::min;

use crate::Error;

verus! {

broadcast use vstd::arithmetic::div_mod::group_mod_properties;

/// Smallest power of two that is at least `c`, and at least one.
pub open spec fn round_up_pow2(c: nat) -> nat
    decreases c,
{
    if c <= 1 {
        1
    } else {
        2 * round_up_pow2((c + 1) / 2)
    }
}

/// Of two powers of two, the larger is at least double the smaller.
proof fn lemma_pow2_double_le(p: int, q: int)
    requires
        is_pow2(p),
        is_pow2(q),
        p < q,
    ensures
        2 * p <= q,
    decreases p,
{
    reveal(is_pow2);
    if p == 1 {
        assert(q >= 2);
        assert(q % 2 == 0);
    } else {
        lemma_pow2_double_le(p / 2, q / 2);
    }
}

/// Half the address space, rounded up, is itself a power of two, Verus
/// assuming a 32- or 64-bit architecture.
proof fn lemma_half_usize_max_is_pow2()
    ensures
        is_pow2(usize::MAX as int / 2 + 1),
{
    lemma2_to64();
    lemma2_to64_rest();
    lemma_pow_positive(2, 31);
    lemma_pow_positive(2, 63);
    assert(pow(2, 31) == pow2(31));
    assert(pow(2, 63) == pow2(63));
    if usize::MAX as int == 0xffff_ffff {
        assert(pow(2, 31) == usize::MAX as int / 2 + 1);
        is_pow2_equiv(usize::MAX as int / 2 + 1);
    } else {
        assert(usize::MAX as int == 0xffff_ffff_ffff_ffff);
        assert(pow(2, 63) == usize::MAX as int / 2 + 1);
        is_pow2_equiv(usize::MAX as int / 2 + 1);
    }
}

/// `round_up_pow2(c)` is the least power of two that is at least `c`.
pub proof fn lemma_round_up_pow2_properties(c: nat)
    ensures
        round_up_pow2(c) >= 1,
        round_up_pow2(c) >= c,
        is_pow2(round_up_pow2(c) as int),
        forall|p: nat| is_pow2(p as int) && p >= c ==> p >= round_up_pow2(c),
    decreases c,
{
    reveal(is_pow2);
    if c <= 1 {
        assert(is_pow2(1));
        assert forall|p: nat| is_pow2(p as int) && p >= c implies p >= round_up_pow2(c) by {
            assert(p > 0);
        }
    } else {
        let m = (c + 1) / 2;
        lemma_round_up_pow2_properties(m);
        assert(c + 1 == 2 * m + ((c + 1) % 2)) by {
            lemma_fundamental_div_mod(c as int + 1, 2);
        }
        assert(round_up_pow2(c) == 2 * round_up_pow2(m));
        assert(is_pow2(2 * round_up_pow2(m) as int));
        assert forall|p: nat| is_pow2(p as int) && p >= c implies p >= round_up_pow2(c) by {
            assert(p >= 2);
            assert(p % 2 == 0 && is_pow2(p as int / 2));
            let q = p / 2;
            assert(p == 2 * q);
            assert(q >= m);
            assert(q >= round_up_pow2(m));
        }
    }
}

/// Two cursor positions less than one capacity apart land on distinct slots.
proof fn lemma_distinct_slots(a: int, b: int, capacity: int)
    requires
        1 <= capacity,
        0 <= a < b,
        b - a < capacity,
    ensures
        a % capacity != b % capacity,
{
    if a % capacity == b % capacity {
        lemma_sub_mod_noop(b, a, capacity);
        lemma_small_mod(0, capacity as nat);
        lemma_small_mod((b - a) as nat, capacity as nat);
    }
}

/// Shifting a cursor down by one capacity does not change the slot it indexes.
proof fn lemma_shift_slot(a: int, capacity: int)
    requires
        1 <= capacity,
    ensures
        (a - capacity) % capacity == a % capacity,
{
    lemma_mod_sub_multiples_vanish(a, capacity);
}

/// After a read of `k` samples has advanced the read cursor, with the cursors
/// renormalized by one capacity where the read cursor had left the storage
/// range, the buffer is well formed again and holds the old contents without
/// their first `k` samples.
proof fn lemma_remaining_window<T>(pre: RingBuffer<T>, post: RingBuffer<T>, k: int)
    requires
        pre.wf(),
        0 <= k <= pre@.len(),
        post.data == pre.data,
        post.capacity == pre.capacity,
        post.write_pos - post.read_pos == pre.write_pos - pre.read_pos - k,
        post.read_pos == pre.read_pos + k || post.read_pos == pre.read_pos + k - pre.capacity,
        0 <= post.read_pos < pre.capacity,
    ensures
        post.wf(),
        post@ == pre@.skip(k),
{
    let cap = pre.capacity as int;
    assert forall|j: int| 0 <= j < post.write_pos - post.read_pos implies {
        &&& (#[trigger] post.data@[(post.read_pos + j) % cap]) is Some
        &&& post.data@[(post.read_pos + j) % cap]->0 == pre@[k + j]
    } by {
        let i0 = k + j;
        assert(0 <= i0 < pre.write_pos - pre.read_pos);
        assert(pre.data@[(pre.read_pos + i0) % cap] is Some);
        assert(pre@[i0] == pre.data@[(pre.read_pos + i0) % cap]->0);
        if post.read_pos < pre.read_pos + k {
            lemma_shift_slot(pre.read_pos + i0, cap);
            assert((post.read_pos + j) % cap == (pre.read_pos + i0 - cap) % cap);
        } else {
            assert(post.read_pos + j == pre.read_pos + i0);
        }
    }
    assert(post@ =~= pre@.skip(k));
}

/// Number of samples a write of `samples` stores into a buffer that holds
/// `contents` and has room for `capacity` samples in all.
pub open spec fn write_count<T>(contents: Seq<T>, samples: Seq<T>, capacity: int) -> int {
    min(samples.len() as int, capacity - contents.len())
}

/// Contents after such a write: the input is appended, its excess dropped.
pub open spec fn after_write<T>(contents: Seq<T>, samples: Seq<T>, capacity: int) -> Seq<T> {
    contents + samples.take(write_count(contents, samples, capacity))
}

/// Number of samples a read of up to `requested` samples returns.
pub open spec fn read_count<T>(contents: Seq<T>, requested: int) -> int {
    min(requested, contents.len() as int)
}

/// The samples such a read returns: the oldest ones, in write order.
pub open spec fn read_front<T>(contents: Seq<T>, requested: int) -> Seq<T> {
    contents.take(read_count(contents, requested))
}

/// Contents remaining after such a read.
pub open spec fn after_read<T>(contents: Seq<T>, requested: int) -> Seq<T> {
    contents.skip(read_count(contents, requested))
}

/// A simple ring buffer for audio samples.
///
/// Storage is a fixed array of power-of-two length indexed by cursors reduced
/// modulo the capacity. The abstract value of the buffer, written `buffer@`,
/// is the sequence of samples that have been written and not yet read, oldest
/// first.
pub struct RingBuffer<T> {
    data: Vec<Option<T>>,
    write_pos: usize,
    read_pos: usize,
    capacity: usize,
}

impl<T> View for RingBuffer<T> {
    type V = Seq<T>;

    closed spec fn view(&self) -> Seq<T> {
        Seq::new(
            (self.write_pos - self.read_pos) as nat,
            |i: int| self.data@[(self.read_pos + i) % (self.capacity as int)]->0,
        )
    }
}

impl<T> RingBuffer<T> {
    /// Internal consistency: the cursors stay within one capacity of each
    /// other, the read cursor stays reduced, and every slot between the
    /// cursors is occupied.
    pub closed spec fn wf(&self) -> bool {
        &&& self.data@.len() == self.capacity
        &&& 1 <= self.capacity <= usize::MAX / 2 + 1
        &&& self.read_pos < self.capacity
        &&& self.read_pos <= self.write_pos <= self.read_pos + self.capacity
        &&& forall|i: int|
            0 <= i < self.write_pos - self.read_pos ==> (#[trigger] self.data@[(self.read_pos + i)
                % (self.capacity as int)]) is Some
    }

    /// Total number of samples the buffer can hold.
    pub closed spec fn capacity(&self) -> usize {
        self.capacity
    }

    /// Room left for further samples.
    pub open spec fn free_spec(&self) -> int {
        self.capacity() - self@.len()
    }
}

impl<T: Copy> RingBuffer<T> {
    /// Creates a new, empty ring buffer with the specified capacity.
    ///
    /// The capacity is rounded up to the next power of two for efficient
    /// indexing; a request of zero yields one slot.
    #[verifier::loop_isolation(false)]
    pub fn new(capacity: usize) -> (r: Self)
        requires
            capacity <= usize::MAX / 2 + 1,
        ensures
            r.wf(),
            r@ == Seq::<T>::empty(),
            r.capacity() == round_up_pow2(capacity as nat),
    {
        proof {
            reveal(is_pow2);
            lemma_round_up_pow2_properties(capacity as nat);
            assert(is_pow2(1));
        }
        let mut cap: usize = 1;
        while cap < capacity
            invariant
                1 <= cap,
                capacity <= usize::MAX / 2 + 1,
                is_pow2(cap as int),
                cap as nat <= round_up_pow2(capacity as nat),
            decreases 2 * capacity - cap,
        {
            proof {
                reveal(is_pow2);
                lemma_round_up_pow2_properties(capacity as nat);
                lemma_pow2_double_le(cap as int, round_up_pow2(capacity as nat) as int);
            }
            cap = cap * 2;
        }
        proof {
            lemma_round_up_pow2_properties(capacity as nat);
            lemma_half_usize_max_is_pow2();
            assert(cap as nat == round_up_pow2(capacity as nat));
            assert(cap <= usize::MAX / 2 + 1) by {
                let half: nat = (usize::MAX / 2 + 1) as nat;
                assert(is_pow2(half as int) && half >= capacity as nat);
            }
        }
        let mut data: Vec<Option<T>> = Vec::new();
        while data.len() < cap
            invariant
                data@.len() <= cap,
            decreases cap - data.len(),
        {
            data.push(None);
        }
        let r = RingBuffer { data, write_pos: 0, read_pos: 0, capacity: cap };
        assert(r@ =~= Seq::<T>::empty());
        r
    }

    /// Writes data into the ring buffer.
    ///
    /// Stores as much of `samples` as fits, oldest data first preserved, and
    /// returns the number of samples actually written. Excess input is
    /// silently dropped: callers compare the return value with the input
    /// length to detect truncation.
    #[verifier::loop_isolation(false)]
    pub fn write(&mut self, samples: &[T]) -> (n: usize)
        requires
            old(self).wf(),
        ensures
            final(self).wf(),
            final(self).capacity() == old(self).capacity(),
            n == write_count(old(self)@, samples@, old(self).capacity() as int),
            final(self)@ == after_write(old(self)@, samples@, old(self).capacity() as int),
    {
        let available_space = self.capacity - (self.write_pos - self.read_pos);
        let to_write = if samples.len() < available_space {
            samples.len()
        } else {
            available_space
        };

        let ghost avail = old(self)@.len() as int;
        let ghost cap = self.capacity as int;

        let mut i: usize = 0;
        while i < to_write
            invariant
                old(self).wf(),
                i <= to_write,
                to_write <= samples@.len(),
                to_write + (old(self).write_pos - old(self).read_pos) <= old(self).capacity,
                self.write_pos == old(self).write_pos,
                self.read_pos == old(self).read_pos,
                self.capacity == old(self).capacity,
                self.data@.len() == old(self).data@.len(),
                forall|j: int|
                    0 <= j < old(self).write_pos - old(self).read_pos ==> #[trigger] self.data@[(
                    old(self).read_pos + j) % (old(self).capacity as int)] == old(self).data@[(
                    old(self).read_pos + j) % (old(self).capacity as int)],
                forall|j: int|
                    0 <= j < i ==> #[trigger] self.data@[(old(self).write_pos + j) % (
                    old(self).capacity as int)] == Some(samples@[j]),
            decreases to_write - i,
        {
            let idx = (self.write_pos + i) % self.capacity;
            self.data[idx] = Some(samples[i]);
            proof {
                let w = old(self).write_pos as int;
                let r = old(self).read_pos as int;
                assert forall|j: int| 0 <= j < w - r implies #[trigger] self.data@[(r + j) % cap]
                    == old(self).data@[(r + j) % cap] by {
                    lemma_distinct_slots(r + j, w + i, cap);
                }
                assert forall|j: int| 0 <= j < i + 1 implies #[trigger] self.data@[(w + j) % cap]
                    == Some(samples@[j]) by {
                    if j < i {
                        lemma_distinct_slots(w + j, w + i, cap);
                    }
                }
            }
            i = i + 1;
        }

        self.write_pos = self.write_pos + to_write;

        proof {
            let w = old(self).write_pos as int;
            let r = old(self).read_pos as int;
            assert forall|k: int| 0 <= k < avail + to_write implies (#[trigger] self.data@[(r + k)
                % cap]) is Some by {
                if k >= avail {
                    assert(self.data@[(w + (k - avail)) % cap] == Some(samples@[k - avail]));
                }
            }
            assert(self@ =~= after_write(old(self)@, samples@, cap)) by {
                assert forall|k: int| 0 <= k < avail + to_write implies self@[k] == after_write(
                    old(self)@,
                    samples@,
                    cap,
                )[k] by {
                    if k < avail {
                        assert(self.data@[(r + k) % cap] == old(self).data@[(r + k) % cap]);
                    } else {
                        assert(self.data@[(w + (k - avail)) % cap] == Some(samples@[k - avail]));
                    }
                }
            }
        }
        to_write
    }

    /// Reads data from the ring buffer into the front of `output`.
    ///
    /// Copies up to `output.len()` of the oldest buffered samples into
    /// `output`, in the order they were written, leaving the rest of `output`
    /// unchanged, and returns the number of samples actually read. A short
    /// read is starvation, not an error.
    #[verifier::loop_isolation(false)]
    pub fn read(&mut self, output: &mut Vec<T>) -> (n: usize)
        requires
            old(self).wf(),
        ensures
            final(self).wf(),
            final(self).capacity() == old(self).capacity(),
            n == read_count(old(self)@, old(output)@.len() as int),
            final(output)@.len() == old(output)@.len(),
            final(output)@ == read_front(old(self)@, old(output)@.len() as int) + old(output)@.skip(
                n as int,
            ),
            final(self)@ == after_read(old(self)@, old(output)@.len() as int),
    {
        let available = self.write_pos - self.read_pos;
        let to_read = if output.len() < available {
            output.len()
        } else {
            available
        };

        let mut i: usize = 0;
        while i < to_read
            invariant
                old(self).wf(),
                self == old(self),
                i <= to_read,
                to_read <= old(self)@.len(),
                to_read <= old(output)@.len(),
                output@.len() == old(output)@.len(),
                forall|j: int| 0 <= j < i ==> output@[j] == old(self)@[j],
                forall|j: int| i <= j < output@.len() ==> output@[j] == old(output)@[j],
            decreases to_read - i,
        {
            let idx = (self.read_pos + i) % self.capacity;
            let slot = self.data[idx];
            output[i] = slot.unwrap();
            i = i + 1;
        }

        self.read_pos = self.read_pos + to_read;
        if self.read_pos >= self.capacity {
            self.read_pos = self.read_pos - self.capacity;
            self.write_pos = self.write_pos - self.capacity;
        }

        proof {
            lemma_remaining_window(*old(self), *self, to_read as int);
            assert(output@ =~= read_front(old(self)@, old(output)@.len() as int) + old(
                output,
            )@.skip(to_read as int));
        }
        to_read
    }

    /// Removes and returns up to `max` of the oldest buffered samples.
    #[verifier::loop_isolation(false)]
    fn read_out(&mut self, max: usize) -> (r: Vec<T>)
        requires
            old(self).wf(),
        ensures
            final(self).wf(),
            final(self).capacity() == old(self).capacity(),
            r@ == read_front(old(self)@, max as int),
            final(self)@ == after_read(old(self)@, max as int),
    {
        let available = self.write_pos - self.read_pos;
        let to_read = if max < available {
            max
        } else {
            available
        };

        let mut out: Vec<T> = Vec::new();
        let mut i: usize = 0;
        while i < to_read
            invariant
                old(self).wf(),
                self == old(self),
                i <= to_read,
                to_read <= old(self)@.len(),
                out@.len() == i,
                forall|j: int| 0 <= j < i ==> out@[j] == old(self)@[j],
            decreases to_read - i,
        {
            let idx = (self.read_pos + i) % self.capacity;
            let slot = self.data[idx];
            out.push(slot.unwrap());
            i = i + 1;
        }

        self.read_pos = self.read_pos + to_read;
        if self.read_pos >= self.capacity {
            self.read_pos = self.read_pos - self.capacity;
            self.write_pos = self.write_pos - self.capacity;
        }

        proof {
            lemma_remaining_window(*old(self), *self, to_read as int);
            assert(self@ =~= after_read(old(self)@, max as int));
            assert(out@ =~= read_front(old(self)@, max as int));
        }
        out
    }

    /// Returns the number of samples available for reading.
    pub fn available(&self) -> (r: usize)
        requires
            self.wf(),
        ensures
            r == self@.len(),
    {
        self.write_pos - self.read_pos
    }

    /// Returns the amount of free space in the buffer.
    pub fn free_space(&self) -> (r: usize)
        requires
            self.wf(),
        ensures
            r == self.free_spec(),
    {
        self.capacity - (self.write_pos - self.read_pos)
    }

    /// Clears the buffer, discarding all unread data.
    pub fn clear(&mut self)
        requires
            old(self).wf(),
        ensures
            final(self).wf(),
            final(self).capacity() == old(self).capacity(),
            final(self)@ == Seq::<T>::empty(),
    {
        let w = self.write_pos % self.capacity;
        self.read_pos = w;
        self.write_pos = w;
        assert(self@ =~= Seq::<T>::empty());
    }
}

impl<T: Copy> Default for RingBuffer<T> {
    /// A buffer of 1024 samples.
    fn default() -> (r: Self)
        ensures
            r.wf(),
            r@ == Seq::<T>::empty(),
            r.capacity() == 1024,
    {
        proof {
            assert(round_up_pow2(1024) == 1024) by {
                assert(round_up_pow2(1) == 1);
                assert(round_up_pow2(2) == 2);
                assert(round_up_pow2(4) == 4);
                assert(round_up_pow2(8) == 8);
                assert(round_up_pow2(16) == 16);
                assert(round_up_pow2(32) == 32);
                assert(round_up_pow2(64) == 64);
                assert(round_up_pow2(128) == 128);
                assert(round_up_pow2(256) == 256);
                assert(round_up_pow2(512) == 512);
            }
        }
        RingBuffer::new(1024)
    }
}

/// Triple ring buffer architecture for audio processing.
///
/// This architecture consists of:
/// - Input buffer: receives data from the capture device
/// - Resample buffer: holds data during sample rate conversion
/// - Output buffer: delivers data to the playback device
///
/// Each stage is an independent `RingBuffer` with no shared storage.
pub struct TripleRingBuffer<T> {
    /// Input buffer (from capture device/speaker).
    pub ring_input: RingBuffer<T>,

    /// Resample buffer (during sample rate conversion).
    pub ring_resample: RingBuffer<T>,

    /// Output buffer (to playback device/microphone).
    pub ring_output: RingBuffer<T>,
}

impl<T> TripleRingBuffer<T> {
    /// All three stages are well formed.
    pub open spec fn wf(&self) -> bool {
        &&& self.ring_input.wf()
        &&& self.ring_resample.wf()
        &&& self.ring_output.wf()
    }
}

impl<T: Copy> TripleRingBuffer<T> {
    /// Creates a new triple ring buffer whose stages each hold `buffer_size`
    /// samples, rounded up to a power of two.
    pub fn new(buffer_size: usize) -> (r: Self)
        requires
            buffer_size <= usize::MAX / 2 + 1,
        ensures
            r.wf(),
            r.ring_input@ == Seq::<T>::empty(),
            r.ring_resample@ == Seq::<T>::empty(),
            r.ring_output@ == Seq::<T>::empty(),
            r.ring_input.capacity() == round_up_pow2(buffer_size as nat),
            r.ring_resample.capacity() == round_up_pow2(buffer_size as nat),
            r.ring_output.capacity() == round_up_pow2(buffer_size as nat),
    {
        TripleRingBuffer {
            ring_input: RingBuffer::new(buffer_size),
            ring_resample: RingBuffer::new(buffer_size),
            ring_output: RingBuffer::new(buffer_size),
        }
    }

    /// Processes audio through the triple buffer pipeline.
    ///
    /// Writes `input` into the input stage (short writes drop the excess),
    /// immediately moves as many of the input stage's oldest samples on to
    /// the resample stage, unchanged, as were just accepted - the identity
    /// transfer is the extension point where a rate conversion would run -
    /// and drains the output stage into `output`. The
    /// returned count is the number of samples delivered into `output`;
    /// nothing in this method fills the output stage, so a call delivers
    /// samples only after something external has moved resample-stage data on.
    pub fn process(&mut self, input: &[T], output: &mut Vec<T>) -> (r: Result<usize, Error>)
        requires
            old(self).wf(),
        ensures
            final(self).wf(),
            final(self).ring_input.capacity() == old(self).ring_input.capacity(),
            final(self).ring_resample.capacity() == old(self).ring_resample.capacity(),
            final(self).ring_output.capacity() == old(self).ring_output.capacity(),
            ({
                let cap_in = old(self).ring_input.capacity() as int;
                let cap_rs = old(self).ring_resample.capacity() as int;
                let accepted = write_count(old(self).ring_input@, input@, cap_in);
                let filled = after_write(old(self).ring_input@, input@, cap_in);
                let staged = read_front(filled, accepted);
                &&& final(self).ring_input@ == after_read(filled, accepted)
                &&& final(self).ring_resample@ == after_write(old(self).ring_resample@, staged, cap_rs)
            }),
            r is Ok && r->Ok_0 == read_count(old(self).ring_output@, old(output)@.len() as int),
            final(output)@.len() == old(output)@.len(),
            final(output)@ == read_front(old(self).ring_output@, old(output)@.len() as int) + old(
                output,
            )@.skip(read_count(old(self).ring_output@, old(output)@.len() as int)),
            final(self).ring_output@ == after_read(old(self).ring_output@, old(output)@.len() as int),
    {
        let written = self.ring_input.write(input);

        let temp = self.ring_input.read_out(written);
        self.ring_resample.write(temp.as_slice());

        let written_output = self.ring_output.read(output);

        Ok(written_output)
    }

    /// Clears all three stages independently.
    pub fn clear_all(&mut self)
        requires
            old(self).wf(),
        ensures
            final(self).wf(),
            final(self).ring_input.capacity() == old(self).ring_input.capacity(),
            final(self).ring_resample.capacity() == old(self).ring_resample.capacity(),
            final(self).ring_output.capacity() == old(self).ring_output.capacity(),
            final(self).ring_input@ == Seq::<T>::empty(),
            final(self).ring_resample@ == Seq::<T>::empty(),
            final(self).ring_output@ == Seq::<T>::empty(),
    {
        self.ring_input.clear();
        self.ring_resample.clear();
        self.ring_output.clear();
    }

    /// Returns a snapshot of the buffer levels of the three stages.
    pub fn stats(&self) -> (r: BufferStats)
        requires
            self.wf(),
        ensures
            r.input_available == self.ring_input@.len(),
            r.input_free == self.ring_input.free_spec(),
            r.resample_available == self.ring_resample@.len(),
            r.resample_free == self.ring_resample.free_spec(),
            r.output_available == self.ring_output@.len(),
            r.output_free == self.ring_output.free_spec(),
    {
        BufferStats {
            input_available: self.ring_input.available(),
            input_free: self.ring_input.free_space(),
            resample_available: self.ring_resample.available(),
            resample_free: self.ring_resample.free_space(),
            output_available: self.ring_output.available(),
            output_free: self.ring_output.free_space(),
        }
    }
}

impl<T: Copy> Default for TripleRingBuffer<T> {
    /// Three empty stages of 1024 samples each.
    fn default() -> (r: Self)
        ensures
            r.wf(),
            r.ring_input@ == Seq::<T>::empty(),
            r.ring_resample@ == Seq::<T>::empty(),
            r.ring_output@ == Seq::<T>::empty(),
            r.ring_input.capacity() == 1024,
            r.ring_resample.capacity() == 1024,
            r.ring_output.capacity() == 1024,
    {
        proof {
            assert(round_up_pow2(1024) == 1024) by {
                assert(round_up_pow2(1) == 1);
                assert(round_up_pow2(2) == 2);
                assert(round_up_pow2(4) == 4);
                assert(round_up_pow2(8) == 8);
                assert(round_up_pow2(16) == 16);
                assert(round_up_pow2(32) == 32);
                assert(round_up_pow2(64) == 64);
                assert(round_up_pow2(128) == 128);
                assert(round_up_pow2(256) == 256);
                assert(round_up_pow2(512) == 512);
            }
        }
        TripleRingBuffer::new(1024)
    }
}

/// Statistics about buffer levels, taken stage by stage at call time.
#[derive(Debug, Clone)]
pub struct BufferStats {
    /// Number of samples available in the input buffer.
    pub input_available: usize,

    /// Free space in the input buffer.
    pub input_free: usize,

    /// Number of samples available in the resample buffer.
    pub resample_available: usize,

    /// Free space in the resample buffer.
    pub resample_free: usize,

    /// Number of samples available in the output buffer.
    pub output_available: usize,

    /// Free space in the output buffer.
    pub output_free: usize,
}

/// The buffered samples of a buffer together with its free room always fill
/// its capacity exactly; this holds again after every operation.
pub proof fn lemma_occupancy<T>(buffer: &RingBuffer<T>)
    requires
        buffer.wf(),
    ensures
        buffer@.len() + buffer.free_spec() == buffer.capacity(),
        buffer@.len() <= buffer.capacity(),
{
}

/// A write never stores more than its input length nor more than the free
/// room before the call; a read never returns more than was requested nor
/// more than was buffered before the call.
pub proof fn lemma_transfer_bounds<T>(contents: Seq<T>, samples: Seq<T>, capacity: int, requested: int)
    requires
        contents.len() <= capacity,
        0 <= requested,
    ensures
        write_count(contents, samples, capacity) <= samples.len(),
        write_count(contents, samples, capacity) <= capacity - contents.len(),
        read_count(contents, requested) <= requested,
        read_count(contents, requested) <= contents.len(),
{
}

/// Round trip: writing `n` samples into a buffer with room for them and then
/// reading `n` samples back with no mutation in between yields the samples
/// that were written, in their original order, behind whatever the buffer
/// already held; from an empty buffer it yields exactly the written sequence.
pub proof fn lemma_write_read_round_trip<T>(contents: Seq<T>, samples: Seq<T>, capacity: int)
    requires
        samples.len() <= capacity - contents.len(),
    ensures
        write_count(contents, samples, capacity) == samples.len(),
        read_front(
            after_write(contents, samples, capacity),
            contents.len() + samples.len() as int,
        ) == contents + samples,
        contents.len() == 0 ==> read_front(
            after_write(contents, samples, capacity),
            samples.len() as int,
        ) == samples,
{
    assert(samples.take(samples.len() as int) =~= samples);
    let written = after_write(contents, samples, capacity);
    assert(written.take(contents.len() + samples.len() as int) =~= contents + samples);
    if contents.len() == 0 {
        assert(written.take(samples.len() as int) =~= samples);
    }
}

} // verus!

