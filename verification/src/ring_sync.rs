//! Frame search on a sliding window of averaged samples.
//!
//! Every sample's running average goes into a ring that holds one frame's
//! worth of samples, as its sign. After each one the ring is read at the
//! sample positions of the bits of a frame: where the signs at the first
//! positions spell the sync pattern, the signs at the others are the
//! message.

use crate::streaming_fec_decoder::{MESSAGE_LEN, SYNC_BITS, SYNC_PATTERN};
use ringbuffer::{AllocRingBuffer, RingBuffer};
use vstd::prelude::*;

verus! {

/// The bits of a frame: the sync pattern and the message.
pub const TOTAL_PACKET_BITS: usize = SYNC_BITS + MESSAGE_LEN;

/// The most samples that a ring is made for.
pub const MAX_RING_SAMPLES: usize = 0x4000_0000;

/// `ringbuffer::AllocRingBuffer`: a ring of a fixed number of places on the
/// heap. Nothing is known of a ring but what the functions below say.
#[verifier::external_type_specification]
#[verifier::external_body]
#[verifier::reject_recursive_types(T)]
pub struct ExAllocRingBuffer<T>(AllocRingBuffer<T>);

/// The items that a ring holds, oldest first.
pub uninterp spec fn ring_items(ring: AllocRingBuffer<i8>) -> Seq<i8>;

/// The number of items that a ring was made to hold.
pub uninterp spec fn ring_limit(ring: AllocRingBuffer<i8>) -> nat;

/// The number of items that were put into a ring since it was made or last
/// cleared: the ring counts them in a `usize`.
pub uninterp spec fn ring_written(ring: AllocRingBuffer<i8>) -> nat;

/// `items` with `value` at the end, and without the oldest item if `limit`
/// items were held already.
pub open spec fn pushed(items: Seq<i8>, value: i8, limit: nat) -> Seq<i8> {
    if items.len() >= limit {
        items.subrange(1, items.len() as int).push(value)
    } else {
        items.push(value)
    }
}

/// `AllocRingBuffer::new`: an empty ring for `capacity` items. It panics on
/// a capacity of zero, and allocates the next power of two.
#[verifier::external_body]
fn ring_new(capacity: usize) -> (ring: AllocRingBuffer<i8>)
    requires
        0 < capacity <= MAX_RING_SAMPLES,
    ensures
        ring_items(ring).len() == 0,
        ring_limit(ring) == capacity,
        ring_written(ring) == 0,
{
    AllocRingBuffer::new(capacity)
}

/// `RingBuffer::push`: appends `value`; a full ring drops its oldest item
/// first. The ring counts the item, and the count must not overflow.
#[verifier::external_body]
fn ring_push(ring: &mut AllocRingBuffer<i8>, value: i8)
    requires
        ring_written(*old(ring)) < usize::MAX,
    ensures
        ring_items(*final(ring)) == pushed(ring_items(*old(ring)), value, ring_limit(*old(ring))),
        ring_limit(*final(ring)) == ring_limit(*old(ring)),
        ring_written(*final(ring)) == ring_written(*old(ring)) + 1,
{
    ring.push(value)
}

/// `RingBuffer::len`: the number of items held.
#[verifier::external_body]
fn ring_len(ring: &AllocRingBuffer<i8>) -> (len: usize)
    ensures
        len == ring_items(*ring).len(),
{
    ring.len()
}

/// `Index::index` of the ring: the item `index` places after the oldest. It
/// panics on an empty ring and wraps round on an index past the end.
#[verifier::external_body]
fn ring_at(ring: &AllocRingBuffer<i8>, index: usize) -> (item: i8)
    requires
        index < ring_items(*ring).len(),
    ensures
        item == ring_items(*ring)[index as int],
{
    ring[index]
}

/// `RingBuffer::clear`: drops every item and starts counting afresh.
#[verifier::external_body]
fn ring_clear(ring: &mut AllocRingBuffer<i8>)
    ensures
        ring_items(*final(ring)).len() == 0,
        ring_limit(*final(ring)) == ring_limit(*old(ring)),
        ring_written(*final(ring)) == 0,
{
    ring.clear()
}

/// Why a frame search cannot be set up.
#[derive(Copy, Clone, Debug, PartialEq, Eq, Structural)]
pub enum ConfigError {
    /// A bit lasts no sample at all.
    NoSamples,
    /// A frame lasts more samples than a ring is made for.
    FrameTooLong,
    /// There is not one sample position for each bit of a frame.
    WrongPositionCount,
    /// A sample position lies outside the samples of a frame.
    PositionOutOfFrame,
    /// The ring cannot hold the samples of a frame.
    RingTooSmall,
}

/// What is wrong with a set-up, if anything: the first of the faults in the
/// order of `ConfigError`.
pub open spec fn config_fault(
    samples_per_bit: usize,
    positions: Seq<usize>,
    span: usize,
) -> Option<ConfigError> {
    if samples_per_bit == 0 {
        Some(ConfigError::NoSamples)
    } else if TOTAL_PACKET_BITS * samples_per_bit > MAX_RING_SAMPLES {
        Some(ConfigError::FrameTooLong)
    } else if positions.len() != TOTAL_PACKET_BITS {
        Some(ConfigError::WrongPositionCount)
    } else if exists|i: int| 0 <= i < positions.len() && #[trigger] positions[i] >= span {
        Some(ConfigError::PositionOutOfFrame)
    } else if span > TOTAL_PACKET_BITS * samples_per_bit {
        Some(ConfigError::RingTooSmall)
    } else {
        None
    }
}

/// Whether the signs of `items` at the first positions spell the sync
/// pattern. The pattern is sent inverted: a one is a negative average.
pub open spec fn sync_found(items: Seq<i8>, positions: Seq<usize>) -> bool {
    forall|i: int|
        0 <= i < SYNC_BITS ==> (SYNC_PATTERN@[i] != 0) == (items[(#[trigger] positions[i]) as int]
            < 0)
}

/// The soft bytes of the message in `items`: `0xff` where the average at the
/// bit's position is positive, `0x00` where it is not.
pub open spec fn message_in(items: Seq<i8>, positions: Seq<usize>) -> Seq<u8> {
    Seq::new(
        MESSAGE_LEN as nat,
        |i: int|
            if items[positions[SYNC_BITS + i] as int] > 0 {
                0xffu8
            } else {
                0x00u8
            },
    )
}

/// The message of the frame that `items` hold, if they hold one: there are
/// the samples of a whole frame, and the sync pattern stands at its place.
pub open spec fn frame_in(items: Seq<i8>, positions: Seq<usize>, span: nat) -> Option<Seq<u8>> {
    if items.len() >= span && sync_found(items, positions) {
        Some(message_in(items, positions))
    } else {
        None
    }
}

/// What a frame search knows between two samples.
pub struct RingModel {
    /// The signs of the latest averages, oldest first.
    pub items: Seq<i8>,
    /// The most signs that are kept.
    pub limit: nat,
    /// The sample position of each bit of a frame.
    pub positions: Seq<usize>,
    /// The samples that a whole frame lasts.
    pub span: nat,
    /// The signs taken in since the ring was made or last emptied.
    pub written: nat,
}

impl RingModel {
    /// What holds of a frame search between any two samples.
    pub open spec fn wf(self) -> bool {
        &&& 0 < self.limit <= MAX_RING_SAMPLES
        &&& self.items.len() <= self.limit
        &&& self.span <= self.limit
        &&& self.written <= usize::MAX
        &&& self.positions.len() == TOTAL_PACKET_BITS
        &&& forall|i: int| 0 <= i < self.positions.len() ==> #[trigger] self.positions[i] < self.span
    }

    /// The search once the sign of the next average has come in. The count
    /// of signs is kept in a machine word: when it is full, the ring starts
    /// afresh with this sign.
    pub open spec fn after(self, sign: i8) -> RingModel {
        if self.written == usize::MAX {
            RingModel { items: pushed(Seq::empty(), sign, self.limit), written: 1, ..self }
        } else {
            RingModel {
                items: pushed(self.items, sign, self.limit),
                written: self.written + 1,
                ..self
            }
        }
    }
}

pub struct RingFrameSync {
    avg_ring: AllocRingBuffer<i8>,
    positions: Vec<usize>,
    span: usize,
    written: usize,
}

impl View for RingFrameSync {
    type V = RingModel;

    closed spec fn view(&self) -> RingModel {
        RingModel {
            items: ring_items(self.avg_ring),
            limit: ring_limit(self.avg_ring),
            positions: self.positions@,
            span: self.span as nat,
            written: self.written as nat,
        }
    }
}

impl RingFrameSync {
    /// Whether the search is in a state that its own methods leave it in.
    pub closed spec fn wf(&self) -> bool {
        &&& self@.wf()
        &&& self.written == ring_written(self.avg_ring)
    }

    /// A frame search with an empty ring for `TOTAL_PACKET_BITS` bits of
    /// `samples_per_bit` samples each. `positions` holds the sample position
    /// of each bit of a frame, and `span` the samples that a frame lasts.
    pub fn new(samples_per_bit: usize, positions: Vec<usize>, span: usize) -> (made: Result<
        RingFrameSync,
        ConfigError,
    >)
        ensures
            match made {
                Ok(search) => {
                    &&& config_fault(samples_per_bit, positions@, span).is_none()
                    &&& search.wf()
                    &&& search@ == (RingModel {
                        items: Seq::empty(),
                        limit: (TOTAL_PACKET_BITS * samples_per_bit) as nat,
                        positions: positions@,
                        span: span as nat,
                        written: 0,
                    })
                },
                Err(fault) => config_fault(samples_per_bit, positions@, span) == Some(fault),
            },
    {
        if samples_per_bit == 0 {
            return Err(ConfigError::NoSamples);
        }
        if samples_per_bit > MAX_RING_SAMPLES / TOTAL_PACKET_BITS {
            assert(TOTAL_PACKET_BITS * samples_per_bit > MAX_RING_SAMPLES) by (nonlinear_arith)
                requires
                    samples_per_bit > MAX_RING_SAMPLES / TOTAL_PACKET_BITS,
                    TOTAL_PACKET_BITS == 610,
                    MAX_RING_SAMPLES == 0x4000_0000,
            ;
            return Err(ConfigError::FrameTooLong);
        }
        assert(TOTAL_PACKET_BITS * samples_per_bit <= MAX_RING_SAMPLES) by (nonlinear_arith)
            requires
                samples_per_bit <= MAX_RING_SAMPLES / TOTAL_PACKET_BITS,
                TOTAL_PACKET_BITS == 610,
                MAX_RING_SAMPLES == 0x4000_0000,
        ;
        let capacity: usize = TOTAL_PACKET_BITS * samples_per_bit;
        if positions.len() != TOTAL_PACKET_BITS {
            return Err(ConfigError::WrongPositionCount);
        }
        let mut i: usize = 0;
        while i < positions.len()
            invariant
                i <= positions@.len(),
                samples_per_bit != 0,
                TOTAL_PACKET_BITS * samples_per_bit <= MAX_RING_SAMPLES,
                positions@.len() == TOTAL_PACKET_BITS,
                forall|k: int| 0 <= k < i ==> #[trigger] positions@[k] < span,
            decreases positions@.len() - i,
        {
            if positions[i] >= span {
                assert(0 <= i < positions@.len() && positions@[i as int] >= span);
                return Err(ConfigError::PositionOutOfFrame);
            }
            i += 1;
        }
        if span > capacity {
            return Err(ConfigError::RingTooSmall);
        }
        let avg_ring = ring_new(capacity);
        let search = RingFrameSync { avg_ring, positions, span, written: 0 };
        assert(search@.items =~= Seq::empty());
        Ok(search)
    }

    /// The number of averages in the ring.
    pub fn len(&self) -> (len: usize)
        ensures
            len == self@.items.len(),
    {
        ring_len(&self.avg_ring)
    }

    /// The soft bytes of the message of the frame in the ring, if the ring
    /// holds a frame.
    pub fn check_ring(&self) -> (message: Option<[u8; 576]>)
        requires
            self.wf(),
        ensures
            match message {
                Some(bytes) => frame_in(self@.items, self@.positions, self@.span) == Some(bytes@),
                None => frame_in(self@.items, self@.positions, self@.span).is_none(),
            },
    {
        if ring_len(&self.avg_ring) < self.span {
            return None;
        }
        let ghost items = ring_items(self.avg_ring);
        let mut i: usize = 0;
        while i < SYNC_BITS
            invariant
                i <= SYNC_BITS,
                self.wf(),
                items == ring_items(self.avg_ring),
                items.len() >= self.span,
                forall|k: int|
                    0 <= k < i ==> (SYNC_PATTERN@[k] != 0) == (items[(
                    #[trigger] self.positions@[k]) as int] < 0),
            decreases SYNC_BITS - i,
        {
            let bit: bool = ring_at(&self.avg_ring, self.positions[i]) < 0;
            if (SYNC_PATTERN[i] != 0) != bit {
                return None;
            }
            i += 1;
        }
        let mut message: [u8; 576] = [0u8;576];
        let mut j: usize = 0;
        while j < MESSAGE_LEN
            invariant
                j <= MESSAGE_LEN,
                self.wf(),
                items == ring_items(self.avg_ring),
                items.len() >= self.span,
                forall|k: int| 0 <= k < j ==> message@[k] == message_in(items, self.positions@)[k],
            decreases MESSAGE_LEN - j,
        {
            let bit: bool = ring_at(&self.avg_ring, self.positions[j + SYNC_BITS]) > 0;
            message[j] = if bit {
                0xff
            } else {
                0x00
            };
            j += 1;
        }
        assert(message@ =~= message_in(items, self.positions@));
        Some(message)
    }

    /// Takes in the sign of the next average: negative, zero or positive.
    /// Hands back the soft bytes of a message if the ring then holds a
    /// frame: they are then due at the error-correcting decoder. A ring that
    /// has counted as many signs as it can count is emptied first.
    pub fn push(&mut self, sign: i8) -> (message: Option<[u8; 576]>)
        requires
            old(self).wf(),
        ensures
            final(self).wf(),
            final(self)@ == old(self)@.after(sign),
            match message {
                Some(bytes) => frame_in(final(self)@.items, final(self)@.positions, final(self)@.span)
                    == Some(bytes@),
                None => frame_in(
                    final(self)@.items,
                    final(self)@.positions,
                    final(self)@.span,
                ).is_none(),
            },
    {
        if self.written == usize::MAX {
            ring_clear(&mut self.avg_ring);
            self.written = 0;
            assert(ring_items(self.avg_ring) =~= Seq::empty());
        }
        ring_push(&mut self.avg_ring, sign);
        self.written += 1;
        assert(self@.items =~= old(self)@.after(sign).items);
        self.check_ring()
    }

    /// Forgets every average, so that the frame just found is not found
    /// again.
    pub fn clear(&mut self)
        requires
            old(self).wf(),
        ensures
            final(self).wf(),
            final(self)@ == (RingModel { items: Seq::empty(), written: 0, ..old(self)@ }),
    {
        ring_clear(&mut self.avg_ring);
        self.written = 0;
        assert(self@.items =~= Seq::empty());
    }
}

/// A ring that was cleared holds no frame until the samples of a whole
/// frame have come in again: a frame is not found twice.
pub proof fn lemma_no_frame_in_short_ring(m: RingModel)
    requires
        m.wf(),
        m.items.len() < m.span,
    ensures
        frame_in(m.items, m.positions, m.span).is_none(),
{
}

} // verus!
