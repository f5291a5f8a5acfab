//! Timestamped samples, the append-only buffer that holds them, and the
//! window of recent samples that one frame shows.

use vstd::prelude::*;
use vstd::slice::slice_subrange;

verus! {

/// One reading and the time at which it arrived.
#[derive(Clone, Copy, Debug, PartialEq, Eq, Structural)]
pub struct Sample {
    /// Nanoseconds between the start of the process and the arrival.
    pub timestamp: u128,
    /// The reading.
    pub value: i32,
}

/// The samples of `samples` that a frame shows when at most `capacity` fit:
/// all of them while there are no more than `capacity`; after that the last
/// `capacity` of them without the newest one.
pub open spec fn window_of(samples: Seq<Sample>, capacity: nat) -> Seq<Sample> {
    if samples.len() <= capacity {
        samples
    } else {
        samples.subrange(samples.len() - capacity, samples.len() - 1)
    }
}

/// Whether no sample of `samples` is older than one before it.
pub open spec fn chronological(samples: Seq<Sample>) -> bool {
    forall|i: int, j: int|
        0 <= i <= j < samples.len() ==> (#[trigger] samples[i]).timestamp <= (
        #[trigger] samples[j]).timestamp
}

/// The history of samples, in order of arrival. It only grows.
pub struct SampleBuffer {
    samples: Vec<Sample>,
}

impl View for SampleBuffer {
    type V = Seq<Sample>;

    closed spec fn view(&self) -> Seq<Sample> {
        self.samples@
    }
}

impl SampleBuffer {
    /// A buffer without samples.
    pub fn new() -> (r: Self)
        ensures
            r@ == Seq::<Sample>::empty(),
    {
        SampleBuffer { samples: Vec::new() }
    }

    /// The number of samples.
    pub fn len(&self) -> (n: usize)
        ensures
            n == self@.len(),
    {
        self.samples.len()
    }

    /// Whether no sample has arrived yet.
    pub fn is_empty(&self) -> (r: bool)
        ensures
            r == (self@.len() == 0),
    {
        self.samples.len() == 0
    }

    /// All samples, oldest first.
    pub fn samples(&self) -> (r: &[Sample])
        ensures
            r@ == self@,
    {
        self.samples.as_slice()
    }

    /// Appends `sample` as the newest.
    pub fn push(&mut self, sample: Sample)
        ensures
            final(self)@ == old(self)@.push(sample),
            chronological(old(self)@) && (old(self)@.len() > 0 ==> old(self)@.last().timestamp
                <= sample.timestamp) ==> chronological(final(self)@),
    {
        proof {
            if chronological(self@) && (self@.len() > 0 ==> self@.last().timestamp
                <= sample.timestamp) {
                lemma_push_chronological(self@, sample);
            }
        }
        self.samples.push(sample);
    }

    /// The window that a frame shows, or `None` while the buffer is empty.
    pub fn window(&self, capacity: usize) -> (r: Option<&[Sample]>)
        requires
            capacity >= 1,
        ensures
            r is None <==> self@.len() == 0,
            r matches Some(w) ==> w@ == window_of(self@, capacity as nat),
    {
        let n = self.samples.len();
        if n == 0 {
            None
        } else if n > capacity {
            Some(slice_subrange(self.samples.as_slice(), n - capacity, n - 1))
        } else {
            Some(self.samples.as_slice())
        }
    }
}

/// The shape of the window: up to the capacity it is the whole buffer; beyond
/// it, the window is the last `capacity` samples with the newest one left out,
/// so it holds `capacity - 1` samples and ends with the second newest.
pub proof fn lemma_window_shape(samples: Seq<Sample>, capacity: nat)
    requires
        capacity >= 1,
    ensures
        samples.len() <= capacity ==> {
            &&& window_of(samples, capacity).len() == samples.len()
            &&& window_of(samples, capacity) == samples
        },
        samples.len() > capacity ==> {
            &&& window_of(samples, capacity).len() == capacity - 1
            &&& window_of(samples, capacity) == samples.subrange(
                samples.len() - capacity,
                samples.len() as int,
            ).drop_last()
        },
        forall|i: int|
            0 <= i < window_of(samples, capacity).len() ==> #[trigger] window_of(
                samples,
                capacity,
            )[i] == samples[if samples.len() <= capacity {
                i
            } else {
                samples.len() - capacity + i
            }],
{
    if samples.len() > capacity {
        assert(window_of(samples, capacity) =~= samples.subrange(
            samples.len() - capacity,
            samples.len() as int,
        ).drop_last());
    }
}

/// A window of samples in order of arrival is in order of arrival.
pub proof fn lemma_window_chronological(samples: Seq<Sample>, capacity: nat)
    requires
        capacity >= 1,
        chronological(samples),
    ensures
        chronological(window_of(samples, capacity)),
{
    lemma_window_shape(samples, capacity);
}

/// Appending a sample that is no older than the newest keeps the order of arrival.
pub proof fn lemma_push_chronological(samples: Seq<Sample>, sample: Sample)
    requires
        chronological(samples),
        samples.len() > 0 ==> samples.last().timestamp <= sample.timestamp,
    ensures
        chronological(samples.push(sample)),
{
    let longer = samples.push(sample);
    assert forall|i: int, j: int| 0 <= i <= j < longer.len() implies (#[trigger] longer[i]).timestamp
        <= (#[trigger] longer[j]).timestamp by {
        if j == samples.len() && i < j {
            assert(samples[i].timestamp <= samples[samples.len() - 1].timestamp);
        }
    }
}

} // verus!
