//! What crosses between the acquisition task and the analysis loop: one
//! reading of the two channels, how a reading comes out of the sensor's queue,
//! and how a window of readings is copied out per channel.

use crate::circ::Circ;
use vstd::prelude::*;

verus! {

/// One reading of the sensor: the counts of the red and of the infrared
/// channel at one acquisition tick.
#[derive(Copy, Clone, Debug, PartialEq, Eq, Structural)]
pub struct Max3012Sample {
    /// Count of the red channel.
    pub r: u32,
    /// Count of the infrared channel.
    pub ir: u32,
}

/// The reading that an activation of the acquisition task records, given how
/// many samples the sensor's queue gave and the two words it filled: none
/// where it gave none, else the reading with the second word as red and the
/// first as infrared.
pub open spec fn reading_of(samples_read: u8, fifo: Seq<u32>) -> Option<Max3012Sample> {
    if samples_read > 0 {
        Some(Max3012Sample { r: fifo[1], ir: fifo[0] })
    } else {
        None
    }
}

/// The red counts of a window of readings, in order.
pub open spec fn red_of(window: Seq<Max3012Sample>) -> Seq<u32> {
    Seq::new(window.len(), |i: int| window[i].r)
}

/// The infrared counts of a window of readings, in order.
pub open spec fn infrared_of(window: Seq<Max3012Sample>) -> Seq<u32> {
    Seq::new(window.len(), |i: int| window[i].ir)
}

impl Max3012Sample {
    /// The reading that a buffer holds before anything was recorded.
    pub fn zero() -> (s: Self)
        ensures
            s == (Max3012Sample { r: 0, ir: 0 }),
    {
        Max3012Sample { r: 0, ir: 0 }
    }

    /// The reading to record after one read of the sensor's queue.
    ///
    /// The sensor's data sheet gives the words as red, then infrared. Read
    /// that way the saturation came out senseless, so they are taken the
    /// other way round; why is not yet understood.
    pub fn from_fifo(samples_read: u8, fifo: &[u32; 2]) -> (s: Option<Self>)
        ensures
            s == reading_of(samples_read, fifo@),
    {
        if samples_read > 0 {
            Some(Max3012Sample { r: fifo[1], ir: fifo[0] })
        } else {
            None
        }
    }
}

/// Copies a window out per channel, oldest reading first.
pub fn copy_channels<const N: usize>(
    samples: &Circ<Max3012Sample, N>,
    red: &mut [u32; N],
    infrared: &mut [u32; N],
)
    requires
        samples.wf(),
    ensures
        final(red)@ == red_of(samples@),
        final(infrared)@ == infrared_of(samples@),
{
    let mut it = samples.iter();
    let mut i: usize = 0;
    loop
        invariant
            samples.wf(),
            it.wf(),
            it.source() == *samples,
            it.position() == i,
            i <= N,
            forall|j: int| 0 <= j < i ==> red@[j] == samples@[j].r,
            forall|j: int| 0 <= j < i ==> infrared@[j] == samples@[j].ir,
        ensures
            i == N,
            forall|j: int| 0 <= j < N ==> red@[j] == samples@[j].r,
            forall|j: int| 0 <= j < N ==> infrared@[j] == samples@[j].ir,
        decreases N - i,
    {
        match it.next() {
            Some(s) => {
                red[i] = s.r;
                infrared[i] = s.ir;
                i += 1;
            },
            None => {
                break ;
            },
        }
    }
    assert(red@ =~= red_of(samples@));
    assert(infrared@ =~= infrared_of(samples@));
}

} // verus!
