//! What a synthesizer is.

use crate::events::EventKind;
use crate::number::{Single, zero};
use vstd::prelude::*;

verus! {

/// A streaming piano synthesizer.
///
/// What a synthesizer will do is given by its model: how the model goes on
/// with each event and with each block, and what a block sounds like.
/// Implementations must be suitable for a real-time audio thread: no
/// allocation, locking, or I/O inside [`Synth::process`].
pub trait Synth<T> {
    /// Everything that decides how the synthesizer goes on.
    type Model;

    spec fn model(&self) -> Self::Model;

    /// The synthesizer is in a state in which it can play.
    spec fn ready(&self) -> bool;

    /// The synthesizer knows the note.
    spec fn takes(note: u8) -> bool;

    /// The model after an event.
    spec fn told(m: Self::Model, kind: EventKind) -> Self::Model;

    /// The model after a block of `n` frames.
    spec fn played(m: Self::Model, n: nat) -> Self::Model;

    /// The left and the right channel of a block of `n` frames.
    spec fn sounded(m: Self::Model, n: nat) -> (Seq<T>, Seq<T>);

    /// Begin a note. `note` is a MIDI note number (21..=108 for a piano),
    /// `velocity` is MIDI velocity (1..=127).
    fn note_on(&mut self, note: u8, velocity: u8)
        requires
            old(self).ready(),
            Self::takes(note),
        ensures
            final(self).ready(),
            final(self).model() == Self::told(old(self).model(), EventKind::NoteOn { note, velocity }),
    ;

    /// Release a note (the key, not necessarily the sound: sustain pedal and
    /// string decay decide when sound actually stops).
    fn note_off(&mut self, note: u8)
        requires
            old(self).ready(),
            Self::takes(note),
        ensures
            final(self).ready(),
            final(self).model() == Self::told(old(self).model(), EventKind::NoteOff { note }),
    ;

    /// Sustain (damper) pedal position, from zero, up, to one, fully down.
    fn set_sustain(&mut self, position: Single)
        requires
            old(self).ready(),
        ensures
            final(self).ready(),
            final(self).model() == Self::told(old(self).model(), EventKind::Sustain { position }),
    ;

    /// Any other controller.
    fn set_control(&mut self, controller: u8, value: Single)
        requires
            old(self).ready(),
        ensures
            final(self).ready(),
            final(self).model() == Self::told(old(self).model(), EventKind::Control { controller, value }),
    ;

    /// Generate the next `left.len()` samples of stereo audio, overwriting
    /// the buffers. Both slices are the same length.
    fn process(&mut self, left: &mut [T], right: &mut [T])
        requires
            old(self).ready(),
            old(left)@.len() == old(right)@.len(),
        ensures
            final(self).ready(),
            final(left)@.len() == old(left)@.len(),
            final(right)@.len() == old(right)@.len(),
            (final(left)@, final(right)@) == Self::sounded(old(self).model(), old(left)@.len()),
            final(self).model() == Self::played(old(self).model(), old(left)@.len()),
    ;
}

/// Overwrites samples with silence.
pub fn silence(samples: &mut [Single])
    ensures
        final(samples)@ == Seq::new(old(samples)@.len(), |i: int| zero()),
{
    let n: usize = samples.len();
    let mut i: usize = 0;
    while i < n
        invariant
            i <= n,
            n == old(samples)@.len(),
            samples@.len() == n,
            forall|j: int| 0 <= j < i ==> #[trigger] samples@[j] == zero(),
        decreases n - i,
    {
        samples[i] = zero();
        i += 1;
    }
    assert(samples@ =~= Seq::new(old(samples)@.len(), |i: int| zero()));
}

} // verus!
