//! Small pieces of compositor state.
use vstd::prelude::*;

verus! {

/// A counter of frame-callback rounds, wrapping around after `u32::MAX`.
#[derive(Debug, Default, Copy, Clone, PartialEq, Eq, Structural)]
pub struct FrameCallbackSequence(pub u32);

impl FrameCallbackSequence {
    /// Moves to the next round.
    pub fn increment(&mut self)
        ensures
            final(self).0 == if old(self).0 == u32::MAX {
                0
            } else {
                (old(self).0 + 1) as u32
            },
    {
        self.0 = self.0.wrapping_add(1);
    }
}

/// An output (by handle) and a round of its frame callbacks.
#[derive(Debug, Clone, Copy, PartialEq, Eq, Structural)]
pub struct FrameCallbackStamp {
    pub output: u64,
    pub sequence: FrameCallbackSequence,
}

/// When a surface last got a frame callback.
#[derive(Debug, Clone, Copy, PartialEq, Eq, Structural)]
pub struct SurfaceFrameThrottlingState {
    pub last_sent_at: Option<FrameCallbackStamp>,
}

/// Whether a surface whose primary scanout output is `primary` gets a
/// frame callback from `output` in round `sequence` (no round: no
/// throttling), where it last got one at `last`.
pub open spec fn spec_should_send(
    last: Option<FrameCallbackStamp>,
    primary: Option<u64>,
    output: u64,
    sequence: Option<FrameCallbackSequence>,
) -> bool {
    &&& primary == Some(output)
    &&& (sequence is None || last != Some(FrameCallbackStamp { output, sequence: sequence->0 }))
}

impl SurfaceFrameThrottlingState {
    /// Decides whether a surface gets a frame callback: only from its
    /// primary scanout output, and at most once per output round. A callback
    /// sent in a round is recorded.
    pub fn should_send(
        &mut self,
        primary: Option<u64>,
        output: u64,
        sequence: Option<FrameCallbackSequence>,
    ) -> (r: bool)
        ensures
            r == spec_should_send(old(self).last_sent_at, primary, output, sequence),
            final(self).last_sent_at == if r && sequence is Some {
                Some(FrameCallbackStamp { output, sequence: sequence->0 })
            } else {
                old(self).last_sent_at
            },
    {
        match primary {
            Some(p) => {
                if p != output {
                    return false;
                }
            },
            None => {
                return false;
            },
        }
        let sequence = match sequence {
            Some(s) => s,
            None => {
                return true;
            },
        };
        match self.last_sent_at {
            Some(last) => {
                if last.output == output && last.sequence == sequence {
                    return false;
                }
            },
            None => {},
        }
        self.last_sent_at = Some(FrameCallbackStamp { output, sequence });
        true
    }
}

/// A surface gets at most one frame callback per output round: once one was
/// sent from `output` in round `sequence`, another in the same round is not.
pub proof fn law_one_frame_callback_per_round(
    last: Option<FrameCallbackStamp>,
    output: u64,
    sequence: FrameCallbackSequence,
)
    requires
        spec_should_send(last, Some(output), output, Some(sequence)),
    ensures
        !spec_should_send(
            Some(FrameCallbackStamp { output, sequence }),
            Some(output),
            output,
            Some(sequence),
        ),
{
}

/// Which of two outputs becomes a surface's primary scanout output.
#[derive(Debug, Clone, Copy, PartialEq, Eq, Structural)]
pub enum ScanoutChoice {
    Current,
    Next,
}

/// Picks the output on which more of a surface is visible (the current one
/// on a tie), unless the compositor no longer has it, in which case the next
/// one.
pub fn primary_scanout_output_compare(
    current_visible_area: usize,
    next_visible_area: usize,
    current_known: bool,
    next_known: bool,
) -> (r: ScanoutChoice)
    ensures
        r == if next_visible_area > current_visible_area {
            ScanoutChoice::Next
        } else if current_known {
            ScanoutChoice::Current
        } else {
            ScanoutChoice::Next
        },
{
    let new_op = if next_visible_area > current_visible_area {
        ScanoutChoice::Next
    } else {
        ScanoutChoice::Current
    };
    let known = match new_op {
        ScanoutChoice::Current => current_known,
        ScanoutChoice::Next => next_known,
    };
    if known {
        new_op
    } else {
        ScanoutChoice::Next
    }
}

} // verus!
