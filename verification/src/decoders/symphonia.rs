//! The decisions of the decoder that reads formats through the Symphonia
//! crate: where the next sample lies, which packets are used, and when the
//! format changed.

use vstd::prelude::*;

verus! {

/// Which sample of the decoded buffer comes next.
#[derive(Debug, Copy, Clone, PartialEq, Eq, Structural)]
pub struct SampleCursor {
    /// The channel of the next sample.
    pub next_channel_idx: u16,
    /// The frame of the next sample.
    pub next_sample_idx: usize,
}

/// What the decoder does to hand out the next sample.
#[derive(Debug, Copy, Clone, PartialEq, Eq, Structural)]
pub enum SampleStep {
    /// Take the sample of this channel in this frame of the decoded buffer.
    Extract(u16, usize),
    /// The decoded buffer is used up: decode the next packet first.
    DecodeNext,
}

/// The cursor moved on to the next frame once every channel of the current
/// one was handed out.
pub open spec fn cursor_wrapped(cursor: SampleCursor, channel_count: u16) -> SampleCursor {
    if cursor.next_channel_idx >= channel_count {
        SampleCursor { next_channel_idx: 0, next_sample_idx: (cursor.next_sample_idx + 1) as usize }
    } else {
        cursor
    }
}

impl SampleCursor {
    /// The cursor at the first sample of a newly decoded buffer.
    pub fn start() -> (r: SampleCursor)
        ensures
            r == (SampleCursor { next_channel_idx: 0, next_sample_idx: 0 }),
    {
        SampleCursor { next_channel_idx: 0, next_sample_idx: 0 }
    }

    /// Move to the next frame if every channel of the current one was handed
    /// out, then tell where the next sample lies in a decoded buffer of
    /// `frames` frames. The cursor does not move past the sample it names;
    /// [`SampleCursor::advance`] does that once the sample was taken.
    pub fn next_step(&mut self, channel_count: u16, frames: usize) -> (r: SampleStep)
        requires
            old(self).next_sample_idx < usize::MAX,
        ensures
            *final(self) == cursor_wrapped(*old(self), channel_count),
            final(self).next_sample_idx >= frames ==> r == SampleStep::DecodeNext,
            final(self).next_sample_idx < frames ==> r == SampleStep::Extract(
                final(self).next_channel_idx,
                final(self).next_sample_idx,
            ),
    {
        if self.next_channel_idx >= channel_count {
            self.next_channel_idx = 0;
            self.next_sample_idx = self.next_sample_idx + 1;
        }
        if self.next_sample_idx >= frames {
            SampleStep::DecodeNext
        } else {
            SampleStep::Extract(self.next_channel_idx, self.next_sample_idx)
        }
    }

    /// The sample the cursor names was handed out: move to the next channel.
    pub fn advance(&mut self)
        requires
            old(self).next_channel_idx < u16::MAX,
        ensures
            final(self).next_channel_idx == old(self).next_channel_idx + 1,
            final(self).next_sample_idx == old(self).next_sample_idx,
    {
        self.next_channel_idx = self.next_channel_idx + 1;
    }
}

/// How decoding a packet went.
#[derive(Debug, Copy, Clone, PartialEq, Eq, Structural)]
pub enum DecodeOutcome {
    /// The packet was decoded.
    Decoded,
    /// The packet could not be decoded but the stream goes on: a decode
    /// error, or a reset of the decoder that it handles itself.
    Recoverable,
    /// Any other error: decoding stops.
    Fatal,
}

/// What the decoder does with a packet.
#[derive(Debug, Copy, Clone, PartialEq, Eq, Structural)]
pub enum PacketAction {
    /// The packet belongs to another track, or could not be decoded but the
    /// stream goes on: read the next packet.
    Skip,
    /// Use the decoded samples.
    Use,
    /// Stop with the error.
    Fail,
}

/// What the decoder does with a packet of track `packet_track` while it
/// plays track `track_id`; `outcome` is how decoding it went, which only
/// matters for packets of the played track.
pub fn packet_action(packet_track: u32, track_id: u32, outcome: DecodeOutcome) -> (r: PacketAction)
    ensures
        r == if packet_track != track_id {
            PacketAction::Skip
        } else {
            match outcome {
                DecodeOutcome::Decoded => PacketAction::Use,
                DecodeOutcome::Recoverable => PacketAction::Skip,
                DecodeOutcome::Fatal => PacketAction::Fail,
            }
        },
{
    if packet_track != track_id {
        return PacketAction::Skip;
    }
    match outcome {
        DecodeOutcome::Decoded => PacketAction::Use,
        DecodeOutcome::Recoverable => PacketAction::Skip,
        DecodeOutcome::Fatal => PacketAction::Fail,
    }
}

/// Whether a newly decoded buffer changes the format: its channels differ
/// from the current ones, or its sample rate does.
pub fn format_changed(same_channels: bool, sample_rate: u32, new_sample_rate: u32) -> (r: bool)
    ensures
        r == (!same_channels || sample_rate != new_sample_rate),
{
    !same_channels || sample_rate != new_sample_rate
}

/// The index of the first track that can be played, given for each track
/// whether it is audio with a known codec; `None` when there is none.
pub fn first_playable_track(playable: &Vec<bool>) -> (r: Option<usize>)
    ensures
        r matches Some(i) ==> i < playable@.len() && playable@[i as int] && forall|j: int|
            0 <= j < i ==> !#[trigger] playable@[j],
        r is None ==> forall|j: int| 0 <= j < playable@.len() ==> !#[trigger] playable@[j],
{
    let mut i: usize = 0;
    while i < playable.len()
        invariant
            i <= playable@.len(),
            forall|j: int| 0 <= j < i ==> !#[trigger] playable@[j],
        decreases playable@.len() - i,
    {
        if playable[i] {
            return Some(i);
        }
        i = i + 1;
    }
    None
}

} // verus!
