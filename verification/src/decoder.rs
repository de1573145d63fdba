use vstd::prelude::*;
use std::time::Duration;

verus! {

/// Layout of a decoded stream: sample rate, channel count and, when the container says,
/// its duration.
#[derive(Debug, Clone, PartialEq, Eq)]
pub struct AudioSpec {
    pub sample_rate: u32,
    pub channels: u16,
    pub duration: Option<Duration>,
}

/// Number of consecutive undecodable packets after which decoding gives up.
pub const MAX_CONSECUTIVE_DECODE_ERRORS: usize = 20;

/// Largest Opus frame per channel (120 ms at 48 kHz).
pub const OPUS_MAX_FRAME_SAMPLES: usize = 5760;

/// The sample rate and channel count a stream is decoded with: the codec's values, or
/// 48 kHz and stereo when the codec does not say; never fewer than one channel.
pub fn stream_layout(sample_rate: Option<u32>, channel_count: Option<usize>) -> (r: (u32, u16))
    ensures
        r.0 == match sample_rate {
            Some(s) => s,
            None => 48000,
        },
        r.1 == ({
            let c: u16 = match channel_count {
                Some(n) => n as u16,
                None => 2,
            };
            if c < 1 {
                1u16
            } else {
                c
            }
        }),
{
    let rate = match sample_rate {
        Some(s) => s,
        None => 48000,
    };
    let c: u16 = match channel_count {
        Some(n) => n as u16,
        None => 2,
    };
    (rate, if c < 1 { 1 } else { c })
}

/// Sample rates an Opus decoder runs at.
#[derive(Debug, Clone, Copy, PartialEq, Eq, Structural)]
pub enum OpusRate {
    Hz8000,
    Hz12000,
    Hz16000,
    Hz24000,
    Hz48000,
}

/// The Opus decoder rate for a stream rate: the matching Opus rate, 48 kHz for any other.
pub fn opus_rate_for(sample_rate: u32) -> (r: OpusRate)
    ensures
        r == (if sample_rate == 8000 {
            OpusRate::Hz8000
        } else if sample_rate == 12000 {
            OpusRate::Hz12000
        } else if sample_rate == 16000 {
            OpusRate::Hz16000
        } else if sample_rate == 24000 {
            OpusRate::Hz24000
        } else {
            OpusRate::Hz48000
        }),
{
    if sample_rate == 8000 {
        OpusRate::Hz8000
    } else if sample_rate == 12000 {
        OpusRate::Hz12000
    } else if sample_rate == 16000 {
        OpusRate::Hz16000
    } else if sample_rate == 24000 {
        OpusRate::Hz24000
    } else {
        OpusRate::Hz48000
    }
}

/// Whether an Opus decoder for `channels` channels runs in mono (otherwise stereo).
pub fn opus_is_mono(channels: u16) -> (r: bool)
    ensures
        r == (channels == 1),
{
    channels == 1
}

/// Size of the buffer an Opus decoder writes one frame into.
pub fn opus_buffer_len(channels: u16) -> (r: usize)
    ensures
        r == OPUS_MAX_FRAME_SAMPLES * channels,
{
    OPUS_MAX_FRAME_SAMPLES * (channels as usize)
}

/// The Ogg encapsulation headers of an Opus stream ("OpusHead" and "OpusTags"), which carry
/// no audio.
pub open spec fn is_opus_header_spec(data: Seq<u8>) -> bool {
    data.len() >= 8 && (data.subrange(0, 8) == seq![79u8, 112u8, 117u8, 115u8, 72u8, 101u8, 97u8, 100u8]
        || data.subrange(0, 8) == seq![79u8, 112u8, 117u8, 115u8, 84u8, 97u8, 103u8, 115u8])
}

/// Whether a packet is an Ogg Opus header ("OpusHead" or "OpusTags") rather than audio.
pub fn is_opus_header_packet(data: &[u8]) -> (r: bool)
    ensures
        r == is_opus_header_spec(data@),
{
    if data.len() < 8 {
        return false;
    }
    let head: [u8; 8] = [79, 112, 117, 115, 72, 101, 97, 100];
    let tags: [u8; 8] = [79, 112, 117, 115, 84, 97, 103, 115];
    let mut is_head = true;
    let mut is_tags = true;
    let mut i: usize = 0;
    while i < 8
        invariant
            data@.len() >= 8,
            i <= 8,
            head@ == seq![79u8, 112u8, 117u8, 115u8, 72u8, 101u8, 97u8, 100u8],
            tags@ == seq![79u8, 112u8, 117u8, 115u8, 84u8, 97u8, 103u8, 115u8],
            is_head == (forall|j: int| 0 <= j < i ==> data@[j] == head@[j]),
            is_tags == (forall|j: int| 0 <= j < i ==> data@[j] == tags@[j]),
        decreases 8 - i,
    {
        if data[i] != head[i] {
            is_head = false;
        }
        if data[i] != tags[i] {
            is_tags = false;
        }
        i = i + 1;
    }
    proof {
        if is_head {
            assert(data@.subrange(0, 8) =~= head@);
        } else {
            let j = choose|j: int| 0 <= j < 8 && data@[j] != head@[j];
            assert(data@.subrange(0, 8)[j] != head@[j]);
        }
        if is_tags {
            assert(data@.subrange(0, 8) =~= tags@);
        } else {
            let j = choose|j: int| 0 <= j < 8 && data@[j] != tags@[j];
            assert(data@.subrange(0, 8)[j] != tags@[j]);
        }
    }
    is_head || is_tags
}

/// Counts undecodable packets in a row: a good packet resets the count, and decoding gives
/// up once the count passes [`MAX_CONSECUTIVE_DECODE_ERRORS`].
#[derive(Debug, Clone, Copy)]
pub struct DecodeErrorCounter {
    pub consecutive: usize,
}

impl DecodeErrorCounter {
    /// A counter at zero.
    pub fn new() -> (r: Self)
        ensures
            r.consecutive == 0,
    {
        DecodeErrorCounter { consecutive: 0 }
    }

    /// A packet was read or decoded: the count starts again.
    pub fn reset(&mut self)
        ensures
            final(self).consecutive == 0,
    {
        self.consecutive = 0;
    }

    /// One more undecodable packet; returns whether decoding must give up.
    pub fn register_error(&mut self) -> (give_up: bool)
        requires
            old(self).consecutive < usize::MAX,
        ensures
            final(self).consecutive == old(self).consecutive + 1,
            give_up == (final(self).consecutive > MAX_CONSECUTIVE_DECODE_ERRORS),
    {
        self.consecutive = self.consecutive + 1;
        self.consecutive > MAX_CONSECUTIVE_DECODE_ERRORS
    }
}

/// Whether a resampler can be set up between two rates: only when they differ.
pub fn resampling_possible(source_rate: u32, target_rate: u32) -> (r: bool)
    ensures
        r == (source_rate != target_rate),
{
    source_rate != target_rate
}

/// What happened when the decoder tried to produce the next packet.
#[derive(Debug, Clone, Copy, PartialEq, Eq, Structural)]
pub enum PacketEvent {
    /// The container reached its end.
    EndOfStream,
    /// The container asks for the codec to be reset.
    ResetRequired,
    /// Reading the next packet failed.
    ReadError,
    /// A packet of another track was read.
    OtherTrack,
    /// An Ogg Opus header packet was read.
    OpusHeader,
    /// A packet was read but could not be decoded.
    DecodeError,
    /// A packet was read and the codec failed beyond recovery.
    FatalError,
    /// A packet was read and decoded into samples.
    Decoded,
}

/// What the decoder does after an event.
#[derive(Debug, Clone, Copy, PartialEq, Eq, Structural)]
pub enum PacketAction {
    /// Try the next packet.
    Continue,
    /// Reset the codec, then try the next packet.
    Reset,
    /// Report the end of the stream.
    End,
    /// Report a decoding failure.
    Fail,
    /// Hand out the decoded samples.
    Yield,
}

/// Decides what to do after one event of packet decoding.  Reading a packet successfully
/// restarts the count of consecutive errors; a failed read or an undecodable packet adds
/// one, and decoding fails once more than [`MAX_CONSECUTIVE_DECODE_ERRORS`] have come in a
/// row; a fatal codec error fails at once.
pub fn packet_step(errors: &mut DecodeErrorCounter, event: PacketEvent) -> (action: PacketAction)
    requires
        event == PacketEvent::ReadError ==> old(errors).consecutive < usize::MAX,
    ensures
        final(errors).consecutive == match event {
            PacketEvent::EndOfStream | PacketEvent::ResetRequired => old(errors).consecutive as int,
            PacketEvent::ReadError => old(errors).consecutive + 1,
            PacketEvent::DecodeError => 1int,
            _ => 0int,
        },
        action == match event {
            PacketEvent::EndOfStream => PacketAction::End,
            PacketEvent::ResetRequired => PacketAction::Reset,
            PacketEvent::ReadError => if old(errors).consecutive + 1 > MAX_CONSECUTIVE_DECODE_ERRORS {
                PacketAction::Fail
            } else {
                PacketAction::Continue
            },
            PacketEvent::OtherTrack | PacketEvent::OpusHeader | PacketEvent::DecodeError => PacketAction::Continue,
            PacketEvent::FatalError => PacketAction::Fail,
            PacketEvent::Decoded => PacketAction::Yield,
        },
{
    match event {
        PacketEvent::EndOfStream => PacketAction::End,
        PacketEvent::ResetRequired => PacketAction::Reset,
        PacketEvent::ReadError => {
            if errors.register_error() {
                PacketAction::Fail
            } else {
                PacketAction::Continue
            }
        },
        PacketEvent::OtherTrack | PacketEvent::OpusHeader => {
            errors.reset();
            PacketAction::Continue
        },
        PacketEvent::DecodeError => {
            errors.reset();
            if errors.register_error() {
                PacketAction::Fail
            } else {
                PacketAction::Continue
            }
        },
        PacketEvent::FatalError => {
            errors.reset();
            PacketAction::Fail
        },
        PacketEvent::Decoded => {
            errors.reset();
            PacketAction::Yield
        },
    }
}

} // verus!
