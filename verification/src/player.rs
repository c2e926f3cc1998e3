//! The decisions of the decode and playback loops.
//!
//! The loops themselves run in the caller, which reads packets, decodes them,
//! sleeps and feeds the output device; at each turn it reports what happened
//! and gets back what to do next.
use vstd::prelude::*;

verus! {

/// How long the playback loop sleeps while paused, in milliseconds.
pub const PAUSE_SLEEP_MS: u64 = 50;

/// How long the playback loop waits for room in a full ring buffer, in milliseconds.
pub const FULL_BUFFER_SLEEP_MS: u64 = 5;

/// The channel count assumed for a track that does not report one.
pub const DEFAULT_CHANNELS: usize = 2;

/// What reading the next packet gave.
#[derive(Debug, Clone, Copy, PartialEq, Eq, Structural)]
pub enum PacketRead {
    /// A packet of the given track.
    Packet(u32),
    /// An I/O error telling that the input ended unexpectedly: the normal end.
    EndOfInput,
    /// Another I/O error.
    IoFailure,
    /// Any other error.
    Failure,
}

/// What decoding a packet gave.
#[derive(Debug, Clone, Copy, PartialEq, Eq, Structural)]
pub enum DecodeOutcome {
    /// Samples came out.
    Decoded,
    /// The packet was malformed.
    BadPacket,
    /// Any other error.
    Failure,
}

/// What a loop does next.
#[derive(Debug, Clone, Copy, PartialEq, Eq, Structural)]
pub enum Step {
    /// Stop the loop: the track ended or playback was stopped.
    Stop,
    /// Stop with an error.
    Fail,
    /// Sleep this many milliseconds, then look again.
    Sleep(u64),
    /// Go on with the next packet.
    Skip,
    /// Decode the packet.
    Decode,
    /// Keep the decoded samples.
    Keep,
}

/// What the playback loop does at the start of a turn: stop once cancelled,
/// sleep while paused, else read the next packet.
pub fn turn_step(cancelled: bool, paused: bool) -> (s: Step)
    ensures
        cancelled ==> s == Step::Stop,
        !cancelled && paused ==> s == Step::Sleep(PAUSE_SLEEP_MS),
        !cancelled && !paused ==> s == Step::Decode,
{
    if cancelled {
        Step::Stop
    } else if paused {
        Step::Sleep(PAUSE_SLEEP_MS)
    } else {
        Step::Decode
    }
}

/// What the playback loop does with a packet read: any I/O error ends
/// playback, other errors and other tracks' packets are skipped.
pub fn stream_packet_step(read: PacketRead, track_id: u32) -> (s: Step)
    ensures
        s == match read {
            PacketRead::Packet(t) => if t == track_id {
                Step::Decode
            } else {
                Step::Skip
            },
            PacketRead::EndOfInput => Step::Stop,
            PacketRead::IoFailure => Step::Stop,
            PacketRead::Failure => Step::Skip,
        },
{
    match read {
        PacketRead::Packet(t) => if t == track_id {
            Step::Decode
        } else {
            Step::Skip
        },
        PacketRead::EndOfInput => Step::Stop,
        PacketRead::IoFailure => Step::Stop,
        PacketRead::Failure => Step::Skip,
    }
}

/// What the playback loop does with a decode result: keep samples, skip
/// every error.
pub fn stream_decode_step(outcome: DecodeOutcome) -> (s: Step)
    ensures
        outcome == DecodeOutcome::Decoded ==> s == Step::Keep,
        outcome != DecodeOutcome::Decoded ==> s == Step::Skip,
{
    match outcome {
        DecodeOutcome::Decoded => Step::Keep,
        _ => Step::Skip,
    }
}

/// What decoding a whole track does with a packet read: the unexpected end of
/// input ends the track, other errors fail, other tracks' packets are skipped.
pub fn track_packet_step(read: PacketRead, track_id: u32) -> (s: Step)
    ensures
        s == match read {
            PacketRead::Packet(t) => if t == track_id {
                Step::Decode
            } else {
                Step::Skip
            },
            PacketRead::EndOfInput => Step::Stop,
            PacketRead::IoFailure => Step::Fail,
            PacketRead::Failure => Step::Fail,
        },
{
    match read {
        PacketRead::Packet(t) => if t == track_id {
            Step::Decode
        } else {
            Step::Skip
        },
        PacketRead::EndOfInput => Step::Stop,
        PacketRead::IoFailure => Step::Fail,
        PacketRead::Failure => Step::Fail,
    }
}

/// What decoding a whole track does with a decode result: a malformed packet
/// is skipped, any other error fails.
pub fn track_decode_step(outcome: DecodeOutcome) -> (s: Step)
    ensures
        s == match outcome {
            DecodeOutcome::Decoded => Step::Keep,
            DecodeOutcome::BadPacket => Step::Skip,
            DecodeOutcome::Failure => Step::Fail,
        },
{
    match outcome {
        DecodeOutcome::Decoded => Step::Keep,
        DecodeOutcome::BadPacket => Step::Skip,
        DecodeOutcome::Failure => Step::Fail,
    }
}

/// What the playback loop does before pushing a sample into the ring buffer:
/// push where there is room; where it is full, give up once cancelled, push
/// anyway (and lose the sample) while paused, else wait.
pub fn push_step(full: bool, cancelled: bool, paused: bool) -> (s: Step)
    ensures
        !full ==> s == Step::Keep,
        full && cancelled ==> s == Step::Stop,
        full && !cancelled && paused ==> s == Step::Keep,
        full && !cancelled && !paused ==> s == Step::Sleep(FULL_BUFFER_SLEEP_MS),
{
    if !full {
        Step::Keep
    } else if cancelled {
        Step::Stop
    } else if paused {
        Step::Keep
    } else {
        Step::Sleep(FULL_BUFFER_SLEEP_MS)
    }
}

/// Samples the ring buffer between decoder and output device holds: two
/// seconds of audio.
pub fn ring_capacity(sample_rate: u32, channels: usize) -> (r: usize)
    requires
        sample_rate * 2 <= usize::MAX,
        sample_rate * 2 * channels <= usize::MAX,
    ensures
        r == sample_rate * 2 * channels,
{
    sample_rate as usize * 2 * channels
}

/// The channel count of a track: the reported one, else two.
pub fn channel_count(reported: Option<usize>) -> (r: usize)
    ensures
        r == match reported {
            Some(c) => c,
            None => DEFAULT_CHANNELS,
        },
{
    match reported {
        Some(c) => c,
        None => DEFAULT_CHANNELS,
    }
}

/// Whole frames in a buffer of `len` samples of `channels` channels, a
/// channel count of 0 taken as 1.
pub fn frame_count(len: usize, channels: usize) -> (r: usize)
    ensures
        r == len / (if channels == 0 {
            1
        } else {
            channels
        }),
{
    let c = if channels == 0 {
        1
    } else {
        channels
    };
    len / c
}

/// Whether an output configuration plays a track of `channels` channels at
/// `rate` as it is: the same channel count (taken as a 16-bit number) and a
/// rate in the configuration's range.
pub fn config_matches(
    config_channels: u16,
    min_rate: u32,
    max_rate: u32,
    channels: usize,
    rate: u32,
) -> (r: bool)
    ensures
        r == (config_channels == channels % 0x10000 && min_rate <= rate <= max_rate),
{
    let low = (channels % 0x10000) as u16;
    config_channels == low && min_rate <= rate && rate <= max_rate
}

/// How the cursor of a blocking playback stands: the loop ends once every
/// sample has been handed to the device.
pub fn playback_finished(position: usize, total: usize) -> (r: bool)
    ensures
        r == (position >= total),
{
    position >= total
}

} // verus!
