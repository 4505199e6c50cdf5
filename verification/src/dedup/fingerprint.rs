//! The decisions of fingerprinting a recording: which track is decoded,
//! which packets are fed to the fingerprinter, and where decoding stops.
//! The caller reads packets and decodes them; each outcome is handed here
//! and the answer says what to do next.
use vstd::prelude::*;

verus! {

/// Fingerprints beyond this length capture the whole gist of a track;
/// decoding further costs time for no extra matching power.
pub const MAX_DECODE_SECONDS: u64 = 120;

/// A track of the container: its id and whether its codec is unknown.
#[derive(Debug, Clone, Copy, PartialEq, Eq, Structural)]
pub struct TrackInfo {
    pub id: u32,
    pub null_codec: bool,
}

/// The first track whose codec is known, the one decoded.
pub open spec fn first_decodable(tracks: Seq<TrackInfo>, from: int) -> Option<u32>
    decreases tracks.len() - from,
{
    if from < 0 || from >= tracks.len() {
        None
    } else if !tracks[from].null_codec {
        Some(tracks[from].id)
    } else {
        first_decodable(tracks, from + 1)
    }
}

pub open spec fn no_track_message() -> Seq<char> {
    "No decodable audio track"@
}

pub open spec fn no_audio_message() -> Seq<char> {
    "Could not decode any audio from the file"@
}

/// The track to decode, or the refusal when no track has a known codec.
pub fn pick_track(tracks: &[TrackInfo]) -> (r: Result<u32, String>)
    ensures
        match first_decodable(tracks@, 0) {
            Some(id) => r == Ok::<u32, String>(id),
            None => r matches Err(m) && m@ == no_track_message(),
        },
{
    let mut k: usize = 0;
    while k < tracks.len()
        invariant
            0 <= k <= tracks@.len(),
            first_decodable(tracks@, 0) == first_decodable(tracks@, k as int),
        decreases tracks@.len() - k,
    {
        if !tracks[k].null_codec {
            return Ok(tracks[k].id);
        }
        k = k + 1;
    }
    proof {
        reveal_strlit("No decodable audio track");
    }
    Err(String::from_str("No decodable audio track"))
}

/// What reading the next packet gave: a packet of a track with its length
/// in frames, the end of the stream, or an error.
#[derive(Debug, Clone)]
pub enum PacketRead {
    Packet { track_id: u32, frames: u64 },
    End,
    Failed(String),
}

/// What decoding a packet gave: audio at a sample rate with a number of
/// channels, a corrupt packet, or an error.
#[derive(Debug, Clone)]
pub enum Decoded {
    Audio { rate: u32, channels: u32 },
    Corrupt,
    Failed(String),
}

/// Where fingerprinting stands: the track decoded, whether the fingerprinter
/// has started, the frames decoded so far and the frames wanted.
#[derive(Debug, Clone, Copy, PartialEq, Eq, Structural)]
pub struct FingerprintState {
    pub track_id: u32,
    pub started: bool,
    pub decoded_frames: u64,
    pub max_frames: u64,
}

/// What to do after reading a packet.
#[derive(Debug, Clone)]
pub enum AfterRead {
    /// Decode the packet.
    Decode,
    /// Skip it: it belongs to another track.
    Skip,
    /// The stream is over: finish the fingerprint.
    Finish,
    /// Give up with the reader's error.
    Fail(String),
}

/// What to do after decoding a packet.
#[derive(Debug, Clone)]
pub enum AfterDecode {
    /// Skip the corrupt packet and read on.
    Skip,
    /// Feed the samples to the fingerprinter, started first at the given
    /// rate and channel count when `start` holds; then stop reading when
    /// `stop` holds.
    Consume { start: Option<(u32, u32)>, stop: bool },
    /// Give up with the decoder's error.
    Fail(String),
}

/// The state before the first packet of the chosen track.
pub fn fingerprint_start(track_id: u32) -> (r: FingerprintState)
    ensures
        r == (FingerprintState { track_id, started: false, decoded_frames: 0, max_frames: u64::MAX }),
{
    FingerprintState { track_id, started: false, decoded_frames: 0, max_frames: u64::MAX }
}

/// A packet read: one of the chosen track is decoded, others are skipped;
/// the end of the stream finishes and an error gives up.
pub fn after_read(st: &FingerprintState, read: &PacketRead) -> (r: AfterRead)
    ensures
        match *read {
            PacketRead::Packet { track_id, .. } => if track_id == st.track_id {
                r is Decode
            } else {
                r is Skip
            },
            PacketRead::End => r is Finish,
            PacketRead::Failed(m) => r matches AfterRead::Fail(x) && x@ == m@,
        },
{
    match read {
        PacketRead::Packet { track_id, .. } => {
            if *track_id == st.track_id {
                AfterRead::Decode
            } else {
                AfterRead::Skip
            }
        },
        PacketRead::End => AfterRead::Finish,
        PacketRead::Failed(m) => AfterRead::Fail(m.clone()),
    }
}

/// The frames wanted of a stream at `rate` samples a second.
pub open spec fn frames_wanted(rate: u32) -> nat {
    (rate * MAX_DECODE_SECONDS) as nat
}

/// The state after a packet of `frames` frames decoded to audio.
pub open spec fn after_audio(st: FingerprintState, rate: u32, frames: u64) -> FingerprintState {
    let max = if st.started { st.max_frames } else { frames_wanted(rate) as u64 };
    let total = if st.decoded_frames + frames > u64::MAX { u64::MAX } else { (st.decoded_frames + frames) as u64 };
    FingerprintState { track_id: st.track_id, started: true, decoded_frames: total, max_frames: max }
}

/// A packet of `frames` frames decoded. Audio is fed to the fingerprinter,
/// which starts with the first audio's rate and channels; from then on
/// decoding stops once the frames fed (counted up to `u64::MAX`) reach the
/// rate times `MAX_DECODE_SECONDS`. A corrupt packet is skipped and leaves
/// the state as it was; another error gives up.
pub fn after_decode(st: &FingerprintState, decoded: &Decoded, frames: u64) -> (r: (FingerprintState, AfterDecode))
    ensures
        match *decoded {
            Decoded::Audio { rate, channels } => {
                let next = after_audio(*st, rate, frames);
                &&& r.0 == next
                &&& r.1 matches AfterDecode::Consume { start, stop }
                &&& start == (if st.started { None } else { Some((rate, channels)) })
                &&& stop == (next.decoded_frames >= next.max_frames)
            },
            Decoded::Corrupt => r.0 == *st && r.1 is Skip,
            Decoded::Failed(m) => r.0 == *st && (r.1 matches AfterDecode::Fail(x) && x@ == m@),
        },
{
    match decoded {
        Decoded::Audio { rate, channels } => {
            let (start, max) = if st.started {
                (None, st.max_frames)
            } else {
                (Some((*rate, *channels)), *rate as u64 * MAX_DECODE_SECONDS)
            };
            let total = st.decoded_frames.saturating_add(frames);
            let next = FingerprintState { track_id: st.track_id, started: true, decoded_frames: total, max_frames: max };
            (next, AfterDecode::Consume { start, stop: total >= max })
        },
        Decoded::Corrupt => (*st, AfterDecode::Skip),
        Decoded::Failed(m) => (*st, AfterDecode::Fail(m.clone())),
    }
}

/// The end of reading: a fingerprint is owed once some audio was decoded.
pub fn fingerprint_finish(st: &FingerprintState) -> (r: Result<(), String>)
    ensures
        st.started ==> r is Ok,
        !st.started ==> (r matches Err(m) && m@ == no_audio_message()),
{
    if st.started {
        Ok(())
    } else {
        proof {
            reveal_strlit("Could not decode any audio from the file");
        }
        Err(String::from_str("Could not decode any audio from the file"))
    }
}

} // verus!
