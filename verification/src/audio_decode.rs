//! Turning an encoded clip into interleaved samples.
//!
//! Recognising the container is Symphonia's work; choosing the track, ordering
//! the samples and deciding when decoding ends is done here.
use crate::audio_buffer::append_frames;
use crate::audio_buffer::interleaved;
use crate::audio_buffer::law_frames_stand_together;
use crate::audio_buffer::plane_views;
use crate::clip_probe::can_be_probed;
use crate::clip_probe::is_probeable;
use crate::text::same;
use vstd::prelude::*;

verus! {

/// The container reader that probing a clip hands out.
#[verifier::external_type_specification]
#[verifier::external_body]
pub struct ExProbeResult(symphonia::core::probe::ProbeResult);

/// What choosing a track needs to know of one.
#[derive(Debug)]
pub struct TrackInfo {
    /// The number of its codec, as Symphonia prints it: in hexadecimal.
    pub codec: String,
    pub sample_rate: Option<u32>,
    /// The number of channels.
    pub channels: Option<usize>,
}

/// A [`TrackInfo`] in specifications.
pub struct Track {
    pub codec: Seq<char>,
    pub sample_rate: Option<u32>,
    pub channels: Option<usize>,
}

impl Track {
    /// Whether the track names a codec at all: zero stands for none.
    pub open spec fn has_codec(self) -> bool {
        self.codec != "0x0"@
    }
}

impl View for TrackInfo {
    type V = Track;

    open spec fn view(&self) -> Track {
        Track { codec: self.codec@, sample_rate: self.sample_rate, channels: self.channels }
    }
}

/// What is known of each track.
pub open spec fn track_views(tracks: Seq<TrackInfo>) -> Seq<Track> {
    Seq::new(tracks.len(), |i: int| tracks[i]@)
}

/// The track that is decoded.
#[derive(Debug)]
pub struct AudioTrack {
    /// Its position among the tracks of the clip.
    pub index: usize,
    pub sample_rate: u32,
    pub channels: u16,
}

/// The tracks Symphonia's default probe finds in a clip, in its order, or the
/// text of the error it gives.
pub uninterp spec fn probed_tracks(data: Seq<u8>) -> Result<Seq<Track>, Seq<char>>;

/// The bytes that a reader reads its packets from.
pub uninterp spec fn clip_of(reader: symphonia::core::probe::ProbeResult) -> Seq<u8>;

/// `symphonia::core::probe::Probe::format`, on Symphonia's default probe with
/// default options, over the bytes of `data` held in memory. Claimed of it:
/// whether it recognises the container, the error text where it does not, and
/// what the tracks of the returned reader say of their codec, sample rate and
/// channels depend on the bytes alone, and the returned reader reads those
/// bytes. Nothing is claimed of the packets it will give. The probe knows WAV
/// streams and ID3 tags alone. Left out are the clips on which a reader of these
/// panics: on some values in the format chunk, on one flag of an ID3 tag, where
/// overflow is checked on lengths, block sizes and channel masks that overflow,
/// and where addresses have 32 bits on texts and frames too long to make room
/// for.
#[verifier::external_body]
fn probe(data: &[u8]) -> (r: Result<(symphonia::core::probe::ProbeResult, Vec<TrackInfo>), String>)
    requires
        can_be_probed(data@),
    ensures
        probed_tracks(data@) == (match r {
            Ok((_, tracks)) => Ok(track_views(tracks@)),
            Err(text) => Err(text@),
        }),
        r matches Ok((reader, _)) ==> clip_of(reader) == data@,
{
    let source = Box::new(std::io::Cursor::new(data.to_vec()));
    let stream = symphonia::core::io::MediaSourceStream::new(source, Default::default());
    let probed = symphonia::default::get_probe()
        .format(&Default::default(), stream, &Default::default(), &Default::default())
        .map_err(|e| e.to_string())?;
    let tracks = probed.format.tracks().iter().map(|track| TrackInfo {
        codec: track.codec_params.codec.to_string(),
        sample_rate: track.codec_params.sample_rate,
        channels: track.codec_params.channels.map(|channels| channels.count()),
    }).collect();
    Ok((probed, tracks))
}

/// The position of the first track that names a codec; the number of tracks
/// where none does.
pub open spec fn first_audio(tracks: Seq<Track>) -> int
    decreases tracks.len(),
{
    if tracks.len() == 0 || tracks.first().has_codec() {
        0
    } else {
        1 + first_audio(tracks.drop_first())
    }
}

/// The track that is decoded, or why none can be: the first one that names a
/// codec, which also has to give its sample rate and its channels.
pub open spec fn selected(tracks: Seq<Track>) -> Result<AudioTrack, Seq<char>> {
    let index = first_audio(tracks);
    if index >= tracks.len() {
        Err("No audio track found"@)
    } else if tracks[index].sample_rate is None {
        Err("No sample rate found"@)
    } else if tracks[index].channels is None {
        Err("No channels found"@)
    } else {
        Ok(
            AudioTrack {
                index: index as usize,
                sample_rate: tracks[index].sample_rate->0,
                channels: tracks[index].channels->0 as u16,
            },
        )
    }
}

proof fn lemma_first_audio(tracks: Seq<Track>, index: int)
    requires
        0 <= index <= tracks.len(),
        forall|i: int| 0 <= i < index ==> !(#[trigger] tracks[i]).has_codec(),
        index < tracks.len() ==> tracks[index].has_codec(),
    ensures
        first_audio(tracks) == index,
    decreases index,
{
    if index > 0 {
        assert(!tracks[0].has_codec());
        let rest = tracks.drop_first();
        assert forall|i: int| 0 <= i < index - 1 implies !(#[trigger] rest[i]).has_codec() by {
            assert(rest[i] == tracks[i + 1]);
        }
        lemma_first_audio(rest, index - 1);
    }
}

/// Chooses the track to decode.
pub fn select_track(tracks: &Vec<TrackInfo>) -> (r: Result<AudioTrack, String>)
    ensures
        selected(track_views(tracks@)) == (match r {
            Ok(track) => Ok(track),
            Err(text) => Err(text@),
        }),
        (forall|i: int| 0 <= i < tracks@.len() ==> (#[trigger] tracks@[i]).codec@ == "0x0"@) ==> (
        r matches Err(text) && text@ == "No audio track found"@),
        forall|index: int|
            0 <= index < tracks@.len() && (#[trigger] tracks@[index]).codec@ != "0x0"@ && (forall|
                i: int,
            |
                0 <= i < index ==> (#[trigger] tracks@[i]).codec@ == "0x0"@) ==> match (
                tracks@[index].sample_rate,
                tracks@[index].channels,
            ) {
                (None, _) => r matches Err(text) && text@ == "No sample rate found"@,
                (Some(_), None) => r matches Err(text) && text@ == "No channels found"@,
                (Some(rate), Some(channels)) => r matches Ok(track) && track.index == index
                    && track.sample_rate == rate && track.channels == channels as u16,
            },
{
    let mut index: usize = 0;
    while index < tracks.len() && same(tracks[index].codec.as_str(), "0x0")
        invariant
            index <= tracks@.len(),
            forall|i: int| 0 <= i < index ==> !(#[trigger] track_views(tracks@)[i]).has_codec(),
        decreases tracks@.len() - index,
    {
        index = index + 1;
    }
    proof {
        lemma_first_audio(track_views(tracks@), index as int);
        assert forall|i: int| 0 <= i < index implies (#[trigger] tracks@[i]).codec@ == "0x0"@ by {
            assert(!track_views(tracks@)[i].has_codec());
        }
    }
    if index >= tracks.len() {
        return Err("No audio track found".to_string());
    }
    let track = &tracks[index];
    match (track.sample_rate, track.channels) {
        (None, _) => Err("No sample rate found".to_string()),
        (Some(_), None) => Err("No channels found".to_string()),
        (Some(sample_rate), Some(channels)) => Ok(
            AudioTrack { index, sample_rate, channels: channels as u16 },
        ),
    }
}

/// The track of a clip that is decoded, or why the clip cannot be played,
/// given what probing it found.
pub open spec fn opened(found: Result<Seq<Track>, Seq<char>>) -> Result<AudioTrack, Seq<char>> {
    match found {
        Ok(tracks) => selected(tracks),
        Err(text) => Err("Failed to probe audio: "@ + text),
    }
}

/// Why a clip is not probed.
pub open spec fn refusal() -> Seq<char> {
    "Failed to probe audio: malformed clip"@
}

/// Recognises the container of a clip and chooses the track to decode. Returns
/// the reader that the packets of the clip come from together with the track. A
/// clip that cannot be probed is refused.
pub fn open_wav(data: &[u8]) -> (r: Result<
    (symphonia::core::probe::ProbeResult, AudioTrack),
    String,
>)
    ensures
        (if can_be_probed(data@) {
            opened(probed_tracks(data@))
        } else {
            Err(refusal())
        }) == (match r {
            Ok((_, track)) => Ok(track),
            Err(text) => Err(text@),
        }),
        r matches Ok((reader, _)) ==> clip_of(reader) == data@,
        !can_be_probed(data@) ==> (r matches Err(text) && text@
            == "Failed to probe audio: malformed clip"@),
        can_be_probed(data@) ==> match probed_tracks(data@) {
            Err(reason) => r matches Err(text) && text@ == "Failed to probe audio: "@ + reason,
            Ok(tracks) => match selected(tracks) {
                Err(reason) => r matches Err(text) && text@ == reason,
                Ok(chosen) => r matches Ok((_, track)) && track == chosen,
            },
        },
{
    if !is_probeable(data) {
        return Err("Failed to probe audio: malformed clip".to_string());
    }
    match probe(data) {
        Ok((reader, tracks)) => match select_track(&tracks) {
            Ok(track) => Ok((reader, track)),
            Err(text) => Err(text),
        },
        Err(text) => {
            let mut message = "Failed to probe audio: ".to_string();
            message.append(text.as_str());
            Err(message)
        },
    }
}

// ------------------------------------------------------------------
// Decoding packet by packet
// ------------------------------------------------------------------
/// What asking for the next packet brought.
#[derive(Debug)]
pub enum PacketOutcome<T> {
    /// The reader gave no further packet.
    EndOfStream,
    /// A packet decoded to `frames` samples in each plane.
    Decoded { planes: Vec<Vec<T>>, frames: usize },
    /// A packet that the decoder rejected.
    Failed(String),
}

/// A clip whose packets are being decoded.
#[derive(Debug)]
pub struct Decoding<T> {
    pub track: AudioTrack,
    pub samples: Vec<T>,
}

/// A clip ready to be played.
#[derive(Debug)]
pub struct DecodedAudio<T> {
    pub samples: Vec<T>,
    pub sample_rate: u32,
    pub channels: u16,
}

/// Where decoding stands after a packet.
#[derive(Debug)]
pub enum DecodeStep<T> {
    More(Decoding<T>),
    Finished(DecodedAudio<T>),
    Rejected(String),
}

/// Where decoding stands after a packet, in terms of the samples so far.
pub enum Progress<T> {
    More(Seq<T>),
    Finished(Seq<T>),
    Rejected(Seq<char>),
}

impl<T> PacketOutcome<T> {
    /// Every plane of a decoded packet holds the samples it announces.
    pub open spec fn well_formed(self) -> bool {
        match self {
            PacketOutcome::Decoded { planes, frames } => forall|ch: int|
                0 <= ch < planes@.len() ==> frames <= (#[trigger] planes@[ch])@.len(),
            _ => true,
        }
    }

    /// The samples the packet adds.
    pub open spec fn samples(self) -> Seq<T> {
        match self {
            PacketOutcome::Decoded { planes, frames } => interleaved(
                plane_views(planes@),
                frames as nat,
            ),
            _ => Seq::empty(),
        }
    }

    /// What the packet makes of the samples so far.
    pub open spec fn after(self, samples: Seq<T>) -> Progress<T> {
        match self {
            PacketOutcome::EndOfStream => Progress::Finished(samples),
            PacketOutcome::Decoded { planes, frames } => Progress::More(samples + self.samples()),
            PacketOutcome::Failed(text) => Progress::Rejected("Decode error: "@ + text@),
        }
    }
}

/// Begins decoding `track` once its decoder has been made, or passes on why
/// it could not be.
pub fn start_decoding<T>(track: AudioTrack, decoder: Result<(), String>) -> (r: Result<
    Decoding<T>,
    String,
>)
    ensures
        match (decoder, r) {
            (Ok(_), Ok(decoding)) => decoding.track == track && decoding.samples@ == Seq::<
                T,
            >::empty(),
            (Err(text), Err(message)) => message@ == "Failed to create decoder: "@ + text@,
            _ => false,
        },
{
    match decoder {
        Ok(_) => Ok(Decoding { track, samples: Vec::new() }),
        Err(text) => {
            let mut message = "Failed to create decoder: ".to_string();
            message.append(text.as_str());
            Err(message)
        },
    }
}

/// Takes in the next packet: a decoded one adds its samples frame by frame, a
/// rejected one ends decoding with an error, and the end of the stream ends
/// it with what has been gathered.
pub fn decode_step<T: Copy>(decoding: Decoding<T>, outcome: PacketOutcome<T>) -> (step: DecodeStep<
    T,
>)
    requires
        outcome.well_formed(),
    ensures
        match step {
            DecodeStep::More(next) => {
                &&& outcome.after(decoding.samples@) == Progress::More(next.samples@)
                &&& next.track == decoding.track
            },
            DecodeStep::Finished(audio) => {
                &&& outcome.after(decoding.samples@) == Progress::Finished(audio.samples@)
                &&& audio.sample_rate == decoding.track.sample_rate
                &&& audio.channels == decoding.track.channels
            },
            DecodeStep::Rejected(text) => outcome.after(decoding.samples@)
                == Progress::<T>::Rejected(text@),
        },
        match outcome {
            PacketOutcome::EndOfStream => step matches DecodeStep::Finished(audio)
                && audio.samples@ == decoding.samples@ && audio.sample_rate
                == decoding.track.sample_rate && audio.channels == decoding.track.channels,
            PacketOutcome::Failed(text) => step matches DecodeStep::Rejected(message) && message@
                == "Decode error: "@ + text@,
            PacketOutcome::Decoded { planes, frames } => step matches DecodeStep::More(next) && {
                &&& next.track == decoding.track
                &&& next.samples@.len() == decoding.samples@.len() + frames * planes@.len()
                &&& forall|k: int|
                    0 <= k < decoding.samples@.len() ==> #[trigger] next.samples@[k]
                        == decoding.samples@[k]
                &&& forall|frame: int, ch: int|
                    0 <= frame < frames && 0 <= ch < planes@.len()
                        ==> next.samples@[decoding.samples@.len() + frame * planes@.len() + ch]
                        == #[trigger] planes@[ch]@[frame]
            },
        },
{
    let mut decoding = decoding;
    match outcome {
        PacketOutcome::EndOfStream => DecodeStep::Finished(
            DecodedAudio {
                samples: decoding.samples,
                sample_rate: decoding.track.sample_rate,
                channels: decoding.track.channels,
            },
        ),
        PacketOutcome::Decoded { planes, frames } => {
            append_frames(&mut decoding.samples, &planes, frames);
            DecodeStep::More(decoding)
        },
        PacketOutcome::Failed(text) => {
            let mut message = "Decode error: ".to_string();
            message.append(text.as_str());
            DecodeStep::Rejected(message)
        },
    }
}

/// A decoded packet adds the samples of its frames and nothing else: as many as
/// it has frames, times its planes, with the sample of each plane in each frame
/// in its place. What was there before stays.
pub proof fn law_packet_adds_its_frames<T>(packet: PacketOutcome<T>, before: Seq<T>)
    requires
        packet is Decoded,
    ensures
        ({
            let planes = packet->planes;
            let frames = packet->frames;
            packet.after(before) matches Progress::More(after) && {
                &&& after.len() == before.len() + frames * planes@.len()
                &&& forall|k: int| 0 <= k < before.len() ==> #[trigger] after[k] == before[k]
                &&& forall|frame: int, ch: int|
                    0 <= frame < frames && 0 <= ch < planes@.len() ==> after[before.len() + frame
                        * planes@.len() + ch] == #[trigger] planes@[ch]@[frame]
            }
        }),
{
    let planes = packet->planes;
    let frames = packet->frames;
    let after = before + packet.samples();
    assert forall|frame: int, ch: int| 0 <= frame < frames && 0 <= ch < planes@.len() implies
        after[before.len() + frame * planes@.len() + ch] == #[trigger] planes@[ch]@[frame] by {
        law_frames_stand_together(plane_views(planes@), frames as nat, frame, ch);
    }
}

/// A packet is decoded as long as each of its planes holds the samples of its
/// frames; there is nothing else to ask of it.
pub proof fn law_every_whole_packet_is_taken<T>(packet: PacketOutcome<T>)
    requires
        packet matches PacketOutcome::Decoded { planes, frames } ==> forall|ch: int|
            0 <= ch < planes@.len() ==> frames <= (#[trigger] planes@[ch])@.len(),
    ensures
        packet.well_formed(),
{
}

/// The end of the stream keeps what has been decoded, and a rejected packet gives
/// its own error, whatever has been decoded.
pub proof fn law_other_packets_add_nothing<T>(before: Seq<T>, text: String)
    ensures
        PacketOutcome::<T>::EndOfStream.after(before) == Progress::Finished(before),
        PacketOutcome::<T>::Failed(text).after(before) == Progress::<T>::Rejected(
            "Decode error: "@ + text@,
        ),
{
}

/// The first track that names a codec is the one that is decoded, with its own
/// rate and channels; that it does not give them is an error, and so is that
/// there is no such track. The tracks behind it do not matter.
pub proof fn law_first_track_with_a_codec_counts(tracks: Seq<Track>, index: int)
    requires
        0 <= index < tracks.len(),
        tracks[index].codec != "0x0"@,
        forall|i: int| 0 <= i < index ==> (#[trigger] tracks[i]).codec == "0x0"@,
    ensures
        match (tracks[index].sample_rate, tracks[index].channels) {
            (Some(rate), Some(channels)) => selected(tracks) == Ok::<AudioTrack, Seq<char>>(
                AudioTrack { index: index as usize, sample_rate: rate, channels: channels as u16 },
            ),
            (None, _) => selected(tracks) == Err::<AudioTrack, Seq<char>>(
                "No sample rate found"@,
            ),
            (Some(_), None) => selected(tracks) == Err::<AudioTrack, Seq<char>>(
                "No channels found"@,
            ),
        },
{
    lemma_first_audio(tracks, index);
}

/// Without a track that names a codec there is nothing to decode.
pub proof fn law_clip_without_audio_is_an_error(tracks: Seq<Track>)
    requires
        forall|i: int| 0 <= i < tracks.len() ==> (#[trigger] tracks[i]).codec == "0x0"@,
    ensures
        selected(tracks) == Err::<AudioTrack, Seq<char>>("No audio track found"@),
{
    lemma_first_audio(tracks, tracks.len() as int);
}

/// Where decoding stands after `outcomes` in turn.
pub open spec fn decoded<T>(samples: Seq<T>, outcomes: Seq<PacketOutcome<T>>) -> Progress<T>
    decreases outcomes.len(),
{
    if outcomes.len() == 0 {
        Progress::More(samples)
    } else {
        match outcomes.first().after(samples) {
            Progress::More(next) => decoded(next, outcomes.drop_first()),
            stopped => stopped,
        }
    }
}

/// The samples of `packets` one after the other.
pub open spec fn all_samples<T>(packets: Seq<PacketOutcome<T>>) -> Seq<T>
    decreases packets.len(),
{
    if packets.len() == 0 {
        Seq::empty()
    } else {
        packets.first().samples() + all_samples(packets.drop_first())
    }
}

/// A clip all of whose packets decode yields their samples in the order of
/// the packets, nothing dropped and nothing added.
pub proof fn law_clip_is_its_packets<T>(start: Seq<T>, packets: Seq<PacketOutcome<T>>)
    requires
        forall|i: int| 0 <= i < packets.len() ==> #[trigger] packets[i] is Decoded,
    ensures
        decoded(start, packets.push(PacketOutcome::EndOfStream)) == Progress::Finished(
            start + all_samples(packets),
        ),
    decreases packets.len(),
{
    let outcomes = packets.push(PacketOutcome::EndOfStream);
    if packets.len() == 0 {
        assert(start + all_samples(packets) =~= start);
        assert(outcomes.first() is EndOfStream);
    } else {
        let rest = packets.drop_first();
        assert(outcomes.drop_first() =~= rest.push(PacketOutcome::EndOfStream));
        assert(outcomes.first() == packets[0]);
        assert forall|i: int| 0 <= i < rest.len() implies #[trigger] rest[i] is Decoded by {
            assert(rest[i] == packets[i + 1]);
        }
        let next = start + packets[0].samples();
        law_clip_is_its_packets(next, rest);
        assert(next + all_samples(rest) =~= start + all_samples(packets));
    }
}

/// The first packet the decoder rejects ends decoding with its error,
/// whatever was decoded before it and whatever would follow.
pub proof fn law_rejected_packet_ends_decoding<T>(
    start: Seq<T>,
    packets: Seq<PacketOutcome<T>>,
    text: String,
    rest: Seq<PacketOutcome<T>>,
)
    requires
        forall|i: int| 0 <= i < packets.len() ==> #[trigger] packets[i] is Decoded,
    ensures
        decoded(start, packets.push(PacketOutcome::Failed(text)) + rest) == Progress::<T>::Rejected(
            "Decode error: "@ + text@,
        ),
    decreases packets.len(),
{
    let outcomes = packets.push(PacketOutcome::Failed(text)) + rest;
    if packets.len() == 0 {
        assert(outcomes.first() == PacketOutcome::<T>::Failed(text));
    } else {
        let tail = packets.drop_first();
        assert(outcomes.drop_first() =~= tail.push(PacketOutcome::Failed(text)) + rest);
        assert(outcomes.first() == packets[0]);
        assert forall|i: int| 0 <= i < tail.len() implies #[trigger] tail[i] is Decoded by {
            assert(tail[i] == packets[i + 1]);
        }
        law_rejected_packet_ends_decoding(start + packets[0].samples(), tail, text, rest);
    }
}

} // verus!
