use voicebox::audio_buffer::append_frames;
use voicebox::audio_buffer::device_buffer;
use voicebox::audio_buffer::fill_output;
use voicebox::audio_buffer::fill_output_i16;
use voicebox::audio_buffer::fill_output_u16;
use voicebox::audio_buffer::interleave_channels;
use voicebox::audio_buffer::resample;
use voicebox::audio_buffer::still_playing;
use voicebox::audio_decode::decode_step;
use voicebox::audio_decode::open_wav;
use voicebox::audio_decode::select_track;
use voicebox::audio_decode::start_decoding;
use voicebox::audio_decode::AudioTrack;
use voicebox::audio_decode::DecodeStep;
use voicebox::audio_decode::DecodedAudio;
use voicebox::audio_decode::Decoding;
use voicebox::audio_decode::PacketOutcome;
use voicebox::audio_decode::TrackInfo;
use voicebox::audio_output::device_id;
use voicebox::audio_output::matching_devices;
use voicebox::audio_output::playback_error;
use voicebox::audio_output::prefixed_id;
use voicebox::audio_output::readiness_error;
use voicebox::audio_output::underscore_spaces;
use voicebox::audio_output::AudioOutputState;
use voicebox::audio_output::PlaybackFailure;
use voicebox::audio_output::Readiness;
use voicebox::audio_output::StartReport;

fn text(s: &str) -> String {
    s.to_string()
}

/// A WAV clip of 16-bit samples.
fn wav(rate: u32, channels: u16, samples: &[i16]) -> Vec<u8> {
    let mut data: Vec<u8> = Vec::new();
    let size = (samples.len() * 2) as u32;
    data.extend_from_slice(b"RIFF");
    data.extend_from_slice(&(36 + size).to_le_bytes());
    data.extend_from_slice(b"WAVEfmt ");
    data.extend_from_slice(&16u32.to_le_bytes());
    data.extend_from_slice(&1u16.to_le_bytes());
    data.extend_from_slice(&channels.to_le_bytes());
    data.extend_from_slice(&rate.to_le_bytes());
    data.extend_from_slice(&(rate * channels as u32 * 2).to_le_bytes());
    data.extend_from_slice(&(channels * 2).to_le_bytes());
    data.extend_from_slice(&16u16.to_le_bytes());
    data.extend_from_slice(b"data");
    data.extend_from_slice(&size.to_le_bytes());
    for sample in samples {
        data.extend_from_slice(&sample.to_le_bytes());
    }
    data
}

fn track(codec: &str, sample_rate: Option<u32>, channels: Option<usize>) -> TrackInfo {
    TrackInfo { codec: text(codec), sample_rate, channels }
}

// ------------------------------------------------------------------
// Opening a clip
// ------------------------------------------------------------------

#[test]
fn wav_clip_is_recognised() {
    let clip = wav(22050, 2, &[1, -1, 2, -2]);
    let (reader, track) = open_wav(&clip).unwrap();
    assert_eq!(track.index, 0);
    assert_eq!(track.sample_rate, 22050);
    assert_eq!(track.channels, 2);
    assert_eq!(reader.format.tracks().len(), 1);
    let (_, mono) = open_wav(&wav(44100, 1, &[0; 8])).unwrap();
    assert_eq!((mono.sample_rate, mono.channels), (44100, 1));
}

#[test]
fn unknown_container_is_refused() {
    for clip in [vec![], vec![0u8; 64], b"not audio".to_vec()] {
        let error = match open_wav(&clip) {
            Ok(_) => panic!("recognised"),
            Err(error) => error,
        };
        assert!(error.starts_with("Failed to probe audio: "));
        assert!(error.len() > "Failed to probe audio: ".len());
    }
}

const MALFORMED: &str = "Failed to probe audio: malformed clip";

fn refused(clip: &[u8]) -> String {
    match open_wav(clip) {
        Ok(_) => panic!("opened"),
        Err(error) => error,
    }
}

/// A clip whose format chunk has the given bytes behind its length.
fn wav_with_format(format: &[u8], riff_len: u32) -> Vec<u8> {
    let mut data: Vec<u8> = Vec::new();
    data.extend_from_slice(b"RIFF");
    data.extend_from_slice(&riff_len.to_le_bytes());
    data.extend_from_slice(b"WAVEfmt ");
    data.extend_from_slice(&(format.len() as u32).to_le_bytes());
    data.extend_from_slice(format);
    data.extend_from_slice(b"data");
    data.extend_from_slice(&0u32.to_le_bytes());
    data.extend_from_slice(&[0; 8]);
    data
}

/// The fields of a format chunk: kind, channels, rate, block size, bits.
fn format_fields(kind: u16, channels: u16, rate: u32, block: u16, bits: u16) -> Vec<u8> {
    let mut format: Vec<u8> = Vec::new();
    format.extend_from_slice(&kind.to_le_bytes());
    format.extend_from_slice(&channels.to_le_bytes());
    format.extend_from_slice(&rate.to_le_bytes());
    format.extend_from_slice(&0u32.to_le_bytes());
    format.extend_from_slice(&block.to_le_bytes());
    format.extend_from_slice(&bits.to_le_bytes());
    format
}

/// The rest of an extensible format chunk of plain samples.
fn extensible(mut format: Vec<u8>, mask: u32) -> Vec<u8> {
    let bits = [format[14], format[15]];
    format.extend_from_slice(&22u16.to_le_bytes());
    format.extend_from_slice(&bits);
    format.extend_from_slice(&mask.to_le_bytes());
    format.extend_from_slice(&[
        0x01, 0x00, 0x00, 0x00, 0x00, 0x00, 0x10, 0x00, 0x80, 0x00, 0x00, 0xaa, 0x00, 0x38, 0x9b,
        0x71,
    ]);
    format
}

#[test]
fn sample_rate_of_zero_is_refused() {
    let clip = wav(0, 1, &[0; 8]);
    assert_eq!(refused(&clip), MALFORMED);
    let mut shifted = b"some bytes in front".to_vec();
    shifted.extend_from_slice(&clip);
    assert_eq!(refused(&shifted), MALFORMED);
}

#[test]
fn clip_behind_other_bytes_is_found() {
    let mut shifted = b"some bytes in front".to_vec();
    shifted.extend_from_slice(&wav(8000, 2, &[1; 8]));
    let (_, track) = open_wav(&shifted).unwrap();
    assert_eq!((track.sample_rate, track.channels), (8000, 2));
}

/// An ID3 tag with the given bytes behind its header.
fn tag(version: u8, flags: u8, body: &[u8]) -> Vec<u8> {
    let mut tag = b"ID3".to_vec();
    let len = body.len();
    tag.extend_from_slice(&[version, 0, flags, 0, 0, (len / 128) as u8, (len % 128) as u8]);
    tag.extend_from_slice(body);
    tag
}

fn joined(parts: &[&[u8]]) -> Vec<u8> {
    parts.concat()
}

/// The error of a clip that was probed.
fn probe_error(clip: &[u8]) -> String {
    let error = refused(clip);
    assert!(error.starts_with("Failed to probe audio: "));
    assert_ne!(error, MALFORMED);
    error
}

#[test]
fn clip_behind_a_tag_is_opened() {
    let clip = wav(8000, 2, &[1; 8]);
    let padding = tag(3, 0, &[0; 10]);
    let (_, track) = open_wav(&joined(&[&padding, &clip])).unwrap();
    assert_eq!((track.sample_rate, track.channels), (8000, 2));
    let title = tag(4, 0, b"TIT2\0\0\0\x05\0\0\0RIFF\0\0\0\0\0\0\0\0\0\0");
    assert!(open_wav(&joined(&[&title, &clip])).is_ok());
    let long = tag(2, 0, &[0; 300]);
    assert!(open_wav(&joined(&[&long, &padding, b"more", &title, &clip])).is_ok());
}

#[test]
fn clip_behind_a_tag_is_examined() {
    let padding = tag(3, 0, &[0; 10]);
    let clip = wav(0, 1, &[0; 8]);
    assert_eq!(refused(&joined(&[&padding, &clip])), MALFORMED);
    assert_eq!(refused(&joined(&[&padding, &padding, b"more", &clip])), MALFORMED);
}

#[test]
fn broken_tags_are_errors_of_the_probe() {
    let clip = wav(8000, 2, &[1; 8]);
    for broken in [
        tag(4, 0, &[]),
        tag(9, 0, &[0; 10]),
        tag(3, 0, b"TIT2\0\xff\xff\xff\0\0\0\0\0\0"),
    ] {
        probe_error(&joined(&[&broken, &clip]));
    }
    probe_error(&tag(3, 0, &[0; 300])[..40]);
}

#[test]
fn restricted_texts_are_refused() {
    let clip = wav(8000, 2, &[1; 8]);
    for (flags, behind) in [
        (0x10u8, &[1u8, 0x40][..]),
        (0x50, &[1, 1, 0xc1]),
        (0x30, &[5, 0, 0, 0, 0, 0, 1, 0x40]),
        (0x70, &[1, 5, 0, 0, 0, 0, 0, 1, 0x7f]),
    ] {
        let mut body = vec![0, 0, 0, 8, 1, flags];
        body.extend_from_slice(behind);
        body.extend_from_slice(&[0; 12]);
        assert_eq!(refused(&joined(&[&tag(4, 0x40, &body), &clip])), MALFORMED);
        assert_eq!(refused(&tag(4, 0x40, &body)), MALFORMED);
        let last = 6 + behind.len() - 1;
        body[last] &= 0xbf;
        assert!(open_wav(&joined(&[&tag(4, 0x40, &body), &clip])).is_ok());
        body[last] |= 0x40;
        body[last - 1] += 1;
        probe_error(&joined(&[&tag(4, 0x40, &body), &clip]));
        body[last - 1] -= 1;
        probe_error(&joined(&[&tag(4, 0x40, &body[..last]), &clip]));
        assert!(open_wav(&joined(&[&tag(4, 0, &[0; 20]), &clip])).is_ok());
    }
}

#[test]
fn only_the_first_mebibyte_is_searched() {
    let mut clip = vec![0u8; 1_048_574];
    clip.extend_from_slice(&wav(0, 1, &[0; 8]));
    assert_eq!(refused(&clip), MALFORMED);
    clip.insert(0, 0);
    probe_error(&clip);
    let padding = tag(3, 0, &[0; 10]);
    assert_eq!(refused(&joined(&[&[0; 64], &padding, &clip[1..]])), MALFORMED);
    let mut late = vec![0u8; 1_048_574];
    late.extend_from_slice(&wav(8000, 1, &[0; 8]));
    assert!(open_wav(&late).is_ok());
    assert!(open_wav(&joined(&[&[0; 64], &padding, &late])).is_ok());
}

#[test]
fn samples_that_look_like_a_header_do_no_harm() {
    let mut clip = wav(8000, 1, &[0; 64]);
    let fake = wav(0, 1, &[]);
    clip[60..60 + fake.len()].copy_from_slice(&fake);
    let (_, track) = open_wav(&clip).unwrap();
    assert_eq!(track.sample_rate, 8000);
}

#[test]
fn skipped_bytes_that_look_like_a_chunk_do_no_harm() {
    let clip = wav(8000, 1, &[5; 4]);
    let list = b"LIST\x04\0\0\0INFO";
    let mut listed = joined(&[&clip[..12], list, &clip[12..44], b"LIST\xff\xff\xff\xff"]);
    assert_eq!(listed.len(), 64);
    listed[4..8].copy_from_slice(&56u32.to_le_bytes());
    let (_, track) = open_wav(&listed).unwrap();
    assert_eq!((track.sample_rate, track.channels), (8000, 1));
    let fake = wav(0, 1, &[]);
    for junk in [&b"junk"[..], b"LIST"] {
        let len = (fake.len() - 12) as u32;
        let mut skipping = joined(&[&clip[..12], junk, &len.to_le_bytes(), &fake[12..], &clip[12..]]);
        skipping[4..8].copy_from_slice(&200u32.to_le_bytes());
        assert!(open_wav(&skipping).is_ok());
    }
}

#[test]
fn every_format_chunk_is_examined() {
    let clip = wav(8000, 1, &[5; 4]);
    let fake = wav(0, 1, &[]);
    let mut twice = joined(&[&clip[..36], b"fact\x04\0\0\0\0\0\0\0", &fake[12..]]);
    twice[4..8].copy_from_slice(&200u32.to_le_bytes());
    assert_eq!(refused(&twice), MALFORMED);
    let silent = format_fields(0x55, 1, 0, 2, 16);
    probe_error(&wav_with_format(&silent, 200));
    let crowded = format_fields(1, 27, 0, 2, 16);
    probe_error(&wav_with_format(&crowded, 200));
    let narrow = format_fields(1, 1, 0, 2, 12);
    probe_error(&wav_with_format(&narrow, 200));
}

#[test]
fn plain_formats_are_read_as_far_as_they_go() {
    for (kind, bits) in [(1u16, 24u16), (3, 32), (3, 64)] {
        for len in [16usize, 18, 40] {
            let mut fine = format_fields(kind, 2, 8000, 8, bits);
            fine.resize(len, 0);
            assert!(open_wav(&wav_with_format(&fine, 200)).is_ok());
            fine[4] = 0;
            fine[5] = 0;
            assert_eq!(refused(&wav_with_format(&fine, 200)), MALFORMED);
        }
    }
    let mut cut = format_fields(3, 2, 0, 8, 32);
    cut.resize(40, 0);
    assert_eq!(refused(&wav_with_format(&cut, 200)[..48]), MALFORMED);
    let mut companded = format_fields(6, 2, 8000, 2, 8);
    companded.extend_from_slice(&[0, 0]);
    assert!(open_wav(&wav_with_format(&companded, 200)).is_ok());
    companded[16] = 4;
    probe_error(&wav_with_format(&companded, 200));
    companded[4..6].copy_from_slice(&[0, 0]);
    assert_eq!(refused(&wav_with_format(&companded, 200)), MALFORMED);
}

#[test]
fn extensible_formats_are_examined() {
    let fine = extensible(format_fields(0xfffe, 2, 8000, 4, 16), 3);
    let (_, track) = open_wav(&wav_with_format(&fine, 200)).unwrap();
    assert_eq!((track.sample_rate, track.channels), (8000, 2));
    let no_rate = extensible(format_fields(0xfffe, 2, 0, 4, 16), 3);
    assert_eq!(refused(&wav_with_format(&no_rate, 200)), MALFORMED);
    let mut no_bits = extensible(format_fields(0xfffe, 2, 8000, 4, 0), 3);
    assert_eq!(refused(&wav_with_format(&no_bits, 200)), MALFORMED);
    no_bits[24] = 6;
    assert!(open_wav(&wav_with_format(&no_bits, 200)).is_ok());
    no_bits[24] = 3;
    probe_error(&wav_with_format(&no_bits, 200));
    no_bits[24..].copy_from_slice(&[
        0x01, 0x00, 0x00, 0x00, 0x21, 0x07, 0xd3, 0x11, 0x86, 0x44, 0xc8, 0xc1, 0xca, 0x00, 0x00,
        0x00,
    ]);
    assert_eq!(refused(&wav_with_format(&no_bits, 200)), MALFORMED);
}

#[test]
fn masks_of_speakers_are_examined() {
    let mut many = extensible(format_fields(0xfffe, 40, 8000, 4, 16), 3);
    assert_eq!(refused(&wav_with_format(&many, 200)), MALFORMED);
    many[2] = 30;
    probe_error(&wav_with_format(&many, 200));
    many[2] = 26;
    let (_, track) = open_wav(&wav_with_format(&many, 200)).unwrap();
    assert_eq!(track.channels, 26);
    let high = extensible(format_fields(0xfffe, 2, 8000, 4, 16), 0x8000_0000);
    assert_eq!(refused(&wav_with_format(&high, 200)), MALFORMED);
    let cut = extensible(format_fields(0xfffe, 2, 8000, 4, 16), 0x8000_0003);
    let (_, track) = open_wav(&wav_with_format(&cut, 200)).unwrap();
    assert_eq!(track.channels, 2);
    let unknown = extensible(format_fields(0xfffe, 2, 0, 4, 16), 0x8000_0001);
    probe_error(&wav_with_format(&unknown, 200));
}

#[test]
fn compressed_formats_are_examined() {
    let mut fine = format_fields(0x11, 1, 8000, 256, 4);
    fine.extend_from_slice(&[2, 0, 249, 1]);
    let (_, track) = open_wav(&wav_with_format(&fine, 200)).unwrap();
    assert_eq!((track.sample_rate, track.channels), (8000, 1));
    let mut short = format_fields(0x11, 2, 8000, 7, 4);
    short.extend_from_slice(&[2, 0, 249, 1]);
    assert_eq!(refused(&wav_with_format(&short, 200)), MALFORMED);
    let mut long = format_fields(0x02, 1, 8000, 9000, 4);
    long.extend_from_slice(&[32, 0]);
    long.extend_from_slice(&[0; 32]);
    assert_eq!(refused(&wav_with_format(&long, 200)), MALFORMED);
}

#[test]
fn streams_of_unknown_length_are_opened() {
    let plain = format_fields(1, 1, 8000, 2, 16);
    let mut clip = wav_with_format(&plain, u32::MAX);
    let (_, track) = open_wav(&clip).unwrap();
    assert_eq!(track.sample_rate, 8000);
    clip[40..44].copy_from_slice(&u32::MAX.to_le_bytes());
    assert!(open_wav(&clip).is_ok());
    let mut padded = extensible(format_fields(0xfffe, 2, 8000, 4, 16), 3);
    padded.extend_from_slice(&[0; 4]);
    probe_error(&wav_with_format(&padded, u32::MAX));
}

#[test]
fn lengths_that_overflow_are_refused() {
    let format = extensible(format_fields(0xfffe, 2, 8000, 4, 16), 3);
    let mut clip = wav_with_format(&format, u32::MAX);
    clip[16..20].copy_from_slice(&u32::MAX.to_le_bytes());
    assert_eq!(refused(&clip), MALFORMED);
    probe_error(&clip[..60]);
    clip[16..20].copy_from_slice(&0xffff_fff0u32.to_le_bytes());
    assert_eq!(refused(&clip), MALFORMED);
    clip[16..20].copy_from_slice(&0xffff_ffeeu32.to_le_bytes());
    assert!(open_wav(&clip).is_ok());
}

#[test]
fn header_with_a_list_is_opened() {
    let clip = wav(8000, 1, &[5; 8]);
    for list in [
        &b"LIST\x0e\0\0\0INFOISFT\x02\0\0\0x\0"[..],
        b"LIST\x1a\0\0\0INFOISFT\x01\0\0\0x\0INAM\x02\0\0\0yz\0\0",
        b"LIST\x04\0\0\0INFO",
        b"LIST\x08\0\0\0adtlabcd",
    ] {
        let mut listed = joined(&[&clip[..36], list, &clip[36..]]);
        listed[4..8].copy_from_slice(&200u32.to_le_bytes());
        let (_, track) = open_wav(&listed).unwrap();
        assert_eq!(track.sample_rate, 8000);
        listed[40..44].copy_from_slice(&0x8000_0000u32.to_le_bytes());
        probe_error(&listed);
    }
}

#[test]
fn chunk_behind_a_list_is_examined() {
    let clip = wav(0, 1, &[5; 8]);
    for list in [
        &b"LIST\x0f\0\0\0INFOISFT\x03\0\0\0xyz\0\0\0"[..],
        b"LIST\x09\0\0\0adtlabcde\0\0",
        b"LIST\x0b\0\0\0INFOabcdefg\0\0",
    ] {
        let mut listed = joined(&[&clip[..12], list, &clip[12..]]);
        listed[4..8].copy_from_slice(&200u32.to_le_bytes());
        assert_eq!(refused(&listed), MALFORMED);
        let rate = 12 + list.len() + 12;
        listed[rate] = 1;
        assert!(open_wav(&listed).is_ok());
    }
}

#[test]
fn first_track_with_a_codec_is_chosen() {
    let tracks = vec![
        track("0x0", Some(8000), Some(1)),
        track("0x101", Some(48000), Some(6)),
        track("0x102", Some(44100), Some(2)),
    ];
    let chosen = select_track(&tracks).unwrap();
    assert_eq!((chosen.index, chosen.sample_rate, chosen.channels), (1, 48000, 6));
}

#[test]
fn unusable_tracks_are_errors() {
    assert_eq!(select_track(&vec![]).unwrap_err(), "No audio track found");
    assert_eq!(
        select_track(&vec![track("0x0", Some(1), Some(1))]).unwrap_err(),
        "No audio track found"
    );
    assert_eq!(
        select_track(&vec![track("0x1", None, None)]).unwrap_err(),
        "No sample rate found"
    );
    assert_eq!(
        select_track(&vec![track("0x1", Some(1), None), track("0x1", Some(1), Some(1))])
            .unwrap_err(),
        "No channels found"
    );
}

// ------------------------------------------------------------------
// Decoding
// ------------------------------------------------------------------

fn begun() -> Decoding<i32> {
    let track = AudioTrack { index: 0, sample_rate: 16000, channels: 2 };
    start_decoding(track, Ok(())).unwrap()
}

fn decode(outcomes: Vec<PacketOutcome<i32>>) -> Result<DecodedAudio<i32>, String> {
    let mut decoding = begun();
    for outcome in outcomes {
        match decode_step(decoding, outcome) {
            DecodeStep::More(next) => decoding = next,
            DecodeStep::Finished(audio) => return Ok(audio),
            DecodeStep::Rejected(error) => return Err(error),
        }
    }
    panic!("the stream did not end")
}

#[test]
fn clip_is_its_packets_frame_by_frame() {
    let audio = decode(vec![
        PacketOutcome::Decoded { planes: vec![vec![1, 2], vec![10, 20]], frames: 2 },
        PacketOutcome::Decoded { planes: vec![vec![3, 99], vec![30, 99]], frames: 1 },
        PacketOutcome::EndOfStream,
    ])
    .unwrap();
    assert_eq!(audio.samples, vec![1, 10, 2, 20, 3, 30]);
    assert_eq!((audio.sample_rate, audio.channels), (16000, 2));
}

#[test]
fn empty_clip_has_no_samples() {
    assert!(decode(vec![PacketOutcome::EndOfStream]).unwrap().samples.is_empty());
}

#[test]
fn rejected_packet_ends_decoding() {
    let error = decode(vec![
        PacketOutcome::Decoded { planes: vec![vec![1]], frames: 1 },
        PacketOutcome::Failed(text("malformed stream")),
    ])
    .unwrap_err();
    assert_eq!(error, "Decode error: malformed stream");
}

#[test]
fn missing_decoder_is_an_error() {
    let track = AudioTrack { index: 0, sample_rate: 16000, channels: 2 };
    let refused: Result<Decoding<i32>, String> =
        start_decoding(track, Err(text("unsupported codec")));
    assert_eq!(refused.unwrap_err(), "Failed to create decoder: unsupported codec");
}

#[test]
fn frames_are_appended() {
    let mut samples = vec![0.5f32];
    append_frames(&mut samples, &vec![vec![1.0, 2.0], vec![-1.0, -2.0]], 2);
    assert_eq!(samples, vec![0.5, 1.0, -1.0, 2.0, -2.0]);
    append_frames(&mut samples, &vec![], 7);
    assert_eq!(samples.len(), 5);
}

// ------------------------------------------------------------------
// Fitting a device
// ------------------------------------------------------------------

#[test]
fn extra_channels_repeat_the_last_one() {
    assert_eq!(interleave_channels(&[1, 2], 1, 3), vec![1, 1, 1, 2, 2, 2]);
    assert_eq!(interleave_channels(&[1, 2, 3, 4], 2, 3), vec![1, 2, 2, 3, 4, 4]);
}

#[test]
fn missing_channels_are_dropped() {
    assert_eq!(interleave_channels(&[1, 2, 3, 4], 2, 1), vec![1, 3]);
    let none: Vec<i32> = vec![];
    assert_eq!(interleave_channels(&[1, 2], 2, 0), none);
}

#[test]
fn broken_frames_are_dropped_only_when_respread() {
    assert_eq!(interleave_channels(&[1, 2, 3], 2, 2), vec![1, 2, 3]);
    assert_eq!(interleave_channels(&[1, 2, 3], 2, 3), vec![1, 2, 2]);
    assert_eq!(interleave_channels(&[1, 2, 3], 0, 0), vec![1, 2, 3]);
}

#[test]
fn spreading_can_be_undone() {
    let samples = vec![1, 2, 3, 4, 5, 6];
    let wide = interleave_channels(&samples, 2, 6);
    assert_eq!(wide.len(), 18);
    assert_eq!(interleave_channels(&wide, 6, 2), samples);
}

#[test]
fn resampling_picks_and_pads() {
    let positions = vec![0, 0, 1, 2, 3];
    assert_eq!(resample(&[7, 8, 9], 16000, 26000, &positions, 0), vec![7, 7, 8, 9, 0]);
    assert_eq!(resample(&[7, 8, 9], 16000, 16000, &positions, 0), vec![7, 8, 9]);
}

#[test]
fn device_gets_its_rate_then_its_channels() {
    let buffer = device_buffer(&[1, 2, 3, 4], 8000, 2, 16000, 1, &vec![0, 0, 1, 1, 2, 2], 0);
    assert_eq!(buffer, vec![1, 2, 3]);
    let same = device_buffer(&[1, 2, 3, 4], 8000, 2, 8000, 2, &vec![9], 0);
    assert_eq!(same, vec![1, 2, 3, 4]);
    let wide = device_buffer(&[1, 2], 8000, 1, 8000, 2, &vec![], 0);
    assert_eq!(wide, vec![1, 1, 2, 2]);
}

// ------------------------------------------------------------------
// Feeding a device
// ------------------------------------------------------------------

#[test]
fn requests_play_the_buffer_in_order() {
    let buffer = [0.0f32, 0.5, -1.0];
    let mut first = [9i16; 2];
    let at = fill_output(&mut first, &buffer, 0, false, 0, |s: f32| (s * 32767.0) as i16);
    assert_eq!(first, [0, 16383]);
    assert_eq!(at, 2);
    let mut second = [9i16; 3];
    let at = fill_output(&mut second, &buffer, at, false, 0, |s: f32| (s * 32767.0) as i16);
    assert_eq!(second, [-32767, 0, 0]);
    assert_eq!(at, 3);
    assert!(!still_playing(at, buffer.len(), false));
}

#[test]
fn one_long_request_gets_the_same() {
    let buffer = [1u8, 2, 3];
    let mut data = [9u8; 5];
    let at = fill_output(&mut data, &buffer, 0, false, 128, |s: u8| s);
    assert_eq!(data, [1, 2, 3, 128, 128]);
    assert_eq!(at, 3);
}

#[test]
fn stopped_playback_is_silent_and_stays() {
    let mut data = [9u16; 3];
    let at = fill_output_u16(&mut data, &[0.25f32; 8], 4, true, |s: f32| {
        ((s + 1.0) * 32767.5) as u16
    });
    assert_eq!(data, [32768; 3]);
    assert_eq!(at, 4);
    let mut signed = [9i16; 3];
    let at = fill_output_i16(&mut signed, &[0.25f32; 8], 4, true, |s: f32| (s * 32767.0) as i16);
    assert_eq!(signed, [0; 3]);
    assert_eq!(at, 4);
    assert!(!still_playing(at, 8, true));
    assert!(still_playing(at, 8, false));
}

#[test]
fn silence_follows_the_last_sample() {
    let mut data = [9u16; 3];
    let at = fill_output_u16(&mut data, &[1.0f32], 0, false, |s: f32| ((s + 1.0) * 32767.5) as u16);
    assert_eq!(data, [65535, 32768, 32768]);
    assert_eq!(at, 1);
    let mut signed = [9i16; 2];
    let at = fill_output_i16(&mut signed, &[-1.0f32], 0, false, |s: f32| (s * 32767.0) as i16);
    assert_eq!(signed, [-32767, 0]);
    assert_eq!(at, 1);
}

#[test]
fn position_past_the_end_stays() {
    let mut data = [9u8; 2];
    assert_eq!(fill_output(&mut data, &[1u8], 5, false, 0, |s: u8| s), 5);
    assert_eq!(data, [0, 0]);
}

// ------------------------------------------------------------------
// Devices
// ------------------------------------------------------------------

#[test]
fn identifiers_come_from_names() {
    assert_eq!(device_id("MacBook Pro Speakers"), "device_macbook_pro_speakers");
    assert_eq!(device_id("Ärger  ÖL"), "device_ärger__öl");
    assert_eq!(device_id("\u{130}"), "device_i\u{307}");
    assert_eq!(device_id(""), "device_");
    assert_eq!(underscore_spaces("A b\tc "), "A_b\tc_");
    assert_eq!(prefixed_id("x y"), "device_x y");
}

fn found(names: &[&str]) -> Result<Vec<Result<String, String>>, String> {
    Ok(names.iter().map(|name| Ok(name.to_string())).collect())
}

#[test]
fn devices_are_listed_with_the_default_marked() {
        let devices = AudioOutputState::list_output_devices(&found(&["HDMI 1", "USB"]), &Some(Ok(text("USB"))))
        .unwrap();
    assert_eq!(devices.len(), 2);
    assert_eq!(devices[0].id, "device_hdmi_1");
    assert_eq!(devices[0].name, "HDMI 1");
    assert!(!devices[0].is_default);
    assert_eq!(devices[1].id, "device_usb");
    assert!(devices[1].is_default);
    let without = AudioOutputState::list_output_devices(&found(&["USB"]), &None).unwrap();
    assert!(!without[0].is_default);
}

#[test]
fn nameless_default_matches_only_a_nameless_device() {
        let default = Some(Err(text("gone")));
    let devices = AudioOutputState::list_output_devices(&found(&["", "USB"]), &default).unwrap();
    assert!(devices[0].is_default);
    assert!(!devices[1].is_default);
}

#[test]
fn unreadable_name_fails_the_list() {
        let names = Ok(vec![Ok(text("USB")), Err(text("gone")), Err(text("later"))]);
    assert_eq!(
        AudioOutputState::list_output_devices(&names, &None).unwrap_err(),
        "Failed to get device name: gone"
    );
    assert_eq!(
        AudioOutputState::list_output_devices(&Err(text("no host")), &None).unwrap_err(),
        "Failed to enumerate output devices: no host"
    );
}

#[test]
fn wanted_devices_are_matched_in_order() {
    let ids = vec![Some(text("a")), None, Some(text("b")), Some(text("a"))];
    assert_eq!(matching_devices(&ids, &vec![text("b"), text("a")]), vec![0, 2, 3]);
    assert!(matching_devices(&ids, &vec![]).is_empty());
}

#[test]
fn listed_device_can_be_played_on() {
    let mut state = AudioOutputState::new();
    let names = found(&["HDMI 1", "Ärger USB"]);
    let listed = AudioOutputState::list_output_devices(&names, &None).unwrap();
    let start = state.play_audio_to_devices(false, &names, &vec![listed[1].id.clone()]).unwrap();
    assert_eq!(start.devices, vec![1]);
}

// ------------------------------------------------------------------
// Playback
// ------------------------------------------------------------------

#[test]
fn new_playback_replaces_the_old_one() {
    let mut state = AudioOutputState::default();
    let names = found(&["USB"]);
    let ids = vec![text("device_usb")];
    assert!(state.can_start());
    let first = state.play_audio_to_devices(false, &names, &ids).unwrap();
    assert_eq!((first.stopped, first.playback), (None, 0));
    let second = state.play_audio_to_devices(false, &names, &ids).unwrap();
    assert_eq!((second.stopped, second.playback), (Some(0), 1));
    assert_eq!(state.clear_stop_flag_if_current(first.playback, false), Ok(()));
    assert_eq!(state.stop_all_playback(false), Ok(Some(1)));
    assert_eq!(state.stop_all_playback(false), Ok(None));
}

#[test]
fn impossible_playback_leaves_the_current_one() {
    let mut state = AudioOutputState::new();
    let ids = vec![text("device_usb")];
    state.play_audio_to_devices(false, &found(&["USB"]), &ids).unwrap();
    assert_eq!(
        state.play_audio_to_devices(false, &found(&["HDMI"]), &ids).unwrap_err(),
        "No matching devices found"
    );
    assert_eq!(
        state.play_audio_to_devices(false, &Ok(vec![Err(text("gone"))]), &ids).unwrap_err(),
        "No matching devices found"
    );
    assert_eq!(
        state.play_audio_to_devices(false, &Err(text("no host")), &ids).unwrap_err(),
        "Failed to enumerate devices: no host"
    );
    assert_eq!(state.stop_all_playback(false), Ok(Some(0)));
}

fn report(name: &str, readiness: Readiness) -> StartReport {
    StartReport { device_name: text(name), readiness }
}

#[test]
fn startup_needs_every_device() {
    let mut state = AudioOutputState::new();
    let start =
        state.play_audio_to_devices(false, &found(&["USB"]), &vec![text("device_usb")]).unwrap();
    let ready = vec![report("USB", Readiness::Ready)];
    assert!(state.finish_startup(start.playback, &ready, false).is_ok());
    assert!(state.finish_startup(start.playback, &ready, true).is_ok());
    let reports = vec![
        report("A", Readiness::Failed(text("busy"))),
        report("B", Readiness::Ready),
        report("C", Readiness::Vanished),
    ];
    let failed = state.finish_startup(start.playback, &reports, false).unwrap_err();
    assert_eq!(failed.stop, start.playback);
    assert_eq!(
        failed.error,
        "Failed to play to device A: busy; \
         Playback thread for device C exited before reporting readiness"
    );
    assert_eq!(state.stop_all_playback(false), Ok(None));
    assert_eq!(readiness_error(&reports[1]), None);
}

#[test]
fn failed_startup_leaves_a_newer_playback() {
    let mut state = AudioOutputState::new();
    let ids = vec![text("device_usb")];
    let old = state.play_audio_to_devices(false, &found(&["USB"]), &ids).unwrap();
    state.play_audio_to_devices(false, &found(&["USB"]), &ids).unwrap();
    let reports = vec![report("A", Readiness::Vanished)];
    assert_eq!(state.finish_startup(old.playback, &reports, false).unwrap_err().stop, 0);
    let failed = state.thread_failed(old.playback, "USB", "no memory", false);
    assert_eq!(failed.stop, old.playback);
    assert_eq!(failed.error, "Failed to start playback thread for device USB: no memory");
    assert_eq!(state.stop_all_playback(false), Ok(Some(1)));
}

#[test]
fn poisoned_lock_changes_nothing() {
    let mut state = AudioOutputState::new();
    let ids = vec![text("device_usb")];
    let lock = text("Audio playback state lock is poisoned");
    let start = state.play_audio_to_devices(false, &found(&["USB"]), &ids).unwrap();
    assert_eq!(state.stop_all_playback(true), Err(lock.clone()));
    assert_eq!(state.clear_stop_flag_if_current(start.playback, true), Err(lock.clone()));
    assert_eq!(state.play_audio_to_devices(true, &found(&["USB"]), &ids).unwrap_err(), lock);
    assert_eq!(
        state.play_audio_to_devices(true, &found(&["HDMI"]), &ids).unwrap_err(),
        "No matching devices found"
    );
    let reports = vec![report("A", Readiness::Vanished)];
    let failed = state.finish_startup(start.playback, &reports, true).unwrap_err();
    assert_eq!((failed.stop, failed.error), (start.playback, lock.clone()));
    let failed = state.thread_failed(start.playback, "USB", "no memory", true);
    assert_eq!((failed.stop, failed.error), (start.playback, lock));
    assert_eq!(state.stop_all_playback(false), Ok(Some(start.playback)));
}

#[test]
fn playback_failures_say_what_failed() {
    assert_eq!(
        playback_error(&PlaybackFailure::LockPoisoned),
        "Audio playback state lock is poisoned"
    );
    assert_eq!(
        playback_error(&PlaybackFailure::StartupTask(text("e"))),
        "Playback startup task failed: e"
    );
    assert_eq!(
        playback_error(&PlaybackFailure::Config(text("e"))),
        "Failed to get default config: e"
    );
    assert_eq!(
        playback_error(&PlaybackFailure::UnsupportedFormat),
        "Unsupported sample format"
    );
    assert_eq!(
        playback_error(&PlaybackFailure::BuildStream(text("e"))),
        "Failed to build stream: e"
    );
    assert_eq!(
        playback_error(&PlaybackFailure::PlayStream(text("e"))),
        "Failed to play stream: e"
    );
}
