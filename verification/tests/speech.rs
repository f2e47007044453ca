use huddletalk::text::{parse_i32, trim};
use huddletalk::transcription::{
    assemble_transcript, downsample_48k_to_16k, to_mono, transcript_of, transcription_setup,
    TrackAudioTranscriber, TranscriptIdentity, TranscriptJob, TranscriptionSetup,
};

fn track(opus_channels: u16) -> TrackAudioTranscriber {
    TrackAudioTranscriber::new(
        TranscriptIdentity {
            room_id: "lobby".to_owned(),
            peer_id: "anna".to_owned(),
            track_id: "p1".to_owned(),
        },
        opus_channels,
    )
}

/// Feeds frames of 20 ms.
fn feed(track: &mut TrackAudioTranscriber, frames: usize, voiced: bool) -> Vec<TranscriptJob> {
    let frame = vec![if voiced { 50_000 } else { 1 }; 320];
    let mut jobs = Vec::new();
    for _ in 0..frames {
        if let Some(job) = track.ingest_pcm_16k_frame(&frame, voiced) {
            jobs.push(job);
        }
    }
    jobs
}

#[test]
fn one_channel_is_taken_as_it_is() {
    assert_eq!(to_mono(&vec![1, -2, i16::MIN, i16::MAX, 9], 4, 1), vec![2, -4, -65_536, 65_534]);
}

#[test]
fn two_channels_are_mixed() {
    assert_eq!(to_mono(&vec![1, 2, -3, 5, i16::MIN, i16::MIN], 3, 2), vec![3, 2, -65_536]);
    assert_eq!(to_mono(&vec![], 0, 2), Vec::<i32>::new());
}

#[test]
fn three_samples_become_one() {
    assert_eq!(downsample_48k_to_16k(&vec![1, 2, 3, -10, 0, 4, 7, 7]), vec![6, -6]);
    assert_eq!(downsample_48k_to_16k(&vec![1, 2]), Vec::<i32>::new());
}

#[test]
fn samples_above_full_scale_are_averaged_too() {
    let samples: Vec<i32> = (1..=8).map(|n| n * 65_536).collect();
    let frame = downsample_48k_to_16k(&samples);
    assert_eq!(frame, vec![6 * 65_536, 15 * 65_536]);
    let floats: Vec<f32> = frame.iter().map(|s| (*s as f32 / 65_536.0) / 3.0).collect();
    assert_eq!(floats, vec![2.0, 5.0]);
    let most = i32::MAX / 3;
    assert_eq!(downsample_48k_to_16k(&vec![most, most, most, -most, -most, -most]), vec![3 * most, -3 * most]);
}

#[test]
fn samples_stand_for_the_same_amplitudes_as_floats() {
    let samples: Vec<i16> = (0..5_760).map(|i: i32| ((i * 7_919) % 65_536 - 32_768) as i16).collect();
    let mono = to_mono(&samples, 2_880, 2);
    let frame = downsample_48k_to_16k(&mono);
    let floats: Vec<f32> = (0..2_880)
        .map(|i| ((samples[2 * i] as f32 + samples[2 * i + 1] as f32) * 0.5) / 32_768.0)
        .collect();
    for (i, chunk) in floats.chunks_exact(3).enumerate() {
        assert_eq!((frame[i] as f32 / 65_536.0) / 3.0, (chunk[0] + chunk[1] + chunk[2]) / 3.0);
    }
}

#[test]
fn decoder_follows_the_channels_of_the_track() {
    assert_eq!(track(0).channel_count(), 1);
    assert_eq!(track(1).channel_count(), 1);
    assert_eq!(track(1).decode_buffer_len(), 5_760);
    assert_eq!(track(2).channel_count(), 2);
    assert_eq!(track(6).channel_count(), 2);
    assert_eq!(track(2).decode_buffer_len(), 11_520);
}

#[test]
fn payload_becomes_a_frame() {
    let stereo = track(2);
    let buffer = vec![1i16, 1, 2, 2, 3, 3, 40, 40];
    assert_eq!(stereo.ingest_opus_payload(&[1], &buffer, Some(3)), Some(vec![12]));
    assert_eq!(stereo.ingest_opus_payload(&[1], &buffer, Some(2)), Some(vec![]));
    assert_eq!(stereo.ingest_opus_payload(&[1], &buffer, Some(0)), None);
    assert_eq!(stereo.ingest_opus_payload(&[1], &buffer, None), None);
    assert_eq!(stereo.ingest_opus_payload(&[], &buffer, Some(3)), None);
}

#[test]
fn leading_silence_is_dropped() {
    let mut track = track(2);
    assert!(feed(&mut track, 100, false).is_empty());
    assert!(feed(&mut track, 20, true).is_empty());
    let job = track.finish().unwrap();
    assert_eq!(job.pcm_16k_mono.len(), 20 * 320);
    assert_eq!(job.chunk_index, 0);
    assert_eq!(job.identity.room_id, "lobby");
    assert_eq!(job.identity.peer_id, "anna");
    assert_eq!(job.identity.track_id, "p1");
}

#[test]
fn silence_ends_a_chunk() {
    let mut track = track(2);
    assert!(feed(&mut track, 20, true).is_empty());
    assert!(feed(&mut track, 32, false).is_empty());
    let jobs = feed(&mut track, 1, false);
    assert_eq!(jobs.len(), 1);
    assert_eq!(jobs[0].pcm_16k_mono.len(), 53 * 320);
    assert_eq!(jobs[0].pcm_16k_mono[0], 50_000);
    assert_eq!(jobs[0].pcm_16k_mono[53 * 320 - 1], 1);
    assert!(track.finish().is_none());
}

#[test]
fn chunk_of_less_than_800_ms_goes_on() {
    let mut track = track(2);
    feed(&mut track, 1, true);
    assert!(feed(&mut track, 38, false).is_empty());
    assert!(feed(&mut track, 1, false).is_empty());
    assert!(feed(&mut track, 13, true).is_empty());
    let job = track.finish().unwrap();
    assert_eq!(job.pcm_16k_mono.len(), 13 * 320);
}

#[test]
fn long_chunk_is_cut() {
    let mut track = track(2);
    assert!(feed(&mut track, 599, true).is_empty());
    let jobs = feed(&mut track, 1, true);
    assert_eq!(jobs.len(), 1);
    assert_eq!(jobs[0].pcm_16k_mono.len(), 192_000);
    assert_eq!(jobs[0].chunk_index, 0);
    let jobs = feed(&mut track, 600, true);
    assert_eq!(jobs.len(), 1);
    assert_eq!(jobs[0].chunk_index, 1);
    assert_eq!(track.chunk_index(), 2);
}

#[test]
fn chunk_with_little_speech_is_dropped() {
    let mut track = track(2);
    feed(&mut track, 12, true);
    assert!(feed(&mut track, 33, false).is_empty());
    assert!(track.finish().is_none());
    feed(&mut track, 12, true);
    assert!(track.finish().is_none());
    feed(&mut track, 13, true);
    assert_eq!(track.finish().unwrap().chunk_index, 0);
}

#[test]
fn chunks_are_what_was_heard() {
    let mut track = track(2);
    let mut heard: Vec<i32> = Vec::new();
    let mut submitted: Vec<i32> = Vec::new();
    let mut indices: Vec<u64> = Vec::new();
    for n in 0..2_000i32 {
        let frame: Vec<i32> = (0..320).map(|i| n * 320 + i).collect();
        let voiced = n % 97 < 31;
        heard.extend_from_slice(&frame);
        if let Some(job) = track.ingest_pcm_16k_frame(&frame, voiced) {
            assert!(job.pcm_16k_mono.len() >= 12_800);
            submitted.extend_from_slice(&job.pcm_16k_mono);
            indices.push(job.chunk_index);
        }
    }
    if let Some(job) = track.finish() {
        submitted.extend_from_slice(&job.pcm_16k_mono);
        indices.push(job.chunk_index);
    }
    assert!(indices.len() > 10);
    assert_eq!(indices, (0..indices.len() as u64).collect::<Vec<_>>());
    let mut rest = heard.iter();
    for sample in &submitted {
        assert!(rest.any(|heard| heard == sample));
    }
}

#[test]
fn one_long_frame_makes_a_chunk() {
    let mut track = track(1);
    let job = track.ingest_pcm_16k_frame(&vec![7; 200_000], true).unwrap();
    assert_eq!(job.pcm_16k_mono, vec![7; 200_000]);
    assert_eq!(job.chunk_index, 0);
    assert!(track.finish().is_none());
}

#[test]
fn empty_frame_changes_nothing() {
    let mut track = track(1);
    feed(&mut track, 13, true);
    assert!(track.ingest_pcm_16k_frame(&vec![], true).is_none());
    assert!(track.ingest_pcm_16k_frame(&vec![], false).is_none());
    assert_eq!(track.finish().unwrap().pcm_16k_mono.len(), 13 * 320);
}

#[test]
fn segments_make_a_transcript() {
    let some = |text: &str| Some(text.to_owned());
    assert_eq!(assemble_transcript(&vec![]), None);
    assert_eq!(assemble_transcript(&vec![some(" "), None, some("\n")]), None);
    assert_eq!(
        assemble_transcript(&vec![some(" Hello"), None, some("there. ")]),
        Some("Hello there.".to_owned())
    );
}

#[test]
fn transcript_names_its_chunk() {
    let mut track = track(1);
    feed(&mut track, 600, true);
    feed(&mut track, 13, true);
    let job = track.finish().unwrap();
    assert_eq!(job.chunk_index, 1);
    let heard = Some(vec![Some(" Good ".to_owned()), None, Some("day".to_owned())]);
    let transcript = transcript_of(&job, heard).unwrap();
    assert_eq!(transcript.identity.room_id, "lobby");
    assert_eq!(transcript.identity.peer_id, "anna");
    assert_eq!(transcript.identity.track_id, "p1");
    assert_eq!(transcript.chunk_index, 1);
    assert_eq!(transcript.text, "Good  day");
    assert!(transcript_of(&job, None).is_none());
    assert!(transcript_of(&job, Some(vec![None, Some("\t ".to_owned())])).is_none());
}

#[test]
fn chunks_are_unbroken_runs_from_speech_to_the_cut() {
    let mut track = track(2);
    let pattern = [(40, false), (20, true), (33, false), (5, false), (650, true), (9, false)];
    let mut runs: Vec<Vec<i32>> = Vec::new();
    let mut number: i32 = 0;
    for (frames, voiced) in pattern {
        for _ in 0..frames {
            if let Some(job) = track.ingest_pcm_16k_frame(&vec![number; 320], voiced) {
                runs.push(job.pcm_16k_mono.iter().step_by(320).copied().collect());
            }
            number += 1;
        }
    }
    runs.extend(track.finish().map(|job| job.pcm_16k_mono.iter().step_by(320).copied().collect()));
    let expected: Vec<Vec<i32>> =
        vec![(40..93).collect(), (98..698).collect(), (698..757).collect()];
    assert_eq!(runs, expected);
}

#[test]
fn transcription_needs_a_model() {
    let path = || Some("/models/base.bin".to_owned());
    assert!(matches!(
        transcription_setup(None, true, None, None),
        TranscriptionSetup::NotConfigured
    ));
    assert!(matches!(
        transcription_setup(path(), false, None, None),
        TranscriptionSetup::ModelMissing(path) if path == "/models/base.bin"
    ));
    match transcription_setup(path(), true, Some("en".to_owned()), Some("8".to_owned())) {
        TranscriptionSetup::Enabled(settings) => {
            assert_eq!(settings.model_path, "/models/base.bin");
            assert_eq!(settings.language.as_deref(), Some("en"));
            assert_eq!(settings.threads, 8);
        }
        other => panic!("not enabled: {other:?}"),
    }
}

#[test]
fn four_threads_unless_told_otherwise() {
    let threads = |setting: Option<&str>| {
        let setting = setting.map(|raw| raw.to_owned());
        match transcription_setup(Some("m".to_owned()), true, None, setting) {
            TranscriptionSetup::Enabled(settings) => settings.threads,
            other => panic!("not enabled: {other:?}"),
        }
    };
    assert_eq!(threads(None), 4);
    assert_eq!(threads(Some("")), 4);
    assert_eq!(threads(Some("two")), 4);
    assert_eq!(threads(Some(" 2")), 4);
    assert_eq!(threads(Some("0")), 4);
    assert_eq!(threads(Some("-3")), 4);
    assert_eq!(threads(Some("+3")), 3);
    assert_eq!(threads(Some("2147483648")), 4);
    assert_eq!(threads(Some("2147483647")), i32::MAX);
}

#[test]
fn numbers_are_read_as_the_standard_library_reads_them() {
    for raw in [
        "", "+", "-", "0", "-0", "+0", "007", "12a", "a12", "1_000", "--1", "+-1", " 1", "1 ",
        "2147483647", "2147483648", "-2147483648", "-2147483649", "99999999999999999999", "\u{0661}",
        "123456789", "-987654321",
    ] {
        assert_eq!(parse_i32(raw), raw.parse::<i32>().ok(), "{raw:?}");
    }
}

#[test]
fn text_is_trimmed_as_the_standard_library_trims_it() {
    for raw in ["", " ", "a", " a", "a ", "\u{2028}a b\u{85}", "\u{feff}a", "\u{180e}", "\t\n x\u{3000}"] {
        assert_eq!(trim(raw), raw.trim(), "{raw:?}");
    }
}
