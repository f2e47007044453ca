use huddletalk::rtp::{
    media_codecs, opus_channel_count, rtp_capabilities_from_producer, rtp_payload, AudioMimeType,
    RtpCodecCapability, RtpCodecParameters, RtpHeaderExtensionDirection,
    RtpHeaderExtensionParameters, RtpParameters,
};
use huddletalk::signaling::MediaKind;
use huddletalk::stats::{
    ProducerStatsLog, StatsAction, StatsPoll, StreamStats, StreamTotals,
};
use huddletalk::transcription::{
    plan_transcription, skip_outright, SkipReason, TranscriptionPlan, TranscriptionStage,
};

fn audio(mime_type: AudioMimeType, payload_type: u8, channels: u8) -> RtpCodecParameters {
    RtpCodecParameters::Audio {
        mime_type,
        payload_type,
        clock_rate: 48_000,
        channels,
        parameters: "{\"useinbandfec\":1}".to_owned(),
        rtcp_feedback: "[]".to_owned(),
    }
}

fn video() -> RtpCodecParameters {
    RtpCodecParameters::Video {
        mime_type: "video/VP8".to_owned(),
        payload_type: 96,
        clock_rate: 90_000,
        parameters: "{}".to_owned(),
        rtcp_feedback: "[{\"type\":\"nack\"}]".to_owned(),
    }
}

fn parameters(codecs: Vec<RtpCodecParameters>) -> RtpParameters {
    RtpParameters {
        codecs,
        header_extensions: vec![RtpHeaderExtensionParameters {
            uri: "urn:ietf:params:rtp-hdrext:ssrc-audio-level".to_owned(),
            id: 10,
            encrypt: true,
        }],
    }
}

#[test]
fn first_opus_codec_counts() {
    let other = || AudioMimeType::Other("audio/PCMU".to_owned());
    assert_eq!(opus_channel_count(&parameters(vec![])), None);
    assert_eq!(opus_channel_count(&parameters(vec![video(), audio(other(), 0, 1)])), None);
    let codecs = vec![
        video(),
        audio(other(), 0, 4),
        audio(AudioMimeType::Opus, 100, 2),
        audio(AudioMimeType::Opus, 101, 1),
    ];
    assert_eq!(opus_channel_count(&parameters(codecs)), Some(2));
}

#[test]
fn capabilities_mirror_the_producer() {
    let consumable = parameters(vec![audio(AudioMimeType::Opus, 100, 2), video()]);
    let capabilities = rtp_capabilities_from_producer(MediaKind::Audio, &consumable);
    assert_eq!(capabilities.codecs.len(), 2);
    match &capabilities.codecs[0] {
        RtpCodecCapability::Audio {
            mime_type,
            preferred_payload_type,
            clock_rate,
            channels,
            parameters,
            rtcp_feedback,
        } => {
            assert_eq!(*mime_type, AudioMimeType::Opus);
            assert_eq!(*preferred_payload_type, Some(100));
            assert_eq!(*clock_rate, 48_000);
            assert_eq!(*channels, 2);
            assert_eq!(parameters, "{\"useinbandfec\":1}");
            assert_eq!(rtcp_feedback, "[]");
        }
        other => panic!("not audio: {other:?}"),
    }
    match &capabilities.codecs[1] {
        RtpCodecCapability::Video {
            mime_type,
            preferred_payload_type,
            clock_rate,
            parameters,
            rtcp_feedback,
        } => {
            assert_eq!(mime_type, "video/VP8");
            assert_eq!(*preferred_payload_type, Some(96));
            assert_eq!(*clock_rate, 90_000);
            assert_eq!(parameters, "{}");
            assert_eq!(rtcp_feedback, "[{\"type\":\"nack\"}]");
        }
        other => panic!("not video: {other:?}"),
    }
    assert_eq!(capabilities.header_extensions.len(), 1);
    let extension = &capabilities.header_extensions[0];
    assert_eq!(extension.kind, MediaKind::Audio);
    assert_eq!(extension.uri, "urn:ietf:params:rtp-hdrext:ssrc-audio-level");
    assert_eq!(extension.preferred_id, 10);
    assert!(extension.preferred_encrypt);
    assert_eq!(extension.direction, RtpHeaderExtensionDirection::SendRecv);
}

#[test]
fn router_forwards_stereo_opus() {
    let codecs = media_codecs();
    assert_eq!(codecs.len(), 1);
    match &codecs[0] {
        RtpCodecCapability::Audio { mime_type, preferred_payload_type, clock_rate, channels, .. } => {
            assert_eq!(*mime_type, AudioMimeType::Opus);
            assert_eq!(*preferred_payload_type, None);
            assert_eq!(*clock_rate, 48_000);
            assert_eq!(*channels, 2);
        }
        other => panic!("not audio: {other:?}"),
    }
}

#[test]
fn only_opus_audio_is_transcribed() {
    let opus = || parameters(vec![audio(AudioMimeType::Opus, 100, 2)]);
    let reason = |plan: TranscriptionPlan| match plan {
        TranscriptionPlan::Skip(reason) => Some(reason),
        TranscriptionPlan::Try { .. } => None,
    };
    assert_eq!(
        reason(plan_transcription(false, MediaKind::Video, &opus(), &opus())),
        Some(SkipReason::TranscriptionDisabled)
    );
    assert_eq!(
        reason(plan_transcription(true, MediaKind::Video, &opus(), &opus())),
        Some(SkipReason::NotAudio)
    );
    assert_eq!(
        reason(plan_transcription(true, MediaKind::Audio, &parameters(vec![video()]), &opus())),
        Some(SkipReason::OpusCodecNotFound)
    );
    let consumable = parameters(vec![video(), video()]);
    match plan_transcription(true, MediaKind::Audio, &opus(), &consumable) {
        TranscriptionPlan::Try { opus_channels, rtp_capabilities } => {
            assert_eq!(opus_channels, 2);
            assert_eq!(rtp_capabilities.codecs.len(), 2);
        }
        other => panic!("skipped: {other:?}"),
    }
}

#[test]
fn codecs_matter_only_for_audio_that_is_to_be_transcribed() {
    assert_eq!(
        skip_outright(false, MediaKind::Audio),
        Some(SkipReason::TranscriptionDisabled)
    );
    assert_eq!(skip_outright(true, MediaKind::Video), Some(SkipReason::NotAudio));
    assert_eq!(skip_outright(true, MediaKind::Audio), None);
}

#[test]
fn transcription_starts_stage_by_stage() {
    let start = TranscriptionStage::AskRouter;
    let running = start.advance(true).advance(true).advance(true);
    assert_eq!(running, TranscriptionStage::Running);
    assert_eq!(running.advance(false), TranscriptionStage::Running);
    assert_eq!(start.advance(true), TranscriptionStage::CreateConsumer);
    assert_eq!(start.advance(true).advance(true), TranscriptionStage::CreateDecoder);
    let skipped = |reason| TranscriptionStage::Skipped(reason);
    assert_eq!(start.advance(false), skipped(SkipReason::RouterCannotConsume));
    assert_eq!(start.advance(false).advance(true), skipped(SkipReason::RouterCannotConsume));
    assert_eq!(start.advance(true).advance(false), skipped(SkipReason::ConsumerNotCreated));
    assert_eq!(
        start.advance(true).advance(true).advance(false),
        skipped(SkipReason::DecoderNotCreated)
    );
}

fn rtp(first: u8, rest: &[u8]) -> Vec<u8> {
    let mut packet = vec![first];
    packet.extend_from_slice(&[111, 0, 1, 0, 0, 0, 2, 0, 0, 0, 3]);
    packet.extend_from_slice(rest);
    packet
}

#[test]
fn payload_lies_behind_the_header() {
    assert_eq!(rtp_payload(&rtp(0x80, &[7, 8, 9])), Some((12, 15)));
    assert_eq!(rtp_payload(&rtp(0x80, &[])), Some((12, 12)));
    assert_eq!(rtp_payload(&rtp(0x82, &[0, 0, 0, 0, 1, 1, 1, 1, 9])), Some((20, 21)));
    assert_eq!(
        rtp_payload(&rtp(0x90, &[0xbe, 0xde, 0, 1, 1, 2, 3, 4, 9, 9])),
        Some((20, 22))
    );
    assert_eq!(rtp_payload(&rtp(0xa0, &[9, 9, 0, 2])), Some((12, 14)));
}

#[test]
fn what_is_no_rtp_has_no_payload() {
    assert_eq!(rtp_payload(&[]), None);
    assert_eq!(rtp_payload(&[0x80; 11]), None);
    assert_eq!(rtp_payload(&rtp(0x40, &[1])), None);
    assert_eq!(rtp_payload(&rtp(0x81, &[0, 0, 0])), None);
    assert_eq!(rtp_payload(&rtp(0x90, &[0xbe, 0xde, 0])), None);
    assert_eq!(rtp_payload(&rtp(0x90, &[0xbe, 0xde, 0, 2, 1, 1, 1, 1])), None);
    assert_eq!(rtp_payload(&rtp(0xa0, &[9, 3])), None);
}

fn stream(packet_count: u64, byte_count: u64, bitrate: u32, packets_lost: u64) -> StreamStats {
    StreamStats { packet_count, byte_count, bitrate, packets_lost }
}

#[test]
fn streams_are_added_up() {
    let totals = StreamTotals::of(&vec![stream(10, 1_000, 32_000, 1), stream(5, 600, 16_000, 0)]);
    assert_eq!(
        totals,
        Some(StreamTotals {
            stream_count: 2,
            packet_count: 15,
            byte_count: 1_600,
            bitrate_bps: 48_000,
            packets_lost: 1,
        })
    );
    assert_eq!(StreamTotals::of(&vec![stream(u64::MAX, 0, 0, 0), stream(1, 0, 0, 0)]), None);
    assert_eq!(StreamTotals::of(&vec![stream(0, u64::MAX, 0, 0), stream(0, 1, 0, 0)]), None);
    assert_eq!(StreamTotals::of(&vec![stream(0, 0, 0, u64::MAX), stream(0, 0, 0, 1)]), None);
}

#[test]
fn counters_make_a_poll() {
    assert!(matches!(StatsPoll::of(&vec![]), Some(StatsPoll::NoStreams)));
    match StatsPoll::of(&vec![stream(3, 40, 8, 1)]) {
        Some(StatsPoll::Totals(totals)) => {
            assert_eq!(totals.stream_count, 1);
            assert_eq!(totals.packet_count, 3);
            assert_eq!(totals.byte_count, 40);
            assert_eq!(totals.bitrate_bps, 8);
            assert_eq!(totals.packets_lost, 1);
        }
        other => panic!("no totals: {other:?}"),
    }
    assert!(StatsPoll::of(&vec![stream(u64::MAX, 0, 0, 0), stream(1, 0, 0, 0)]).is_none());
}

#[test]
fn looking_at_no_streams_keeps_the_totals() {
    let mut log = ProducerStatsLog::new();
    let mut look = |streams: Vec<StreamStats>| log.on_poll(StatsPoll::of(&streams).unwrap());
    look(vec![stream(10, 100, 0, 0)]);
    assert_eq!(look(vec![]), StatsAction::ReportNoStreams);
    match look(vec![stream(14, 160, 0, 0)]) {
        StatsAction::Report(report) => {
            assert_eq!((report.delta_packets, report.delta_bytes), (4, 60));
        }
        other => panic!("no report: {other:?}"),
    }
}

#[test]
fn reports_show_what_is_new() {
    let mut log = ProducerStatsLog::new();
    let mut poll = |packets: u64, bytes: u64| {
        let totals = StreamTotals::of(&vec![stream(packets, bytes, 0, 0)]).unwrap();
        match log.on_poll(StatsPoll::Totals(totals)) {
            StatsAction::Report(report) => {
                assert_eq!(report.totals, totals);
                (report.delta_packets, report.delta_bytes)
            }
            other => panic!("no report: {other:?}"),
        }
    };
    assert_eq!(poll(100, 5_000), (0, 0));
    assert_eq!(poll(130, 6_500), (30, 1_500));
    assert_eq!(poll(150, 100), (20, 0));
    assert_eq!(poll(150, 300), (0, 200));
}

#[test]
fn logger_stops_with_its_producer() {
    let mut log = ProducerStatsLog::new();
    assert_eq!(log.on_poll(StatsPoll::QueryFailed), StatsAction::Wait);
    assert_eq!(log.on_poll(StatsPoll::NoStreams), StatsAction::ReportNoStreams);
    assert_eq!(log.on_poll(StatsPoll::ProducerClosed), StatsAction::Stop);
    assert_eq!(log.on_poll(StatsPoll::ProducerDropped), StatsAction::Stop);
}
