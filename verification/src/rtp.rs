//! What the server offers, reads and asks for in RTP.
//!
//! Codec settings and RTCP feedback travel as JSON text: nothing here looks inside.

use vstd::prelude::*;

use crate::signaling::MediaKind;

verus! {

/// The name of an audio codec.
#[derive(Debug, PartialEq, Eq)]
pub enum AudioMimeType {
    Opus,
    Other(String),
}

/// A codec that a track is sent with.
#[allow(inconsistent_fields)]
#[derive(Debug)]
pub enum RtpCodecParameters {
    Audio {
        mime_type: AudioMimeType,
        payload_type: u8,
        clock_rate: u32,
        channels: u8,
        parameters: String,
        rtcp_feedback: String,
    },
    Video {
        mime_type: String,
        payload_type: u8,
        clock_rate: u32,
        parameters: String,
        rtcp_feedback: String,
    },
}

/// A codec that an endpoint can receive.
#[allow(inconsistent_fields)]
#[derive(Debug)]
pub enum RtpCodecCapability {
    Audio {
        mime_type: AudioMimeType,
        preferred_payload_type: Option<u8>,
        clock_rate: u32,
        channels: u8,
        parameters: String,
        rtcp_feedback: String,
    },
    Video {
        mime_type: String,
        preferred_payload_type: Option<u8>,
        clock_rate: u32,
        parameters: String,
        rtcp_feedback: String,
    },
}

/// A header extension that a track is sent with.
#[derive(Debug)]
pub struct RtpHeaderExtensionParameters {
    pub uri: String,
    pub id: u16,
    pub encrypt: bool,
}

/// Which way a header extension is understood.
#[derive(Debug, Clone, Copy, PartialEq, Eq, Structural)]
pub enum RtpHeaderExtensionDirection {
    SendRecv,
    SendOnly,
    RecvOnly,
    Inactive,
}

/// A header extension that an endpoint can receive.
#[derive(Debug)]
pub struct RtpHeaderExtension {
    pub kind: MediaKind,
    pub uri: String,
    pub preferred_id: u16,
    pub preferred_encrypt: bool,
    pub direction: RtpHeaderExtensionDirection,
}

/// How a track is sent.
#[derive(Debug)]
pub struct RtpParameters {
    pub codecs: Vec<RtpCodecParameters>,
    pub header_extensions: Vec<RtpHeaderExtensionParameters>,
}

/// What an endpoint can receive.
#[derive(Debug)]
pub struct RtpCapabilities {
    pub codecs: Vec<RtpCodecCapability>,
    pub header_extensions: Vec<RtpHeaderExtension>,
}

/// How many channels the first Opus codec of a list has.
pub open spec fn first_opus_channels(codecs: Seq<RtpCodecParameters>) -> Option<u16>
    decreases codecs.len(),
{
    if codecs.len() == 0 {
        None
    } else {
        match codecs.first() {
            RtpCodecParameters::Audio { mime_type: AudioMimeType::Opus, channels, .. } => Some(
                channels as u16,
            ),
            _ => first_opus_channels(codecs.drop_first()),
        }
    }
}

/// Every Opus codec of the list has a channel.
pub open spec fn opus_is_audible(codecs: Seq<RtpCodecParameters>) -> bool {
    forall|i: int|
        0 <= i < codecs.len() ==> (#[trigger] codecs[i] matches RtpCodecParameters::Audio {
            mime_type: AudioMimeType::Opus,
            channels,
            ..
        } ==> channels > 0)
}

/// How many channels the first Opus codec of a track has.
pub fn opus_channel_count(rtp_parameters: &RtpParameters) -> (r: Option<u16>)
    ensures
        r == first_opus_channels(rtp_parameters.codecs@),
        opus_is_audible(rtp_parameters.codecs@) ==> (r matches Some(channels) ==> channels > 0),
{
    let ghost codecs = rtp_parameters.codecs@;
    let mut i: usize = 0;
    assert(codecs.skip(0) =~= codecs);
    while i < rtp_parameters.codecs.len()
        invariant
            codecs == rtp_parameters.codecs@,
            i <= codecs.len(),
            first_opus_channels(codecs) == first_opus_channels(codecs.skip(i as int)),
        decreases codecs.len() - i,
    {
        assert(codecs.skip(i as int).first() == codecs[i as int]);
        assert(codecs.skip(i as int).drop_first() =~= codecs.skip(i + 1));
        match &rtp_parameters.codecs[i] {
            RtpCodecParameters::Audio { mime_type: AudioMimeType::Opus, channels, .. } => {
                return Some(*channels as u16);
            },
            _ => {},
        }
        i = i + 1;
    }
    None
}

/// The capability to receive what a codec sends.
pub open spec fn capability_of(codec: RtpCodecParameters) -> RtpCodecCapability {
    match codec {
        RtpCodecParameters::Audio {
            mime_type,
            payload_type,
            clock_rate,
            channels,
            parameters,
            rtcp_feedback,
        } => RtpCodecCapability::Audio {
            mime_type,
            preferred_payload_type: Some(payload_type),
            clock_rate,
            channels,
            parameters,
            rtcp_feedback,
        },
        RtpCodecParameters::Video {
            mime_type,
            payload_type,
            clock_rate,
            parameters,
            rtcp_feedback,
        } => RtpCodecCapability::Video {
            mime_type,
            preferred_payload_type: Some(payload_type),
            clock_rate,
            parameters,
            rtcp_feedback,
        },
    }
}

/// The capability to receive a header extension of a track of that kind.
pub open spec fn extension_of(
    kind: MediaKind,
    extension: RtpHeaderExtensionParameters,
) -> RtpHeaderExtension {
    RtpHeaderExtension {
        kind,
        uri: extension.uri,
        preferred_id: extension.id,
        preferred_encrypt: extension.encrypt,
        direction: RtpHeaderExtensionDirection::SendRecv,
    }
}

/// The capabilities are those to receive each codec and each header extension of a track, in their
/// order, and nothing else.
pub open spec fn takes_in(
    capabilities: RtpCapabilities,
    kind: MediaKind,
    consumable: RtpParameters,
) -> bool {
    &&& capabilities.codecs@ == consumable.codecs@.map_values(
        |codec: RtpCodecParameters| capability_of(codec),
    )
    &&& capabilities.header_extensions@ == consumable.header_extensions@.map_values(
        |extension: RtpHeaderExtensionParameters| extension_of(kind, extension),
    )
}

impl Clone for AudioMimeType {
    fn clone(&self) -> (r: Self)
        ensures
            r == *self,
    {
        match self {
            AudioMimeType::Opus => AudioMimeType::Opus,
            AudioMimeType::Other(name) => AudioMimeType::Other(name.clone()),
        }
    }
}

fn codec_capability(codec: &RtpCodecParameters) -> (r: RtpCodecCapability)
    ensures
        r == capability_of(*codec),
{
    match codec {
        RtpCodecParameters::Audio {
            mime_type,
            payload_type,
            clock_rate,
            channels,
            parameters,
            rtcp_feedback,
        } => RtpCodecCapability::Audio {
            mime_type: mime_type.clone(),
            preferred_payload_type: Some(*payload_type),
            clock_rate: *clock_rate,
            channels: *channels,
            parameters: parameters.clone(),
            rtcp_feedback: rtcp_feedback.clone(),
        },
        RtpCodecParameters::Video {
            mime_type,
            payload_type,
            clock_rate,
            parameters,
            rtcp_feedback,
        } => RtpCodecCapability::Video {
            mime_type: mime_type.clone(),
            preferred_payload_type: Some(*payload_type),
            clock_rate: *clock_rate,
            parameters: parameters.clone(),
            rtcp_feedback: rtcp_feedback.clone(),
        },
    }
}

/// What an endpoint must be able to receive to take in a producer as the router hands it on:
/// exactly the producer's codecs and header extensions.
pub fn rtp_capabilities_from_producer(kind: MediaKind, consumable: &RtpParameters) -> (r:
    RtpCapabilities)
    ensures
        takes_in(r, kind, *consumable),
{
    let mut codecs: Vec<RtpCodecCapability> = Vec::new();
    let mut i: usize = 0;
    while i < consumable.codecs.len()
        invariant
            i <= consumable.codecs@.len(),
            codecs@.len() == i,
            forall|j: int|
                0 <= j < i ==> #[trigger] codecs@[j] == capability_of(consumable.codecs@[j]),
        decreases consumable.codecs@.len() - i,
    {
        codecs.push(codec_capability(&consumable.codecs[i]));
        i = i + 1;
    }
    let mut header_extensions: Vec<RtpHeaderExtension> = Vec::new();
    let mut k: usize = 0;
    while k < consumable.header_extensions.len()
        invariant
            k <= consumable.header_extensions@.len(),
            header_extensions@.len() == k,
            forall|j: int|
                0 <= j < k ==> #[trigger] header_extensions@[j] == extension_of(
                    kind,
                    consumable.header_extensions@[j],
                ),
        decreases consumable.header_extensions@.len() - k,
    {
        let extension = &consumable.header_extensions[k];
        header_extensions.push(
            RtpHeaderExtension {
                kind,
                uri: extension.uri.clone(),
                preferred_id: extension.id,
                preferred_encrypt: extension.encrypt,
                direction: RtpHeaderExtensionDirection::SendRecv,
            },
        );
        k = k + 1;
    }
    let r = RtpCapabilities { codecs, header_extensions };
    assert(r.codecs@ =~= consumable.codecs@.map_values(
        |codec: RtpCodecParameters| capability_of(codec),
    ));
    assert(r.header_extensions@ =~= consumable.header_extensions@.map_values(
        |extension: RtpHeaderExtensionParameters| extension_of(kind, extension),
    ));
    r
}

/// What the router forwards: Opus, at 48 kHz, with two channels.
pub fn media_codecs() -> (r: Vec<RtpCodecCapability>)
    ensures
        r@.len() == 1,
        r@[0] matches RtpCodecCapability::Audio {
            mime_type,
            preferred_payload_type,
            clock_rate,
            channels,
            parameters,
            rtcp_feedback,
        } && mime_type == AudioMimeType::Opus && preferred_payload_type is None && clock_rate
            == 48_000 && channels == 2 && parameters@ == "{}"@ && rtcp_feedback@ == "[]"@,
{
    let mut r: Vec<RtpCodecCapability> = Vec::new();
    r.push(
        RtpCodecCapability::Audio {
            mime_type: AudioMimeType::Opus,
            preferred_payload_type: None,
            clock_rate: 48_000,
            channels: 2,
            parameters: "{}".to_owned(),
            rtcp_feedback: "[]".to_owned(),
        },
    );
    r
}

/// Where the payload of an RTP packet starts: behind the fixed header, the contributing sources
/// and the header extension.
pub open spec fn payload_start(packet: Seq<u8>) -> int {
    let behind_sources = 12 + 4 * ((packet[0] % 16) as int);
    if (packet[0] / 16) % 2 == 0 {
        behind_sources
    } else {
        behind_sources + 4 + 4 * (packet[behind_sources + 2] * 256 + packet[behind_sources + 3])
    }
}

/// How many bytes at the end of an RTP packet are padding.
pub open spec fn padding_length(packet: Seq<u8>) -> int {
    if (packet[0] / 32) % 2 == 0 {
        0
    } else {
        packet.last() as int
    }
}

/// `packet` is an RTP packet, version 2, whose header is complete and whose padding fits.
pub open spec fn is_rtp_packet(packet: Seq<u8>) -> bool {
    let behind_sources = 12 + 4 * ((packet[0] % 16) as int);
    &&& packet.len() >= 12
    &&& packet[0] / 64 == 2
    &&& behind_sources <= packet.len()
    &&& (packet[0] / 16) % 2 == 1 ==> behind_sources + 4 <= packet.len()
    &&& payload_start(packet) + padding_length(packet) <= packet.len()
}

/// Where in an RTP packet its payload lies: from the first number up to the second. Nothing for
/// what is no RTP packet.
pub fn rtp_payload(packet: &[u8]) -> (r: Option<(usize, usize)>)
    ensures
        r == if is_rtp_packet(packet@) {
            Some(
                (
                    payload_start(packet@) as usize,
                    (packet@.len() - padding_length(packet@)) as usize,
                ),
            )
        } else {
            None
        },
        r matches Some(range) ==> range.0 <= range.1 <= packet@.len(),
{
    let length: usize = packet.len();
    if length < 12 {
        return None;
    }
    let first: u8 = packet[0];
    if first / 64 != 2 {
        return None;
    }
    let mut start: usize = 12 + 4 * ((first % 16) as usize);
    if start > length {
        return None;
    }
    if (first / 16) % 2 == 1 {
        if length - start < 4 {
            return None;
        }
        let words: usize = (packet[start + 2] as usize) * 256 + packet[start + 3] as usize;
        let extension: usize = 4 + 4 * words;
        if length - start < extension {
            return None;
        }
        start = start + extension;
    }
    let padding: usize = if (first / 32) % 2 == 1 {
        packet[length - 1] as usize
    } else {
        0
    };
    if length - start < padding {
        return None;
    }
    Some((start, length - padding))
}

/// The channels are those of the first Opus codec, wherever it stands in the list and whatever
/// comes behind it; a list without Opus has none.
pub proof fn law_first_opus_codec_counts(
    before: Seq<RtpCodecParameters>,
    codec: RtpCodecParameters,
    after: Seq<RtpCodecParameters>,
)
    requires
        forall|i: int|
            0 <= i < before.len() ==> !(#[trigger] before[i] matches RtpCodecParameters::Audio {
                mime_type: AudioMimeType::Opus,
                ..
            }),
    ensures
        codec matches RtpCodecParameters::Audio { mime_type: AudioMimeType::Opus, channels, .. }
            ==> first_opus_channels(before + seq![codec] + after) == Some(channels as u16),
        first_opus_channels(before) is None,
    decreases before.len(),
{
    let whole = before + seq![codec] + after;
    if before.len() == 0 {
        assert(whole.first() == codec);
    } else {
        let rest = before.drop_first();
        assert(before[0] == before.first());
        assert(whole.first() == before.first());
        assert(whole.drop_first() =~= rest + seq![codec] + after);
        assert forall|i: int| 0 <= i < rest.len() implies !(
        #[trigger] rest[i] matches RtpCodecParameters::Audio {
            mime_type: AudioMimeType::Opus,
            ..
        }) by {
            assert(rest[i] == before[i + 1]);
        }
        law_first_opus_codec_counts(rest, codec, after);
    }
}

/// Capabilities that take a producer in have one entry for each codec and each header extension of
/// the producer, in the same place, with the same settings and the payload type or number that the
/// producer uses.
pub proof fn law_capabilities_mirror_the_producer(
    capabilities: RtpCapabilities,
    kind: MediaKind,
    consumable: RtpParameters,
    i: int,
)
    requires
        takes_in(capabilities, kind, consumable),
    ensures
        capabilities.codecs@.len() == consumable.codecs@.len(),
        capabilities.header_extensions@.len() == consumable.header_extensions@.len(),
        0 <= i < consumable.codecs@.len() ==> match consumable.codecs@[i] {
            RtpCodecParameters::Audio {
                mime_type,
                payload_type,
                clock_rate,
                channels,
                parameters,
                rtcp_feedback,
            } => {
                &&& capabilities.codecs@[i] matches RtpCodecCapability::Audio {
                    mime_type: mime_type1,
                    preferred_payload_type,
                    clock_rate: clock_rate1,
                    channels: channels1,
                    parameters: parameters1,
                    rtcp_feedback: rtcp_feedback1,
                }
                &&& mime_type1 == mime_type
                &&& preferred_payload_type == Some(payload_type)
                &&& clock_rate1 == clock_rate
                &&& channels1 == channels
                &&& parameters1 == parameters
                &&& rtcp_feedback1 == rtcp_feedback
            },
            RtpCodecParameters::Video {
                mime_type,
                payload_type,
                clock_rate,
                parameters,
                rtcp_feedback,
            } => {
                &&& capabilities.codecs@[i] matches RtpCodecCapability::Video {
                    mime_type: mime_type1,
                    preferred_payload_type,
                    clock_rate: clock_rate1,
                    parameters: parameters1,
                    rtcp_feedback: rtcp_feedback1,
                }
                &&& mime_type1 == mime_type
                &&& preferred_payload_type == Some(payload_type)
                &&& clock_rate1 == clock_rate
                &&& parameters1 == parameters
                &&& rtcp_feedback1 == rtcp_feedback
            },
        },
        0 <= i < consumable.header_extensions@.len() ==> {
            let extension = consumable.header_extensions@[i];
            let capability = capabilities.header_extensions@[i];
            &&& capability.kind == kind
            &&& capability.uri == extension.uri
            &&& capability.preferred_id == extension.id
            &&& capability.preferred_encrypt == extension.encrypt
            &&& capability.direction == RtpHeaderExtensionDirection::SendRecv
        },
{
}

/// The payload that was put into a packet is read back from it, whatever sources, extension and
/// padding stand around it.
pub proof fn law_payload_reads_back(
    fixed: Seq<u8>,
    sources: Seq<u8>,
    extension: Seq<u8>,
    payload: Seq<u8>,
    padding: Seq<u8>,
)
    requires
        fixed.len() == 12,
        fixed[0] / 64 == 2,
        sources.len() == 4 * (fixed[0] % 16),
        if (fixed[0] / 16) % 2 == 1 {
            extension.len() >= 4 && extension.len() == 4 + 4 * (extension[2] * 256 + extension[3])
        } else {
            extension.len() == 0
        },
        if (fixed[0] / 32) % 2 == 1 {
            padding.len() > 0 && padding.last() == padding.len()
        } else {
            padding.len() == 0
        },
    ensures
        ({
            let packet = fixed + sources + extension + payload + padding;
            &&& is_rtp_packet(packet)
            &&& packet.subrange(
                payload_start(packet),
                packet.len() - padding_length(packet),
            ) == payload
        }),
{
    let packet = fixed + sources + extension + payload + padding;
    assert(packet[0] == fixed[0]);
    let behind: int = 12 + sources.len() as int;
    if (fixed[0] / 16) % 2 == 1 {
        assert(packet[behind + 2] == extension[2]);
        assert(packet[behind + 3] == extension[3]);
    }
    if (fixed[0] / 32) % 2 == 1 {
        assert(packet.last() == padding.last());
    }
    assert(payload_start(packet) == behind + extension.len());
    assert(padding_length(packet) == padding.len());
    assert(packet.subrange(payload_start(packet), packet.len() - padding_length(packet))
        =~= payload);
}

/// What is shorter than a header, or of another version, is no RTP packet; in one that is, header,
/// payload and padding have room.
pub proof fn law_packets_have_room(packet: Seq<u8>)
    ensures
        packet.len() < 12 ==> !is_rtp_packet(packet),
        packet.len() > 0 && packet[0] / 64 != 2 ==> !is_rtp_packet(packet),
        is_rtp_packet(packet) ==> 12 <= payload_start(packet) && payload_start(packet)
            + padding_length(packet) <= packet.len() && 0 <= padding_length(packet),
{
}

} // verus!
