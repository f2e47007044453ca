//! From decoded audio to transcripts: which tracks are transcribed, how their audio is cut into
//! chunks, and what becomes of the words.
//!
//! Audio is counted in samples. At 16 kHz a millisecond is sixteen samples, so the limits on
//! chunks, which are set in milliseconds, are whole numbers of samples. Amplitudes are whole
//! numbers too: [`to_mono`] and [`downsample_48k_to_16k`] say what a unit stands for.

use vstd::prelude::*;

use crate::rtp;
use crate::rtp::{opus_channel_count, rtp_capabilities_from_producer, RtpCapabilities, RtpParameters};
use crate::signaling::MediaKind;
use crate::text;
use crate::text::{parse_i32, trim};

verus! {

/// The sample rate that Opus is decoded at.
pub const OPUS_SAMPLE_RATE_HZ: u32 = 48_000;

/// The longest frame that Opus can hold, 120 ms, in samples of one channel.
pub const MAX_OPUS_FRAME_SAMPLES_PER_CHANNEL: usize = 5_760;

/// 650 ms: so much silence ends a chunk.
pub const ENDPOINT_SILENCE_SAMPLES: usize = 10_400;

/// 800 ms: a shorter chunk is not ended by silence.
pub const MIN_CHUNK_SAMPLES: usize = 12_800;

/// 12 s: a chunk is cut when it is this long.
pub const MAX_CHUNK_SAMPLES: usize = 192_000;

/// 250 ms: a chunk with less speech is dropped.
pub const MIN_VOICED_SAMPLES: usize = 4_000;

/// A full-scale sample in the units of [`to_mono`].
pub const FULL_SCALE: i32 = 65_536;

/// The amplitude of one moment over all channels, in units of 1/65536 of full scale: the one
/// channel, or the mean of the first two.
pub open spec fn mono_sample(samples: Seq<i16>, channel_count: int, i: int) -> int {
    if channel_count <= 1 {
        2 * samples[i]
    } else {
        samples[i * channel_count] + samples[i * channel_count + 1]
    }
}

/// The decoded samples hold `samples_per_channel` moments of `channel_count` channels.
pub open spec fn holds_moments(
    samples: Seq<i16>,
    samples_per_channel: int,
    channel_count: int,
) -> bool {
    if channel_count <= 1 {
        samples_per_channel <= samples.len()
    } else {
        samples_per_channel == 0 || (samples_per_channel - 1) * channel_count + 1 < samples.len()
    }
}

/// The moments of decoded samples, as one channel.
pub open spec fn mono(
    samples: Seq<i16>,
    samples_per_channel: int,
    channel_count: int,
) -> Seq<i32> {
    Seq::new(
        samples_per_channel as nat,
        |i: int| mono_sample(samples, channel_count, i) as i32,
    )
}

/// `sample` lies within full scale.
pub open spec fn in_full_scale(sample: i32) -> bool {
    -FULL_SCALE <= sample <= FULL_SCALE
}

/// Mixes decoded samples, whose channels take turns, down to one channel, in units of 1/65536 of
/// full scale.
pub fn to_mono(samples: &Vec<i16>, samples_per_channel: usize, channel_count: usize) -> (r: Vec<
    i32,
>)
    requires
        holds_moments(samples@, samples_per_channel as int, channel_count as int),
    ensures
        r@ == mono(samples@, samples_per_channel as int, channel_count as int),
        forall|i: int| 0 <= i < r@.len() ==> in_full_scale(#[trigger] r@[i]),
{
    let mut r: Vec<i32> = Vec::new();
    let length: usize = samples.len();
    let mut i: usize = 0;
    while i < samples_per_channel
        invariant
            length == samples@.len(),
            holds_moments(samples@, samples_per_channel as int, channel_count as int),
            i <= samples_per_channel,
            r@.len() == i,
            forall|j: int|
                0 <= j < i ==> #[trigger] r@[j] == mono_sample(samples@, channel_count as int, j)
                    && in_full_scale(r@[j]),
        decreases samples_per_channel - i,
    {
        if channel_count <= 1 {
            r.push(2 * (samples[i] as i32));
        } else {
            proof {
                assert(i * channel_count <= (samples_per_channel - 1) * channel_count)
                    by (nonlinear_arith)
                    requires
                        i <= samples_per_channel - 1,
                        0 <= channel_count,
                ;
                assert(0 <= i * channel_count) by (nonlinear_arith);
            }
            let left: i32 = samples[i * channel_count] as i32;
            let right: i32 = samples[i * channel_count + 1] as i32;
            r.push(left + right);
        }
        i = i + 1;
    }
    assert(r@ =~= mono(samples@, samples_per_channel as int, channel_count as int));
    r
}

/// One channel is taken as it is, in units half as large; of two channels, every moment is the sum
/// of what they have at that moment, in the same units.
pub proof fn law_channels_are_mixed(left: Seq<i16>, right: Seq<i16>, both: Seq<i16>, i: int)
    requires
        left.len() == right.len(),
        both.len() == 2 * left.len(),
        forall|k: int| 0 <= k < left.len() ==> both[2 * k] == #[trigger] left[k],
        forall|k: int| 0 <= k < right.len() ==> both[2 * k + 1] == #[trigger] right[k],
        0 <= i < left.len(),
    ensures
        mono(left, left.len() as int, 1).len() == left.len(),
        mono(both, left.len() as int, 2).len() == left.len(),
        mono(left, left.len() as int, 1)[i] == 2 * left[i],
        mono(both, left.len() as int, 2)[i] == left[i] + right[i],
{
    assert(both[2 * i] == left[i]);
    assert(both[2 * i + 1] == right[i]);
    assert(i * 2 == 2 * i);
}

/// Two channels with the same sound in both sound like one.
pub proof fn law_equal_channels_sound_like_one(one: Seq<i16>, both: Seq<i16>)
    requires
        both.len() == 2 * one.len(),
        forall|k: int| 0 <= k < one.len() ==> both[2 * k] == #[trigger] one[k],
        forall|k: int| 0 <= k < one.len() ==> both[2 * k + 1] == #[trigger] one[k],
    ensures
        mono(both, one.len() as int, 2) == mono(one, one.len() as int, 1),
{
    assert forall|i: int| 0 <= i < one.len() implies mono(both, one.len() as int, 2)[i] == mono(
        one,
        one.len() as int,
        1,
    )[i] by {
        law_channels_are_mixed(one, one, both, i);
    }
    assert(mono(both, one.len() as int, 2) =~= mono(one, one.len() as int, 1));
}

/// Samples of one channel hold as many moments as there are samples, those of two channels half as
/// many.
pub proof fn law_moments_take_a_sample_of_each_channel(samples: Seq<i16>, moments: nat)
    ensures
        holds_moments(samples, moments as int, 1) <==> moments <= samples.len(),
        holds_moments(samples, moments as int, 2) <==> 2 * moments <= samples.len(),
{
}

/// Channels beyond the second do not count, and no channel counts as one.
pub proof fn law_only_two_channels_count(
    samples: Seq<i16>,
    both: Seq<i16>,
    moments: int,
    channel_count: int,
)
    requires
        0 <= moments,
        channel_count >= 2,
        both.len() == 2 * moments,
        forall|k: int| 0 <= k < moments ==> both[2 * k] == samples[#[trigger] (k * channel_count)],
        forall|k: int|
            0 <= k < moments ==> both[2 * k + 1] == samples[#[trigger] (k * channel_count) + 1],
    ensures
        mono(samples, moments, channel_count) == mono(both, moments, 2),
        mono(samples, moments, 0) == mono(samples, moments, 1),
{
    assert forall|i: int| 0 <= i < moments implies mono(samples, moments, channel_count)[i] == mono(
        both,
        moments,
        2,
    )[i] by {
        let at = i * channel_count;
        assert(both[2 * i] == samples[at]);
        assert(both[2 * i + 1] == samples[at + 1]);
        assert(i * 2 == 2 * i);
    }
    assert(mono(samples, moments, channel_count) =~= mono(both, moments, 2));
    assert(mono(samples, moments, 0) =~= mono(samples, moments, 1));
}

/// The limits in milliseconds, at sixteen samples each: 650 of silence end a chunk of at least 800,
/// 12 000 end it anyway, and 250 of speech make it worth transcribing. Opus is decoded at three
/// times that rate, 120 ms at once at most.
pub proof fn law_limits_in_milliseconds()
    ensures
        ENDPOINT_SILENCE_SAMPLES == 650 * 16,
        MIN_CHUNK_SAMPLES == 800 * 16,
        MAX_CHUNK_SAMPLES == 12_000 * 16,
        MIN_VOICED_SAMPLES == 250 * 16,
        OPUS_SAMPLE_RATE_HZ == 3 * 16 * 1_000,
        MAX_OPUS_FRAME_SAMPLES_PER_CHANNEL == 120 * 3 * 16,
        FULL_SCALE == 2 * (i16::MAX + 1),
{
}

/// Every three samples as one, their mean, in units of 1/196608 of full scale; up to two samples
/// at the end are dropped.
pub open spec fn downsampled(samples: Seq<i32>) -> Seq<i32> {
    Seq::new(
        samples.len() / 3,
        |i: int| (samples[3 * i] + samples[3 * i + 1] + samples[3 * i + 2]) as i32,
    )
}

/// Three samples become one, their sum in units a third as large, and fewer than three become
/// nothing.
pub proof fn law_three_samples_become_one(x: i32, y: i32, z: i32, few: Seq<i32>)
    requires
        can_be_summed(x),
        can_be_summed(y),
        can_be_summed(z),
        few.len() < 3,
    ensures
        downsampled(seq![x, y, z]).len() == 1,
        downsampled(seq![x, y, z])[0] == x + y + z,
        downsampled(few).len() == 0,
{
}

/// Samples that come in threes do not touch what comes behind them: both parts come out one behind
/// the other.
pub proof fn law_downsampling_goes_by_threes(a: Seq<i32>, b: Seq<i32>)
    requires
        a.len() % 3 == 0,
    ensures
        downsampled(a + b) == downsampled(a) + downsampled(b),
{
    let whole = a + b;
    let n = (a.len() / 3) as int;
    assert(whole.len() / 3 == a.len() / 3 + b.len() / 3);
    assert forall|i: int| 0 <= i < downsampled(whole).len() implies downsampled(whole)[i] == (
    downsampled(a) + downsampled(b))[i] by {
        if i < n {
            assert(whole[3 * i] == a[3 * i]);
            assert(whole[3 * i + 1] == a[3 * i + 1]);
            assert(whole[3 * i + 2] == a[3 * i + 2]);
        } else {
            let j = i - n;
            assert(3 * i == a.len() + 3 * j);
            assert(whole[3 * i] == b[3 * j]);
            assert(whole[3 * i + 1] == b[3 * j + 1]);
            assert(whole[3 * i + 2] == b[3 * j + 2]);
        }
    }
    assert(downsampled(whole) =~= downsampled(a) + downsampled(b));
}

/// Three such samples can be added up.
pub open spec fn can_be_summed(sample: i32) -> bool {
    -(i32::MAX / 3) <= sample <= i32::MAX / 3
}

/// Takes samples at 48 kHz, in units of 1/65536 of full scale, to 16 kHz, in units of 1/196608.
pub fn downsample_48k_to_16k(samples_48k: &Vec<i32>) -> (r: Vec<i32>)
    requires
        forall|i: int| 0 <= i < samples_48k@.len() ==> can_be_summed(#[trigger] samples_48k@[i]),
    ensures
        r@ == downsampled(samples_48k@),
{
    let length: usize = samples_48k.len();
    let total: usize = length / 3;
    let mut r: Vec<i32> = Vec::new();
    let mut i: usize = 0;
    while i < total
        invariant
            length == samples_48k@.len(),
            total == length / 3,
            i <= total,
            r@.len() == i,
            forall|k: int|
                0 <= k < samples_48k@.len() ==> can_be_summed(#[trigger] samples_48k@[k]),
            forall|j: int| 0 <= j < i ==> #[trigger] r@[j] == downsampled(samples_48k@)[j],
        decreases total - i,
    {
        assert(can_be_summed(samples_48k@[3 * i]) && can_be_summed(samples_48k@[3 * i + 1])
            && can_be_summed(samples_48k@[3 * i + 2]));
        r.push(samples_48k[3 * i] + samples_48k[3 * i + 1] + samples_48k[3 * i + 2]);
        i = i + 1;
    }
    assert(r@ =~= downsampled(samples_48k@));
    r
}

/// Whose speech a transcript holds.
#[derive(Debug)]
pub struct TranscriptIdentity {
    pub room_id: String,
    pub peer_id: String,
    pub track_id: String,
}

impl Clone for TranscriptIdentity {
    fn clone(&self) -> (r: Self)
        ensures
            r == *self,
    {
        TranscriptIdentity {
            room_id: self.room_id.clone(),
            peer_id: self.peer_id.clone(),
            track_id: self.track_id.clone(),
        }
    }
}

/// A chunk of a track's audio that is to be transcribed.
#[derive(Debug)]
pub struct TranscriptJob {
    pub identity: TranscriptIdentity,
    pub chunk_index: u64,
    pub pcm_16k_mono: Vec<i32>,
}

/// What is remembered of a track: the audio of the chunk at hand, how much of it is speech, how
/// much silence it ends with, and the number of the next chunk.
#[verifier::ext_equal]
pub struct TrackModel {
    pub chunk: Seq<i32>,
    pub voiced: int,
    pub trailing_silence: int,
    pub chunk_index: u64,
}

/// A track with nothing in its chunk yet.
pub open spec fn silent_track(chunk_index: u64) -> TrackModel {
    TrackModel { chunk: Seq::empty(), voiced: 0, trailing_silence: 0, chunk_index }
}

/// What holds of a track at all times: its chunk has not come to its end, and holds speech if it
/// holds anything.
pub open spec fn is_track(track: TrackModel) -> bool {
    &&& !is_complete(track)
    &&& 0 <= track.voiced <= track.chunk.len()
    &&& 0 <= track.trailing_silence
    &&& track.voiced + track.trailing_silence <= track.chunk.len()
    &&& track.chunk.len() > 0 ==> track.voiced > 0
}

/// The track with a frame added to its chunk.
pub open spec fn with_frame(track: TrackModel, frame: Seq<i32>, voiced: bool) -> TrackModel {
    TrackModel {
        chunk: track.chunk + frame,
        voiced: if voiced {
            track.voiced + frame.len()
        } else {
            track.voiced
        },
        trailing_silence: if voiced {
            0
        } else {
            track.trailing_silence + frame.len()
        },
        chunk_index: track.chunk_index,
    }
}

/// The chunk has come to its end: by silence, or by its length.
pub open spec fn is_complete(track: TrackModel) -> bool {
    ||| track.chunk.len() >= MIN_CHUNK_SAMPLES && track.trailing_silence
        >= ENDPOINT_SILENCE_SAMPLES
    ||| track.chunk.len() >= MAX_CHUNK_SAMPLES
}

/// A chunk that has come to its end is worth transcribing. `forced` says that the track ended it.
pub open spec fn is_worthwhile(track: TrackModel, forced: bool) -> bool {
    &&& track.chunk.len() > 0
    &&& track.voiced >= MIN_VOICED_SAMPLES
    &&& forced || track.chunk.len() >= MIN_CHUNK_SAMPLES
}

/// A frame has no place in the track: it is empty, or silence before any speech.
pub open spec fn is_ignored(track: TrackModel, frame: Seq<i32>, voiced: bool) -> bool {
    frame.len() == 0 || (track.chunk.len() == 0 && !voiced)
}

/// The track with a chunk of its closed; `submitted` says that the chunk is to be transcribed.
pub open spec fn after_chunk(track: TrackModel, submitted: bool) -> TrackModel {
    TrackModel {
        chunk: Seq::empty(),
        voiced: 0,
        trailing_silence: 0,
        chunk_index: if submitted {
            (track.chunk_index + 1) as u64
        } else {
            track.chunk_index
        },
    }
}

/// The track after a frame.
pub open spec fn after_frame(track: TrackModel, frame: Seq<i32>, voiced: bool) -> TrackModel {
    let longer = with_frame(track, frame, voiced);
    if is_ignored(track, frame, voiced) {
        track
    } else if is_complete(longer) {
        after_chunk(longer, is_worthwhile(longer, false))
    } else {
        longer
    }
}

/// A frame ends a chunk that is to be transcribed.
pub open spec fn frame_submits(track: TrackModel, frame: Seq<i32>, voiced: bool) -> bool {
    let longer = with_frame(track, frame, voiced);
    !is_ignored(track, frame, voiced) && is_complete(longer) && is_worthwhile(longer, false)
}

/// The chunk at hand.
struct ChunkState {
    pcm_16k_mono: Vec<i32>,
    voiced_samples: usize,
    trailing_silence_samples: usize,
}

impl ChunkState {
    fn new() -> (r: Self)
        ensures
            r.pcm_16k_mono@ == Seq::<i32>::empty(),
            r.voiced_samples == 0,
            r.trailing_silence_samples == 0,
    {
        ChunkState { pcm_16k_mono: Vec::new(), voiced_samples: 0, trailing_silence_samples: 0 }
    }

    spec fn model(self, chunk_index: u64) -> TrackModel {
        TrackModel {
            chunk: self.pcm_16k_mono@,
            voiced: self.voiced_samples as int,
            trailing_silence: self.trailing_silence_samples as int,
            chunk_index,
        }
    }

    fn add_frame(&mut self, frame: &Vec<i32>, voiced: bool)
        requires
            is_track(old(self).model(0)),
        ensures
            forall|index: u64| #[trigger]
                final(self).model(index) == with_frame(old(self).model(index), frame@, voiced),
    {
        let added: usize = frame.len();
        let ghost before = self.pcm_16k_mono@;
        self.pcm_16k_mono.extend_from_slice(frame.as_slice());
        assert(self.pcm_16k_mono@ =~= before + frame@);
        let length: usize = self.pcm_16k_mono.len();
        assert(length == before.len() + added);
        if voiced {
            self.voiced_samples = self.voiced_samples + added;
            self.trailing_silence_samples = 0;
        } else {
            self.trailing_silence_samples = self.trailing_silence_samples + added;
        }
    }

    fn is_complete(&self) -> (r: bool)
        ensures
            r == is_complete(self.model(0)),
    {
        let length: usize = self.pcm_16k_mono.len();
        (length >= MIN_CHUNK_SAMPLES && self.trailing_silence_samples >= ENDPOINT_SILENCE_SAMPLES)
            || length >= MAX_CHUNK_SAMPLES
    }

    fn is_worthwhile(&self, forced: bool) -> (r: bool)
        ensures
            r == is_worthwhile(self.model(0), forced),
    {
        let length: usize = self.pcm_16k_mono.len();
        length > 0 && self.voiced_samples >= MIN_VOICED_SAMPLES && (forced || length
            >= MIN_CHUNK_SAMPLES)
    }
}

/// Cuts the audio of a track into chunks.
pub struct TrackAudioTranscriber {
    identity: TranscriptIdentity,
    channel_count: usize,
    chunk: ChunkState,
    chunk_index: u64,
}

impl TrackAudioTranscriber {
    #[verifier::type_invariant]
    spec fn is_sound(self) -> bool {
        is_track(self.chunk.model(self.chunk_index)) && (self.channel_count == 1
            || self.channel_count == 2)
    }

    /// What is remembered of the track.
    pub closed spec fn track(&self) -> TrackModel {
        self.chunk.model(self.chunk_index)
    }

    /// Whose track it is.
    pub closed spec fn identity(&self) -> TranscriptIdentity {
        self.identity
    }

    /// How many channels the track is decoded to.
    pub closed spec fn channels(&self) -> usize {
        self.channel_count
    }

    /// A track that has not been heard yet. Opus is decoded to two channels, or to one.
    pub fn new(identity: TranscriptIdentity, opus_channels: u16) -> (r: Self)
        ensures
            r.identity() == identity,
            r.channels() == if opus_channels >= 2 {
                2usize
            } else {
                1usize
            },
            r.track() == silent_track(0),
    {
        let channel_count: usize = if opus_channels >= 2 {
            2
        } else {
            1
        };
        TrackAudioTranscriber { identity, channel_count, chunk: ChunkState::new(), chunk_index: 0 }
    }

    /// How many channels the track is decoded to: one or two.
    pub fn channel_count(&self) -> (r: usize)
        ensures
            r == self.channels(),
            r == 1 || r == 2,
    {
        proof {
            use_type_invariant(self);
        }
        self.channel_count
    }

    /// How many samples a decoder of the track may write at once.
    pub fn decode_buffer_len(&self) -> (r: usize)
        ensures
            r == MAX_OPUS_FRAME_SAMPLES_PER_CHANNEL * self.channels(),
    {
        proof {
            use_type_invariant(self);
        }
        MAX_OPUS_FRAME_SAMPLES_PER_CHANNEL * self.channel_count
    }

    /// The number that the next chunk will have.
    pub fn chunk_index(&self) -> (r: u64)
        ensures
            r == self.track().chunk_index,
    {
        self.chunk_index
    }

    /// The audio, at 16 kHz, that an Opus payload holds. `decoded` is what the decoder said: how
    /// many samples of each channel it wrote to `decode_buffer`, if it could read the payload.
    pub fn ingest_opus_payload(
        &self,
        payload: &[u8],
        decode_buffer: &Vec<i16>,
        decoded: Option<usize>,
    ) -> (r: Option<Vec<i32>>)
        requires
            decoded matches Some(samples_per_channel) ==> holds_moments(
                decode_buffer@,
                samples_per_channel as int,
                self.channels() as int,
            ),
        ensures
            r is Some <==> payload@.len() > 0 && (decoded matches Some(samples_per_channel)
                && samples_per_channel > 0),
            r matches Some(frame) ==> frame@ == downsampled(
                mono(decode_buffer@, decoded->0 as int, self.channels() as int),
            ) && frame@.len() == decoded->0 / 3,
    {
        if payload.len() == 0 {
            return None;
        }
        match decoded {
            Some(samples_per_channel) => {
                if samples_per_channel == 0 {
                    return None;
                }
                let mono_48k = to_mono(decode_buffer, samples_per_channel, self.channel_count);
                Some(downsample_48k_to_16k(&mono_48k))
            },
            None => None,
        }
    }

    /// Takes a frame of audio at 16 kHz; `voiced` says whether it holds speech. Gives back the
    /// chunk that the frame has completed, if it is to be transcribed.
    pub fn ingest_pcm_16k_frame(&mut self, frame: &Vec<i32>, voiced: bool) -> (r: Option<
        TranscriptJob,
    >)
        requires
            frame_submits(old(self).track(), frame@, voiced) ==> old(self).track().chunk_index
                < u64::MAX,
        ensures
            final(self).identity() == old(self).identity(),
            final(self).channels() == old(self).channels(),
            is_track(final(self).track()),
            final(self).track() == after_frame(old(self).track(), frame@, voiced),
            voiced && frame@.len() > 0 ==> final(self).track().trailing_silence == 0,
            r is Some <==> frame_submits(old(self).track(), frame@, voiced),
            r matches Some(job) ==> {
                &&& job.identity == old(self).identity()
                &&& job.chunk_index == old(self).track().chunk_index
                &&& job.pcm_16k_mono@ == old(self).track().chunk + frame@
            },
    {
        proof {
            use_type_invariant(&*self);
        }
        if frame.len() == 0 || (self.chunk.pcm_16k_mono.len() == 0 && !voiced) {
            return None;
        }
        let mut chunk = ChunkState::new();
        std::mem::swap(&mut chunk, &mut self.chunk);
        chunk.add_frame(frame, voiced);
        assert(chunk.model(0) == with_frame(
            TrackModel { chunk_index: 0, ..old(self).track() },
            frame@,
            voiced,
        ));
        if chunk.is_complete() {
            self.flush_chunk(chunk, false)
        } else {
            assert(chunk.model(self.chunk_index) == with_frame(old(self).track(), frame@, voiced));
            self.chunk = chunk;
            None
        }
    }

    /// Ends the track. Gives back its last chunk, if that is to be transcribed.
    pub fn finish(&mut self) -> (r: Option<TranscriptJob>)
        requires
            is_worthwhile(old(self).track(), true) ==> old(self).track().chunk_index < u64::MAX,
        ensures
            final(self).identity() == old(self).identity(),
            final(self).channels() == old(self).channels(),
            final(self).track() == after_chunk(
                old(self).track(),
                is_worthwhile(old(self).track(), true),
            ),
            final(self).track().chunk.len() == 0,
            r is Some <==> is_worthwhile(old(self).track(), true),
            r matches Some(job) ==> {
                &&& job.identity == old(self).identity()
                &&& job.chunk_index == old(self).track().chunk_index
                &&& job.pcm_16k_mono@ == old(self).track().chunk
            },
    {
        proof {
            use_type_invariant(&*self);
        }
        let mut chunk = ChunkState::new();
        std::mem::swap(&mut chunk, &mut self.chunk);
        self.flush_chunk(chunk, true)
    }

    /// Closes a chunk that was taken out of the track.
    fn flush_chunk(&mut self, chunk: ChunkState, forced: bool) -> (r: Option<TranscriptJob>)
        requires
            is_worthwhile(chunk.model(old(self).chunk_index), forced) ==> old(self).chunk_index
                < u64::MAX,
            old(self).track() == after_chunk(old(self).track(), false),
        ensures
            final(self).identity() == old(self).identity(),
            final(self).channels() == old(self).channels(),
            final(self).track() == after_chunk(
                chunk.model(old(self).chunk_index),
                is_worthwhile(chunk.model(old(self).chunk_index), forced),
            ),
            r is Some <==> is_worthwhile(chunk.model(old(self).chunk_index), forced),
            r matches Some(job) ==> {
                &&& job.identity == old(self).identity()
                &&& job.chunk_index == old(self).chunk_index
                &&& job.pcm_16k_mono@ == chunk.pcm_16k_mono@
            },
    {
        proof {
            use_type_invariant(&*self);
        }
        if chunk.is_worthwhile(forced) {
            let job = TranscriptJob {
                identity: self.identity.clone(),
                chunk_index: self.chunk_index,
                pcm_16k_mono: chunk.pcm_16k_mono,
            };
            self.chunk_index = self.chunk_index + 1;
            Some(job)
        } else {
            None
        }
    }
}

/// What the environment says about transcription.
#[derive(Debug)]
pub enum TranscriptionSetup {
    /// No model is named.
    NotConfigured,
    /// The model that is named, under this path, does not exist.
    ModelMissing(String),
    /// Transcribe with this.
    Enabled(TranscriptionSettings),
}

/// How to transcribe.
#[derive(Debug)]
pub struct TranscriptionSettings {
    pub model_path: String,
    pub language: Option<String>,
    pub threads: i32,
}

/// The number of threads that a setting asks for: four, unless it is a positive number.
pub open spec fn thread_count(setting: Option<Seq<char>>) -> i32 {
    match setting {
        Some(raw) => match text::parsed_i32(raw) {
            Some(threads) if threads > 0 => threads,
            _ => 4,
        },
        None => 4,
    }
}

/// A positive number that is written out is the number of threads, if an `i32` can hold it.
pub proof fn law_threads_are_as_asked_for(n: nat)
    requires
        n > 0,
    ensures
        thread_count(Some(text::decimal(n))) == if n <= 0x7fff_ffff {
            n as i32
        } else {
            4i32
        },
        thread_count(Some(seq!['+'] + text::decimal(n))) == if n <= 0x7fff_ffff {
            n as i32
        } else {
            4i32
        },
{
    text::law_decimal_reads_back(n);
    text::law_signed_numbers(text::decimal(n));
}

/// It is four threads without a setting, and with one that is no positive number.
pub proof fn law_four_threads_otherwise(digits: Seq<char>, junk: Seq<char>, i: int)
    requires
        text::is_number(digits),
        0 <= i < junk.len(),
        !text::is_digit(junk[i]),
        i > 0 || (junk[0] != '+' && junk[0] != '-'),
    ensures
        thread_count(None) == 4,
        thread_count(Some(Seq::empty())) == 4,
        thread_count(Some(seq!['-'] + digits)) == 4,
        text::digits_value(digits) == 0 ==> thread_count(Some(digits)) == 4,
        text::digits_value(digits) > 0x7fff_ffff ==> thread_count(Some(digits)) == 4,
        thread_count(Some(junk)) == 4,
{
    text::law_signed_numbers(digits);
    text::law_other_text_is_no_number(junk, i);
    text::law_other_text_is_no_number(Seq::empty(), 0);
}

/// Reads the transcription settings. `model_exists` says whether there is something at
/// `model_path`.
pub fn transcription_setup(
    model_path: Option<String>,
    model_exists: bool,
    language: Option<String>,
    threads: Option<String>,
) -> (r: TranscriptionSetup)
    ensures
        r == match model_path {
            None => TranscriptionSetup::NotConfigured,
            Some(path) => if !model_exists {
                TranscriptionSetup::ModelMissing(path)
            } else {
                TranscriptionSetup::Enabled(
                    TranscriptionSettings {
                        model_path: path,
                        language,
                        threads: thread_count(
                            match threads {
                                Some(raw) => Some(raw@),
                                None => None,
                            },
                        ),
                    },
                )
            },
        },
{
    match model_path {
        None => TranscriptionSetup::NotConfigured,
        Some(model_path) => {
            if !model_exists {
                return TranscriptionSetup::ModelMissing(model_path);
            }
            let threads: i32 = match threads {
                Some(raw) => match parse_i32(raw.as_str()) {
                    Some(threads) => if threads > 0 {
                        threads
                    } else {
                        4
                    },
                    None => 4,
                },
                None => 4,
            };
            TranscriptionSetup::Enabled(TranscriptionSettings { model_path, language, threads })
        },
    }
}

/// The texts of the segments that could be read, each followed by a space.
pub open spec fn spoken(segments: Seq<Option<String>>) -> Seq<char>
    decreases segments.len(),
{
    if segments.len() == 0 {
        Seq::empty()
    } else {
        match segments.last() {
            Some(segment) => spoken(segments.drop_last()) + segment@ + seq![' '],
            None => spoken(segments.drop_last()),
        }
    }
}

/// The words of two lists of segments, one behind the other, are the words of the first and then
/// those of the second.
pub proof fn law_words_keep_their_places(a: Seq<Option<String>>, b: Seq<Option<String>>)
    ensures
        spoken(a + b) == spoken(a) + spoken(b),
    decreases b.len(),
{
    if b.len() == 0 {
        assert(a + b =~= a);
        assert(spoken(a) + spoken(b) =~= spoken(a));
    } else {
        law_words_keep_their_places(a, b.drop_last());
        assert((a + b).drop_last() =~= a + b.drop_last());
        assert((a + b).last() == b.last());
        assert(spoken(a + b) =~= spoken(a) + spoken(b));
    }
}

/// The words of a segment that could be read are its text and a space; those of one that could not
/// be read, and those of no segment, are nothing.
pub proof fn law_one_segment_is_heard_whole(segment: String)
    ensures
        spoken(seq![Some(segment)]) == segment@ + seq![' '],
        spoken(seq![None::<String>]) == Seq::<char>::empty(),
        spoken(Seq::empty()) == Seq::<char>::empty(),
{
    let one = seq![Some(segment)];
    let none = seq![None::<String>];
    assert(one.drop_last() =~= Seq::<Option<String>>::empty());
    assert(none.drop_last() =~= Seq::<Option<String>>::empty());
    assert(spoken(one.drop_last()) =~= Seq::<char>::empty());
    assert(spoken(none.drop_last()) =~= Seq::<char>::empty());
    assert(one.last() == Some(segment));
    assert(none.last() is None);
    assert(spoken(one) =~= segment@ + seq![' ']);
}

/// The text of every segment that could be read stands among the words, at whatever place the
/// segment has.
pub proof fn law_every_segment_is_heard(segments: Seq<Option<String>>, i: int)
    requires
        0 <= i < segments.len(),
        segments[i] is Some,
    ensures
        spoken(segments) == spoken(segments.take(i)) + segments[i]->0@ + seq![' '] + spoken(
            segments.skip(i + 1),
        ),
{
    let segment = segments[i]->0;
    let front = segments.take(i);
    let back = segments.skip(i + 1);
    assert(segments =~= front + seq![Some(segment)] + back);
    law_words_keep_their_places(front + seq![Some(segment)], back);
    law_words_keep_their_places(front, seq![Some(segment)]);
    law_one_segment_is_heard_whole(segment);
    assert(spoken(front) + (segment@ + seq![' ']) + spoken(back) =~= spoken(front) + segment@ + seq![
        ' ',
    ] + spoken(back));
}

/// The transcript that the segments of a chunk make; nothing, if they hold no words. A segment
/// that could not be read is left out.
pub fn assemble_transcript(segments: &Vec<Option<String>>) -> (r: Option<String>)
    ensures
        match r {
            Some(transcript) => transcript@ == text::trimmed(spoken(segments@)) && transcript@.len()
                > 0,
            None => text::trimmed(spoken(segments@)).len() == 0,
        },
{
    let mut transcript = String::new();
    let mut i: usize = 0;
    assert(segments@.take(0) =~= Seq::empty());
    while i < segments.len()
        invariant
            i <= segments@.len(),
            transcript@ == spoken(segments@.take(i as int)),
        decreases segments@.len() - i,
    {
        proof {
            reveal_strlit(" ");
            assert(segments@.take(i + 1).drop_last() =~= segments@.take(i as int));
            assert(segments@.take(i + 1).last() == segments@[i as int]);
            assert(" "@ =~= seq![' ']);
        }
        match &segments[i] {
            Some(segment) => {
                transcript.append(segment.as_str());
                transcript.append(" ");
            },
            None => {},
        }
        i = i + 1;
    }
    assert(segments@.take(segments@.len() as int) =~= segments@);
    let trimmed = trim(transcript.as_str());
    if trimmed.is_empty() {
        None
    } else {
        Some(trimmed.to_owned())
    }
}

/// The words of a chunk, and whose they are.
#[derive(Debug)]
pub struct Transcript {
    pub identity: TranscriptIdentity,
    pub chunk_index: u64,
    pub text: String,
}

/// The transcript of a chunk, from the segments that were heard in it; `segments` is missing where
/// the chunk could not be transcribed. A chunk without words has no transcript.
pub fn transcript_of(job: &TranscriptJob, segments: Option<Vec<Option<String>>>) -> (r: Option<
    Transcript,
>)
    ensures
        r is Some <==> (segments matches Some(heard) && text::trimmed(spoken(heard@)).len() > 0),
        r matches Some(transcript) ==> {
            &&& transcript.identity == job.identity
            &&& transcript.chunk_index == job.chunk_index
            &&& transcript.text@ == text::trimmed(spoken(segments->0@))
        },
{
    match segments {
        Some(heard) => match assemble_transcript(&heard) {
            Some(text) => Some(
                Transcript { identity: job.identity.clone(), chunk_index: job.chunk_index, text },
            ),
            None => None,
        },
        None => None,
    }
}

/// Why a producer is not transcribed.
#[derive(Debug, Clone, Copy, PartialEq, Eq, Structural)]
pub enum SkipReason {
    TranscriptionDisabled,
    NotAudio,
    OpusCodecNotFound,
    RouterCannotConsume,
    ConsumerNotCreated,
    DecoderNotCreated,
}

/// What is to be done about transcribing a producer.
#[derive(Debug)]
pub enum TranscriptionPlan {
    Skip(SkipReason),
    /// Go through the stages, from [`TranscriptionStage::AskRouter`] on.
    Try { opus_channels: u16, rtp_capabilities: RtpCapabilities },
}

/// Why a producer is not transcribed whatever its codecs are: transcription is off, or the producer
/// is no audio track.
pub fn skip_outright(enabled: bool, kind: MediaKind) -> (r: Option<SkipReason>)
    ensures
        r == if !enabled {
            Some(SkipReason::TranscriptionDisabled)
        } else if kind != MediaKind::Audio {
            Some(SkipReason::NotAudio)
        } else {
            None
        },
{
    if !enabled {
        return Some(SkipReason::TranscriptionDisabled);
    }
    match kind {
        MediaKind::Video => Some(SkipReason::NotAudio),
        MediaKind::Audio => None,
    }
}

/// Decides whether a producer can be transcribed: transcription must be on, and the producer an
/// audio track with an Opus codec. `rtp_parameters` is how it is sent, `consumable` how the router
/// hands it on.
pub fn plan_transcription(
    enabled: bool,
    kind: MediaKind,
    rtp_parameters: &RtpParameters,
    consumable: &RtpParameters,
) -> (r: TranscriptionPlan)
    ensures
        if !enabled {
            r == TranscriptionPlan::Skip(SkipReason::TranscriptionDisabled)
        } else if kind != MediaKind::Audio {
            r == TranscriptionPlan::Skip(SkipReason::NotAudio)
        } else {
            match rtp::first_opus_channels(rtp_parameters.codecs@) {
                None => r == TranscriptionPlan::Skip(SkipReason::OpusCodecNotFound),
                Some(channels) => {
                    &&& r matches TranscriptionPlan::Try { opus_channels, rtp_capabilities }
                    &&& opus_channels == channels
                    &&& rtp::opus_is_audible(rtp_parameters.codecs@) ==> opus_channels > 0
                    &&& rtp::takes_in(rtp_capabilities, kind, *consumable)
                },
            }
        },
{
    match skip_outright(enabled, kind) {
        Some(reason) => TranscriptionPlan::Skip(reason),
        None => match opus_channel_count(rtp_parameters) {
            None => TranscriptionPlan::Skip(SkipReason::OpusCodecNotFound),
            Some(opus_channels) => TranscriptionPlan::Try {
                opus_channels,
                rtp_capabilities: rtp_capabilities_from_producer(kind, consumable),
            },
        },
    }
}

/// How far the start of a transcription has come: what is to be tried next, or how it ended.
#[derive(Debug, Clone, Copy, PartialEq, Eq, Structural)]
pub enum TranscriptionStage {
    /// Ask whether the router can consume the producer.
    AskRouter,
    /// Create a consumer that hands the packets over.
    CreateConsumer,
    /// Create a decoder for the packets.
    CreateDecoder,
    /// The producer is being transcribed.
    Running,
    /// The producer is not transcribed.
    Skipped(SkipReason),
}

/// The stage that follows, when what a stage asks for has succeeded or failed.
pub open spec fn next_stage(stage: TranscriptionStage, succeeded: bool) -> TranscriptionStage {
    match stage {
        TranscriptionStage::AskRouter => if succeeded {
            TranscriptionStage::CreateConsumer
        } else {
            TranscriptionStage::Skipped(SkipReason::RouterCannotConsume)
        },
        TranscriptionStage::CreateConsumer => if succeeded {
            TranscriptionStage::CreateDecoder
        } else {
            TranscriptionStage::Skipped(SkipReason::ConsumerNotCreated)
        },
        TranscriptionStage::CreateDecoder => if succeeded {
            TranscriptionStage::Running
        } else {
            TranscriptionStage::Skipped(SkipReason::DecoderNotCreated)
        },
        TranscriptionStage::Running => TranscriptionStage::Running,
        TranscriptionStage::Skipped(reason) => TranscriptionStage::Skipped(reason),
    }
}

impl TranscriptionStage {
    /// The stage that follows.
    pub fn advance(self, succeeded: bool) -> (r: Self)
        ensures
            r == next_stage(self, succeeded),
    {
        match self {
            TranscriptionStage::AskRouter => if succeeded {
                TranscriptionStage::CreateConsumer
            } else {
                TranscriptionStage::Skipped(SkipReason::RouterCannotConsume)
            },
            TranscriptionStage::CreateConsumer => if succeeded {
                TranscriptionStage::CreateDecoder
            } else {
                TranscriptionStage::Skipped(SkipReason::ConsumerNotCreated)
            },
            TranscriptionStage::CreateDecoder => if succeeded {
                TranscriptionStage::Running
            } else {
                TranscriptionStage::Skipped(SkipReason::DecoderNotCreated)
            },
            TranscriptionStage::Running => TranscriptionStage::Running,
            TranscriptionStage::Skipped(reason) => TranscriptionStage::Skipped(reason),
        }
    }
}

/// A transcription runs exactly if router, consumer and decoder all play along.
pub proof fn law_transcription_needs_every_stage(router: bool, consumer: bool, decoder: bool)
    ensures
        next_stage(
            next_stage(next_stage(TranscriptionStage::AskRouter, router), consumer),
            decoder,
        ) == TranscriptionStage::Running <==> router && consumer && decoder,
{
}

/// Where a transcription does not come to run, the reason is the first stage that failed; one that
/// runs goes on, and one that was given up is not taken up again.
pub proof fn law_first_failure_is_the_reason(later: bool, last: bool, reason: SkipReason)
    ensures
        next_stage(next_stage(next_stage(TranscriptionStage::AskRouter, false), later), last)
            == TranscriptionStage::Skipped(SkipReason::RouterCannotConsume),
        next_stage(next_stage(next_stage(TranscriptionStage::AskRouter, true), false), last)
            == TranscriptionStage::Skipped(SkipReason::ConsumerNotCreated),
        next_stage(next_stage(next_stage(TranscriptionStage::AskRouter, true), true), false)
            == TranscriptionStage::Skipped(SkipReason::DecoderNotCreated),
        next_stage(TranscriptionStage::AskRouter, true) == TranscriptionStage::CreateConsumer,
        next_stage(TranscriptionStage::CreateConsumer, true) == TranscriptionStage::CreateDecoder,
        next_stage(TranscriptionStage::Running, last) == TranscriptionStage::Running,
        next_stage(TranscriptionStage::Skipped(reason), last) == TranscriptionStage::Skipped(reason),
{
}

/// A track stays sound whatever it hears, and every frame either leaves its chunk short of the
/// limit or ends it.
pub proof fn law_frames_keep_the_track_sound(track: TrackModel, frame: Seq<i32>, voiced: bool)
    requires
        is_track(track),
    ensures
        is_track(after_frame(track, frame, voiced)),
{
}

/// What a frame submits holds at least 250 ms of speech, is at least 800 ms long, and exceeds 12 s
/// by less than that frame.
pub proof fn law_submitted_chunks_are_worthwhile(
    track: TrackModel,
    frame: Seq<i32>,
    voiced: bool,
)
    requires
        is_track(track),
        frame_submits(track, frame, voiced),
    ensures
        with_frame(track, frame, voiced).voiced >= MIN_VOICED_SAMPLES,
        (track.chunk + frame).len() >= MIN_CHUNK_SAMPLES,
        (track.chunk + frame).len() < MAX_CHUNK_SAMPLES + frame.len(),
{
}

/// Chunks are numbered one after the other: the number goes up by one with each chunk that is
/// submitted, and only then.
pub proof fn law_chunks_are_numbered_in_turn(track: TrackModel, frame: Seq<i32>, voiced: bool)
    requires
        track.chunk_index < u64::MAX,
    ensures
        after_frame(track, frame, voiced).chunk_index == if frame_submits(track, frame, voiced) {
            track.chunk_index + 1
        } else {
            track.chunk_index as int
        },
        after_chunk(track, is_worthwhile(track, true)).chunk_index == if is_worthwhile(track, true) {
            track.chunk_index + 1
        } else {
            track.chunk_index as int
        },
{
}

/// A frame of audio at 16 kHz, and whether it holds speech.
pub struct Frame {
    pub samples: Seq<i32>,
    pub voiced: bool,
}

/// The track after a run of frames.
pub open spec fn after_run(track: TrackModel, run: Seq<Frame>) -> TrackModel
    decreases run.len(),
{
    if run.len() == 0 {
        track
    } else {
        after_frame(after_run(track, run.drop_last()), run.last().samples, run.last().voiced)
    }
}

/// The chunks that a run of frames submits, in turn.
pub open spec fn submitted_by(track: TrackModel, run: Seq<Frame>) -> Seq<Seq<i32>>
    decreases run.len(),
{
    if run.len() == 0 {
        Seq::empty()
    } else {
        let before = after_run(track, run.drop_last());
        let earlier = submitted_by(track, run.drop_last());
        if frame_submits(before, run.last().samples, run.last().voiced) {
            earlier.push(before.chunk + run.last().samples)
        } else {
            earlier
        }
    }
}

/// All the audio of a list of pieces, one after the other.
pub open spec fn joined(pieces: Seq<Seq<i32>>) -> Seq<i32>
    decreases pieces.len(),
{
    if pieces.len() == 0 {
        Seq::empty()
    } else {
        joined(pieces.drop_last()) + pieces.last()
    }
}

/// The audio of a run of frames.
pub open spec fn audio_of(run: Seq<Frame>) -> Seq<i32> {
    joined(run.map_values(|frame: Frame| frame.samples))
}

/// `part` is what is left of `whole` when some of its samples are taken out.
pub open spec fn is_subsequence(part: Seq<i32>, whole: Seq<i32>) -> bool
    decreases whole.len(),
{
    if whole.len() == 0 {
        part.len() == 0
    } else {
        ||| is_subsequence(part, whole.drop_last())
        ||| part.len() > 0 && part.last() == whole.last() && is_subsequence(
            part.drop_last(),
            whole.drop_last(),
        )
    }
}

proof fn lemma_subsequence_longer(part: Seq<i32>, whole: Seq<i32>, more: Seq<i32>)
    requires
        is_subsequence(part, whole),
    ensures
        is_subsequence(part, whole + more),
        is_subsequence(part + more, whole + more),
    decreases more.len(),
{
    if more.len() == 0 {
        assert(whole + more =~= whole);
        assert(part + more =~= part);
    } else {
        lemma_subsequence_longer(part, whole, more.drop_last());
        assert((whole + more).drop_last() =~= whole + more.drop_last());
        assert((part + more).drop_last() =~= part + more.drop_last());
    }
}

proof fn lemma_subsequence_shorter(part: Seq<i32>, dropped: Seq<i32>, whole: Seq<i32>)
    requires
        is_subsequence(part + dropped, whole),
    ensures
        is_subsequence(part, whole),
    decreases whole.len(),
{
    if whole.len() == 0 {
        assert(part + dropped =~= Seq::empty());
    } else if dropped.len() == 0 {
        assert(part + dropped =~= part);
    } else if is_subsequence(part + dropped, whole.drop_last()) {
        lemma_subsequence_shorter(part, dropped, whole.drop_last());
    } else {
        assert((part + dropped).drop_last() =~= part + dropped.drop_last());
        lemma_subsequence_shorter(part, dropped.drop_last(), whole.drop_last());
    }
}

/// Whatever a track hears, the chunks that it submits, one after the other, and the chunk at hand
/// behind them, are what it has heard with some of it left out: nothing is made up, nothing comes
/// twice, and nothing changes places.
pub proof fn law_chunks_are_what_was_heard(track: TrackModel, run: Seq<Frame>)
    requires
        track.chunk.len() == 0,
    ensures
        is_subsequence(
            joined(submitted_by(track, run)) + after_run(track, run).chunk,
            audio_of(run),
        ),
    decreases run.len(),
{
    if run.len() == 0 {
        assert(joined(submitted_by(track, run)) + after_run(track, run).chunk =~= Seq::<
            i32,
        >::empty());
        assert(run.map_values(|frame: Frame| frame.samples) =~= Seq::<Seq<i32>>::empty());
    } else {
        let front = run.drop_last();
        let samples = run.last().samples;
        let voiced = run.last().voiced;
        let before = after_run(track, front);
        let earlier = joined(submitted_by(track, front));
        law_chunks_are_what_was_heard(track, front);
        assert(run.map_values(|frame: Frame| frame.samples).drop_last() =~= front.map_values(
            |frame: Frame| frame.samples,
        ));
        assert(audio_of(run) == audio_of(front) + samples);
        lemma_subsequence_longer(earlier + before.chunk, audio_of(front), samples);
        assert((earlier + before.chunk) + samples =~= earlier + (before.chunk + samples));
        let longer = with_frame(before, samples, voiced);
        if !is_ignored(before, samples, voiced) && is_complete(longer) {
            if is_worthwhile(longer, false) {
                let now = submitted_by(track, run);
                assert(now.drop_last() =~= submitted_by(track, front));
                assert(joined(now) + after_run(track, run).chunk =~= earlier + longer.chunk);
            } else {
                lemma_subsequence_shorter(earlier, longer.chunk, audio_of(run));
                assert(earlier + after_run(track, run).chunk =~= earlier);
            }
        }
    }
}

/// A run of frames as one chunk; empty frames add nothing.
pub open spec fn collected(run: Seq<Frame>) -> TrackModel
    decreases run.len(),
{
    if run.len() == 0 {
        silent_track(0)
    } else if run.last().samples.len() == 0 {
        collected(run.drop_last())
    } else {
        with_frame(collected(run.drop_last()), run.last().samples, run.last().voiced)
    }
}

/// The frames of a run from `start` up to `end`.
pub struct Span {
    pub start: int,
    pub end: int,
}

/// The frame holds speech.
pub open spec fn is_speech(frame: Frame) -> bool {
    frame.voiced && frame.samples.len() > 0
}

/// The frames of the span, from `start` up to `end`, start with speech, and the last of them is
/// the first to complete a chunk.
pub open spec fn is_cut(run: Seq<Frame>, span: Span) -> bool {
    &&& 0 <= span.start < span.end <= run.len()
    &&& is_speech(run[span.start])
    &&& is_complete(collected(run.subrange(span.start, span.end)))
    &&& forall|m: int|
        span.start < m < span.end ==> !is_complete(
            collected(#[trigger] run.subrange(span.start, m)),
        )
}

/// The frame `k` is in one of the spans.
pub open spec fn is_covered(spans: Seq<Span>, k: int) -> bool {
    exists|i: int| 0 <= i < spans.len() && (#[trigger] spans[i]).start <= k < spans[i].end
}

/// A run of frames falls into the chunks `cuts`, one behind the other, and a chunk that is still
/// open, from the frame `open` on; no frame with speech is left out.
pub open spec fn falls_into(run: Seq<Frame>, cuts: Seq<Span>, open: int) -> bool {
    &&& 0 <= open <= run.len()
    &&& forall|i: int| 0 <= i < cuts.len() ==> is_cut(run, #[trigger] cuts[i]) && cuts[i].end <= open
    &&& forall|i: int, j: int|
        0 <= i < j < cuts.len() ==> (#[trigger] cuts[i]).end <= (#[trigger] cuts[j]).start
    &&& forall|k: int|
        0 <= k < open && is_speech(#[trigger] run[k]) ==> is_covered(cuts, k)
    &&& open < run.len() ==> is_speech(run[open])
    &&& forall|m: int|
        open < m <= run.len() ==> !is_complete(collected(#[trigger] run.subrange(open, m)))
}

/// The audio of those of the chunks that are worth transcribing, in turn.
pub open spec fn worthwhile_audio(run: Seq<Frame>, cuts: Seq<Span>) -> Seq<Seq<i32>>
    decreases cuts.len(),
{
    if cuts.len() == 0 {
        Seq::empty()
    } else {
        let piece = run.subrange(cuts.last().start, cuts.last().end);
        let earlier = worthwhile_audio(run, cuts.drop_last());
        if is_worthwhile(collected(piece), false) {
            earlier.push(audio_of(piece))
        } else {
            earlier
        }
    }
}

proof fn lemma_collected_audio(run: Seq<Frame>)
    ensures
        collected(run).chunk == audio_of(run),
    decreases run.len(),
{
    let pieces = run.map_values(|frame: Frame| frame.samples);
    if run.len() == 0 {
        assert(pieces =~= Seq::<Seq<i32>>::empty());
    } else {
        lemma_collected_audio(run.drop_last());
        assert(pieces.drop_last() =~= run.drop_last().map_values(|frame: Frame| frame.samples));
        assert(pieces.last() == run.last().samples);
        if run.last().samples.len() == 0 {
            assert(joined(pieces.drop_last()) + pieces.last() =~= joined(pieces.drop_last()));
        }
    }
}

proof fn lemma_speech_is_collected(run: Seq<Frame>)
    requires
        run.len() > 0,
        is_speech(run[0]),
    ensures
        collected(run).chunk.len() > 0,
    decreases run.len(),
{
    if run.len() > 1 {
        lemma_speech_is_collected(run.drop_last());
    }
}

proof fn lemma_cut_of_longer_run(run: Seq<Frame>, span: Span, frame: Frame)
    requires
        is_cut(run, span),
    ensures
        is_cut(run.push(frame), span),
{
    let longer = run.push(frame);
    assert(longer.subrange(span.start, span.end) =~= run.subrange(span.start, span.end));
    assert forall|m: int| span.start < m < span.end implies !is_complete(
        collected(#[trigger] longer.subrange(span.start, m)),
    ) by {
        assert(longer.subrange(span.start, m) =~= run.subrange(span.start, m));
    }
}

proof fn lemma_worthwhile_audio_of_longer_run(run: Seq<Frame>, cuts: Seq<Span>, frame: Frame)
    requires
        forall|i: int| 0 <= i < cuts.len() ==> is_cut(run, #[trigger] cuts[i]),
    ensures
        worthwhile_audio(run.push(frame), cuts) == worthwhile_audio(run, cuts),
    decreases cuts.len(),
{
    if cuts.len() > 0 {
        let last = cuts.last();
        assert(is_cut(run, cuts[cuts.len() - 1]));
        assert(run.push(frame).subrange(last.start, last.end) =~= run.subrange(
            last.start,
            last.end,
        ));
        lemma_worthwhile_audio_of_longer_run(run, cuts.drop_last(), frame);
    }
}

/// One more frame behind a run that falls into chunks: where the chunk at hand stands open.
proof fn lemma_frame_behind_run(run: Seq<Frame>, cuts: Seq<Span>, open: int, frame: Frame)
    requires
        falls_into(run, cuts, open),
    ensures
        ({
            let longer = run.push(frame);
            let before = collected(run.subrange(open, run.len() as int));
            let now = collected(longer.subrange(open, longer.len() as int));
            &&& before.chunk.len() == 0 <==> open == run.len()
            &&& now == if frame.samples.len() == 0 {
                before
            } else {
                with_frame(before, frame.samples, frame.voiced)
            }
            &&& forall|i: int| 0 <= i < cuts.len() ==> is_cut(longer, #[trigger] cuts[i])
            &&& forall|m: int|
                open < m <= run.len() ==> !is_complete(
                    collected(#[trigger] longer.subrange(open, m)),
                )
            &&& worthwhile_audio(longer, cuts) == worthwhile_audio(run, cuts)
        }),
{
    let longer = run.push(frame);
    let piece = run.subrange(open, run.len() as int);
    let grown = longer.subrange(open, longer.len() as int);
    assert(grown.drop_last() =~= piece);
    assert(grown.last() == frame);
    if open < run.len() {
        assert(piece[0] == run[open]);
        lemma_speech_is_collected(piece);
    }
    assert forall|i: int| 0 <= i < cuts.len() implies is_cut(longer, #[trigger] cuts[i]) by {
        lemma_cut_of_longer_run(run, cuts[i], frame);
    }
    assert forall|m: int| open < m <= run.len() implies !is_complete(
        collected(#[trigger] longer.subrange(open, m)),
    ) by {
        assert(longer.subrange(open, m) =~= run.subrange(open, m));
    }
    lemma_worthwhile_audio_of_longer_run(run, cuts, frame);
}

/// A frame that is passed over before any speech: the next chunk can only start behind it.
proof fn lemma_frame_before_speech(run: Seq<Frame>, cuts: Seq<Span>, frame: Frame)
    requires
        falls_into(run, cuts, run.len() as int),
        !is_speech(frame),
    ensures
        falls_into(run.push(frame), cuts, run.len() + 1int),
{
    let longer = run.push(frame);
    lemma_frame_behind_run(run, cuts, run.len() as int, frame);
    assert forall|k: int| 0 <= k < longer.len() && is_speech(#[trigger] longer[k]) implies is_covered(
        cuts,
        k,
    ) by {
        assert(is_speech(run[k]));
    }
}

/// A frame that leaves the chunk at hand open.
proof fn lemma_frame_in_chunk(run: Seq<Frame>, cuts: Seq<Span>, open: int, frame: Frame)
    requires
        falls_into(run, cuts, open),
        open < run.len() || is_speech(frame),
        !is_complete(collected(run.push(frame).subrange(open, run.len() + 1int))),
    ensures
        falls_into(run.push(frame), cuts, open),
{
    let longer = run.push(frame);
    lemma_frame_behind_run(run, cuts, open, frame);
    assert forall|k: int| 0 <= k < open && is_speech(#[trigger] longer[k]) implies is_covered(
        cuts,
        k,
    ) by {
        assert(is_speech(run[k]));
    }
    assert forall|m: int| open < m <= longer.len() implies !is_complete(
        collected(#[trigger] longer.subrange(open, m)),
    ) by {
        if m <= run.len() {
            assert(!is_complete(collected(longer.subrange(open, m))));
        }
    }
}

proof fn lemma_covered_by_more(spans: Seq<Span>, added: Span, k: int)
    requires
        is_covered(spans, k),
    ensures
        is_covered(spans.push(added), k),
{
    let i = choose|i: int| 0 <= i < spans.len() && (#[trigger] spans[i]).start <= k < spans[i].end;
    assert(spans.push(added)[i] == spans[i]);
}

/// A frame that completes the chunk at hand.
proof fn lemma_frame_at_cut(run: Seq<Frame>, cuts: Seq<Span>, open: int, frame: Frame)
    requires
        falls_into(run, cuts, open),
        open < run.len() || is_speech(frame),
        is_complete(collected(run.push(frame).subrange(open, run.len() + 1int))),
    ensures
        falls_into(
            run.push(frame),
            cuts.push(Span { start: open, end: run.len() + 1int }),
            run.len() + 1int,
        ),
        worthwhile_audio(run.push(frame), cuts.push(Span { start: open, end: run.len() + 1int }))
            == ({
            let here = run.push(frame).subrange(open, run.len() + 1int);
            if is_worthwhile(collected(here), false) {
                worthwhile_audio(run, cuts).push(audio_of(here))
            } else {
                worthwhile_audio(run, cuts)
            }
        }),
{
    let longer = run.push(frame);
    let cut = Span { start: open, end: run.len() + 1int };
    let more = cuts.push(cut);
    lemma_frame_behind_run(run, cuts, open, frame);
    assert(is_cut(longer, cut));
    assert(more.drop_last() =~= cuts);
    assert(more.last() == cut);
    assert forall|i: int| 0 <= i < more.len() implies is_cut(longer, #[trigger] more[i])
        && more[i].end <= longer.len() by {
        if i < cuts.len() {
            assert(is_cut(longer, cuts[i]));
        }
    }
    assert forall|i: int, j: int| 0 <= i < j < more.len() implies (#[trigger] more[i]).end <= (
    #[trigger] more[j]).start by {
        assert(more[i] == cuts[i]);
        if j < cuts.len() {
            assert(more[j] == cuts[j]);
        }
    }
    assert forall|k: int| 0 <= k < longer.len() && is_speech(#[trigger] longer[k]) implies is_covered(
        more,
        k,
    ) by {
        if k < open {
            assert(is_speech(run[k]));
            lemma_covered_by_more(cuts, cut, k);
        } else {
            assert(more[cuts.len() as int] == cut);
        }
    }
}

/// A new track that has heard a run of frames has submitted those of the chunks `cuts` that are
/// worth it, whole and in turn, and holds what the frames from `open` on make.
pub open spec fn has_cut(chunk_index: u64, run: Seq<Frame>, cuts: Seq<Span>, open: int) -> bool {
    let track = silent_track(chunk_index);
    &&& submitted_by(track, run) == worthwhile_audio(run, cuts)
    &&& after_run(track, run) == (TrackModel {
        chunk_index: after_run(track, run).chunk_index,
        ..collected(run.subrange(open, run.len() as int))
    })
}

/// Whatever a new track hears falls into chunks that are unbroken runs of frames: each starts with
/// a frame of speech and ends with the first frame that completes it, and no speech is left out.
/// Those that are worth transcribing are submitted, whole and in turn; the chunk at hand is what
/// was heard since the last cut, from the first speech on.
pub proof fn law_chunks_are_unbroken(chunk_index: u64, run: Seq<Frame>)
    ensures
        exists|cuts: Seq<Span>, open: int| #[trigger]
            falls_into(run, cuts, open) && has_cut(chunk_index, run, cuts, open),
    decreases run.len(),
{
    let track = silent_track(chunk_index);
    if run.len() == 0 {
        assert(run.subrange(0, 0) =~= Seq::<Frame>::empty());
        assert(falls_into(run, Seq::<Span>::empty(), 0));
    } else {
        let front = run.drop_last();
        let frame = run.last();
        let n = front.len() as int;
        assert(run =~= front.push(frame));
        law_chunks_are_unbroken(chunk_index, front);
        let (cuts, open) = choose|cuts: Seq<Span>, open: int| #[trigger]
            falls_into(front, cuts, open) && has_cut(chunk_index, front, cuts, open);
        lemma_frame_behind_run(front, cuts, open, frame);
        let before = after_run(track, front);
        let here = run.subrange(open, n + 1);
        if open == n && !is_speech(frame) {
            lemma_frame_before_speech(front, cuts, frame);
            assert(run.subrange(n + 1, n + 1) =~= front.subrange(n, n));
            assert(has_cut(chunk_index, run, cuts, n + 1));
        } else if !is_complete(collected(here)) {
            lemma_frame_in_chunk(front, cuts, open, frame);
            assert(has_cut(chunk_index, run, cuts, open));
        } else {
            let more = cuts.push(Span { start: open, end: n + 1 });
            lemma_frame_at_cut(front, cuts, open, frame);
            lemma_collected_audio(here);
            if frame.samples.len() == 0 {
                assert(front.subrange(open, n) =~= run.subrange(open, n));
            }
            assert(run.subrange(n + 1, n + 1) =~= Seq::<Frame>::empty());
            assert(has_cut(chunk_index, run, more, n + 1));
        }
    }
}

/// A run of frames as one chunk holds all their audio, in its order.
pub proof fn law_chunks_hold_all_audio(run: Seq<Frame>)
    ensures
        collected(run).chunk == audio_of(run),
{
    lemma_collected_audio(run);
}

/// The frames that are voiced.
pub open spec fn voiced_frames(run: Seq<Frame>) -> Seq<Frame> {
    run.filter(|frame: Frame| frame.voiced)
}

/// The speech of a chunk is the audio of its voiced frames.
pub proof fn law_speech_is_counted(run: Seq<Frame>)
    ensures
        collected(run).voiced == audio_of(voiced_frames(run)).len(),
    decreases run.len(),
{
    reveal(Seq::filter);
    if run.len() == 0 {
        assert(voiced_frames(run) =~= run);
        lemma_collected_audio(run);
    } else {
        let front = run.drop_last();
        let frame = run.last();
        law_speech_is_counted(front);
        if frame.voiced {
            assert(voiced_frames(run) =~= voiced_frames(front).push(frame));
            let pieces = voiced_frames(run).map_values(|frame: Frame| frame.samples);
            assert(pieces.drop_last() =~= voiced_frames(front).map_values(
                |frame: Frame| frame.samples,
            ));
            assert(pieces.last() == frame.samples);
            assert(audio_of(voiced_frames(run)) == audio_of(voiced_frames(front)) + frame.samples);
        } else {
            assert(voiced_frames(run) =~= voiced_frames(front));
        }
    }
}

/// The silence at the end of a chunk is the audio of the frames behind its last speech: speech
/// starts the count anew, and pauses do not add up.
pub proof fn law_pauses_do_not_add_up(head: Seq<Frame>, tail: Seq<Frame>)
    requires
        head.len() > 0,
        is_speech(head.last()),
        forall|i: int| 0 <= i < tail.len() ==> !is_speech(#[trigger] tail[i]),
    ensures
        collected(head + tail).trailing_silence == audio_of(tail).len(),
    decreases tail.len(),
{
    if tail.len() == 0 {
        assert(head + tail =~= head);
        lemma_collected_audio(tail);
    } else {
        let front = tail.drop_last();
        let frame = tail.last();
        assert(!is_speech(tail[tail.len() - 1]));
        assert forall|i: int| 0 <= i < front.len() implies !is_speech(#[trigger] front[i]) by {
            assert(!is_speech(tail[i]));
        }
        law_pauses_do_not_add_up(head, front);
        assert((head + tail).drop_last() =~= head + front);
        assert((head + tail).last() == frame);
        let pieces = tail.map_values(|frame: Frame| frame.samples);
        assert(pieces.drop_last() =~= front.map_values(|frame: Frame| frame.samples));
        assert(pieces.last() == frame.samples);
        assert(audio_of(tail) == audio_of(front) + frame.samples);
    }
}

/// A chunk has come to its end exactly if it is 12 s long, or it is 800 ms long and what stands
/// behind its last speech is 650 ms long.
pub proof fn law_chunks_end_in_a_pause(head: Seq<Frame>, tail: Seq<Frame>)
    requires
        head.len() > 0,
        is_speech(head.last()),
        forall|i: int| 0 <= i < tail.len() ==> !is_speech(#[trigger] tail[i]),
    ensures
        is_complete(collected(head + tail)) <==> audio_of(head + tail).len() >= 192_000 || (
        audio_of(head + tail).len() >= 12_800 && audio_of(tail).len() >= 10_400),
{
    law_pauses_do_not_add_up(head, tail);
    lemma_collected_audio(head + tail);
}

/// A chunk is worth transcribing exactly if its voiced frames are 250 ms long and, unless the track
/// has ended, the whole of it is 800 ms long.
pub proof fn law_chunks_need_speech(run: Seq<Frame>, forced: bool)
    ensures
        is_worthwhile(collected(run), forced) <==> audio_of(voiced_frames(run)).len() >= 4_000 && (
        forced || audio_of(run).len() >= 12_800),
{
    law_speech_is_counted(run);
    lemma_collected_audio(run);
    lemma_speech_is_within(run);
}

proof fn lemma_speech_is_within(run: Seq<Frame>)
    ensures
        0 <= collected(run).voiced <= collected(run).chunk.len(),
    decreases run.len(),
{
    if run.len() > 0 {
        lemma_speech_is_within(run.drop_last());
    }
}

/// Where a run of frames is cut, the chunk is 12 s long, or it is 800 ms long and 650 ms of audio
/// stand behind the last frame of speech in it.
pub proof fn law_cuts_fall_into_pauses(run: Seq<Frame>, span: Span)
    requires
        is_cut(run, span),
    ensures
        exists|k: int|
            #![trigger run[k]]
            span.start <= k < span.end && is_speech(run[k]) && (forall|j: int|
                k < j < span.end ==> !is_speech(#[trigger] run[j])) && (audio_of(
                run.subrange(span.start, span.end),
            ).len() >= 192_000 || (audio_of(run.subrange(span.start, span.end)).len() >= 12_800
                && audio_of(run.subrange(k + 1, span.end)).len() >= 10_400)),
{
    let k = last_speech(run, span.start, span.end);
    lemma_last_speech(run, span.start, span.end);
    let head = run.subrange(span.start, k + 1);
    let tail = run.subrange(k + 1, span.end);
    assert(head.last() == run[k]);
    assert forall|i: int| 0 <= i < tail.len() implies !is_speech(#[trigger] tail[i]) by {
        assert(tail[i] == run[k + 1 + i]);
    }
    law_chunks_end_in_a_pause(head, tail);
    assert(head + tail =~= run.subrange(span.start, span.end));
    assert(is_speech(run[k]));
}

/// The last frame of speech before `end`, if there is one from `start` on.
spec fn last_speech(run: Seq<Frame>, start: int, end: int) -> int
    decreases end - start,
{
    if end <= start + 1 || is_speech(run[end - 1]) {
        end - 1
    } else {
        last_speech(run, start, end - 1)
    }
}

proof fn lemma_last_speech(run: Seq<Frame>, start: int, end: int)
    requires
        0 <= start < end <= run.len(),
        is_speech(run[start]),
    ensures
        start <= last_speech(run, start, end) < end,
        is_speech(run[last_speech(run, start, end)]),
        forall|j: int| last_speech(run, start, end) < j < end ==> !is_speech(#[trigger] run[j]),
    decreases end - start,
{
    if end > start + 1 && !is_speech(run[end - 1]) {
        lemma_last_speech(run, start, end - 1);
    }
}

proof fn lemma_last_pause(run: Seq<Frame>, open: int) -> (k: int)
    requires
        0 <= open < run.len(),
        is_speech(run[open]),
    ensures
        open <= k < run.len(),
        is_speech(run[k]),
        forall|j: int| k < j < run.len() ==> !is_speech(#[trigger] run[j]),
        collected(run.subrange(open, run.len() as int)).trailing_silence == audio_of(
            run.subrange(k + 1, run.len() as int),
        ).len(),
{
    let end = run.len() as int;
    let k = last_speech(run, open, end);
    lemma_last_speech(run, open, end);
    let head = run.subrange(open, k + 1);
    let tail = run.subrange(k + 1, end);
    assert(head.last() == run[k]);
    assert forall|i: int| 0 <= i < tail.len() implies !is_speech(#[trigger] tail[i]) by {
        assert(tail[i] == run[k + 1 + i]);
    }
    law_pauses_do_not_add_up(head, tail);
    assert(head + tail =~= run.subrange(open, end));
    k
}

proof fn lemma_open_chunk_starts_with_speech(chunk_index: u64, run: Seq<Frame>) -> (open: int)
    requires
        after_run(silent_track(chunk_index), run).chunk.len() > 0,
    ensures
        0 <= open < run.len(),
        is_speech(run[open]),
        after_run(silent_track(chunk_index), run).trailing_silence == collected(
            run.subrange(open, run.len() as int),
        ).trailing_silence,
{
    law_chunks_are_unbroken(chunk_index, run);
    let (cuts, open) = choose|cuts: Seq<Span>, open: int| #[trigger]
        falls_into(run, cuts, open) && has_cut(chunk_index, run, cuts, open);
    let end = run.len() as int;
    if open == end {
        assert(run.subrange(open, end) =~= Seq::<Frame>::empty());
        assert(collected(run.subrange(open, end)).chunk.len() == 0);
    }
    open
}

/// The silence at the end of a track's chunk is, after any run of frames, the audio behind the last
/// speech of the run: it is nothing right after speech, whatever pauses came before.
pub proof fn law_tracks_count_the_last_pause_only(chunk_index: u64, run: Seq<Frame>)
    requires
        after_run(silent_track(chunk_index), run).chunk.len() > 0,
    ensures
        exists|k: int|
            #![trigger run[k]]
            0 <= k < run.len() && is_speech(run[k]) && (forall|j: int|
                k < j < run.len() ==> !is_speech(#[trigger] run[j])) && after_run(
                silent_track(chunk_index),
                run,
            ).trailing_silence == audio_of(run.subrange(k + 1, run.len() as int)).len(),
{
    let open = lemma_open_chunk_starts_with_speech(chunk_index, run);
    let k = lemma_last_pause(run, open);
    assert(is_speech(run[k]));
}

/// A track that has heard a run of frames since it was last empty, without coming to an end of a
/// chunk, remembers exactly that run.
pub proof fn law_open_chunks_are_remembered(chunk_index: u64, run: Seq<Frame>)
    requires
        run.len() > 0,
        is_speech(run[0]),
        forall|m: int| 0 < m <= run.len() ==> !is_complete(collected(#[trigger] run.take(m))),
    ensures
        after_run(silent_track(chunk_index), run) == (TrackModel {
            chunk_index,
            ..collected(run)
        }),
        submitted_by(silent_track(chunk_index), run).len() == 0,
    decreases run.len(),
{
    let front = run.drop_last();
    let frame = run.last();
    assert(run.take(run.len() as int) =~= run);
    assert(!is_complete(collected(run.take(run.len() as int))));
    if run.len() == 1 {
        assert(front =~= Seq::<Frame>::empty());
        assert(frame == run[0]);
        assert(after_run(silent_track(chunk_index), front) == silent_track(chunk_index));
        assert(submitted_by(silent_track(chunk_index), front).len() == 0);
        assert(collected(front) == silent_track(0));
    } else {
        assert forall|m: int| 0 < m <= front.len() implies !is_complete(
            collected(#[trigger] front.take(m)),
        ) by {
            assert(front.take(m) =~= run.take(m));
        }
        assert(front[0] == run[0]);
        law_open_chunks_are_remembered(chunk_index, front);
        lemma_speech_is_collected(front);
    }
}

/// Over a run of frames the number of the next chunk goes up by the number of chunks that the run
/// submits, and each of these is at least 800 ms long.
pub proof fn law_runs_are_numbered_in_turn(track: TrackModel, run: Seq<Frame>)
    requires
        is_track(track),
        track.chunk_index + run.len() <= u64::MAX,
    ensures
        is_track(after_run(track, run)),
        submitted_by(track, run).len() <= run.len(),
        after_run(track, run).chunk_index == track.chunk_index + submitted_by(track, run).len(),
        forall|i: int|
            0 <= i < submitted_by(track, run).len() ==> (#[trigger] submitted_by(
                track,
                run,
            )[i]).len() >= MIN_CHUNK_SAMPLES,
    decreases run.len(),
{
    if run.len() > 0 {
        law_runs_are_numbered_in_turn(track, run.drop_last());
    }
}

/// A track that has ended has nothing left to submit.
pub proof fn law_finished_tracks_are_empty(track: TrackModel, submitted: bool)
    ensures
        is_track(after_chunk(track, submitted)),
        !is_worthwhile(after_chunk(track, submitted), true),
{
}

/// Silence before any speech is never kept.
pub proof fn law_leading_silence_is_dropped(track: TrackModel, frame: Seq<i32>)
    requires
        track.chunk.len() == 0,
    ensures
        after_frame(track, frame, false) == track,
        !frame_submits(track, frame, false),
{
}

} // verus!
