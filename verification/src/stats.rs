//! What is reported, every few seconds, of a producer's streams.

use vstd::prelude::*;

verus! {

/// How many seconds lie between two reports.
pub const PRODUCER_STATS_LOG_INTERVAL_SECONDS: u64 = 5;

/// The counters of one stream.
#[derive(Debug, Clone, Copy, PartialEq, Eq, Structural)]
pub struct StreamStats {
    pub packet_count: u64,
    pub byte_count: u64,
    pub bitrate: u32,
    pub packets_lost: u64,
}

/// The counters of all streams of a producer together.
#[derive(Debug, Clone, Copy, PartialEq, Eq, Structural)]
pub struct StreamTotals {
    pub stream_count: usize,
    pub packet_count: u64,
    pub byte_count: u64,
    pub bitrate_bps: u64,
    pub packets_lost: u64,
}

/// What is reported: the totals, and what has come since the report before.
#[derive(Debug, Clone, Copy, PartialEq, Eq, Structural)]
pub struct StatsReport {
    pub totals: StreamTotals,
    pub delta_packets: u64,
    pub delta_bytes: u64,
}

/// The sum of what `counter` reads off each stream.
pub open spec fn total_of(streams: Seq<StreamStats>, counter: spec_fn(StreamStats) -> int) -> int
    decreases streams.len(),
{
    if streams.len() == 0 {
        0
    } else {
        total_of(streams.drop_last(), counter) + counter(streams.last())
    }
}

/// All packets.
pub open spec fn total_packets(streams: Seq<StreamStats>) -> int {
    total_of(streams, |stream: StreamStats| stream.packet_count as int)
}

/// All bytes.
pub open spec fn total_bytes(streams: Seq<StreamStats>) -> int {
    total_of(streams, |stream: StreamStats| stream.byte_count as int)
}

/// All bits per second.
pub open spec fn total_bitrate(streams: Seq<StreamStats>) -> int {
    total_of(streams, |stream: StreamStats| stream.bitrate as int)
}

/// All packets that were lost.
pub open spec fn total_lost(streams: Seq<StreamStats>) -> int {
    total_of(streams, |stream: StreamStats| stream.packets_lost as int)
}

/// Every total fits its counter.
pub open spec fn totals_fit(streams: Seq<StreamStats>) -> bool {
    &&& total_packets(streams) <= u64::MAX
    &&& total_bytes(streams) <= u64::MAX
    &&& total_bitrate(streams) <= u64::MAX
    &&& total_lost(streams) <= u64::MAX
}

proof fn lemma_total_grows(
    streams: Seq<StreamStats>,
    counter: spec_fn(StreamStats) -> int,
    n: int,
)
    requires
        0 <= n <= streams.len(),
        forall|stream: StreamStats| #[trigger] counter(stream) >= 0,
    ensures
        0 <= total_of(streams.take(n), counter) <= total_of(streams, counter),
    decreases streams.len(),
{
    if n == streams.len() {
        assert(streams.take(n) =~= streams);
        if n > 0 {
            lemma_total_grows(streams.drop_last(), counter, n - 1);
            assert(streams.drop_last().take(n - 1) =~= streams.drop_last());
        }
    } else {
        lemma_total_grows(streams.drop_last(), counter, n);
        assert(streams.drop_last().take(n) =~= streams.take(n));
    }
}

proof fn lemma_totals_grow(streams: Seq<StreamStats>, n: int)
    requires
        0 <= n <= streams.len(),
    ensures
        0 <= total_packets(streams.take(n)) <= total_packets(streams),
        0 <= total_bytes(streams.take(n)) <= total_bytes(streams),
        0 <= total_bitrate(streams.take(n)) <= total_bitrate(streams),
        0 <= total_lost(streams.take(n)) <= total_lost(streams),
{
    lemma_total_grows(streams, |stream: StreamStats| stream.packet_count as int, n);
    lemma_total_grows(streams, |stream: StreamStats| stream.byte_count as int, n);
    lemma_total_grows(streams, |stream: StreamStats| stream.bitrate as int, n);
    lemma_total_grows(streams, |stream: StreamStats| stream.packets_lost as int, n);
}

proof fn lemma_total_step(streams: Seq<StreamStats>, n: int)
    requires
        0 <= n < streams.len(),
    ensures
        total_packets(streams.take(n + 1)) == total_packets(streams.take(n))
            + streams[n].packet_count,
        total_bytes(streams.take(n + 1)) == total_bytes(streams.take(n)) + streams[n].byte_count,
        total_bitrate(streams.take(n + 1)) == total_bitrate(streams.take(n)) + streams[n].bitrate,
        total_lost(streams.take(n + 1)) == total_lost(streams.take(n)) + streams[n].packets_lost,
{
    assert(streams.take(n + 1).drop_last() =~= streams.take(n));
    assert(streams.take(n + 1).last() == streams[n]);
}

impl StreamTotals {
    /// Adds the streams up. Nothing, if a total does not fit its counter.
    pub fn of(streams: &Vec<StreamStats>) -> (r: Option<Self>)
        ensures
            r is Some <==> totals_fit(streams@),
            r matches Some(totals) ==> {
                &&& totals.stream_count == streams@.len()
                &&& totals.packet_count == total_packets(streams@)
                &&& totals.byte_count == total_bytes(streams@)
                &&& totals.bitrate_bps == total_bitrate(streams@)
                &&& totals.packets_lost == total_lost(streams@)
            },
    {
        let mut packet_count: u64 = 0;
        let mut byte_count: u64 = 0;
        let mut bitrate_bps: u64 = 0;
        let mut packets_lost: u64 = 0;
        let mut i: usize = 0;
        while i < streams.len()
            invariant
                i <= streams@.len(),
                packet_count == total_packets(streams@.take(i as int)),
                byte_count == total_bytes(streams@.take(i as int)),
                bitrate_bps == total_bitrate(streams@.take(i as int)),
                packets_lost == total_lost(streams@.take(i as int)),
            decreases streams@.len() - i,
        {
            let stream = streams[i];
            proof {
                lemma_total_step(streams@, i as int);
                lemma_totals_grow(streams@, i + 1);
            }
            packet_count = match packet_count.checked_add(stream.packet_count) {
                Some(sum) => sum,
                None => return None,
            };
            byte_count = match byte_count.checked_add(stream.byte_count) {
                Some(sum) => sum,
                None => return None,
            };
            bitrate_bps = match bitrate_bps.checked_add(stream.bitrate as u64) {
                Some(sum) => sum,
                None => return None,
            };
            packets_lost = match packets_lost.checked_add(stream.packets_lost) {
                Some(sum) => sum,
                None => return None,
            };
            i = i + 1;
        }
        assert(streams@.take(streams@.len() as int) =~= streams@);
        Some(
            StreamTotals {
                stream_count: streams.len(),
                packet_count,
                byte_count,
                bitrate_bps,
                packets_lost,
            },
        )
    }
}

/// What a look at a producer shows.
#[derive(Debug)]
pub enum StatsPoll {
    /// The producer is no more.
    ProducerDropped,
    /// The producer is closed.
    ProducerClosed,
    /// The producer did not tell its counters.
    QueryFailed,
    /// The producer has no streams.
    NoStreams,
    /// The producer's counters.
    Totals(StreamTotals),
}

impl StatsPoll {
    /// What the counters of a producer's streams show. Nothing, if a total does not fit its
    /// counter.
    pub fn of(streams: &Vec<StreamStats>) -> (r: Option<Self>)
        ensures
            r is Some <==> totals_fit(streams@),
            streams@.len() == 0 ==> r == Some(StatsPoll::NoStreams),
            streams@.len() > 0 && r is Some ==> {
                &&& r matches Some(StatsPoll::Totals(totals))
                &&& totals.stream_count == streams@.len()
                &&& totals.packet_count == total_packets(streams@)
                &&& totals.byte_count == total_bytes(streams@)
                &&& totals.bitrate_bps == total_bitrate(streams@)
                &&& totals.packets_lost == total_lost(streams@)
            },
    {
        if streams.len() == 0 {
            return Some(StatsPoll::NoStreams);
        }
        match StreamTotals::of(streams) {
            Some(totals) => Some(StatsPoll::Totals(totals)),
            None => None,
        }
    }
}

/// What to do after a look at a producer.
#[derive(Debug, Clone, Copy, PartialEq, Eq, Structural)]
pub enum StatsAction {
    /// Look no more.
    Stop,
    /// Look again, with nothing to report.
    Wait,
    /// Report that there are no streams, and look again.
    ReportNoStreams,
    /// Report, and look again.
    Report(StatsReport),
}

/// Remembers the totals of the last report on a producer.
#[derive(Debug)]
pub struct ProducerStatsLog {
    previous: Option<(u64, u64)>,
}

/// How far a counter has come; nothing, if there was no earlier reading or it has gone back.
pub open spec fn advance_since(previous: Option<u64>, current: u64) -> u64 {
    match previous {
        Some(previous) if previous <= current => (current - previous) as u64,
        _ => 0,
    }
}

impl ProducerStatsLog {
    /// The packets of the last report.
    pub closed spec fn previous_packets(&self) -> Option<u64> {
        match self.previous {
            Some((packets, _)) => Some(packets),
            None => None,
        }
    }

    /// The bytes of the last report.
    pub closed spec fn previous_bytes(&self) -> Option<u64> {
        match self.previous {
            Some((_, bytes)) => Some(bytes),
            None => None,
        }
    }

    /// A log without reports.
    pub fn new() -> (r: Self)
        ensures
            r.previous_packets() is None,
            r.previous_bytes() is None,
    {
        ProducerStatsLog { previous: None }
    }

    /// Takes in what a look at the producer shows. Only a report changes what is remembered.
    pub fn on_poll(&mut self, poll: StatsPoll) -> (r: StatsAction)
        ensures
            r == match poll {
                StatsPoll::ProducerDropped => StatsAction::Stop,
                StatsPoll::ProducerClosed => StatsAction::Stop,
                StatsPoll::QueryFailed => StatsAction::Wait,
                StatsPoll::NoStreams => StatsAction::ReportNoStreams,
                StatsPoll::Totals(totals) => StatsAction::Report(
                    StatsReport {
                        totals,
                        delta_packets: advance_since(
                            old(self).previous_packets(),
                            totals.packet_count,
                        ),
                        delta_bytes: advance_since(old(self).previous_bytes(), totals.byte_count),
                    },
                ),
            },
            match poll {
                StatsPoll::Totals(totals) => {
                    &&& final(self).previous_packets() == Some(totals.packet_count)
                    &&& final(self).previous_bytes() == Some(totals.byte_count)
                },
                _ => *final(self) == *old(self),
            },
    {
        match poll {
            StatsPoll::ProducerDropped => StatsAction::Stop,
            StatsPoll::ProducerClosed => StatsAction::Stop,
            StatsPoll::QueryFailed => StatsAction::Wait,
            StatsPoll::NoStreams => StatsAction::ReportNoStreams,
            StatsPoll::Totals(totals) => {
                let (delta_packets, delta_bytes): (u64, u64) = match self.previous {
                    Some((packets, bytes)) => (
                        totals.packet_count.saturating_sub(packets),
                        totals.byte_count.saturating_sub(bytes),
                    ),
                    None => (0, 0),
                };
                self.previous = Some((totals.packet_count, totals.byte_count));
                StatsAction::Report(StatsReport { totals, delta_packets, delta_bytes })
            },
        }
    }
}

/// What two lists of streams come to together is the sum of what each comes to.
pub proof fn law_totals_add_up(a: Seq<StreamStats>, b: Seq<StreamStats>)
    ensures
        total_packets(a + b) == total_packets(a) + total_packets(b),
        total_bytes(a + b) == total_bytes(a) + total_bytes(b),
        total_bitrate(a + b) == total_bitrate(a) + total_bitrate(b),
        total_lost(a + b) == total_lost(a) + total_lost(b),
    decreases b.len(),
{
    if b.len() == 0 {
        assert(a + b =~= a);
    } else {
        law_totals_add_up(a, b.drop_last());
        assert((a + b).drop_last() =~= a + b.drop_last());
        assert((a + b).last() == b.last());
    }
}

/// One stream comes to its own counters, and no stream to nothing.
pub proof fn law_one_stream_counts_as_it_is(stream: StreamStats)
    ensures
        total_packets(seq![stream]) == stream.packet_count,
        total_bytes(seq![stream]) == stream.byte_count,
        total_bitrate(seq![stream]) == stream.bitrate,
        total_lost(seq![stream]) == stream.packets_lost,
        total_packets(Seq::empty()) == 0,
        total_bytes(Seq::empty()) == 0,
        total_bitrate(Seq::empty()) == 0,
        total_lost(Seq::empty()) == 0,
{
    assert(seq![stream].drop_last() =~= Seq::<StreamStats>::empty());
    lemma_total_step(seq![stream], 0);
    assert(seq![stream].take(1) =~= seq![stream]);
    assert(seq![stream].take(0) =~= Seq::<StreamStats>::empty());
}

/// Totals fit as long as none of them is more than a counter of 64 bits can hold.
pub proof fn law_totals_fit_counters(streams: Seq<StreamStats>)
    ensures
        totals_fit(streams) <==> total_packets(streams) < 0x1_0000_0000_0000_0000
            && total_bytes(streams) < 0x1_0000_0000_0000_0000 && total_bitrate(streams)
            < 0x1_0000_0000_0000_0000 && total_lost(streams) < 0x1_0000_0000_0000_0000,
{
}

/// What is shown as new makes up the difference to the reading before. Nothing is new at the first
/// reading, or where a counter has gone back.
pub proof fn law_deltas_make_up_the_difference(previous: u64, current: u64)
    ensures
        previous <= current ==> previous + advance_since(Some(previous), current) == current,
        previous > current ==> advance_since(Some(previous), current) == 0,
        advance_since(None, current) == 0,
{
}

/// A producer is looked at every five seconds.
pub proof fn law_looks_are_five_seconds_apart()
    ensures
        PRODUCER_STATS_LOG_INTERVAL_SECONDS == 5,
{
}

/// As long as a counter does not go back, what two reports in a row show as new is what has come
/// since before the first.
pub proof fn law_deltas_add_up(first: u64, second: u64, third: u64)
    requires
        first <= second <= third,
    ensures
        advance_since(Some(first), second) + advance_since(Some(second), third) == advance_since(
            Some(first),
            third,
        ),
{
}

} // verus!
