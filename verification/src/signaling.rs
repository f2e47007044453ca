//! The messages of the signaling protocol.
//!
//! What a client or the media layer states about ICE, DTLS, SCTP or RTP travels as JSON text: the
//! rules of signaling hand it on and never look inside.

use vstd::prelude::*;

use crate::table;

verus! {

/// Which way media flows on a transport, as the peer sees it.
#[derive(Debug, Clone, Copy, PartialEq, Eq, Structural)]
pub enum TransportDirection {
    Send,
    Recv,
}

/// What a track carries.
#[derive(Debug, Clone, Copy, PartialEq, Eq, Structural)]
pub enum MediaKind {
    Audio,
    Video,
}

/// A request of a client, with the number under which it wants its answer.
#[derive(Debug)]
pub struct ClientEnvelope {
    pub request_id: Option<u64>,
    pub signal: ClientSignal,
}

/// What a client can ask for.
#[derive(Debug)]
pub enum ClientSignal {
    Join { room_id: String },
    CreateWebrtcTransport { direction: TransportDirection },
    ConnectWebrtcTransport { transport_id: String, dtls_parameters: String },
    Produce { transport_id: String, kind: MediaKind, rtp_parameters: String },
    Consume { transport_id: String, producer_id: String, rtp_capabilities: String },
    ResumeConsumer { consumer_id: String },
    Ping,
}

/// What the media layer says of a transport that it has created.
#[derive(Debug)]
pub struct CreatedTransport {
    pub transport_id: String,
    pub ice_parameters: String,
    pub ice_candidates: String,
    pub dtls_parameters: String,
    pub sctp_parameters: Option<String>,
}

/// What the media layer says of a consumer that it has created.
#[derive(Debug)]
pub struct CreatedConsumer {
    pub consumer_id: String,
    pub producer_id: String,
    pub kind: MediaKind,
    pub rtp_parameters: String,
}

/// A message to a client.
#[derive(Debug)]
pub struct ServerEnvelope {
    pub request_id: Option<u64>,
    pub signal: ServerSignal,
}

/// What the server can say.
#[derive(Debug)]
pub enum ServerSignal {
    Joined {
        peer_id: String,
        room_id: String,
        router_rtp_capabilities: String,
        existing_producer_ids: Vec<String>,
    },
    WebrtcTransportCreated { direction: TransportDirection, transport: CreatedTransport },
    TransportConnected { transport_id: String },
    Produced { producer_id: String },
    NewProducer { peer_id: String, producer_id: String },
    Consumed { consumer: CreatedConsumer },
    ConsumerResumed { consumer_id: String },
    PeerLeft { peer_id: String },
    Error { message: String },
    Pong,
}

/// A message to the peer `peer_id`.
#[derive(Debug)]
pub struct Notice {
    pub peer_id: String,
    pub envelope: ServerEnvelope,
}

/// The content of a [`ServerSignal`].
pub enum SignalModel {
    Joined {
        peer_id: Seq<char>,
        room_id: Seq<char>,
        router_rtp_capabilities: Seq<char>,
        existing_producer_ids: Seq<Seq<char>>,
    },
    WebrtcTransportCreated { direction: TransportDirection, transport: CreatedTransport },
    TransportConnected { transport_id: Seq<char> },
    Produced { producer_id: Seq<char> },
    NewProducer { peer_id: Seq<char>, producer_id: Seq<char> },
    Consumed { consumer: CreatedConsumer },
    ConsumerResumed { consumer_id: Seq<char> },
    PeerLeft { peer_id: Seq<char> },
    Error { message: Seq<char> },
    Pong,
}

impl View for ServerSignal {
    type V = SignalModel;

    open spec fn view(&self) -> SignalModel {
        match *self {
            ServerSignal::Joined {
                peer_id,
                room_id,
                router_rtp_capabilities,
                existing_producer_ids,
            } => SignalModel::Joined {
                peer_id: peer_id@,
                room_id: room_id@,
                router_rtp_capabilities: router_rtp_capabilities@,
                existing_producer_ids: table::texts(existing_producer_ids@),
            },
            ServerSignal::WebrtcTransportCreated {
                direction,
                transport,
            } => SignalModel::WebrtcTransportCreated { direction, transport },
            ServerSignal::TransportConnected { transport_id } => SignalModel::TransportConnected {
                transport_id: transport_id@,
            },
            ServerSignal::Produced { producer_id } => SignalModel::Produced {
                producer_id: producer_id@,
            },
            ServerSignal::NewProducer { peer_id, producer_id } => SignalModel::NewProducer {
                peer_id: peer_id@,
                producer_id: producer_id@,
            },
            ServerSignal::Consumed { consumer } => SignalModel::Consumed { consumer },
            ServerSignal::ConsumerResumed { consumer_id } => SignalModel::ConsumerResumed {
                consumer_id: consumer_id@,
            },
            ServerSignal::PeerLeft { peer_id } => SignalModel::PeerLeft { peer_id: peer_id@ },
            ServerSignal::Error { message } => SignalModel::Error { message: message@ },
            ServerSignal::Pong => SignalModel::Pong,
        }
    }
}

/// The content of a [`ServerEnvelope`].
pub struct EnvelopeModel {
    pub request_id: Option<u64>,
    pub signal: SignalModel,
}

impl View for ServerEnvelope {
    type V = EnvelopeModel;

    open spec fn view(&self) -> EnvelopeModel {
        EnvelopeModel { request_id: self.request_id, signal: self.signal@ }
    }
}

/// The answer to the request `request_id`.
pub open spec fn answer(request_id: Option<u64>, signal: SignalModel) -> EnvelopeModel {
    EnvelopeModel { request_id, signal }
}

/// The answer that refuses the request `request_id`, and why.
pub open spec fn refusal(request_id: Option<u64>, message: Seq<char>) -> EnvelopeModel {
    answer(request_id, SignalModel::Error { message })
}

/// A message that answers no request.
pub open spec fn announcement(signal: SignalModel) -> EnvelopeModel {
    answer(None, signal)
}

/// The peers to which notices go, in their order.
pub open spec fn recipients(notices: Seq<Notice>) -> Seq<Seq<char>> {
    notices.map_values(|notice: Notice| notice.peer_id@)
}

/// The notices tell each peer of `peers` once, and nobody else, of `signal`.
pub open spec fn announces(
    notices: Seq<Notice>,
    peers: Set<Seq<char>>,
    signal: SignalModel,
) -> bool {
    &&& table::enumerates(recipients(notices), peers)
    &&& forall|i: int|
        0 <= i < notices.len() ==> (#[trigger] notices[i]).envelope@ == announcement(signal)
}

/// The content of a signal leaves nothing of it out: two signals of the same content say the same.
pub proof fn law_content_tells_signals_apart(a: ServerSignal, b: ServerSignal)
    requires
        a@ == b@,
    ensures
        match a {
            ServerSignal::Joined {
                peer_id,
                room_id,
                router_rtp_capabilities,
                existing_producer_ids,
            } => {
                &&& b matches ServerSignal::Joined {
                    peer_id: peer_id1,
                    room_id: room_id1,
                    router_rtp_capabilities: router_rtp_capabilities1,
                    existing_producer_ids: existing_producer_ids1,
                }
                &&& peer_id@ == peer_id1@
                &&& room_id@ == room_id1@
                &&& router_rtp_capabilities@ == router_rtp_capabilities1@
                &&& existing_producer_ids@.len() == existing_producer_ids1@.len()
                &&& forall|i: int|
                    0 <= i < existing_producer_ids@.len() ==> (#[trigger] existing_producer_ids@[i])@
                        == existing_producer_ids1@[i]@
            },
            ServerSignal::WebrtcTransportCreated { .. } => a == b,
            ServerSignal::TransportConnected { transport_id } => {
                b matches ServerSignal::TransportConnected { transport_id: other } && transport_id@
                    == other@
            },
            ServerSignal::Produced { producer_id } => {
                b matches ServerSignal::Produced { producer_id: other } && producer_id@ == other@
            },
            ServerSignal::NewProducer { peer_id, producer_id } => {
                b matches ServerSignal::NewProducer { peer_id: other_peer, producer_id: other }
                    && peer_id@ == other_peer@ && producer_id@ == other@
            },
            ServerSignal::Consumed { .. } => a == b,
            ServerSignal::ConsumerResumed { consumer_id } => {
                b matches ServerSignal::ConsumerResumed { consumer_id: other } && consumer_id@
                    == other@
            },
            ServerSignal::PeerLeft { peer_id } => {
                b matches ServerSignal::PeerLeft { peer_id: other } && peer_id@ == other@
            },
            ServerSignal::Error { message } => {
                b matches ServerSignal::Error { message: other } && message@ == other@
            },
            ServerSignal::Pong => b is Pong,
        },
{
    if let (
        ServerSignal::Joined { existing_producer_ids: x, .. },
        ServerSignal::Joined { existing_producer_ids: y, .. },
    ) = (a, b) {
        assert(table::texts(x@) == table::texts(y@));
        assert(table::texts(x@).len() == x@.len());
        assert(table::texts(y@).len() == y@.len());
        assert forall|i: int| 0 <= i < x@.len() implies (#[trigger] x@[i])@ == y@[i]@ by {
            assert(table::texts(x@)[i] == x@[i]@);
            assert(table::texts(y@)[i] == y@[i]@);
        }
    }
}

/// What is said in a message is said in its content: the number of the request and the text of each
/// part, letter for letter.
pub proof fn law_messages_say_what_they_hold(envelope: ServerEnvelope)
    ensures
        envelope@.request_id == envelope.request_id,
        match envelope.signal {
            ServerSignal::Joined {
                peer_id,
                room_id,
                router_rtp_capabilities,
                existing_producer_ids,
            } => {
                &&& envelope@.signal matches SignalModel::Joined {
                    peer_id: told_peer,
                    room_id: told_room,
                    router_rtp_capabilities: told_capabilities,
                    existing_producer_ids: told_producers,
                }
                &&& told_peer == peer_id@
                &&& told_room == room_id@
                &&& told_capabilities == router_rtp_capabilities@
                &&& told_producers.len() == existing_producer_ids@.len()
                &&& forall|i: int|
                    0 <= i < told_producers.len() ==> #[trigger] told_producers[i]
                        == existing_producer_ids@[i]@
            },
            ServerSignal::WebrtcTransportCreated { direction, transport } => envelope@.signal == (
            SignalModel::WebrtcTransportCreated { direction, transport }),
            ServerSignal::TransportConnected { transport_id } => envelope@.signal == (
            SignalModel::TransportConnected { transport_id: transport_id@ }),
            ServerSignal::Produced { producer_id } => envelope@.signal == (SignalModel::Produced {
                producer_id: producer_id@,
            }),
            ServerSignal::NewProducer { peer_id, producer_id } => envelope@.signal == (
            SignalModel::NewProducer { peer_id: peer_id@, producer_id: producer_id@ }),
            ServerSignal::Consumed { consumer } => envelope@.signal == (SignalModel::Consumed {
                consumer,
            }),
            ServerSignal::ConsumerResumed { consumer_id } => envelope@.signal == (
            SignalModel::ConsumerResumed { consumer_id: consumer_id@ }),
            ServerSignal::PeerLeft { peer_id } => envelope@.signal == (SignalModel::PeerLeft {
                peer_id: peer_id@,
            }),
            ServerSignal::Error { message } => envelope@.signal == (SignalModel::Error {
                message: message@,
            }),
            ServerSignal::Pong => envelope@.signal is Pong,
        },
{
}

/// An answer carries the number of its request and the signal, a refusal the number and the reason,
/// an announcement no number.
pub proof fn law_envelopes_carry_number_and_signal(
    request_id: Option<u64>,
    signal: SignalModel,
    message: Seq<char>,
)
    ensures
        answer(request_id, signal).request_id == request_id,
        answer(request_id, signal).signal == signal,
        refusal(request_id, message).request_id == request_id,
        refusal(request_id, message).signal matches SignalModel::Error { message: told } && told
            == message,
        announcement(signal).request_id is None,
        announcement(signal).signal == signal,
{
}

/// Where notices announce something to peers, each of the peers gets exactly one of them, nobody
/// else gets any, and all say the same, with no request's number.
pub proof fn law_announcements_reach_everybody_once(
    notices: Seq<Notice>,
    peers: Set<Seq<char>>,
    signal: SignalModel,
    peer_id: Seq<char>,
)
    requires
        announces(notices, peers, signal),
    ensures
        peers.contains(peer_id) <==> exists|i: int|
            0 <= i < notices.len() && (#[trigger] notices[i]).peer_id@ == peer_id,
        forall|i: int, j: int|
            0 <= i < j < notices.len() ==> (#[trigger] notices[i]).peer_id@ != (
            #[trigger] notices[j]).peer_id@,
        notices.len() == peers.len(),
        forall|i: int|
            0 <= i < notices.len() ==> (#[trigger] notices[i]).envelope.request_id is None
                && notices[i].envelope.signal@ == signal,
{
    let names = recipients(notices);
    table::law_enumerations_are_exact(names, peers, peer_id, 0, 0);
    assert(forall|i: int| 0 <= i < notices.len() ==> names[i] == (#[trigger] notices[i]).peer_id@);
    if peers.contains(peer_id) {
        let k = choose|k: int| 0 <= k < names.len() && #[trigger] names[k] == peer_id;
        assert(notices[k].peer_id@ == peer_id);
    }
    if exists|i: int| 0 <= i < notices.len() && (#[trigger] notices[i]).peer_id@ == peer_id {
        let i = choose|i: int| 0 <= i < notices.len() && (#[trigger] notices[i]).peer_id@ == peer_id;
        assert(names[i] == peer_id);
    }
    assert forall|i: int, j: int| 0 <= i < j < notices.len() implies (#[trigger] notices[i]).peer_id@
        != (#[trigger] notices[j]).peer_id@ by {
        table::law_enumerations_are_exact(names, peers, peer_id, i, j);
    }
    assert forall|i: int| 0 <= i < notices.len() implies (
    #[trigger] notices[i]).envelope.request_id is None && notices[i].envelope.signal@ == signal by {
        assert(notices[i].envelope@ == announcement(signal));
        law_messages_say_what_they_hold(notices[i].envelope);
    }
}

/// The answer to a payload that is no signal: it cannot name a request.
pub fn invalid_payload(reason: &str) -> (r: ServerEnvelope)
    ensures
        r@ == refusal(None, "invalid signal payload: "@ + reason@),
{
    refuse(None, "invalid signal payload: ".to_owned().concat(reason))
}

/// An answer that refuses a request.
pub fn refuse(request_id: Option<u64>, message: String) -> (r: ServerEnvelope)
    ensures
        r@ == refusal(request_id, message@),
{
    ServerEnvelope { request_id, signal: ServerSignal::Error { message } }
}

} // verus!
