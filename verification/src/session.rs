//! The conversation with one client, from its first request until its socket closes.
//!
//! A request is answered at once, or it waits for work of the media layer. [`Step`] says which:
//! the caller does the work that a step names, and hands the outcome to the method that the
//! step's documentation names.

use vstd::prelude::*;

use crate::sfu;
use crate::sfu::{PeerModel, PeerState, Sfu, SfuError, TransportOptions, TransportProtocol};
use crate::signaling;
use crate::signaling::{
    refuse, ClientEnvelope, ClientSignal, CreatedConsumer, CreatedTransport, EnvelopeModel, MediaKind, Notice,
    ServerEnvelope, ServerSignal, SignalModel, TransportDirection,
};
use crate::table;
use crate::transcription::TranscriptIdentity;

verus! {

/// What a request leads to.
#[derive(Debug)]
pub enum Step {
    /// The request is done with: send the answer.
    Reply(ServerEnvelope),
    /// Create a WebRTC transport, then [`SignalSession::finish_create_transport`].
    CreateTransport {
        request_id: Option<u64>,
        direction: TransportDirection,
        options: TransportOptions,
    },
    /// Connect a transport, then [`finish_connect_transport`].
    ConnectTransport {
        request_id: Option<u64>,
        transport_id: String,
        dtls_parameters: String,
    },
    /// Create a producer on a transport, then [`SignalSession::finish_create_producer`].
    CreateProducer {
        request_id: Option<u64>,
        transport_id: String,
        kind: MediaKind,
        rtp_parameters: String,
    },
    /// Ask the router whether it can consume a producer, then [`finish_check_consumer`].
    CheckConsumer {
        request_id: Option<u64>,
        transport_id: String,
        producer_id: String,
        rtp_capabilities: String,
    },
    /// Create a consumer on a transport, then [`SignalSession::finish_create_consumer`].
    CreateConsumer {
        request_id: Option<u64>,
        transport_id: String,
        producer_id: String,
        rtp_capabilities: String,
        paused: bool,
    },
    /// Resume a consumer, then [`finish_resume_consumer`].
    ResumeConsumer { request_id: Option<u64>, consumer_id: String },
    /// A producer exists: transcribe it if that is to be done
    /// ([`SignalSession::transcription_started`]), then [`SignalSession::finish_produce`].
    Publish { request_id: Option<u64>, producer_id: String, identity: TranscriptIdentity },
}

impl Step {
    /// The request that the step belongs to.
    pub open spec fn request_id(&self) -> Option<u64> {
        match *self {
            Step::Reply(envelope) => envelope.request_id,
            Step::CreateTransport { request_id, .. } => request_id,
            Step::ConnectTransport { request_id, .. } => request_id,
            Step::CreateProducer { request_id, .. } => request_id,
            Step::CheckConsumer { request_id, .. } => request_id,
            Step::CreateConsumer { request_id, .. } => request_id,
            Step::ResumeConsumer { request_id, .. } => request_id,
            Step::Publish { request_id, .. } => request_id,
        }
    }

    /// The step is the answer `envelope`.
    pub open spec fn replies(&self, envelope: EnvelopeModel) -> bool {
        self matches Step::Reply(reply) && reply@ == envelope
    }
}

/// What the router says of a producer that a peer wants to consume.
#[derive(Debug, Clone, Copy, PartialEq, Eq, Structural)]
pub enum ConsumerCheck {
    /// The name is not that of a producer.
    InvalidProducerId,
    /// The router cannot consume the producer with the peer's capabilities.
    CannotConsume,
    /// The router can consume the producer.
    CanConsume,
}

/// What a peer that is in no room is told.
pub open spec fn join_first(action: Seq<char>) -> Seq<char> {
    "join a room before "@ + action
}

/// The wording of [`SfuError::TransportNotFound`].
pub open spec fn transport_not_found(transport_id: Seq<char>) -> Seq<char> {
    "transport '"@ + transport_id + "' not found"@
}

/// The step that answers a request other than the first `Join`: `peer` is the client's peer, if it
/// has joined.
pub open spec fn is_first_step(
    step: Step,
    peer: Option<PeerModel>,
    sfu: Sfu,
    envelope: ClientEnvelope,
) -> bool {
    let request_id = envelope.request_id;
    match envelope.signal {
        ClientSignal::Ping => step.replies(signaling::answer(request_id, SignalModel::Pong)),
        ClientSignal::Join { room_id } => step.replies(
            signaling::refusal(request_id, "peer is already joined to a room"@),
        ),
        ClientSignal::CreateWebrtcTransport { direction } => match peer {
            None => step.replies(
                signaling::refusal(request_id, join_first("creating transports"@)),
            ),
            Some(_) => step == (Step::CreateTransport {
                request_id,
                direction,
                options: TransportOptions {
                    protocol: TransportProtocol::Udp,
                    listen_ip: sfu.settings().listen_ip,
                    announced_address: sfu.settings().announced_address,
                    expose_internal_ip: false,
                    enable_tcp: true,
                },
            }),
        },
        ClientSignal::ConnectWebrtcTransport { transport_id, dtls_parameters } => match peer {
            None => step.replies(
                signaling::refusal(request_id, join_first("connecting transports"@)),
            ),
            Some(peer) => if !peer.transports.contains_key(transport_id@) {
                step.replies(
                    signaling::refusal(
                        request_id,
                        "failed to connect transport: "@ + transport_not_found(transport_id@),
                    ),
                )
            } else {
                step == (Step::ConnectTransport { request_id, transport_id, dtls_parameters })
            },
        },
        ClientSignal::Produce { transport_id, kind, rtp_parameters } => match peer {
            None => step.replies(signaling::refusal(request_id, join_first("producing"@))),
            Some(peer) => if !peer.transports.contains_key(transport_id@) {
                step.replies(
                    signaling::refusal(
                        request_id,
                        "failed to produce: "@ + transport_not_found(transport_id@),
                    ),
                )
            } else if peer.transports[transport_id@] != TransportDirection::Send {
                step.replies(
                    signaling::refusal(
                        request_id,
                        "failed to produce: "@ + ("transport '"@ + transport_id@
                            + "' is not a send transport"@),
                    ),
                )
            } else {
                step == (Step::CreateProducer { request_id, transport_id, kind, rtp_parameters })
            },
        },
        ClientSignal::Consume { transport_id, producer_id, rtp_capabilities } => match peer {
            None => step.replies(signaling::refusal(request_id, join_first("consuming"@))),
            Some(peer) => if !sfu::has_producer(sfu.rooms(), peer.room_id, producer_id@) {
                step.replies(
                    signaling::refusal(
                        request_id,
                        "producer '"@ + producer_id@ + "' does not exist in room"@,
                    ),
                )
            } else if !peer.transports.contains_key(transport_id@) {
                step.replies(
                    signaling::refusal(
                        request_id,
                        "failed to consume: "@ + transport_not_found(transport_id@),
                    ),
                )
            } else if peer.transports[transport_id@] != TransportDirection::Recv {
                step.replies(
                    signaling::refusal(
                        request_id,
                        "failed to consume: "@ + ("transport '"@ + transport_id@
                            + "' is not a recv transport"@),
                    ),
                )
            } else {
                step == (Step::CheckConsumer {
                    request_id,
                    transport_id,
                    producer_id,
                    rtp_capabilities,
                })
            },
        },
        ClientSignal::ResumeConsumer { consumer_id } => match peer {
            None => step.replies(
                signaling::refusal(request_id, join_first("resuming consumers"@)),
            ),
            Some(peer) => if !peer.consumers.contains(consumer_id@) {
                step.replies(
                    signaling::refusal(
                        request_id,
                        "failed to resume consumer: "@ + ("consumer '"@ + consumer_id@
                            + "' not found"@),
                    ),
                )
            } else {
                step == (Step::ResumeConsumer { request_id, consumer_id })
            },
        },
    }
}

/// `reply` is fit to answer a request for `signal`: it grants what was asked for or refuses it. A
/// ping is never refused.
pub open spec fn suits(signal: ClientSignal, reply: SignalModel) -> bool {
    match signal {
        ClientSignal::Ping => reply is Pong,
        ClientSignal::Join { room_id } => reply is Error || (reply matches SignalModel::Joined {
            room_id: told,
            ..
        } && told == room_id@),
        ClientSignal::CreateWebrtcTransport { direction } => reply is Error || (
        reply matches SignalModel::WebrtcTransportCreated { direction: told, .. } && told
            == direction),
        ClientSignal::ConnectWebrtcTransport { transport_id, .. } => reply is Error || (
        reply matches SignalModel::TransportConnected { transport_id: told } && told
            == transport_id@),
        ClientSignal::Produce { .. } => reply is Error || reply is Produced,
        ClientSignal::Consume { .. } => reply is Error || reply is Consumed,
        ClientSignal::ResumeConsumer { consumer_id } => reply is Error || (
        reply matches SignalModel::ConsumerResumed { consumer_id: told } && told == consumer_id@),
    }
}

/// A request can start with the step: an answer, where none of it is the media layer's work or the
/// request is refused, or the work that it asks for.
pub open spec fn starts_with(envelope: ClientEnvelope, step: Step) -> bool {
    let request_id = envelope.request_id;
    &&& step.request_id() == request_id
    &&& match step {
        Step::Reply(reply) => {
            &&& suits(envelope.signal, reply@.signal)
            &&& envelope.signal is Join || envelope.signal is Ping || reply@.signal is Error
        },
        Step::CreateTransport { direction, .. } => envelope.signal
            == (ClientSignal::CreateWebrtcTransport { direction }),
        Step::ConnectTransport { transport_id, dtls_parameters, .. } => envelope.signal
            == (ClientSignal::ConnectWebrtcTransport { transport_id, dtls_parameters }),
        Step::CreateProducer { transport_id, kind, rtp_parameters, .. } => envelope.signal
            == (ClientSignal::Produce { transport_id, kind, rtp_parameters }),
        Step::CheckConsumer { transport_id, producer_id, rtp_capabilities, .. } => envelope.signal
            == (ClientSignal::Consume { transport_id, producer_id, rtp_capabilities }),
        Step::ResumeConsumer { consumer_id, .. } => envelope.signal
            == (ClientSignal::ResumeConsumer { consumer_id }),
        Step::CreateConsumer { .. } | Step::Publish { .. } => false,
    }
}

/// `next` is an answer that refuses the request of `step`.
pub open spec fn is_refused(step: Step, next: Step) -> bool {
    next matches Step::Reply(reply) && reply@.request_id == step.request_id()
        && reply@.signal is Error
}

/// `next` is the answer `signal` to the request of `step`.
pub open spec fn is_granted(step: Step, next: Step, signal: SignalModel) -> bool {
    next.replies(signaling::answer(step.request_id(), signal))
}

/// `next` can come after `step`, once the work that `step` names has been done or has failed. An
/// answer has nothing after it.
pub open spec fn can_follow(step: Step, next: Step) -> bool {
    match step {
        Step::Reply(_) => false,
        Step::CreateTransport { request_id, direction, .. } => is_refused(step, next) || (
        next matches Step::Reply(reply) && reply@.request_id == request_id && (
        reply@.signal matches SignalModel::WebrtcTransportCreated { direction: told, .. } && told
            == direction)),
        Step::ConnectTransport { transport_id, .. } => is_refused(step, next) || is_granted(
            step,
            next,
            SignalModel::TransportConnected { transport_id: transport_id@ },
        ),
        Step::CreateProducer { request_id, .. } => is_refused(step, next) || (
        next matches Step::Publish { request_id: named, .. } && named == request_id),
        Step::Publish { producer_id, .. } => is_refused(step, next) || is_granted(
            step,
            next,
            SignalModel::Produced { producer_id: producer_id@ },
        ),
        Step::CheckConsumer {
            request_id,
            transport_id,
            producer_id,
            rtp_capabilities,
        } => is_refused(step, next) || next == (Step::CreateConsumer {
            request_id,
            transport_id,
            producer_id,
            rtp_capabilities,
            paused: true,
        }),
        Step::CreateConsumer { request_id, .. } => is_refused(step, next) || (
        next matches Step::Reply(reply) && reply@.request_id == request_id
            && reply@.signal is Consumed),
        Step::ResumeConsumer { consumer_id, .. } => is_refused(step, next) || is_granted(
            step,
            next,
            SignalModel::ConsumerResumed { consumer_id: consumer_id@ },
        ),
    }
}

/// `envelope` tells a client that it has joined `room_id` as `peer_id`, and which producers the
/// room had before.
pub open spec fn welcomes(
    envelope: EnvelopeModel,
    request_id: Option<u64>,
    peer_id: Seq<char>,
    room_id: Seq<char>,
    sfu: Sfu,
) -> bool {
    &&& envelope.request_id == request_id
    &&& envelope.signal matches SignalModel::Joined {
        peer_id: told_peer,
        room_id: told_room,
        router_rtp_capabilities,
        existing_producer_ids,
    }
    &&& told_peer == peer_id
    &&& told_room == room_id
    &&& router_rtp_capabilities == sfu.capabilities()@
    &&& table::enumerates(
        existing_producer_ids,
        sfu::room_or_empty(sfu.rooms(), room_id).producer_owners.dom(),
    )
}

/// What a peer that leaves its room leaves behind.
#[derive(Debug)]
pub struct Farewell {
    pub peer_id: String,
    pub room_id: String,
    /// What those who stay are told.
    pub notices: Vec<Notice>,
    /// Nobody stays, and the room is gone.
    pub room_empty: bool,
}

/// The state of the conversation with a client: the peer that it is, once it has joined a room.
pub struct SignalSession {
    current_peer: Option<PeerState>,
}

fn join_before(request_id: Option<u64>, action: &str) -> (r: ServerEnvelope)
    ensures
        r@ == signaling::refusal(request_id, join_first(action@)),
{
    refuse(request_id, "join a room before ".to_owned().concat(action))
}

fn failure(request_id: Option<u64>, context: &str, error: SfuError) -> (r: ServerEnvelope)
    ensures
        r@ == signaling::refusal(request_id, context@ + error.text()),
{
    refuse(request_id, context.to_owned().concat(error.message().as_str()))
}

impl SignalSession {
    /// The client's peer, if it has joined a room.
    pub closed spec fn peer(&self) -> Option<PeerModel> {
        match self.current_peer {
            Some(peer) => Some(peer@),
            None => None,
        }
    }

    /// A conversation with a client that has not joined yet.
    pub fn new() -> (r: Self)
        ensures
            r.peer() is None,
    {
        SignalSession { current_peer: None }
    }

    /// The name of the client's peer, if it has joined a room.
    pub fn peer_id(&self) -> (r: Option<&str>)
        ensures
            match self.peer() {
                Some(peer) => r matches Some(id) && id@ == peer.id,
                None => r is None,
            },
    {
        match &self.current_peer {
            Some(peer) => Some(peer.id()),
            None => None,
        }
    }

    /// Takes a request. A client that has not joined, and asks to, joins under a name drawn at
    /// random.
    pub fn on_signal(&mut self, sfu: &mut Sfu, envelope: ClientEnvelope) -> (r: Step)
        ensures
            r.request_id() == envelope.request_id,
            final(sfu).same_setup(old(sfu)),
            sfu::no_room_is_empty(old(sfu).rooms()),
            sfu::no_room_is_empty(final(sfu).rooms()),
            starts_with(envelope, r),
            r matches Step::CreateTransport { options, .. } ==> options.listen_ip
                == old(sfu).settings().listen_ip && options.announced_address
                == old(sfu).settings().announced_address,
            old(self).peer() is Some && envelope.signal is CreateWebrtcTransport
                ==> r is CreateTransport,
            match (envelope.signal, old(self).peer()) {
                (ClientSignal::Join { room_id }, None) => {
                    &&& final(self).peer() matches Some(peer)
                    &&& sfu::is_random_id(peer.id)
                    &&& peer == sfu::new_peer(peer.id, room_id@)
                    &&& final(sfu).rooms() == sfu::after_join(old(sfu).rooms(), room_id@, peer.id)
                    &&& r matches Step::Reply(reply)
                    &&& welcomes(reply@, envelope.request_id, peer.id, room_id@, *old(sfu))
                },
                _ => {
                    &&& final(self).peer() == old(self).peer()
                    &&& final(sfu).rooms() == old(sfu).rooms()
                    &&& is_first_step(r, old(self).peer(), *old(sfu), envelope)
                },
            },
    {
        proof {
            use_type_invariant(&*sfu);
        }
        let request_id = envelope.request_id;
        match envelope.signal {
            ClientSignal::Ping => Step::Reply(
                ServerEnvelope { request_id, signal: ServerSignal::Pong },
            ),
            ClientSignal::Join { room_id } => {
                if self.current_peer.is_some() {
                    return Step::Reply(
                        refuse(request_id, "peer is already joined to a room".to_owned()),
                    );
                }
                let (peer, existing) = sfu.create_peer(room_id);
                Step::Reply(self.finish_join(sfu, request_id, peer, existing))
            },
            ClientSignal::CreateWebrtcTransport { direction } => match &self.current_peer {
                None => Step::Reply(join_before(request_id, "creating transports")),
                Some(_) => Step::CreateTransport {
                    request_id,
                    direction,
                    options: sfu.transport_options(),
                },
            },
            ClientSignal::ConnectWebrtcTransport { transport_id, dtls_parameters } => {
                match &self.current_peer {
                    None => Step::Reply(join_before(request_id, "connecting transports")),
                    Some(peer) => match peer.transport(transport_id.as_str()) {
                        Ok(_) => Step::ConnectTransport {
                            request_id,
                            transport_id,
                            dtls_parameters,
                        },
                        Err(error) => Step::Reply(
                            failure(request_id, "failed to connect transport: ", error),
                        ),
                    },
                }
            },
            ClientSignal::Produce { transport_id, kind, rtp_parameters } => {
                match &self.current_peer {
                    None => Step::Reply(join_before(request_id, "producing")),
                    Some(peer) => match peer.send_transport(transport_id.as_str()) {
                        Ok(_) => Step::CreateProducer {
                            request_id,
                            transport_id,
                            kind,
                            rtp_parameters,
                        },
                        Err(error) => Step::Reply(
                            failure(request_id, "failed to produce: ", error),
                        ),
                    },
                }
            },
            ClientSignal::Consume { transport_id, producer_id, rtp_capabilities } => {
                match &self.current_peer {
                    None => Step::Reply(join_before(request_id, "consuming")),
                    Some(peer) => {
                        if !sfu.room_has_producer(peer.room_id(), producer_id.as_str()) {
                            return Step::Reply(
                                refuse(
                                    request_id,
                                    crate::text::join3(
                                        "producer '",
                                        producer_id.as_str(),
                                        "' does not exist in room",
                                    ),
                                ),
                            );
                        }
                        match peer.recv_transport(transport_id.as_str()) {
                            Ok(_) => Step::CheckConsumer {
                                request_id,
                                transport_id,
                                producer_id,
                                rtp_capabilities,
                            },
                            Err(error) => Step::Reply(
                                failure(request_id, "failed to consume: ", error),
                            ),
                        }
                    },
                }
            },
            ClientSignal::ResumeConsumer { consumer_id } => match &self.current_peer {
                None => Step::Reply(join_before(request_id, "resuming consumers")),
                Some(peer) => match peer.consumer(consumer_id.as_str()) {
                    Ok(_) => Step::ResumeConsumer { request_id, consumer_id },
                    Err(error) => Step::Reply(
                        failure(request_id, "failed to resume consumer: ", error),
                    ),
                },
            },
        }
    }

    /// Makes the client the peer that has just joined, and welcomes it. `existing` names the
    /// producers that the room had.
    pub fn finish_join(
        &mut self,
        sfu: &Sfu,
        request_id: Option<u64>,
        peer: PeerState,
        existing: Vec<String>,
    ) -> (r: ServerEnvelope)
        ensures
            r.request_id == request_id,
            final(self).peer() == Some(peer@),
            r@ == signaling::answer(
                request_id,
                SignalModel::Joined {
                    peer_id: peer@.id,
                    room_id: peer@.room_id,
                    router_rtp_capabilities: sfu.capabilities()@,
                    existing_producer_ids: table::texts(existing@),
                },
            ),
    {
        let peer_id = peer.id().to_owned();
        let room_id = peer.room_id().to_owned();
        self.current_peer = Some(peer);
        ServerEnvelope {
            request_id,
            signal: ServerSignal::Joined {
                peer_id,
                room_id,
                router_rtp_capabilities: sfu.router_rtp_capabilities(),
                existing_producer_ids: existing,
            },
        }
    }

    /// Takes the transport that the media layer has created, if it could.
    pub fn finish_create_transport(
        &mut self,
        request_id: Option<u64>,
        direction: TransportDirection,
        created: Option<CreatedTransport>,
    ) -> (r: ServerEnvelope)
        ensures
            r.request_id == request_id,
            forall|options: TransportOptions| #[trigger]
                can_follow(
                    Step::CreateTransport { request_id, direction, options },
                    Step::Reply(r),
                ),
            match (old(self).peer(), created) {
                (None, _) => {
                    &&& final(self).peer() is None
                    &&& r@ == signaling::refusal(request_id, join_first("creating transports"@))
                },
                (Some(peer), None) => {
                    &&& final(self).peer() == Some(peer)
                    &&& r@ == signaling::refusal(
                        request_id,
                        "failed to create transport: "@
                            + "failed to create mediasoup WebRTC transport"@,
                    )
                },
                (Some(peer), Some(transport)) => {
                    &&& final(self).peer() == Some(
                        PeerModel {
                            transports: peer.transports.insert(transport.transport_id@, direction),
                            ..peer
                        },
                    )
                    &&& r@ == signaling::answer(
                        request_id,
                        SignalModel::WebrtcTransportCreated { direction, transport },
                    )
                },
            },
    {
        match self.current_peer.take() {
            None => join_before(request_id, "creating transports"),
            Some(peer) => {
                let mut peer = peer;
                match created {
                    None => {
                        self.current_peer = Some(peer);
                        failure(
                            request_id,
                            "failed to create transport: ",
                            SfuError::TransportNotCreated,
                        )
                    },
                    Some(transport) => {
                        peer.add_transport(transport.transport_id.clone(), direction);
                        self.current_peer = Some(peer);
                        ServerEnvelope {
                            request_id,
                            signal: ServerSignal::WebrtcTransportCreated { direction, transport },
                        }
                    },
                }
            },
        }
    }

    /// Takes the name of the producer that the media layer has created, if it could.
    pub fn finish_create_producer(
        &mut self,
        request_id: Option<u64>,
        created: Option<String>,
    ) -> (r: Step)
        ensures
            r.request_id() == request_id,
            forall|transport_id: String, kind: MediaKind, rtp_parameters: String| #[trigger]
                can_follow(
                    Step::CreateProducer { request_id, transport_id, kind, rtp_parameters },
                    r,
                ),
            match (old(self).peer(), created) {
                (None, _) => {
                    &&& final(self).peer() is None
                    &&& r.replies(signaling::refusal(request_id, join_first("producing"@)))
                },
                (Some(peer), None) => {
                    &&& final(self).peer() == Some(peer)
                    &&& r.replies(
                        signaling::refusal(
                            request_id,
                            "failed to produce: "@ + "failed to create mediasoup producer"@,
                        ),
                    )
                },
                (Some(peer), Some(created_id)) => {
                    &&& final(self).peer() == Some(
                        PeerModel { producers: peer.producers.insert(created_id@), ..peer },
                    )
                    &&& r matches Step::Publish { producer_id, identity, .. }
                    &&& producer_id == created_id
                    &&& identity.room_id@ == peer.room_id
                    &&& identity.peer_id@ == peer.id
                    &&& identity.track_id@ == created_id@
                },
            },
    {
        match self.current_peer.take() {
            None => Step::Reply(join_before(request_id, "producing")),
            Some(peer) => {
                let mut peer = peer;
                match created {
                    None => {
                        self.current_peer = Some(peer);
                        Step::Reply(
                            failure(
                                request_id,
                                "failed to produce: ",
                                SfuError::ProducerNotCreated,
                            ),
                        )
                    },
                    Some(producer_id) => {
                        peer.add_producer(producer_id.clone());
                        let identity = TranscriptIdentity {
                            room_id: peer.room_id().to_owned(),
                            peer_id: peer.id().to_owned(),
                            track_id: producer_id.clone(),
                        };
                        self.current_peer = Some(peer);
                        Step::Publish { request_id, producer_id, identity }
                    },
                }
            },
        }
    }

    /// Records that a producer of the client is being transcribed.
    pub fn transcription_started(&mut self, producer_id: String)
        ensures
            final(self).peer() == match old(self).peer() {
                Some(peer) => Some(
                    PeerModel { stt_consumers: peer.stt_consumers.insert(producer_id@), ..peer },
                ),
                None => None,
            },
    {
        match self.current_peer.take() {
            None => {},
            Some(peer) => {
                let mut peer = peer;
                peer.add_stt_consumer(producer_id);
                self.current_peer = Some(peer);
            },
        }
    }

    /// Offers a new producer of the client to its room: the answer to the client, and what the
    /// others are told.
    pub fn finish_produce(
        &self,
        sfu: &mut Sfu,
        request_id: Option<u64>,
        producer_id: String,
    ) -> (r: (ServerEnvelope, Vec<Notice>))
        ensures
            r.0.request_id == request_id,
            final(sfu).same_setup(old(sfu)),
            sfu::no_room_is_empty(old(sfu).rooms()),
            sfu::no_room_is_empty(final(sfu).rooms()),
            forall|identity: TranscriptIdentity| #[trigger]
                can_follow(Step::Publish { request_id, producer_id, identity }, Step::Reply(r.0)),
            match self.peer() {
                None => {
                    &&& final(sfu).rooms() == old(sfu).rooms()
                    &&& r.0@ == signaling::refusal(request_id, join_first("producing"@))
                    &&& r.1@.len() == 0
                },
                Some(peer) => if old(sfu).rooms().contains_key(peer.room_id) {
                    &&& final(sfu).rooms() == sfu::after_publish(
                        old(sfu).rooms(),
                        peer.room_id,
                        peer.id,
                        producer_id@,
                    )
                    &&& r.0@ == signaling::answer(
                        request_id,
                        SignalModel::Produced { producer_id: producer_id@ },
                    )
                    &&& signaling::announces(
                        r.1@,
                        old(sfu).rooms()[peer.room_id].peers.remove(peer.id),
                        SignalModel::NewProducer { peer_id: peer.id, producer_id: producer_id@ },
                    )
                } else {
                    &&& final(sfu).rooms() == old(sfu).rooms()
                    &&& r.0@ == signaling::refusal(
                        request_id,
                        "failed to produce: "@ + ("room '"@ + peer.room_id + "' not found"@),
                    )
                    &&& r.1@.len() == 0
                },
            },
    {
        proof {
            use_type_invariant(&*sfu);
        }
        match &self.current_peer {
            None => (join_before(request_id, "producing"), Vec::new()),
            Some(peer) => match sfu.publish_producer(peer, producer_id.clone()) {
                Ok(others) => {
                    let notices = announce_producer(&others, peer.id(), producer_id.as_str());
                    (
                        ServerEnvelope { request_id, signal: ServerSignal::Produced { producer_id } },
                        notices,
                    )
                },
                Err(error) => (failure(request_id, "failed to produce: ", error), Vec::new()),
            },
        }
    }

    /// Takes the consumer that the media layer has created, if it could.
    pub fn finish_create_consumer(
        &mut self,
        request_id: Option<u64>,
        created: Option<CreatedConsumer>,
    ) -> (r: ServerEnvelope)
        ensures
            r.request_id == request_id,
            forall|
                transport_id: String,
                producer_id: String,
                rtp_capabilities: String,
                paused: bool,
            | #[trigger]
                can_follow(
                    Step::CreateConsumer {
                        request_id,
                        transport_id,
                        producer_id,
                        rtp_capabilities,
                        paused,
                    },
                    Step::Reply(r),
                ),
            match (old(self).peer(), created) {
                (None, _) => {
                    &&& final(self).peer() is None
                    &&& r@ == signaling::refusal(request_id, join_first("consuming"@))
                },
                (Some(peer), None) => {
                    &&& final(self).peer() == Some(peer)
                    &&& r@ == signaling::refusal(
                        request_id,
                        "failed to consume: "@ + "failed to create mediasoup consumer"@,
                    )
                },
                (Some(peer), Some(consumer)) => {
                    &&& final(self).peer() == Some(
                        PeerModel { consumers: peer.consumers.insert(consumer.consumer_id@), ..peer },
                    )
                    &&& r@ == signaling::answer(request_id, SignalModel::Consumed { consumer })
                },
            },
    {
        match self.current_peer.take() {
            None => join_before(request_id, "consuming"),
            Some(peer) => {
                let mut peer = peer;
                match created {
                    None => {
                        self.current_peer = Some(peer);
                        failure(request_id, "failed to consume: ", SfuError::ConsumerNotCreated)
                    },
                    Some(consumer) => {
                        peer.add_consumer(consumer.consumer_id.clone());
                        self.current_peer = Some(peer);
                        ServerEnvelope { request_id, signal: ServerSignal::Consumed { consumer } }
                    },
                }
            },
        }
    }

    /// Ends the conversation: the client's peer leaves its room. Nothing comes of it if the client
    /// has no peer, or its peer is not in the room.
    pub fn close(&mut self, sfu: &mut Sfu) -> (r: Option<Farewell>)
        ensures
            final(self).peer() is None,
            final(sfu).same_setup(old(sfu)),
            sfu::no_room_is_empty(old(sfu).rooms()),
            sfu::no_room_is_empty(final(sfu).rooms()),
            match old(self).peer() {
                Some(peer) if sfu::is_present(old(sfu).rooms(), peer.room_id, peer.id) => {
                    let rest = old(sfu).rooms()[peer.room_id].peers.remove(peer.id);
                    &&& final(sfu).rooms() == sfu::after_leave(
                        old(sfu).rooms(),
                        peer.room_id,
                        peer.id,
                        peer.producers,
                    )
                    &&& r matches Some(farewell)
                    &&& farewell.peer_id@ == peer.id
                    &&& farewell.room_id@ == peer.room_id
                    &&& signaling::announces(
                        farewell.notices@,
                        rest,
                        SignalModel::PeerLeft { peer_id: peer.id },
                    )
                    &&& farewell.room_empty == (rest == Set::<Seq<char>>::empty())
                },
                _ => {
                    &&& final(sfu).rooms() == old(sfu).rooms()
                    &&& r is None
                },
            },
    {
        proof {
            use_type_invariant(&*sfu);
        }
        match self.current_peer.take() {
            None => None,
            Some(peer) => match sfu.remove_peer(&peer) {
                Some(departure) => Some(
                    Farewell {
                        peer_id: peer.id().to_owned(),
                        room_id: peer.room_id().to_owned(),
                        notices: announce_departure(&departure.remaining, peer.id()),
                        room_empty: departure.room_empty,
                    },
                ),
                None => None,
            },
        }
    }
}

/// Tells `peers` of a new producer.
fn announce_producer(peers: &Vec<String>, peer_id: &str, producer_id: &str) -> (r: Vec<Notice>)
    requires
        table::texts(peers@).no_duplicates(),
    ensures
        signaling::announces(
            r@,
            table::texts(peers@).to_set(),
            SignalModel::NewProducer { peer_id: peer_id@, producer_id: producer_id@ },
        ),
{
    let mut r: Vec<Notice> = Vec::new();
    let mut i: usize = 0;
    while i < peers.len()
        invariant
            i <= peers@.len(),
            r@.len() == i,
            forall|j: int|
                0 <= j < i ==> (#[trigger] r@[j]).peer_id@ == peers@[j]@ && r@[j].envelope@
                    == signaling::announcement(
                    SignalModel::NewProducer { peer_id: peer_id@, producer_id: producer_id@ },
                ),
        decreases peers@.len() - i,
    {
        r.push(
            Notice {
                peer_id: peers[i].clone(),
                envelope: ServerEnvelope {
                    request_id: None,
                    signal: ServerSignal::NewProducer {
                        peer_id: peer_id.to_owned(),
                        producer_id: producer_id.to_owned(),
                    },
                },
            },
        );
        i = i + 1;
    }
    assert(signaling::recipients(r@) =~= table::texts(peers@));
    r
}

/// Tells `peers` that a peer has left.
fn announce_departure(peers: &Vec<String>, peer_id: &str) -> (r: Vec<Notice>)
    requires
        table::texts(peers@).no_duplicates(),
    ensures
        signaling::announces(
            r@,
            table::texts(peers@).to_set(),
            SignalModel::PeerLeft { peer_id: peer_id@ },
        ),
{
    let mut r: Vec<Notice> = Vec::new();
    let mut i: usize = 0;
    while i < peers.len()
        invariant
            i <= peers@.len(),
            r@.len() == i,
            forall|j: int|
                0 <= j < i ==> (#[trigger] r@[j]).peer_id@ == peers@[j]@ && r@[j].envelope@
                    == signaling::announcement(SignalModel::PeerLeft { peer_id: peer_id@ }),
        decreases peers@.len() - i,
    {
        r.push(
            Notice {
                peer_id: peers[i].clone(),
                envelope: ServerEnvelope {
                    request_id: None,
                    signal: ServerSignal::PeerLeft { peer_id: peer_id.to_owned() },
                },
            },
        );
        i = i + 1;
    }
    assert(signaling::recipients(r@) =~= table::texts(peers@));
    r
}

/// The answer to a request to connect a transport, once the media layer has tried.
pub fn finish_connect_transport(
    request_id: Option<u64>,
    transport_id: String,
    connected: bool,
) -> (r: ServerEnvelope)
    ensures
        r.request_id == request_id,
        forall|dtls_parameters: String| #[trigger]
            can_follow(
                Step::ConnectTransport { request_id, transport_id, dtls_parameters },
                Step::Reply(r),
            ),
        r@ == if connected {
            signaling::answer(
                request_id,
                SignalModel::TransportConnected { transport_id: transport_id@ },
            )
        } else {
            signaling::refusal(
                request_id,
                "failed to connect transport: "@ + "failed to connect mediasoup WebRTC transport"@,
            )
        },
{
    if connected {
        ServerEnvelope { request_id, signal: ServerSignal::TransportConnected { transport_id } }
    } else {
        failure(request_id, "failed to connect transport: ", SfuError::TransportNotConnected)
    }
}

/// What follows the router's word on a producer: a consumer that starts out paused, or a refusal.
pub fn finish_check_consumer(
    request_id: Option<u64>,
    transport_id: String,
    producer_id: String,
    rtp_capabilities: String,
    check: ConsumerCheck,
) -> (r: Step)
    ensures
        r.request_id() == request_id,
        can_follow(
            Step::CheckConsumer { request_id, transport_id, producer_id, rtp_capabilities },
            r,
        ),
        match check {
            ConsumerCheck::InvalidProducerId => r.replies(
                signaling::refusal(
                    request_id,
                    "failed to consume: "@ + "invalid producer ID format"@,
                ),
            ),
            ConsumerCheck::CannotConsume => r.replies(
                signaling::refusal(
                    request_id,
                    "failed to consume: "@ + ("router cannot consume producer '"@ + producer_id@
                        + "' with provided RTP capabilities"@),
                ),
            ),
            ConsumerCheck::CanConsume => r == (Step::CreateConsumer {
                request_id,
                transport_id,
                producer_id,
                rtp_capabilities,
                paused: true,
            }),
        },
{
    match check {
        ConsumerCheck::InvalidProducerId => Step::Reply(
            failure(request_id, "failed to consume: ", SfuError::InvalidProducerId),
        ),
        ConsumerCheck::CannotConsume => Step::Reply(
            failure(request_id, "failed to consume: ", SfuError::CannotConsume(producer_id)),
        ),
        ConsumerCheck::CanConsume => Step::CreateConsumer {
            request_id,
            transport_id,
            producer_id,
            rtp_capabilities,
            paused: true,
        },
    }
}

/// The answer to a request to resume a consumer, once the media layer has tried.
pub fn finish_resume_consumer(
    request_id: Option<u64>,
    consumer_id: String,
    resumed: bool,
) -> (r: ServerEnvelope)
    ensures
        r.request_id == request_id,
        can_follow(Step::ResumeConsumer { request_id, consumer_id }, Step::Reply(r)),
        r@ == if resumed {
            signaling::answer(
                request_id,
                SignalModel::ConsumerResumed { consumer_id: consumer_id@ },
            )
        } else {
            signaling::refusal(
                request_id,
                "failed to resume consumer: "@ + "failed to resume mediasoup consumer"@,
            )
        },
{
    if resumed {
        ServerEnvelope { request_id, signal: ServerSignal::ConsumerResumed { consumer_id } }
    } else {
        failure(request_id, "failed to resume consumer: ", SfuError::ConsumerNotResumed)
    }
}

} // verus!
