//! The rooms of the forwarding unit, and what each peer holds in them.

use vstd::prelude::*;

use crate::signaling::TransportDirection;
use crate::table;
use crate::table::{NameSet, Table};
use crate::text::join3;

verus! {

/// Who is in a room, and who owns each producer that the room can consume.
#[verifier::ext_equal]
pub struct RoomModel {
    pub peers: Set<Seq<char>>,
    pub producer_owners: Map<Seq<char>, Seq<char>>,
}

/// The room that `rooms` holds under `room_id`, or an empty one.
pub open spec fn room_or_empty(
    rooms: Map<Seq<char>, RoomModel>,
    room_id: Seq<char>,
) -> RoomModel {
    if rooms.contains_key(room_id) {
        rooms[room_id]
    } else {
        RoomModel { peers: Set::empty(), producer_owners: Map::empty() }
    }
}

/// Every room has somebody in it.
pub open spec fn no_room_is_empty(rooms: Map<Seq<char>, RoomModel>) -> bool {
    forall|room_id: Seq<char>| #[trigger]
        rooms.contains_key(room_id) ==> rooms[room_id].peers != Set::<Seq<char>>::empty()
}

/// `producer_id` can be consumed in the room `room_id`.
pub open spec fn has_producer(
    rooms: Map<Seq<char>, RoomModel>,
    room_id: Seq<char>,
    producer_id: Seq<char>,
) -> bool {
    rooms.contains_key(room_id) && rooms[room_id].producer_owners.contains_key(producer_id)
}

/// The rooms after `peer_id` has joined `room_id`, which comes into being if need be.
pub open spec fn after_join(
    rooms: Map<Seq<char>, RoomModel>,
    room_id: Seq<char>,
    peer_id: Seq<char>,
) -> Map<Seq<char>, RoomModel> {
    let room = room_or_empty(rooms, room_id);
    rooms.insert(room_id, RoomModel { peers: room.peers.insert(peer_id), ..room })
}

/// The rooms after `peer_id` has offered `producer_id` in `room_id`, a room that exists.
pub open spec fn after_publish(
    rooms: Map<Seq<char>, RoomModel>,
    room_id: Seq<char>,
    peer_id: Seq<char>,
    producer_id: Seq<char>,
) -> Map<Seq<char>, RoomModel> {
    let room = rooms[room_id];
    rooms.insert(
        room_id,
        RoomModel { producer_owners: room.producer_owners.insert(producer_id, peer_id), ..room },
    )
}

/// `peer_id` is in the room `room_id`.
pub open spec fn is_present(
    rooms: Map<Seq<char>, RoomModel>,
    room_id: Seq<char>,
    peer_id: Seq<char>,
) -> bool {
    rooms.contains_key(room_id) && rooms[room_id].peers.contains(peer_id)
}

/// What is left of a room when `peer_id` has gone and taken `producers` along.
pub open spec fn room_without(
    room: RoomModel,
    peer_id: Seq<char>,
    producers: Set<Seq<char>>,
) -> RoomModel {
    RoomModel {
        peers: room.peers.remove(peer_id),
        producer_owners: room.producer_owners.remove_keys(producers),
    }
}

/// The rooms after a peer that is in `room_id` has left; a room that it leaves empty goes too.
pub open spec fn after_leave(
    rooms: Map<Seq<char>, RoomModel>,
    room_id: Seq<char>,
    peer_id: Seq<char>,
    producers: Set<Seq<char>>,
) -> Map<Seq<char>, RoomModel> {
    let rest = room_without(rooms[room_id], peer_id, producers);
    if rest.peers == Set::<Seq<char>>::empty() {
        rooms.remove(room_id)
    } else {
        rooms.insert(room_id, rest)
    }
}

/// What a peer holds: its transports, the producers that it sends on, the consumers that it
/// receives on, and the producers of its that are being transcribed.
#[verifier::ext_equal]
pub struct PeerModel {
    pub id: Seq<char>,
    pub room_id: Seq<char>,
    pub transports: Map<Seq<char>, TransportDirection>,
    pub producers: Set<Seq<char>>,
    pub consumers: Set<Seq<char>>,
    pub stt_consumers: Set<Seq<char>>,
}

/// A peer that has just joined.
pub open spec fn new_peer(peer_id: Seq<char>, room_id: Seq<char>) -> PeerModel {
    PeerModel {
        id: peer_id,
        room_id,
        transports: Map::empty(),
        producers: Set::empty(),
        consumers: Set::empty(),
        stt_consumers: Set::empty(),
    }
}

/// Why a request of a peer fails.
#[derive(Debug)]
pub enum SfuError {
    TransportNotFound(String),
    NotASendTransport(String),
    NotARecvTransport(String),
    ConsumerNotFound(String),
    RoomNotFound(String),
    InvalidProducerId,
    CannotConsume(String),
    TransportNotCreated,
    TransportNotConnected,
    ProducerNotCreated,
    ConsumerNotCreated,
    ConsumerNotResumed,
}

impl SfuError {
    /// The wording of the error.
    pub open spec fn text(&self) -> Seq<char> {
        match *self {
            SfuError::TransportNotFound(id) => "transport '"@ + id@ + "' not found"@,
            SfuError::NotASendTransport(id) => "transport '"@ + id@ + "' is not a send transport"@,
            SfuError::NotARecvTransport(id) => "transport '"@ + id@ + "' is not a recv transport"@,
            SfuError::ConsumerNotFound(id) => "consumer '"@ + id@ + "' not found"@,
            SfuError::RoomNotFound(id) => "room '"@ + id@ + "' not found"@,
            SfuError::InvalidProducerId => "invalid producer ID format"@,
            SfuError::CannotConsume(id) => "router cannot consume producer '"@ + id@
                + "' with provided RTP capabilities"@,
            SfuError::TransportNotCreated => "failed to create mediasoup WebRTC transport"@,
            SfuError::TransportNotConnected => "failed to connect mediasoup WebRTC transport"@,
            SfuError::ProducerNotCreated => "failed to create mediasoup producer"@,
            SfuError::ConsumerNotCreated => "failed to create mediasoup consumer"@,
            SfuError::ConsumerNotResumed => "failed to resume mediasoup consumer"@,
        }
    }

    /// What to tell the client.
    pub fn message(&self) -> (r: String)
        ensures
            r@ == self.text(),
    {
        match self {
            SfuError::TransportNotFound(id) => join3("transport '", id.as_str(), "' not found"),
            SfuError::NotASendTransport(id) => join3(
                "transport '",
                id.as_str(),
                "' is not a send transport",
            ),
            SfuError::NotARecvTransport(id) => join3(
                "transport '",
                id.as_str(),
                "' is not a recv transport",
            ),
            SfuError::ConsumerNotFound(id) => join3("consumer '", id.as_str(), "' not found"),
            SfuError::RoomNotFound(id) => join3("room '", id.as_str(), "' not found"),
            SfuError::InvalidProducerId => "invalid producer ID format".to_owned(),
            SfuError::CannotConsume(id) => join3(
                "router cannot consume producer '",
                id.as_str(),
                "' with provided RTP capabilities",
            ),
            SfuError::TransportNotCreated => "failed to create mediasoup WebRTC transport".to_owned(),
            SfuError::TransportNotConnected =>
                "failed to connect mediasoup WebRTC transport".to_owned(),
            SfuError::ProducerNotCreated => "failed to create mediasoup producer".to_owned(),
            SfuError::ConsumerNotCreated => "failed to create mediasoup consumer".to_owned(),
            SfuError::ConsumerNotResumed => "failed to resume mediasoup consumer".to_owned(),
        }
    }
}

/// A peer of a room.
pub struct PeerState {
    id: String,
    room_id: String,
    transports: Table<TransportDirection>,
    producers: NameSet,
    consumers: NameSet,
    stt_consumers: NameSet,
}

impl View for PeerState {
    type V = PeerModel;

    closed spec fn view(&self) -> PeerModel {
        PeerModel {
            id: self.id@,
            room_id: self.room_id@,
            transports: self.transports@,
            producers: self.producers@,
            consumers: self.consumers@,
            stt_consumers: self.stt_consumers@,
        }
    }
}

impl PeerState {
    /// A peer that holds nothing yet.
    pub fn new(id: String, room_id: String) -> (r: Self)
        ensures
            r@ == new_peer(id@, room_id@),
    {
        PeerState {
            id,
            room_id,
            transports: Table::new(),
            producers: NameSet::new(),
            consumers: NameSet::new(),
            stt_consumers: NameSet::new(),
        }
    }

    /// The peer's name.
    pub fn id(&self) -> (r: &str)
        ensures
            r@ == self@.id,
    {
        self.id.as_str()
    }

    /// The room that the peer is in.
    pub fn room_id(&self) -> (r: &str)
        ensures
            r@ == self@.room_id,
    {
        self.room_id.as_str()
    }

    /// The direction of one of the peer's transports.
    pub fn transport(&self, transport_id: &str) -> (r: Result<TransportDirection, SfuError>)
        ensures
            match r {
                Ok(direction) => self@.transports.contains_key(transport_id@)
                    && self@.transports[transport_id@] == direction,
                Err(error) => !self@.transports.contains_key(transport_id@) && (
                error matches SfuError::TransportNotFound(id) && id@ == transport_id@),
            },
    {
        match self.transports.get(transport_id) {
            Some(direction) => Ok(*direction),
            None => Err(SfuError::TransportNotFound(transport_id.to_owned())),
        }
    }

    /// Whether the peer can produce on a transport.
    pub fn send_transport(&self, transport_id: &str) -> (r: Result<(), SfuError>)
        ensures
            match r {
                Ok(_) => self@.transports.contains_key(transport_id@)
                    && self@.transports[transport_id@] == TransportDirection::Send,
                Err(SfuError::TransportNotFound(id)) => id@ == transport_id@
                    && !self@.transports.contains_key(transport_id@),
                Err(SfuError::NotASendTransport(id)) => id@ == transport_id@
                    && self@.transports.contains_key(transport_id@)
                    && self@.transports[transport_id@] != TransportDirection::Send,
                Err(_) => false,
            },
    {
        match self.transport(transport_id) {
            Ok(TransportDirection::Send) => Ok(()),
            Ok(TransportDirection::Recv) => Err(
                SfuError::NotASendTransport(transport_id.to_owned()),
            ),
            Err(error) => Err(error),
        }
    }

    /// Whether the peer can consume on a transport.
    pub fn recv_transport(&self, transport_id: &str) -> (r: Result<(), SfuError>)
        ensures
            match r {
                Ok(_) => self@.transports.contains_key(transport_id@)
                    && self@.transports[transport_id@] == TransportDirection::Recv,
                Err(SfuError::TransportNotFound(id)) => id@ == transport_id@
                    && !self@.transports.contains_key(transport_id@),
                Err(SfuError::NotARecvTransport(id)) => id@ == transport_id@
                    && self@.transports.contains_key(transport_id@)
                    && self@.transports[transport_id@] != TransportDirection::Recv,
                Err(_) => false,
            },
    {
        match self.transport(transport_id) {
            Ok(TransportDirection::Recv) => Ok(()),
            Ok(TransportDirection::Send) => Err(
                SfuError::NotARecvTransport(transport_id.to_owned()),
            ),
            Err(error) => Err(error),
        }
    }

    /// Whether a consumer is the peer's.
    pub fn consumer(&self, consumer_id: &str) -> (r: Result<(), SfuError>)
        ensures
            match r {
                Ok(_) => self@.consumers.contains(consumer_id@),
                Err(SfuError::ConsumerNotFound(id)) => id@ == consumer_id@
                    && !self@.consumers.contains(consumer_id@),
                Err(_) => false,
            },
    {
        if self.consumers.contains(consumer_id) {
            Ok(())
        } else {
            Err(SfuError::ConsumerNotFound(consumer_id.to_owned()))
        }
    }

    /// Records a transport of the peer.
    pub fn add_transport(&mut self, transport_id: String, direction: TransportDirection)
        ensures
            final(self)@ == (PeerModel {
                transports: old(self)@.transports.insert(transport_id@, direction),
                ..old(self)@
            }),
    {
        self.transports.insert(transport_id, direction);
    }

    /// Records a producer of the peer.
    pub fn add_producer(&mut self, producer_id: String)
        ensures
            final(self)@ == (PeerModel {
                producers: old(self)@.producers.insert(producer_id@),
                ..old(self)@
            }),
    {
        self.producers.insert(producer_id);
    }

    /// Records a consumer of the peer.
    pub fn add_consumer(&mut self, consumer_id: String)
        ensures
            final(self)@ == (PeerModel {
                consumers: old(self)@.consumers.insert(consumer_id@),
                ..old(self)@
            }),
    {
        self.consumers.insert(consumer_id);
    }

    /// Records that a producer of the peer is being transcribed.
    pub fn add_stt_consumer(&mut self, producer_id: String)
        ensures
            final(self)@ == (PeerModel {
                stt_consumers: old(self)@.stt_consumers.insert(producer_id@),
                ..old(self)@
            }),
    {
        self.stt_consumers.insert(producer_id);
    }
}

/// The shape of a random identifier: 36 characters, lower-case hexadecimal digits but for the
/// hyphens, the version digit `4` and a variant digit out of `8`, `9`, `a` and `b`.
pub open spec fn is_random_id(s: Seq<char>) -> bool {
    &&& s.len() == 36
    &&& forall|i: int|
        0 <= i < 36 ==> if i == 8 || i == 13 || i == 18 || i == 23 {
            #[trigger] s[i] == '-'
        } else {
            is_hex_digit(s[i])
        }
    &&& s[14] == '4'
    &&& s[19] == '8' || s[19] == '9' || s[19] == 'a' || s[19] == 'b'
}

/// `c` is a lower-case hexadecimal digit.
pub open spec fn is_hex_digit(c: char) -> bool {
    ('0' as int <= c as int <= '9' as int) || ('a' as int <= c as int <= 'f' as int)
}

/// Draws an identifier: `uuid::Uuid::new_v4`, written by the `Display` of `uuid::Uuid`.
///
/// Believed of it is the form of the text alone: a version 4 identifier in the hyphenated
/// lower-case notation. The digits are drawn at random, and nothing is said of two draws. Where the
/// operating system has no random bytes to give, the call panics.
#[verifier::external_body]
fn draw_id() -> (r: String)
    ensures
        is_random_id(r@),
{
    uuid::Uuid::new_v4().to_string()
}

/// How a WebRTC transport is to listen.
#[derive(Debug)]
pub struct TransportOptions {
    pub protocol: TransportProtocol,
    pub listen_ip: String,
    pub announced_address: Option<String>,
    pub expose_internal_ip: bool,
    pub enable_tcp: bool,
}

/// The protocol of a listening socket.
#[derive(Debug, Clone, Copy, PartialEq, Eq, Structural)]
pub enum TransportProtocol {
    Udp,
    Tcp,
}

/// Where the media layer listens, and the address that it tells its peers.
#[derive(Debug)]
pub struct SfuSettings {
    pub listen_ip: String,
    pub announced_address: Option<String>,
}

impl SfuSettings {
    /// The settings from what the environment holds. A listen address that is missing, or that is
    /// no IP address, gives way to `0.0.0.0`; a missing announced address to `10.0.2.2`.
    pub fn new(
        listen_ip: Option<String>,
        listen_ip_is_valid: bool,
        announced_address: Option<String>,
    ) -> (r: Self)
        ensures
            r.listen_ip@ == match listen_ip {
                Some(ip) if listen_ip_is_valid => ip@,
                _ => "0.0.0.0"@,
            },
            r.announced_address matches Some(address) && address@ == match announced_address {
                Some(address) => address@,
                None => "10.0.2.2"@,
            },
    {
        let listen_ip = match listen_ip {
            Some(ip) => if listen_ip_is_valid {
                ip
            } else {
                "0.0.0.0".to_owned()
            },
            None => "0.0.0.0".to_owned(),
        };
        let announced_address = match announced_address {
            Some(address) => address,
            None => "10.0.2.2".to_owned(),
        };
        SfuSettings { listen_ip, announced_address: Some(announced_address) }
    }
}

struct RoomState {
    peers: NameSet,
    producer_owners: Table<String>,
}

spec fn room_model(room: RoomState) -> RoomModel {
    RoomModel {
        peers: room.peers@,
        producer_owners: room.producer_owners@.map_values(|owner: String| owner@),
    }
}

spec fn room_models(rooms: Map<Seq<char>, RoomState>) -> Map<Seq<char>, RoomModel> {
    rooms.map_values(|room: RoomState| room_model(room))
}

proof fn lemma_join_peoples(
    rooms: Map<Seq<char>, RoomModel>,
    room_id: Seq<char>,
    peer_id: Seq<char>,
)
    requires
        no_room_is_empty(rooms),
    ensures
        no_room_is_empty(after_join(rooms, room_id, peer_id)),
{
    let joined = after_join(rooms, room_id, peer_id);
    assert(joined[room_id].peers.contains(peer_id));
    assert forall|id: Seq<char>| #[trigger] joined.contains_key(id) implies joined[id].peers
        != Set::<Seq<char>>::empty() by {
        if id != room_id {
            assert(rooms.contains_key(id));
        }
    }
}

proof fn lemma_publish_keeps_peopled(
    rooms: Map<Seq<char>, RoomModel>,
    room_id: Seq<char>,
    peer_id: Seq<char>,
    producer_id: Seq<char>,
)
    requires
        no_room_is_empty(rooms),
        rooms.contains_key(room_id),
    ensures
        no_room_is_empty(after_publish(rooms, room_id, peer_id, producer_id)),
{
    let offered = after_publish(rooms, room_id, peer_id, producer_id);
    assert forall|id: Seq<char>| #[trigger] offered.contains_key(id) implies offered[id].peers
        != Set::<Seq<char>>::empty() by {
        assert(rooms.contains_key(id));
    }
}

proof fn lemma_leave_keeps_peopled(
    rooms: Map<Seq<char>, RoomModel>,
    room_id: Seq<char>,
    peer_id: Seq<char>,
    producers: Set<Seq<char>>,
)
    requires
        no_room_is_empty(rooms),
        rooms.contains_key(room_id),
    ensures
        no_room_is_empty(after_leave(rooms, room_id, peer_id, producers)),
{
    let left = after_leave(rooms, room_id, peer_id, producers);
    assert forall|id: Seq<char>| #[trigger] left.contains_key(id) implies left[id].peers != Set::<
        Seq<char>,
    >::empty() by {
        assert(rooms.contains_key(id));
    }
}

/// The forwarding unit: its rooms, and what it tells every peer.
pub struct Sfu {
    rooms: Table<RoomState>,
    settings: SfuSettings,
    router_rtp_capabilities: String,
}

/// Who stays behind when a peer leaves a room.
#[derive(Debug)]
pub struct Departure {
    pub remaining: Vec<String>,
    pub room_empty: bool,
}

impl Sfu {
    /// No room is empty, in whatever state the forwarding unit is.
    #[verifier::type_invariant]
    pub open spec fn is_peopled(self) -> bool {
        no_room_is_empty(self.rooms())
    }

    /// The rooms, by name.
    pub closed spec fn rooms(&self) -> Map<Seq<char>, RoomModel> {
        room_models(self.rooms@)
    }

    /// Where transports listen.
    pub closed spec fn settings(&self) -> SfuSettings {
        self.settings
    }

    /// What the router can receive, as JSON text.
    pub closed spec fn capabilities(&self) -> String {
        self.router_rtp_capabilities
    }

    /// Everything but the rooms is as in `other`.
    pub open spec fn same_setup(&self, other: &Sfu) -> bool {
        self.settings() == other.settings() && self.capabilities() == other.capabilities()
    }

    /// A forwarding unit without rooms.
    pub fn new(settings: SfuSettings, router_rtp_capabilities: String) -> (r: Self)
        ensures
            r.rooms() == Map::<Seq<char>, RoomModel>::empty(),
            no_room_is_empty(r.rooms()),
            r.settings() == settings,
            r.capabilities() == router_rtp_capabilities,
    {
        let rooms: Table<RoomState> = Table::new();
        assert(room_models(rooms@) =~= Map::<Seq<char>, RoomModel>::empty());
        Sfu { rooms, settings, router_rtp_capabilities }
    }

    /// What the router can receive, as JSON text.
    pub fn router_rtp_capabilities(&self) -> (r: String)
        ensures
            r == self.capabilities(),
    {
        self.router_rtp_capabilities.clone()
    }

    /// How a new WebRTC transport is to listen: on UDP, with TCP as a way out.
    pub fn transport_options(&self) -> (r: TransportOptions)
        ensures
            r == (TransportOptions {
                protocol: TransportProtocol::Udp,
                listen_ip: self.settings().listen_ip,
                announced_address: self.settings().announced_address,
                expose_internal_ip: false,
                enable_tcp: true,
            }),
    {
        let announced_address = match &self.settings.announced_address {
            Some(address) => Some(address.clone()),
            None => None,
        };
        TransportOptions {
            protocol: TransportProtocol::Udp,
            listen_ip: self.settings.listen_ip.clone(),
            announced_address,
            expose_internal_ip: false,
            enable_tcp: true,
        }
    }

    /// Puts a new peer, under a name drawn at random, into a room. Gives back the peer and the
    /// producers that the room had.
    pub fn create_peer(&mut self, room_id: String) -> (r: (PeerState, Vec<String>))
        ensures
            is_random_id(r.0@.id),
            r.0@ == new_peer(r.0@.id, room_id@),
            table::enumerates(
                table::texts(r.1@),
                room_or_empty(old(self).rooms(), room_id@).producer_owners.dom(),
            ),
            final(self).rooms() == after_join(old(self).rooms(), room_id@, r.0@.id),
            final(self).same_setup(old(self)),
            no_room_is_empty(old(self).rooms()),
            no_room_is_empty(final(self).rooms()),
    {
        let peer_id = draw_id();
        self.add_peer(peer_id, room_id)
    }

    /// Puts a new peer of the given name into a room. Gives back the peer and the producers that
    /// the room had.
    pub fn add_peer(&mut self, peer_id: String, room_id: String) -> (r: (PeerState, Vec<String>))
        ensures
            r.0@ == new_peer(peer_id@, room_id@),
            table::enumerates(
                table::texts(r.1@),
                room_or_empty(old(self).rooms(), room_id@).producer_owners.dom(),
            ),
            final(self).rooms() == after_join(old(self).rooms(), room_id@, peer_id@),
            final(self).same_setup(old(self)),
            no_room_is_empty(old(self).rooms()),
            no_room_is_empty(final(self).rooms()),
    {
        proof {
            use_type_invariant(&*self);
        }
        let mut rooms: Table<RoomState> = Table::new();
        std::mem::swap(&mut rooms, &mut self.rooms);
        let mut room = match rooms.remove(room_id.as_str()) {
            Some(room) => room,
            None => RoomState { peers: NameSet::new(), producer_owners: Table::new() },
        };
        let existing = room.producer_owners.keys();
        let ghost before = room_model(room);
        proof {
            assert(before =~= room_or_empty(old(self).rooms(), room_id@));
            assert(before.producer_owners.dom() =~= room.producer_owners@.dom());
        }
        room.peers.insert(peer_id.clone());
        rooms.insert(room_id.clone(), room);
        proof {
            assert(room_models(rooms@) =~= after_join(old(self).rooms(), room_id@, peer_id@));
            lemma_join_peoples(old(self).rooms(), room_id@, peer_id@);
        }
        self.rooms = rooms;
        (PeerState::new(peer_id, room_id), existing)
    }

    /// Whether a room has a producer.
    pub fn room_has_producer(&self, room_id: &str, producer_id: &str) -> (r: bool)
        ensures
            r == has_producer(self.rooms(), room_id@, producer_id@),
    {
        match self.rooms.get(room_id) {
            Some(room) => room.producer_owners.contains_key(producer_id),
            None => false,
        }
    }

    /// Offers a producer of `peer` to the peer's room. Gives back everybody else in the room.
    pub fn publish_producer(&mut self, peer: &PeerState, producer_id: String) -> (r: Result<
        Vec<String>,
        SfuError,
    >)
        ensures
            final(self).same_setup(old(self)),
            no_room_is_empty(old(self).rooms()),
            no_room_is_empty(final(self).rooms()),
            match r {
                Ok(others) => {
                    &&& old(self).rooms().contains_key(peer@.room_id)
                    &&& final(self).rooms() == after_publish(
                        old(self).rooms(),
                        peer@.room_id,
                        peer@.id,
                        producer_id@,
                    )
                    &&& table::enumerates(
                        table::texts(others@),
                        old(self).rooms()[peer@.room_id].peers.remove(peer@.id),
                    )
                },
                Err(SfuError::RoomNotFound(id)) => {
                    &&& !old(self).rooms().contains_key(peer@.room_id)
                    &&& id@ == peer@.room_id
                    &&& final(self).rooms() == old(self).rooms()
                },
                Err(_) => false,
            },
    {
        proof {
            use_type_invariant(&*self);
        }
        let mut rooms: Table<RoomState> = Table::new();
        std::mem::swap(&mut rooms, &mut self.rooms);
        match rooms.remove(peer.room_id.as_str()) {
            Some(room) => {
                let mut room = room;
                room.producer_owners.insert(producer_id, peer.id.clone());
                let others = room.peers.members_except(peer.id.as_str());
                assert(room_model(room) =~= RoomModel {
                    producer_owners: old(self).rooms()[peer@.room_id].producer_owners.insert(
                        producer_id@,
                        peer@.id,
                    ),
                    ..old(self).rooms()[peer@.room_id]
                });
                rooms.insert(peer.room_id.clone(), room);
                proof {
                    assert(room_models(rooms@) =~= after_publish(
                        old(self).rooms(),
                        peer@.room_id,
                        peer@.id,
                        producer_id@,
                    ));
                    lemma_publish_keeps_peopled(
                        old(self).rooms(),
                        peer@.room_id,
                        peer@.id,
                        producer_id@,
                    );
                }
                self.rooms = rooms;
                Ok(others)
            },
            None => {
                assert(room_models(rooms@) =~= old(self).rooms());
                self.rooms = rooms;
                Err(SfuError::RoomNotFound(peer.room_id.clone()))
            },
        }
    }

    /// Takes `peer` out of its room, and with it what it produced there. A room that is left empty
    /// goes too. Gives back who stays behind; nothing, if the peer was not there.
    pub fn remove_peer(&mut self, peer: &PeerState) -> (r: Option<Departure>)
        ensures
            final(self).same_setup(old(self)),
            no_room_is_empty(old(self).rooms()),
            no_room_is_empty(final(self).rooms()),
            r is Some <==> is_present(old(self).rooms(), peer@.room_id, peer@.id),
            match r {
                Some(departure) => {
                    let rest = old(self).rooms()[peer@.room_id].peers.remove(peer@.id);
                    &&& final(self).rooms() == after_leave(
                        old(self).rooms(),
                        peer@.room_id,
                        peer@.id,
                        peer@.producers,
                    )
                    &&& table::enumerates(table::texts(departure.remaining@), rest)
                    &&& departure.room_empty == (rest == Set::<Seq<char>>::empty())
                },
                None => final(self).rooms() == old(self).rooms(),
            },
    {
        proof {
            use_type_invariant(&*self);
        }
        let ghost before = self.rooms();
        let mut rooms: Table<RoomState> = Table::new();
        std::mem::swap(&mut rooms, &mut self.rooms);
        match rooms.remove(peer.room_id.as_str()) {
            Some(room) => {
                let mut room = room;
                let ghost whole = room_model(room);
                assert(whole == before[peer@.room_id]);
                if !room.peers.remove(peer.id.as_str()) {
                    assert(room.peers@ =~= whole.peers);
                    assert(room_model(room) =~= whole);
                    rooms.insert(peer.room_id.clone(), room);
                    assert(room_models(rooms@) =~= before);
                    self.rooms = rooms;
                    return None;
                }
                let producers = peer.producers.members();
                release_producers(&mut room.producer_owners, &producers);
                let remaining = room.peers.members();
                let room_empty = room.peers.is_empty();
                let ghost rest = room_without(whole, peer@.id, peer@.producers);
                assert(room_model(room) =~= rest);
                if !room_empty {
                    rooms.insert(peer.room_id.clone(), room);
                }
                proof {
                    assert(room_models(rooms@) =~= after_leave(
                        before,
                        peer@.room_id,
                        peer@.id,
                        peer@.producers,
                    ));
                    lemma_leave_keeps_peopled(before, peer@.room_id, peer@.id, peer@.producers);
                }
                self.rooms = rooms;
                Some(Departure { remaining, room_empty })
            },
            None => {
                assert(room_models(rooms@) =~= before);
                self.rooms = rooms;
                None
            },
        }
    }
}

/// Takes the producers out of a room's table of owners.
fn release_producers(owners: &mut Table<String>, producers: &Vec<String>)
    ensures
        final(owners)@ == old(owners)@.remove_keys(table::texts(producers@).to_set()),
{
    let mut i: usize = 0;
    let ghost names = table::texts(producers@);
    assert(owners@ =~= old(owners)@.remove_keys(names.take(0).to_set()));
    while i < producers.len()
        invariant
            i <= producers@.len(),
            names == table::texts(producers@),
            owners@ == old(owners)@.remove_keys(names.take(i as int).to_set()),
        decreases producers@.len() - i,
    {
        let _ = owners.remove(producers[i].as_str());
        proof {
            let taken = names.take(i as int);
            assert(names.take(i + 1) =~= taken.push(names[i as int]));
            assert forall|key: Seq<char>| #[trigger]
                taken.push(names[i as int]).to_set().contains(key) <==> taken.to_set().contains(key)
                    || key == names[i as int] by {
                table::lemma_push_contains(taken, names[i as int], key);
            }
            assert(owners@ =~= old(owners)@.remove_keys(names.take(i + 1).to_set()));
        }
        i = i + 1;
    }
    assert(names.take(producers@.len() as int) =~= names);
}

} // verus!
