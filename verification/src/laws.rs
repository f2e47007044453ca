//! What holds of rooms and conversations across requests.

use vstd::prelude::*;

use crate::session;
use crate::session::Step;
use crate::sfu;
use crate::sfu::{PeerModel, RoomModel, Sfu, SfuError};
use crate::signaling;
use crate::signaling::{
    ClientEnvelope, ClientSignal, CreatedConsumer, CreatedTransport, EnvelopeModel, MediaKind, Notice,
    ServerEnvelope, ServerSignal, SignalModel, TransportDirection,
};

verus! {

/// `peers` are the peers of all conversations, and the rooms tell the same story as they do: who is
/// in a room is a peer of that room, and the other way round; who owns a producer of a room is a
/// peer of that room that holds the producer; and no room is empty.
pub open spec fn consistent(
    rooms: Map<Seq<char>, RoomModel>,
    peers: Map<Seq<char>, PeerModel>,
) -> bool {
    &&& sfu::no_room_is_empty(rooms)
    &&& forall|id: Seq<char>| #[trigger]
        peers.contains_key(id) ==> peers[id].id == id && sfu::is_present(
            rooms,
            peers[id].room_id,
            id,
        )
    &&& forall|room_id: Seq<char>, id: Seq<char>| #[trigger]
        sfu::is_present(rooms, room_id, id) ==> peers.contains_key(id) && peers[id].room_id
            == room_id
    &&& forall|room_id: Seq<char>, producer_id: Seq<char>| #[trigger]
        sfu::has_producer(rooms, room_id, producer_id) ==> is_held(
            peers,
            room_id,
            rooms[room_id].producer_owners[producer_id],
            producer_id,
        )
}

/// `owner` is a peer of the room `room_id` that holds the producer `producer_id`.
pub open spec fn is_held(
    peers: Map<Seq<char>, PeerModel>,
    room_id: Seq<char>,
    owner: Seq<char>,
    producer_id: Seq<char>,
) -> bool {
    peers.contains_key(owner) && peers[owner].room_id == room_id
        && peers[owner].producers.contains(producer_id)
}

/// Joining puts the peer into the room and changes nothing else: nobody moves, and every producer
/// stays with its owner.
pub proof fn law_joining_adds_one_peer(
    rooms: Map<Seq<char>, RoomModel>,
    room_id: Seq<char>,
    peer_id: Seq<char>,
    room: Seq<char>,
    peer: Seq<char>,
    producer: Seq<char>,
)
    ensures
        ({
            let now = sfu::after_join(rooms, room_id, peer_id);
            &&& now.contains_key(room) <==> rooms.contains_key(room) || room == room_id
            &&& now.contains_key(room) ==> {
                &&& now[room].peers.contains(peer) <==> (rooms.contains_key(room)
                    && rooms[room].peers.contains(peer)) || (room == room_id && peer == peer_id)
                &&& now[room].producer_owners.contains_key(producer) <==> rooms.contains_key(room)
                    && rooms[room].producer_owners.contains_key(producer)
                &&& now[room].producer_owners.contains_key(producer)
                    ==> now[room].producer_owners[producer] == rooms[room].producer_owners[producer]
            }
        }),
{
}

/// Offering a producer adds it to the room, under its owner, and changes nothing else.
pub proof fn law_publishing_adds_one_producer(
    rooms: Map<Seq<char>, RoomModel>,
    room_id: Seq<char>,
    peer_id: Seq<char>,
    producer_id: Seq<char>,
    room: Seq<char>,
    producer: Seq<char>,
)
    requires
        rooms.contains_key(room_id),
    ensures
        ({
            let now = sfu::after_publish(rooms, room_id, peer_id, producer_id);
            &&& now.contains_key(room) <==> rooms.contains_key(room)
            &&& rooms.contains_key(room) ==> {
                &&& now[room].peers == rooms[room].peers
                &&& now[room].producer_owners.contains_key(producer)
                    <==> rooms[room].producer_owners.contains_key(producer) || (room == room_id
                    && producer == producer_id)
                &&& now[room].producer_owners.contains_key(producer)
                    ==> now[room].producer_owners[producer] == if room == room_id && producer
                    == producer_id {
                    peer_id
                } else {
                    rooms[room].producer_owners[producer]
                }
            }
        }),
{
}

/// Leaving takes the peer and its producers out of the room, and the room too if nobody stays; it
/// changes nothing else.
pub proof fn law_leaving_takes_one_peer(
    rooms: Map<Seq<char>, RoomModel>,
    room_id: Seq<char>,
    peer_id: Seq<char>,
    producers: Set<Seq<char>>,
    room: Seq<char>,
    peer: Seq<char>,
    producer: Seq<char>,
)
    requires
        rooms.contains_key(room_id),
    ensures
        ({
            let now = sfu::after_leave(rooms, room_id, peer_id, producers);
            &&& room != room_id ==> (now.contains_key(room) <==> rooms.contains_key(room))
            &&& now.contains_key(room_id) <==> exists|other: Seq<char>|
                other != peer_id && #[trigger] rooms[room_id].peers.contains(other)
            &&& now.contains_key(room) ==> {
                &&& now[room].peers.contains(peer) <==> rooms[room].peers.contains(peer) && !(room
                    == room_id && peer == peer_id)
                &&& now[room].producer_owners.contains_key(producer)
                    <==> rooms[room].producer_owners.contains_key(producer) && !(room == room_id
                    && producers.contains(producer))
                &&& now[room].producer_owners.contains_key(producer)
                    ==> now[room].producer_owners[producer] == rooms[room].producer_owners[producer]
            }
        }),
{
    let rest = rooms[room_id].peers.remove(peer_id);
    if rest == Set::<Seq<char>>::empty() {
        assert forall|other: Seq<char>|
            other != peer_id implies !#[trigger] rooms[room_id].peers.contains(other) by {
            assert(!rest.contains(other));
        }
    } else {
        if forall|other: Seq<char>| !#[trigger] rest.contains(other) {
            assert(rest =~= Set::<Seq<char>>::empty());
        }
        let other = choose|other: Seq<char>| rest.contains(other);
        assert(rooms[room_id].peers.contains(other));
    }
}

/// To be in a room is to be among its peers, and a room has a producer as soon as somebody owns it
/// there. A room that does not exist has neither.
pub proof fn law_rooms_have_what_they_hold(
    rooms: Map<Seq<char>, RoomModel>,
    room_id: Seq<char>,
    name: Seq<char>,
)
    ensures
        !rooms.contains_key(room_id) ==> !sfu::is_present(rooms, room_id, name)
            && !sfu::has_producer(rooms, room_id, name) && !sfu::room_or_empty(
            rooms,
            room_id,
        ).peers.contains(name) && !sfu::room_or_empty(
            rooms,
            room_id,
        ).producer_owners.contains_key(name),
        rooms.contains_key(room_id) ==> {
            &&& sfu::is_present(rooms, room_id, name) == rooms[room_id].peers.contains(name)
            &&& sfu::has_producer(rooms, room_id, name)
                == rooms[room_id].producer_owners.contains_key(name)
            &&& sfu::room_or_empty(rooms, room_id) == rooms[room_id]
        },
        sfu::no_room_is_empty(rooms) && rooms.contains_key(room_id) ==> exists|peer: Seq<char>|
            #[trigger] rooms[room_id].peers.contains(peer),
{
    if sfu::no_room_is_empty(rooms) && rooms.contains_key(room_id) {
        let peers = rooms[room_id].peers;
        if forall|peer: Seq<char>| !#[trigger] peers.contains(peer) {
            assert(peers =~= Set::<Seq<char>>::empty());
        }
    }
}

/// A peer that has just joined has its name and its room, and holds nothing.
pub proof fn law_new_peers_hold_nothing(peer_id: Seq<char>, room_id: Seq<char>, name: Seq<char>)
    ensures
        sfu::new_peer(peer_id, room_id).id == peer_id,
        sfu::new_peer(peer_id, room_id).room_id == room_id,
        !sfu::new_peer(peer_id, room_id).transports.contains_key(name),
        !sfu::new_peer(peer_id, room_id).producers.contains(name),
        !sfu::new_peer(peer_id, room_id).consumers.contains(name),
        !sfu::new_peer(peer_id, room_id).stt_consumers.contains(name),
{
}

/// A server without rooms and peers is consistent.
pub proof fn law_start_is_consistent()
    ensures
        consistent(Map::empty(), Map::empty()),
{
}

/// A peer that joins under a name that nobody has keeps everything consistent.
pub proof fn law_join_keeps_consistency(
    rooms: Map<Seq<char>, RoomModel>,
    peers: Map<Seq<char>, PeerModel>,
    room_id: Seq<char>,
    peer_id: Seq<char>,
)
    requires
        consistent(rooms, peers),
        !peers.contains_key(peer_id),
    ensures
        consistent(
            sfu::after_join(rooms, room_id, peer_id),
            peers.insert(peer_id, sfu::new_peer(peer_id, room_id)),
        ),
{
    let rooms1 = sfu::after_join(rooms, room_id, peer_id);
    let peers1 = peers.insert(peer_id, sfu::new_peer(peer_id, room_id));
    assert(rooms1[room_id].peers.contains(peer_id));
    assert forall|id: Seq<char>| #[trigger] peers1.contains_key(id) implies peers1[id].id == id
        && sfu::is_present(rooms1, peers1[id].room_id, id) by {
        if id != peer_id {
            assert(peers.contains_key(id));
        }
    }
    assert forall|r: Seq<char>, id: Seq<char>| #[trigger]
        sfu::is_present(rooms1, r, id) implies peers1.contains_key(id) && peers1[id].room_id
        == r by {
        if r != room_id || id != peer_id {
            assert(sfu::is_present(rooms, r, id));
        }
    }
    assert forall|r: Seq<char>, p: Seq<char>| #[trigger] sfu::has_producer(rooms1, r, p) implies
        is_held(peers1, r, rooms1[r].producer_owners[p], p) by {
        assert(sfu::has_producer(rooms, r, p));
    }
}

/// What a peer records about itself keeps everything consistent, as long as it keeps its name, its
/// room and the producers that it had.
pub proof fn law_records_keep_consistency(
    rooms: Map<Seq<char>, RoomModel>,
    peers: Map<Seq<char>, PeerModel>,
    peer: PeerModel,
)
    requires
        consistent(rooms, peers),
        peers.contains_key(peer.id),
        peers[peer.id].room_id == peer.room_id,
        peers[peer.id].producers.subset_of(peer.producers),
    ensures
        consistent(rooms, peers.insert(peer.id, peer)),
{
    let peers1 = peers.insert(peer.id, peer);
    assert forall|id: Seq<char>| #[trigger] peers1.contains_key(id) implies peers1[id].id == id
        && sfu::is_present(rooms, peers1[id].room_id, id) by {
        assert(peers.contains_key(id));
    }
    assert forall|r: Seq<char>, p: Seq<char>| #[trigger] sfu::has_producer(rooms, r, p) implies
        is_held(peers1, r, rooms[r].producer_owners[p], p) by {
        assert(is_held(peers, r, rooms[r].producer_owners[p], p));
    }
}

/// A peer that offers a producer which it holds keeps everything consistent.
pub proof fn law_publish_keeps_consistency(
    rooms: Map<Seq<char>, RoomModel>,
    peers: Map<Seq<char>, PeerModel>,
    peer_id: Seq<char>,
    producer_id: Seq<char>,
)
    requires
        consistent(rooms, peers),
        peers.contains_key(peer_id),
        peers[peer_id].producers.contains(producer_id),
    ensures
        rooms.contains_key(peers[peer_id].room_id),
        consistent(
            sfu::after_publish(rooms, peers[peer_id].room_id, peer_id, producer_id),
            peers,
        ),
{
    let room_id = peers[peer_id].room_id;
    let rooms1 = sfu::after_publish(rooms, room_id, peer_id, producer_id);
    assert(sfu::is_present(rooms, room_id, peer_id));
    assert forall|r: Seq<char>| #[trigger] rooms1.contains_key(r) implies rooms1[r].peers
        != Set::<Seq<char>>::empty() by {
        assert(rooms.contains_key(r));
    }
    assert forall|r: Seq<char>, id: Seq<char>| #[trigger]
        sfu::is_present(rooms1, r, id) implies peers.contains_key(id) && peers[id].room_id == r by {
        assert(sfu::is_present(rooms, r, id));
    }
    assert forall|r: Seq<char>, p: Seq<char>| #[trigger] sfu::has_producer(rooms1, r, p) implies
        is_held(peers, r, rooms1[r].producer_owners[p], p) by {
        if r != room_id || p != producer_id {
            assert(sfu::has_producer(rooms, r, p));
        }
    }
}

/// A peer that leaves keeps everything consistent.
pub proof fn law_leave_keeps_consistency(
    rooms: Map<Seq<char>, RoomModel>,
    peers: Map<Seq<char>, PeerModel>,
    peer_id: Seq<char>,
)
    requires
        consistent(rooms, peers),
        peers.contains_key(peer_id),
    ensures
        sfu::is_present(rooms, peers[peer_id].room_id, peer_id),
        consistent(
            sfu::after_leave(rooms, peers[peer_id].room_id, peer_id, peers[peer_id].producers),
            peers.remove(peer_id),
        ),
{
    let gone = peers[peer_id];
    let rooms1 = sfu::after_leave(rooms, gone.room_id, peer_id, gone.producers);
    let peers1 = peers.remove(peer_id);
    let rest = sfu::room_without(rooms[gone.room_id], peer_id, gone.producers);
    assert forall|id: Seq<char>| #[trigger] peers1.contains_key(id) implies peers1[id].id == id
        && sfu::is_present(rooms1, peers1[id].room_id, id) by {
        assert(peers.contains_key(id));
        assert(sfu::is_present(rooms, peers[id].room_id, id));
        if peers[id].room_id == gone.room_id {
            assert(rest.peers.contains(id));
        }
    }
    assert forall|r: Seq<char>, id: Seq<char>| #[trigger]
        sfu::is_present(rooms1, r, id) implies peers1.contains_key(id) && peers1[id].room_id
        == r by {
        assert(sfu::is_present(rooms, r, id));
        if id == peer_id {
            assert(r == gone.room_id);
            assert(!rest.peers.contains(id));
        }
    }
    assert forall|r: Seq<char>, p: Seq<char>| #[trigger] sfu::has_producer(rooms1, r, p) implies
        is_held(peers1, r, rooms1[r].producer_owners[p], p) by {
        assert(sfu::has_producer(rooms, r, p));
        assert(is_held(peers, r, rooms[r].producer_owners[p], p));
        if r == gone.room_id {
            assert(rest.producer_owners.contains_key(p));
            assert(!gone.producers.contains(p));
        }
    }
}

/// Where everything is consistent, whoever owns a producer of a room is in that room.
pub proof fn law_producers_belong_to_the_room(
    rooms: Map<Seq<char>, RoomModel>,
    peers: Map<Seq<char>, PeerModel>,
    room_id: Seq<char>,
    producer_id: Seq<char>,
)
    requires
        consistent(rooms, peers),
        sfu::has_producer(rooms, room_id, producer_id),
    ensures
        rooms[room_id].peers.contains(rooms[room_id].producer_owners[producer_id]),
{
    let owner = rooms[room_id].producer_owners[producer_id];
    assert(is_held(peers, room_id, owner, producer_id));
    assert(sfu::is_present(rooms, room_id, owner));
}

/// Where everything is consistent, nothing that a peer produced can be consumed in its room once
/// it has left, and no producer of the room names it as owner.
pub proof fn law_producers_leave_with_their_peer(
    rooms: Map<Seq<char>, RoomModel>,
    peers: Map<Seq<char>, PeerModel>,
    peer_id: Seq<char>,
    producer_id: Seq<char>,
)
    requires
        consistent(rooms, peers),
        peers.contains_key(peer_id),
    ensures
        ({
            let gone = peers[peer_id];
            let rooms1 = sfu::after_leave(rooms, gone.room_id, peer_id, gone.producers);
            &&& gone.producers.contains(producer_id) ==> !sfu::has_producer(
                rooms1,
                gone.room_id,
                producer_id,
            )
            &&& sfu::has_producer(rooms1, gone.room_id, producer_id)
                ==> rooms1[gone.room_id].producer_owners[producer_id] != peer_id
        }),
{
    law_leave_keeps_consistency(rooms, peers, peer_id);
    let gone = peers[peer_id];
    let rooms1 = sfu::after_leave(rooms, gone.room_id, peer_id, gone.producers);
    if sfu::has_producer(rooms1, gone.room_id, producer_id) {
        let owner = rooms1[gone.room_id].producer_owners[producer_id];
        assert(is_held(peers.remove(peer_id), gone.room_id, owner, producer_id));
    }
}

/// What happens in one room changes no other room.
pub proof fn law_rooms_are_separate(
    rooms: Map<Seq<char>, RoomModel>,
    room_id: Seq<char>,
    peer_id: Seq<char>,
    producer_id: Seq<char>,
    producers: Set<Seq<char>>,
    other: Seq<char>,
)
    requires
        other != room_id,
    ensures
        sfu::after_join(rooms, room_id, peer_id).contains_key(other) == rooms.contains_key(other),
        sfu::after_join(rooms, room_id, peer_id)[other] == rooms[other],
        sfu::after_publish(rooms, room_id, peer_id, producer_id).contains_key(other)
            == rooms.contains_key(other),
        sfu::after_publish(rooms, room_id, peer_id, producer_id)[other] == rooms[other],
        sfu::after_leave(rooms, room_id, peer_id, producers).contains_key(other)
            == rooms.contains_key(other),
        sfu::after_leave(rooms, room_id, peer_id, producers)[other] == rooms[other],
{
}

/// A peer that joins and leaves again, without producing, leaves no trace.
pub proof fn law_leave_undoes_join(
    rooms: Map<Seq<char>, RoomModel>,
    room_id: Seq<char>,
    peer_id: Seq<char>,
)
    requires
        sfu::no_room_is_empty(rooms),
        !sfu::is_present(rooms, room_id, peer_id),
    ensures
        sfu::after_leave(
            sfu::after_join(rooms, room_id, peer_id),
            room_id,
            peer_id,
            sfu::new_peer(peer_id, room_id).producers,
        ) == rooms,
{
    let room = sfu::room_or_empty(rooms, room_id);
    let joined = sfu::after_join(rooms, room_id, peer_id);
    let none = sfu::new_peer(peer_id, room_id).producers;
    let rest = sfu::room_without(joined[room_id], peer_id, none);
    assert(rest.peers =~= room.peers);
    assert(rest.producer_owners =~= room.producer_owners);
    assert(rest =~= room);
    assert(sfu::after_leave(joined, room_id, peer_id, none) =~= rooms);
}

/// A room exists exactly as long as somebody is in it: it is gone once its last peer has left, and
/// it is still there while others stay.
pub proof fn law_room_lives_while_peopled(
    rooms: Map<Seq<char>, RoomModel>,
    room_id: Seq<char>,
    peer_id: Seq<char>,
    producers: Set<Seq<char>>,
)
    requires
        sfu::no_room_is_empty(rooms),
        sfu::is_present(rooms, room_id, peer_id),
    ensures
        sfu::no_room_is_empty(sfu::after_leave(rooms, room_id, peer_id, producers)),
        sfu::after_leave(rooms, room_id, peer_id, producers).contains_key(room_id) <==> (exists|
            other: Seq<char>,
        | other != peer_id && #[trigger] rooms[room_id].peers.contains(other)),
{
    let rest = rooms[room_id].peers.remove(peer_id);
    let rooms1 = sfu::after_leave(rooms, room_id, peer_id, producers);
    assert forall|r: Seq<char>| #[trigger] rooms1.contains_key(r) implies rooms1[r].peers != Set::<
        Seq<char>,
    >::empty() by {
        assert(rooms.contains_key(r));
    }
    if rest == Set::<Seq<char>>::empty() {
        assert forall|other: Seq<char>|
            other != peer_id implies !#[trigger] rooms[room_id].peers.contains(other) by {
            assert(!rest.contains(other));
        }
    } else {
        if forall|other: Seq<char>| !#[trigger] rest.contains(other) {
            assert(rest =~= Set::<Seq<char>>::empty());
        }
        let other = choose|other: Seq<char>| rest.contains(other);
        assert(rooms[room_id].peers.contains(other));
    }
}

/// A producer that is offered in a room is there from then on, and still when others join.
pub proof fn law_offered_producers_stay(
    rooms: Map<Seq<char>, RoomModel>,
    room_id: Seq<char>,
    peer_id: Seq<char>,
    producer_id: Seq<char>,
    newcomer: Seq<char>,
)
    requires
        rooms.contains_key(room_id),
    ensures
        ({
            let offered = sfu::after_publish(rooms, room_id, peer_id, producer_id);
            &&& sfu::has_producer(offered, room_id, producer_id)
            &&& sfu::has_producer(
                sfu::after_join(offered, room_id, newcomer),
                room_id,
                producer_id,
            )
        }),
{
}

/// A client that joins a room is told of a producer exactly if the room has it, and only once.
pub proof fn law_newcomers_learn_of_producers(
    welcome: EnvelopeModel,
    request_id: Option<u64>,
    peer_id: Seq<char>,
    room_id: Seq<char>,
    sfu: Sfu,
    producer_id: Seq<char>,
)
    requires
        session::welcomes(welcome, request_id, peer_id, room_id, sfu),
    ensures
        welcome.signal matches SignalModel::Joined { existing_producer_ids, .. } && (
        existing_producer_ids.contains(producer_id) <==> sfu::has_producer(
            sfu.rooms(),
            room_id,
            producer_id,
        )) && existing_producer_ids.no_duplicates(),
{
    let existing = welcome.signal->existing_producer_ids;
    assert(existing.to_set().contains(producer_id) <==> existing.contains(producer_id));
}

/// The step is an answer that refuses the request `request_id` with that message.
pub open spec fn is_refusal(step: Step, request_id: Option<u64>, message: Seq<char>) -> bool {
    step matches Step::Reply(reply) && reply.request_id == request_id && (
    reply.signal matches ServerSignal::Error { message: told } && told@ == message)
}

/// A client that has joined no room gets every request refused but those to join and to ping, and
/// the refusal names the request.
pub proof fn law_join_comes_first(step: Step, sfu: Sfu, envelope: ClientEnvelope)
    requires
        session::is_first_step(step, None, sfu, envelope),
        !(envelope.signal is Join),
        !(envelope.signal is Ping),
    ensures
        step matches Step::Reply(reply) && reply@.request_id == envelope.request_id
            && reply@.signal is Error,
{
}

/// A joined client that asks for a transport gets one made for the direction it names, on the
/// address that the server is set to listen on and announced under the address that it is set to
/// announce, over UDP with TCP allowed, and without showing the inner address.
pub proof fn law_transports_listen_as_configured(
    step: Step,
    peer: PeerModel,
    sfu: Sfu,
    envelope: ClientEnvelope,
)
    requires
        session::is_first_step(step, Some(peer), sfu, envelope),
        envelope.signal is CreateWebrtcTransport,
    ensures
        step matches Step::CreateTransport { request_id, direction, options } && {
            &&& request_id == envelope.request_id
            &&& envelope.signal == (ClientSignal::CreateWebrtcTransport { direction })
            &&& options.listen_ip == sfu.settings().listen_ip
            &&& options.announced_address == sfu.settings().announced_address
            &&& options.protocol is Udp
            &&& options.enable_tcp
            &&& !options.expose_internal_ip
        },
{
}

/// What a client wants connected is connected as it asks, if the transport is its own; otherwise it
/// is told which transport is missing.
pub proof fn law_own_transports_are_connected(
    step: Step,
    peer: PeerModel,
    sfu: Sfu,
    request_id: Option<u64>,
    transport_id: String,
    dtls_parameters: String,
)
    requires
        session::is_first_step(
            step,
            Some(peer),
            sfu,
            ClientEnvelope {
                request_id,
                signal: ClientSignal::ConnectWebrtcTransport { transport_id, dtls_parameters },
            },
        ),
    ensures
        if peer.transports.contains_key(transport_id@) {
            step == (Step::ConnectTransport { request_id, transport_id, dtls_parameters })
        } else {
            is_refusal(
                step,
                request_id,
                "failed to connect transport: transport '"@ + transport_id@ + "' not found"@,
            )
        },
{
    reveal_strlit("failed to connect transport: transport '");
    reveal_strlit("failed to connect transport: ");
    reveal_strlit("transport '");
    assert("failed to connect transport: transport '"@ =~= "failed to connect transport: "@ + "transport '"@);
    assert("failed to connect transport: "@ + ("transport '"@ + transport_id@ + "' not found"@)
        =~= "failed to connect transport: transport '"@ + transport_id@ + "' not found"@);
}

/// What a client wants to produce is produced as it asks on a transport of its that sends; otherwise
/// it is told what is wrong with the transport.
pub proof fn law_producing_goes_by_the_transport(
    step: Step,
    peer: PeerModel,
    sfu: Sfu,
    request_id: Option<u64>,
    transport_id: String,
    kind: MediaKind,
    rtp_parameters: String,
)
    requires
        session::is_first_step(
            step,
            Some(peer),
            sfu,
            ClientEnvelope {
                request_id,
                signal: ClientSignal::Produce { transport_id, kind, rtp_parameters },
            },
        ),
    ensures
        if !peer.transports.contains_key(transport_id@) {
            is_refusal(
                step,
                request_id,
                "failed to produce: transport '"@ + transport_id@ + "' not found"@,
            )
        } else if peer.transports[transport_id@] is Recv {
            is_refusal(
                step,
                request_id,
                "failed to produce: transport '"@ + transport_id@ + "' is not a send transport"@,
            )
        } else {
            step == (Step::CreateProducer { request_id, transport_id, kind, rtp_parameters })
        },
{
    reveal_strlit("failed to produce: transport '");
    reveal_strlit("failed to produce: ");
    reveal_strlit("transport '");
    assert("failed to produce: transport '"@ =~= "failed to produce: "@ + "transport '"@);
    assert("failed to produce: "@ + ("transport '"@ + transport_id@ + "' not found"@)
        =~= "failed to produce: transport '"@ + transport_id@ + "' not found"@);
    assert("failed to produce: "@ + ("transport '"@ + transport_id@ + "' is not a send transport"@)
        =~= "failed to produce: transport '"@ + transport_id@ + "' is not a send transport"@);
}

/// What a client wants to consume is checked as it asks, if its room has the producer and the
/// transport is one of its that receives; otherwise it is told what is missing, the producer first.
pub proof fn law_consuming_goes_by_room_and_transport(
    step: Step,
    peer: PeerModel,
    sfu: Sfu,
    request_id: Option<u64>,
    transport_id: String,
    producer_id: String,
    rtp_capabilities: String,
)
    requires
        session::is_first_step(
            step,
            Some(peer),
            sfu,
            ClientEnvelope {
                request_id,
                signal: ClientSignal::Consume { transport_id, producer_id, rtp_capabilities },
            },
        ),
    ensures
        if !(sfu.rooms().contains_key(peer.room_id)
            && sfu.rooms()[peer.room_id].producer_owners.contains_key(producer_id@)) {
            is_refusal(
                step,
                request_id,
                "producer '"@ + producer_id@ + "' does not exist in room"@,
            )
        } else if !peer.transports.contains_key(transport_id@) {
            is_refusal(
                step,
                request_id,
                "failed to consume: transport '"@ + transport_id@ + "' not found"@,
            )
        } else if peer.transports[transport_id@] is Send {
            is_refusal(
                step,
                request_id,
                "failed to consume: transport '"@ + transport_id@ + "' is not a recv transport"@,
            )
        } else {
            step == (Step::CheckConsumer {
                request_id,
                transport_id,
                producer_id,
                rtp_capabilities,
            })
        },
{
    reveal_strlit("failed to consume: transport '");
    reveal_strlit("failed to consume: ");
    reveal_strlit("transport '");
    assert("failed to consume: transport '"@ =~= "failed to consume: "@ + "transport '"@);
    assert("failed to consume: "@ + ("transport '"@ + transport_id@ + "' not found"@)
        =~= "failed to consume: transport '"@ + transport_id@ + "' not found"@);
    assert("failed to consume: "@ + ("transport '"@ + transport_id@ + "' is not a recv transport"@)
        =~= "failed to consume: transport '"@ + transport_id@ + "' is not a recv transport"@);
}

/// What a client wants resumed is resumed if the consumer is its own; otherwise it is told which
/// consumer is missing.
pub proof fn law_own_consumers_are_resumed(
    step: Step,
    peer: PeerModel,
    sfu: Sfu,
    request_id: Option<u64>,
    consumer_id: String,
)
    requires
        session::is_first_step(
            step,
            Some(peer),
            sfu,
            ClientEnvelope { request_id, signal: ClientSignal::ResumeConsumer { consumer_id } },
        ),
    ensures
        if peer.consumers.contains(consumer_id@) {
            step == (Step::ResumeConsumer { request_id, consumer_id })
        } else {
            is_refusal(
                step,
                request_id,
                "failed to resume consumer: consumer '"@ + consumer_id@ + "' not found"@,
            )
        },
{
    reveal_strlit("failed to resume consumer: consumer '");
    reveal_strlit("failed to resume consumer: ");
    reveal_strlit("consumer '");
    assert("failed to resume consumer: consumer '"@ =~= "failed to resume consumer: "@ + "consumer '"@);
    assert("failed to resume consumer: "@ + ("consumer '"@ + consumer_id@ + "' not found"@)
        =~= "failed to resume consumer: consumer '"@ + consumer_id@ + "' not found"@);
}

/// Whoever pings gets an answer, joined or not, and whoever asks to join a second time is refused.
pub proof fn law_pings_and_second_joins(
    step: Step,
    peer: Option<PeerModel>,
    sfu: Sfu,
    envelope: ClientEnvelope,
)
    requires
        session::is_first_step(step, peer, sfu, envelope),
    ensures
        envelope.signal is Ping ==> (step matches Step::Reply(reply) && reply.request_id
            == envelope.request_id && reply.signal@ is Pong),
        envelope.signal is Join ==> is_refusal(
            step,
            envelope.request_id,
            "peer is already joined to a room"@,
        ),
{
}

/// A client that has joined no room is told, for each kind of request, to join first.
pub proof fn law_strangers_are_told_to_join(step: Step, sfu: Sfu, envelope: ClientEnvelope)
    requires
        session::is_first_step(step, None, sfu, envelope),
    ensures
        envelope.signal is CreateWebrtcTransport ==> is_refusal(
            step,
            envelope.request_id,
            "join a room before creating transports"@,
        ),
        envelope.signal is ConnectWebrtcTransport ==> is_refusal(
            step,
            envelope.request_id,
            "join a room before connecting transports"@,
        ),
        envelope.signal is Produce ==> is_refusal(
            step,
            envelope.request_id,
            "join a room before producing"@,
        ),
        envelope.signal is Consume ==> is_refusal(
            step,
            envelope.request_id,
            "join a room before consuming"@,
        ),
        envelope.signal is ResumeConsumer ==> is_refusal(
            step,
            envelope.request_id,
            "join a room before resuming consumers"@,
        ),
{
    law_join_first_reads_well();
}

/// What a client that has joined no room is told, action by action.
pub proof fn law_join_first_reads_well()
    ensures
        session::join_first("creating transports"@) == "join a room before creating transports"@,
        session::join_first("connecting transports"@) == "join a room before connecting transports"@,
        session::join_first("producing"@) == "join a room before producing"@,
        session::join_first("consuming"@) == "join a room before consuming"@,
        session::join_first("resuming consumers"@) == "join a room before resuming consumers"@,
{
    reveal_strlit("join a room before ");
    reveal_strlit("creating transports");
    reveal_strlit("join a room before creating transports");
    reveal_strlit("connecting transports");
    reveal_strlit("join a room before connecting transports");
    reveal_strlit("producing");
    reveal_strlit("join a room before producing");
    reveal_strlit("consuming");
    reveal_strlit("join a room before consuming");
    reveal_strlit("resuming consumers");
    reveal_strlit("join a room before resuming consumers");
    assert("join a room before "@ + "creating transports"@ =~= "join a room before creating transports"@);
    assert("join a room before "@ + "connecting transports"@ =~= "join a room before connecting transports"@);
    assert("join a room before "@ + "producing"@ =~= "join a room before producing"@);
    assert("join a room before "@ + "consuming"@ =~= "join a room before consuming"@);
    assert("join a room before "@ + "resuming consumers"@ =~= "join a room before resuming consumers"@);
}

/// An error names what it is about, letter for letter, and nothing else in between.
pub proof fn law_errors_name_their_subject(id: String)
    ensures
        SfuError::TransportNotFound(id).text() == "transport '"@ + id@ + "' not found"@,
        session::transport_not_found(id@) == "transport '"@ + id@ + "' not found"@,
        SfuError::NotASendTransport(id).text() == "transport '"@ + id@
            + "' is not a send transport"@,
        SfuError::NotARecvTransport(id).text() == "transport '"@ + id@
            + "' is not a recv transport"@,
        SfuError::ConsumerNotFound(id).text() == "consumer '"@ + id@ + "' not found"@,
        SfuError::RoomNotFound(id).text() == "room '"@ + id@ + "' not found"@,
        SfuError::CannotConsume(id).text() == "router cannot consume producer '"@ + id@
            + "' with provided RTP capabilities"@,
{
}

/// A client that joins is told its own name, the room that it asked for, and what the router can
/// receive.
pub proof fn law_welcomes_say_who_and_where(
    welcome: EnvelopeModel,
    request_id: Option<u64>,
    peer_id: Seq<char>,
    room_id: Seq<char>,
    sfu: Sfu,
)
    requires
        session::welcomes(welcome, request_id, peer_id, room_id, sfu),
    ensures
        welcome.request_id == request_id,
        welcome.signal matches SignalModel::Joined {
            peer_id: told_peer,
            room_id: told_room,
            router_rtp_capabilities,
            existing_producer_ids,
        } && told_peer == peer_id && told_room == room_id && router_rtp_capabilities
            == sfu.capabilities()@ && (forall|producer_id: Seq<char>|
            #[trigger] existing_producer_ids.contains(producer_id) <==> (sfu.rooms().contains_key(
                room_id,
            ) && sfu.rooms()[room_id].producer_owners.contains_key(producer_id))),
{
    let existing = welcome.signal->existing_producer_ids;
    assert forall|producer_id: Seq<char>| #[trigger]
        existing.contains(producer_id) <==> (sfu.rooms().contains_key(room_id)
            && sfu.rooms()[room_id].producer_owners.contains_key(producer_id)) by {
        assert(existing.to_set().contains(producer_id) <==> existing.contains(producer_id));
    }
}

/// A step names the request that stands in it, and an answer has the content of its message.
pub proof fn law_steps_hold_their_request(step: Step, content: EnvelopeModel)
    ensures
        match step {
            Step::Reply(reply) => step.request_id() == reply.request_id,
            Step::CreateTransport { request_id, .. } => step.request_id() == request_id,
            Step::ConnectTransport { request_id, .. } => step.request_id() == request_id,
            Step::CreateProducer { request_id, .. } => step.request_id() == request_id,
            Step::CheckConsumer { request_id, .. } => step.request_id() == request_id,
            Step::CreateConsumer { request_id, .. } => step.request_id() == request_id,
            Step::ResumeConsumer { request_id, .. } => step.request_id() == request_id,
            Step::Publish { request_id, .. } => step.request_id() == request_id,
        },
        step.replies(content) <==> (step matches Step::Reply(reply) && reply.request_id
            == content.request_id && reply.signal@ == content.signal),
{
}

/// A name drawn at random has the form of a version 4 identifier: 36 characters, four hyphens, and
/// lower-case hexadecimal digits elsewhere, with the version and the variant in their places.
pub proof fn law_random_names_have_their_form(name: Seq<char>, i: int)
    requires
        sfu::is_random_id(name),
    ensures
        name.len() == 36,
        name[8] == '-' && name[13] == '-' && name[18] == '-' && name[23] == '-',
        name[14] == '4',
        name[19] == '8' || name[19] == '9' || name[19] == 'a' || name[19] == 'b',
        0 <= i < 36 && i != 8 && i != 13 && i != 18 && i != 23 ==> 0x30 <= name[i] as int <= 0x39
            || 0x61 <= name[i] as int <= 0x66,
{
    assert(name[8] == '-' && name[13] == '-' && name[18] == '-' && name[23] == '-');
    if 0 <= i < 36 && i != 8 && i != 13 && i != 18 && i != 23 {
        assert(sfu::is_hex_digit(name[i]));
    }
}

/// What a forwarding unit is set up with stays the same as long as it is said to.
pub proof fn law_setup_is_settings_and_capabilities(a: Sfu, b: Sfu)
    requires
        a.same_setup(&b),
    ensures
        a.settings() == b.settings(),
        a.capabilities() == b.capabilities(),
{
}

/// Whatever a request leads to is tied to that request.
pub proof fn law_steps_name_their_request(
    step: Step,
    peer: Option<PeerModel>,
    sfu: Sfu,
    envelope: ClientEnvelope,
)
    requires
        session::is_first_step(step, peer, sfu, envelope),
    ensures
        step.request_id() == envelope.request_id,
        step matches Step::Reply(reply) ==> reply@.request_id == envelope.request_id,
{
}

/// What comes after a step, where it is no refusal, is about what the step was about: the transport
/// of that direction, the transport, producer or consumer of that name. A consumer is created as it
/// was checked, and starts out paused.
pub proof fn law_what_follows_is_about_the_same(step: Step, next: Step)
    requires
        session::can_follow(step, next),
    ensures
        next.request_id() == step.request_id(),
        (next matches Step::Reply(reply) && reply.signal is Error) || match step {
            Step::Reply(_) => false,
            Step::CreateTransport { direction, .. } => next matches Step::Reply(reply) && (
            reply.signal matches ServerSignal::WebrtcTransportCreated { direction: told, .. }
                && told == direction),
            Step::ConnectTransport { transport_id, .. } => next matches Step::Reply(reply) && (
            reply.signal matches ServerSignal::TransportConnected { transport_id: told } && told@
                == transport_id@),
            Step::CreateProducer { .. } => next is Publish,
            Step::Publish { producer_id, .. } => next matches Step::Reply(reply) && (
            reply.signal matches ServerSignal::Produced { producer_id: told } && told@
                == producer_id@),
            Step::CheckConsumer { transport_id, producer_id, rtp_capabilities, .. } => {
                &&& next matches Step::CreateConsumer {
                    transport_id: transport_id1,
                    producer_id: producer_id1,
                    rtp_capabilities: rtp_capabilities1,
                    paused,
                    ..
                }
                &&& transport_id1 == transport_id
                &&& producer_id1 == producer_id
                &&& rtp_capabilities1 == rtp_capabilities
                &&& paused
            },
            Step::CreateConsumer { .. } => next matches Step::Reply(reply)
                && reply.signal is Consumed,
            Step::ResumeConsumer { consumer_id, .. } => next matches Step::Reply(reply) && (
            reply.signal matches ServerSignal::ConsumerResumed { consumer_id: told } && told@
                == consumer_id@),
        },
{
}

/// `path` is how a request has gone so far, step by step.
pub open spec fn is_path(request: ClientEnvelope, path: Seq<Step>) -> bool {
    &&& path.len() > 0
    &&& session::starts_with(request, path[0])
    &&& forall|i: int, j: int|
        0 <= i && j == i + 1 && j < path.len() ==> session::can_follow(
            #[trigger] path[i],
            #[trigger] path[j],
        )
}

/// The request has gone along `path`, and is done with.
pub open spec fn is_done(request: ClientEnvelope, path: Seq<Step>) -> bool {
    is_path(request, path) && path.last() is Reply
}

/// The answers among the steps of a path.
pub open spec fn answers_in(path: Seq<Step>) -> Seq<ServerEnvelope>
    decreases path.len(),
{
    if path.len() == 0 {
        Seq::empty()
    } else {
        match path.last() {
            Step::Reply(reply) => answers_in(path.drop_last()).push(reply),
            _ => answers_in(path.drop_last()),
        }
    }
}

/// The answers that a client gets in a conversation: those of its first request, then those of the
/// second, and so on.
pub open spec fn answers_of(paths: Seq<Seq<Step>>) -> Seq<ServerEnvelope>
    decreases paths.len(),
{
    if paths.len() == 0 {
        Seq::empty()
    } else {
        answers_of(paths.drop_last()) + answers_in(paths.last())
    }
}

/// `reply` answers `request`: it carries the request's number, and grants or refuses what was asked
/// for.
pub open spec fn is_answered_by(request: ClientEnvelope, reply: ServerEnvelope) -> bool {
    reply@.request_id == request.request_id && session::suits(request.signal, reply@.signal)
}

/// A request is done with after three steps at most, all of them carry its number, and an answer
/// is only ever the last of them.
pub proof fn law_requests_come_to_an_end(request: ClientEnvelope, path: Seq<Step>)
    requires
        is_path(request, path),
    ensures
        path.len() <= 3,
        forall|i: int|
            0 <= i < path.len() ==> (#[trigger] path[i]).request_id() == request.request_id,
        forall|i: int| 0 <= i < path.len() - 1 ==> !(#[trigger] path[i] is Reply),
{
    if path.len() > 1 {
        assert(session::can_follow(path[0], path[1]));
    }
    if path.len() > 2 {
        assert(session::can_follow(path[1], path[2]));
        assert(path[2] is Reply);
    }
    if path.len() > 3 {
        assert(session::can_follow(path[2], path[3]));
    }
}

proof fn lemma_no_answers(path: Seq<Step>)
    requires
        forall|i: int| 0 <= i < path.len() ==> !(#[trigger] path[i] is Reply),
    ensures
        answers_in(path) == Seq::<ServerEnvelope>::empty(),
    decreases path.len(),
{
    if path.len() > 0 {
        assert(!(path[path.len() - 1] is Reply));
        assert forall|i: int| 0 <= i < path.len() - 1 implies !(
        #[trigger] path.drop_last()[i] is Reply) by {
            assert(!(path[i] is Reply));
        }
        lemma_no_answers(path.drop_last());
    }
}

/// Whatever the media layer makes of a request, the client gets exactly one answer to it, and that
/// carries the request's number.
pub proof fn law_requests_get_one_answer(request: ClientEnvelope, path: Seq<Step>)
    requires
        is_done(request, path),
    ensures
        answers_in(path).len() == 1,
        is_answered_by(request, answers_in(path)[0]),
{
    law_requests_come_to_an_end(request, path);
    assert forall|i: int| 0 <= i < path.len() - 1 implies !(
    #[trigger] path.drop_last()[i] is Reply) by {
        assert(!(path[i] is Reply));
    }
    lemma_no_answers(path.drop_last());
    assert(answers_in(path) =~= seq![path.last()->Reply_0]);
    if path.len() > 1 {
        assert(session::can_follow(path[0], path[1]));
    }
    if path.len() > 2 {
        assert(session::can_follow(path[1], path[2]));
    }
}

/// A client that makes a number of requests, one after the other, gets as many answers, in the order
/// of its requests, each with the number of its request.
pub proof fn law_answers_come_in_order(requests: Seq<ClientEnvelope>, paths: Seq<Seq<Step>>)
    requires
        paths.len() == requests.len(),
        forall|i: int| 0 <= i < requests.len() ==> is_done(#[trigger] requests[i], paths[i]),
    ensures
        answers_of(paths).len() == requests.len(),
        forall|i: int|
            0 <= i < requests.len() ==> is_answered_by(
                #[trigger] requests[i],
                answers_of(paths)[i],
            ),
    decreases requests.len(),
{
    if requests.len() > 0 {
        let last = requests.len() - 1;
        let earlier = requests.drop_last();
        assert(is_done(requests[last], paths[last]));
        law_requests_get_one_answer(requests[last], paths[last]);
        assert forall|i: int| 0 <= i < earlier.len() implies is_done(
            #[trigger] earlier[i],
            paths.drop_last()[i],
        ) by {
            assert(is_done(requests[i], paths[i]));
        }
        law_answers_come_in_order(earlier, paths.drop_last());
        assert forall|i: int| 0 <= i < requests.len() implies is_answered_by(
            #[trigger] requests[i],
            answers_of(paths)[i],
        ) by {
            if i < last {
                assert(is_answered_by(earlier[i], answers_of(paths.drop_last())[i]));
            }
        }
    }
}

/// What peers are told unasked names no request.
pub proof fn law_announcements_name_no_request(
    notices: Seq<Notice>,
    peers: Set<Seq<char>>,
    signal: SignalModel,
    i: int,
)
    requires
        signaling::announces(notices, peers, signal),
        0 <= i < notices.len(),
    ensures
        notices[i].envelope@.request_id is None,
        notices[i].envelope@.signal == signal,
        peers.contains(notices[i].peer_id@),
{
    assert(notices[i].envelope@ == signaling::announcement(signal));
    assert(signaling::recipients(notices)[i] == notices[i].peer_id@);
    assert(signaling::recipients(notices).to_set().contains(notices[i].peer_id@));
}

/// A client gets to consume exactly what its own room has, and that only on a transport of its that
/// receives.
pub proof fn law_consumers_stay_in_the_room(
    step: Step,
    peer: PeerModel,
    sfu: Sfu,
    envelope: ClientEnvelope,
)
    requires
        session::is_first_step(step, Some(peer), sfu, envelope),
    ensures
        step is CheckConsumer <==> (envelope.signal matches ClientSignal::Consume {
            transport_id,
            producer_id,
            ..
        } && sfu::has_producer(sfu.rooms(), peer.room_id, producer_id@)
            && peer.transports.contains_key(transport_id@) && peer.transports[transport_id@]
            == TransportDirection::Recv),
        step matches Step::CheckConsumer { transport_id, producer_id, .. } ==> {
            &&& sfu::has_producer(sfu.rooms(), peer.room_id, producer_id@)
            &&& peer.transports.contains_key(transport_id@)
            &&& peer.transports[transport_id@] == TransportDirection::Recv
        },
{
}

/// A client gets to produce on each transport of its that sends, and on no other.
pub proof fn law_producers_need_a_send_transport(
    step: Step,
    peer: PeerModel,
    sfu: Sfu,
    envelope: ClientEnvelope,
)
    requires
        session::is_first_step(step, Some(peer), sfu, envelope),
    ensures
        step is CreateProducer <==> (envelope.signal matches ClientSignal::Produce {
            transport_id,
            ..
        } && peer.transports.contains_key(transport_id@) && peer.transports[transport_id@]
            == TransportDirection::Send),
        step matches Step::CreateProducer { transport_id, .. } ==> {
            &&& peer.transports.contains_key(transport_id@)
            &&& peer.transports[transport_id@] == TransportDirection::Send
        },
{
}

/// A transport that was created for a client can be connected by it.
pub proof fn law_created_transports_can_be_connected(
    step: Step,
    peer: PeerModel,
    direction: TransportDirection,
    transport: CreatedTransport,
    sfu: Sfu,
    envelope: ClientEnvelope,
)
    requires
        envelope.signal matches ClientSignal::ConnectWebrtcTransport { transport_id, .. }
            && transport_id@ == transport.transport_id@,
        session::is_first_step(
            step,
            Some(
                PeerModel {
                    transports: peer.transports.insert(transport.transport_id@, direction),
                    ..peer
                },
            ),
            sfu,
            envelope,
        ),
    ensures
        step is ConnectTransport,
{
}

/// A consumer that was created for a client can be resumed by it, and by no client that does not
/// hold it.
pub proof fn law_created_consumers_can_be_resumed(
    step: Step,
    peer: PeerModel,
    consumer: CreatedConsumer,
    sfu: Sfu,
    envelope: ClientEnvelope,
)
    requires
        envelope.signal matches ClientSignal::ResumeConsumer { consumer_id } && consumer_id@
            == consumer.consumer_id@,
    ensures
        session::is_first_step(
            step,
            Some(PeerModel { consumers: peer.consumers.insert(consumer.consumer_id@), ..peer }),
            sfu,
            envelope,
        ) ==> step is ResumeConsumer,
        session::is_first_step(step, Some(peer), sfu, envelope) && !peer.consumers.contains(
            consumer.consumer_id@,
        ) ==> step is Reply,
{
}

} // verus!
