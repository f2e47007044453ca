use huddletalk::session::{
    finish_check_consumer, finish_connect_transport, finish_resume_consumer, ConsumerCheck,
    SignalSession, Step,
};
use huddletalk::sfu::{PeerState, Sfu, SfuError, SfuSettings, TransportProtocol};
use huddletalk::signaling::{
    invalid_payload, ClientEnvelope, ClientSignal, CreatedConsumer, CreatedTransport, MediaKind,
    Notice, ServerEnvelope, ServerSignal, TransportDirection,
};

fn server() -> Sfu {
    Sfu::new(SfuSettings::new(None, false, None), "{\"codecs\":[]}".to_owned())
}

fn ask(
    session: &mut SignalSession,
    sfu: &mut Sfu,
    request_id: u64,
    signal: ClientSignal,
) -> Step {
    session.on_signal(sfu, ClientEnvelope { request_id: Some(request_id), signal })
}

fn reply(step: Step) -> ServerEnvelope {
    match step {
        Step::Reply(envelope) => envelope,
        other => panic!("not a reply: {other:?}"),
    }
}

fn error_of(envelope: ServerEnvelope) -> String {
    match envelope.signal {
        ServerSignal::Error { message } => message,
        other => panic!("not an error: {other:?}"),
    }
}

fn join(session: &mut SignalSession, sfu: &mut Sfu, room: &str) -> (String, Vec<String>) {
    let envelope = reply(ask(session, sfu, 1, ClientSignal::Join { room_id: room.to_owned() }));
    assert_eq!(envelope.request_id, Some(1));
    match envelope.signal {
        ServerSignal::Joined { peer_id, room_id, router_rtp_capabilities, existing_producer_ids } => {
            assert_eq!(room_id, room);
            assert_eq!(router_rtp_capabilities, "{\"codecs\":[]}");
            (peer_id, existing_producer_ids)
        }
        other => panic!("not joined: {other:?}"),
    }
}

fn transport(id: &str) -> CreatedTransport {
    CreatedTransport {
        transport_id: id.to_owned(),
        ice_parameters: "ice".to_owned(),
        ice_candidates: "candidates".to_owned(),
        dtls_parameters: "dtls".to_owned(),
        sctp_parameters: None,
    }
}

fn add_transport(session: &mut SignalSession, id: &str, direction: TransportDirection) {
    let envelope = session.finish_create_transport(Some(2), direction, Some(transport(id)));
    assert_eq!(envelope.request_id, Some(2));
    match envelope.signal {
        ServerSignal::WebrtcTransportCreated { direction: told, transport } => {
            assert_eq!(told, direction);
            assert_eq!(transport.transport_id, id);
            assert_eq!(transport.ice_candidates, "candidates");
        }
        other => panic!("not created: {other:?}"),
    }
}

fn produce(session: &mut SignalSession, sfu: &mut Sfu, id: &str) -> Vec<Notice> {
    match session.finish_create_producer(Some(4), Some(id.to_owned())) {
        Step::Publish { request_id, producer_id, identity } => {
            assert_eq!(request_id, Some(4));
            assert_eq!(producer_id, id);
            assert_eq!(identity.track_id, id);
            session.transcription_started(producer_id.clone());
            let (envelope, notices) = session.finish_produce(sfu, request_id, producer_id);
            assert_eq!(envelope.request_id, Some(4));
            assert!(matches!(&envelope.signal, ServerSignal::Produced { producer_id } if producer_id == id));
            notices
        }
        other => panic!("not published: {other:?}"),
    }
}

fn consume_signal(transport_id: &str, producer_id: &str) -> ClientSignal {
    ClientSignal::Consume {
        transport_id: transport_id.to_owned(),
        producer_id: producer_id.to_owned(),
        rtp_capabilities: "caps".to_owned(),
    }
}

fn produce_signal(transport_id: &str) -> ClientSignal {
    ClientSignal::Produce {
        transport_id: transport_id.to_owned(),
        kind: MediaKind::Audio,
        rtp_parameters: "rtp".to_owned(),
    }
}

fn connect_signal(transport_id: &str) -> ClientSignal {
    ClientSignal::ConnectWebrtcTransport {
        transport_id: transport_id.to_owned(),
        dtls_parameters: "dtls".to_owned(),
    }
}

#[test]
fn ping_is_answered_before_and_after_joining() {
    let mut sfu = server();
    let mut session = SignalSession::new();
    let envelope = session.on_signal(
        &mut sfu,
        ClientEnvelope { request_id: None, signal: ClientSignal::Ping },
    );
    let envelope = reply(envelope);
    assert_eq!(envelope.request_id, None);
    assert!(matches!(envelope.signal, ServerSignal::Pong));
    join(&mut session, &mut sfu, "lobby");
    let envelope = reply(ask(&mut session, &mut sfu, 9, ClientSignal::Ping));
    assert_eq!(envelope.request_id, Some(9));
    assert!(matches!(envelope.signal, ServerSignal::Pong));
}

#[test]
fn joining_comes_first() {
    let mut sfu = server();
    let mut session = SignalSession::new();
    let cases = vec![
        (
            ClientSignal::CreateWebrtcTransport { direction: TransportDirection::Send },
            "join a room before creating transports",
        ),
        (connect_signal("t"), "join a room before connecting transports"),
        (produce_signal("t"), "join a room before producing"),
        (consume_signal("t", "p"), "join a room before consuming"),
        (
            ClientSignal::ResumeConsumer { consumer_id: "c".to_owned() },
            "join a room before resuming consumers",
        ),
    ];
    for (signal, message) in cases {
        let envelope = reply(ask(&mut session, &mut sfu, 5, signal));
        assert_eq!(envelope.request_id, Some(5));
        assert_eq!(error_of(envelope), message);
    }
    assert!(session.peer_id().is_none());
    assert!(session.close(&mut sfu).is_none());
}

#[test]
fn joining_twice_is_refused() {
    let mut sfu = server();
    let mut session = SignalSession::new();
    let (peer_id, _) = join(&mut session, &mut sfu, "lobby");
    let again = ask(&mut session, &mut sfu, 2, ClientSignal::Join { room_id: "focus".to_owned() });
    assert_eq!(error_of(reply(again)), "peer is already joined to a room");
    assert_eq!(session.peer_id(), Some(peer_id.as_str()));
}

#[test]
fn peer_names_are_random_identifiers() {
    let mut sfu = server();
    let mut first = SignalSession::new();
    let mut second = SignalSession::new();
    let (a, _) = join(&mut first, &mut sfu, "lobby");
    let (b, _) = join(&mut second, &mut sfu, "lobby");
    assert_ne!(a, b);
    for id in [a, b] {
        assert_eq!(id.len(), 36);
        assert_eq!(id.as_bytes()[14], b'4');
        assert!(matches!(id.as_bytes()[19], b'8' | b'9' | b'a' | b'b'));
        for (i, c) in id.chars().enumerate() {
            if i == 8 || i == 13 || i == 18 || i == 23 {
                assert_eq!(c, '-');
            } else {
                assert!(c.is_ascii_hexdigit() && !c.is_ascii_uppercase());
            }
        }
    }
}

#[test]
fn transports_listen_as_configured() {
    let mut sfu = server();
    let mut session = SignalSession::new();
    join(&mut session, &mut sfu, "lobby");
    let step = ask(
        &mut session,
        &mut sfu,
        2,
        ClientSignal::CreateWebrtcTransport { direction: TransportDirection::Recv },
    );
    match step {
        Step::CreateTransport { request_id, direction, options } => {
            assert_eq!(request_id, Some(2));
            assert_eq!(direction, TransportDirection::Recv);
            assert_eq!(options.protocol, TransportProtocol::Udp);
            assert_eq!(options.listen_ip, "0.0.0.0");
            assert_eq!(options.announced_address.as_deref(), Some("10.0.2.2"));
            assert!(!options.expose_internal_ip);
            assert!(options.enable_tcp);
        }
        other => panic!("no transport wanted: {other:?}"),
    }
}

#[test]
fn settings_fall_back() {
    let settings = SfuSettings::new(
        Some("192.168.1.5".to_owned()),
        true,
        Some("192.168.1.123".to_owned()),
    );
    assert_eq!(settings.listen_ip, "192.168.1.5");
    assert_eq!(settings.announced_address.as_deref(), Some("192.168.1.123"));
    let settings = SfuSettings::new(Some("nowhere".to_owned()), false, None);
    assert_eq!(settings.listen_ip, "0.0.0.0");
    assert_eq!(settings.announced_address.as_deref(), Some("10.0.2.2"));
}

#[test]
fn failed_transport_is_reported() {
    let mut sfu = server();
    let mut session = SignalSession::new();
    join(&mut session, &mut sfu, "lobby");
    let envelope = session.finish_create_transport(Some(3), TransportDirection::Send, None);
    assert_eq!(envelope.request_id, Some(3));
    assert_eq!(
        error_of(envelope),
        "failed to create transport: failed to create mediasoup WebRTC transport"
    );
}

#[test]
fn transport_is_connected_once_created() {
    let mut sfu = server();
    let mut session = SignalSession::new();
    join(&mut session, &mut sfu, "lobby");
    let refused = reply(ask(&mut session, &mut sfu, 3, connect_signal("t1")));
    assert_eq!(error_of(refused), "failed to connect transport: transport 't1' not found");
    add_transport(&mut session, "t1", TransportDirection::Send);
    match ask(&mut session, &mut sfu, 3, connect_signal("t1")) {
        Step::ConnectTransport { request_id, transport_id, dtls_parameters } => {
            assert_eq!(request_id, Some(3));
            assert_eq!(transport_id, "t1");
            assert_eq!(dtls_parameters, "dtls");
        }
        other => panic!("not to be connected: {other:?}"),
    }
    let done = finish_connect_transport(Some(3), "t1".to_owned(), true);
    assert!(matches!(done.signal, ServerSignal::TransportConnected { transport_id } if transport_id == "t1"));
    assert_eq!(
        error_of(finish_connect_transport(Some(3), "t1".to_owned(), false)),
        "failed to connect transport: failed to connect mediasoup WebRTC transport"
    );
}

#[test]
fn producing_needs_a_send_transport() {
    let mut sfu = server();
    let mut session = SignalSession::new();
    join(&mut session, &mut sfu, "lobby");
    add_transport(&mut session, "in", TransportDirection::Recv);
    add_transport(&mut session, "out", TransportDirection::Send);
    assert_eq!(
        error_of(reply(ask(&mut session, &mut sfu, 4, produce_signal("nope")))),
        "failed to produce: transport 'nope' not found"
    );
    assert_eq!(
        error_of(reply(ask(&mut session, &mut sfu, 4, produce_signal("in")))),
        "failed to produce: transport 'in' is not a send transport"
    );
    match ask(&mut session, &mut sfu, 4, produce_signal("out")) {
        Step::CreateProducer { request_id, transport_id, kind, rtp_parameters } => {
            assert_eq!(request_id, Some(4));
            assert_eq!(transport_id, "out");
            assert_eq!(kind, MediaKind::Audio);
            assert_eq!(rtp_parameters, "rtp");
        }
        other => panic!("not to be produced: {other:?}"),
    }
    assert_eq!(
        error_of(reply(session.finish_create_producer(Some(4), None))),
        "failed to produce: failed to create mediasoup producer"
    );
}

#[test]
fn new_producer_is_announced_to_everybody_else_in_the_room() {
    let mut sfu = server();
    let mut anna = SignalSession::new();
    let mut ben = SignalSession::new();
    let mut cleo = SignalSession::new();
    let mut dan = SignalSession::new();
    let (anna_id, _) = join(&mut anna, &mut sfu, "lobby");
    let (ben_id, _) = join(&mut ben, &mut sfu, "lobby");
    let (cleo_id, _) = join(&mut cleo, &mut sfu, "lobby");
    join(&mut dan, &mut sfu, "focus");
    let notices = produce(&mut anna, &mut sfu, "p1");
    let mut told: Vec<&str> = notices.iter().map(|n| n.peer_id.as_str()).collect();
    told.sort();
    let mut expected = vec![ben_id.as_str(), cleo_id.as_str()];
    expected.sort();
    assert_eq!(told, expected);
    for notice in &notices {
        assert_eq!(notice.envelope.request_id, None);
        match &notice.envelope.signal {
            ServerSignal::NewProducer { peer_id, producer_id } => {
                assert_eq!(peer_id, &anna_id);
                assert_eq!(producer_id, "p1");
            }
            other => panic!("not a new producer: {other:?}"),
        }
    }
}

#[test]
fn newcomers_learn_of_existing_producers() {
    let mut sfu = server();
    let mut anna = SignalSession::new();
    let (_, existing) = join(&mut anna, &mut sfu, "lobby");
    assert!(existing.is_empty());
    produce(&mut anna, &mut sfu, "p1");
    produce(&mut anna, &mut sfu, "p2");
    let mut ben = SignalSession::new();
    let (_, mut existing) = join(&mut ben, &mut sfu, "lobby");
    existing.sort();
    assert_eq!(existing, vec!["p1".to_owned(), "p2".to_owned()]);
    let mut cleo = SignalSession::new();
    let (_, existing) = join(&mut cleo, &mut sfu, "focus");
    assert!(existing.is_empty());
}

#[test]
fn consuming_stays_in_the_room() {
    let mut sfu = server();
    let mut anna = SignalSession::new();
    let mut ben = SignalSession::new();
    let mut cleo = SignalSession::new();
    join(&mut anna, &mut sfu, "lobby");
    join(&mut ben, &mut sfu, "lobby");
    join(&mut cleo, &mut sfu, "focus");
    add_transport(&mut ben, "in", TransportDirection::Recv);
    add_transport(&mut ben, "out", TransportDirection::Send);
    add_transport(&mut cleo, "in", TransportDirection::Recv);
    produce(&mut anna, &mut sfu, "p1");
    assert_eq!(
        error_of(reply(ask(&mut cleo, &mut sfu, 5, consume_signal("in", "p1")))),
        "producer 'p1' does not exist in room"
    );
    assert_eq!(
        error_of(reply(ask(&mut ben, &mut sfu, 5, consume_signal("nope", "p1")))),
        "failed to consume: transport 'nope' not found"
    );
    assert_eq!(
        error_of(reply(ask(&mut ben, &mut sfu, 5, consume_signal("out", "p1")))),
        "failed to consume: transport 'out' is not a recv transport"
    );
    match ask(&mut ben, &mut sfu, 5, consume_signal("in", "p1")) {
        Step::CheckConsumer { request_id, transport_id, producer_id, rtp_capabilities } => {
            assert_eq!(request_id, Some(5));
            assert_eq!(transport_id, "in");
            assert_eq!(producer_id, "p1");
            assert_eq!(rtp_capabilities, "caps");
        }
        other => panic!("not to be checked: {other:?}"),
    }
}

#[test]
fn consumer_starts_paused_and_is_resumed() {
    let mut sfu = server();
    let mut ben = SignalSession::new();
    join(&mut ben, &mut sfu, "lobby");
    let checked = |check| {
        finish_check_consumer(
            Some(5),
            "in".to_owned(),
            "p1".to_owned(),
            "caps".to_owned(),
            check,
        )
    };
    assert_eq!(
        error_of(reply(checked(ConsumerCheck::InvalidProducerId))),
        "failed to consume: invalid producer ID format"
    );
    assert_eq!(
        error_of(reply(checked(ConsumerCheck::CannotConsume))),
        "failed to consume: router cannot consume producer 'p1' with provided RTP capabilities"
    );
    match checked(ConsumerCheck::CanConsume) {
        Step::CreateConsumer { request_id, transport_id, producer_id, rtp_capabilities, paused } => {
            assert_eq!(request_id, Some(5));
            assert_eq!(transport_id, "in");
            assert_eq!(producer_id, "p1");
            assert_eq!(rtp_capabilities, "caps");
            assert!(paused);
        }
        other => panic!("not to be created: {other:?}"),
    }
    assert_eq!(
        error_of(ben.finish_create_consumer(Some(5), None)),
        "failed to consume: failed to create mediasoup consumer"
    );
    let resume = || ClientSignal::ResumeConsumer { consumer_id: "c1".to_owned() };
    assert_eq!(
        error_of(reply(ask(&mut ben, &mut sfu, 6, resume()))),
        "failed to resume consumer: consumer 'c1' not found"
    );
    let created = CreatedConsumer {
        consumer_id: "c1".to_owned(),
        producer_id: "p1".to_owned(),
        kind: MediaKind::Audio,
        rtp_parameters: "rtp".to_owned(),
    };
    let envelope = ben.finish_create_consumer(Some(5), Some(created));
    assert_eq!(envelope.request_id, Some(5));
    match envelope.signal {
        ServerSignal::Consumed { consumer } => {
            assert_eq!(consumer.consumer_id, "c1");
            assert_eq!(consumer.producer_id, "p1");
            assert_eq!(consumer.kind, MediaKind::Audio);
            assert_eq!(consumer.rtp_parameters, "rtp");
        }
        other => panic!("not consumed: {other:?}"),
    }
    match ask(&mut ben, &mut sfu, 6, resume()) {
        Step::ResumeConsumer { request_id, consumer_id } => {
            assert_eq!(request_id, Some(6));
            assert_eq!(consumer_id, "c1");
        }
        other => panic!("not to be resumed: {other:?}"),
    }
    let done = finish_resume_consumer(Some(6), "c1".to_owned(), true);
    assert!(matches!(done.signal, ServerSignal::ConsumerResumed { consumer_id } if consumer_id == "c1"));
    assert_eq!(
        error_of(finish_resume_consumer(Some(6), "c1".to_owned(), false)),
        "failed to resume consumer: failed to resume mediasoup consumer"
    );
}

#[test]
fn leaving_takes_producers_along_and_is_announced() {
    let mut sfu = server();
    let mut anna = SignalSession::new();
    let mut ben = SignalSession::new();
    let (anna_id, _) = join(&mut anna, &mut sfu, "lobby");
    let (ben_id, _) = join(&mut ben, &mut sfu, "lobby");
    produce(&mut anna, &mut sfu, "p1");
    produce(&mut ben, &mut sfu, "p2");
    let farewell = anna.close(&mut sfu).unwrap();
    assert_eq!(farewell.peer_id, anna_id);
    assert_eq!(farewell.room_id, "lobby");
    assert!(!farewell.room_empty);
    let notices = farewell.notices;
    assert_eq!(notices.len(), 1);
    assert_eq!(notices[0].peer_id, ben_id);
    assert_eq!(notices[0].envelope.request_id, None);
    assert!(matches!(&notices[0].envelope.signal, ServerSignal::PeerLeft { peer_id } if *peer_id == anna_id));
    assert!(anna.peer_id().is_none());
    assert!(!sfu.room_has_producer("lobby", "p1"));
    assert!(sfu.room_has_producer("lobby", "p2"));
    assert!(anna.close(&mut sfu).is_none());
    let farewell = ben.close(&mut sfu).unwrap();
    assert_eq!(farewell.peer_id, ben_id);
    assert!(farewell.notices.is_empty());
    assert!(farewell.room_empty);
    assert!(!sfu.room_has_producer("lobby", "p2"));
}

#[test]
fn empty_room_is_removed() {
    let mut sfu = server();
    let (peer, existing) = sfu.add_peer("a".to_owned(), "lobby".to_owned());
    assert!(existing.is_empty());
    let departure = sfu.remove_peer(&peer).unwrap();
    assert!(departure.room_empty);
    assert!(departure.remaining.is_empty());
    assert!(sfu.remove_peer(&peer).is_none());
    match sfu.publish_producer(&peer, "p".to_owned()) {
        Err(error) => assert_eq!(error.message(), "room 'lobby' not found"),
        Ok(others) => panic!("published to {others:?}"),
    }
}

#[test]
fn producing_without_the_room_is_refused() {
    let mut sfu = server();
    let mut session = SignalSession::new();
    let peer = PeerState::new("a".to_owned(), "gone".to_owned());
    let welcome = session.finish_join(&sfu, Some(1), peer, vec!["p0".to_owned()]);
    match welcome.signal {
        ServerSignal::Joined { peer_id, room_id, existing_producer_ids, .. } => {
            assert_eq!(peer_id, "a");
            assert_eq!(room_id, "gone");
            assert_eq!(existing_producer_ids, vec!["p0".to_owned()]);
        }
        other => panic!("not joined: {other:?}"),
    }
    let (envelope, notices) = session.finish_produce(&mut sfu, Some(4), "p".to_owned());
    assert_eq!(error_of(envelope), "failed to produce: room 'gone' not found");
    assert!(notices.is_empty());
    assert!(session.close(&mut sfu).is_none());
}

#[test]
fn remaining_peers_are_named_at_departure() {
    let mut sfu = server();
    let (a, _) = sfu.add_peer("a".to_owned(), "lobby".to_owned());
    let (_b, _) = sfu.add_peer("b".to_owned(), "lobby".to_owned());
    let others = sfu.publish_producer(&a, "p".to_owned()).unwrap();
    assert_eq!(others, vec!["b".to_owned()]);
    let departure = sfu.remove_peer(&a).unwrap();
    assert!(!departure.room_empty);
    assert_eq!(departure.remaining, vec!["b".to_owned()]);
}

#[test]
fn invalid_payload_names_no_request() {
    let envelope = invalid_payload("expected value at line 1 column 1");
    assert_eq!(envelope.request_id, None);
    assert_eq!(error_of(envelope), "invalid signal payload: expected value at line 1 column 1");
}

#[test]
fn errors_read_well() {
    let id = || "x".to_owned();
    let cases = vec![
        (SfuError::TransportNotFound(id()), "transport 'x' not found"),
        (SfuError::NotASendTransport(id()), "transport 'x' is not a send transport"),
        (SfuError::NotARecvTransport(id()), "transport 'x' is not a recv transport"),
        (SfuError::ConsumerNotFound(id()), "consumer 'x' not found"),
        (SfuError::RoomNotFound(id()), "room 'x' not found"),
        (SfuError::InvalidProducerId, "invalid producer ID format"),
        (
            SfuError::CannotConsume(id()),
            "router cannot consume producer 'x' with provided RTP capabilities",
        ),
        (SfuError::TransportNotCreated, "failed to create mediasoup WebRTC transport"),
        (SfuError::TransportNotConnected, "failed to connect mediasoup WebRTC transport"),
        (SfuError::ProducerNotCreated, "failed to create mediasoup producer"),
        (SfuError::ConsumerNotCreated, "failed to create mediasoup consumer"),
        (SfuError::ConsumerNotResumed, "failed to resume mediasoup consumer"),
    ];
    for (error, message) in cases {
        assert_eq!(error.message(), message);
    }
}

#[test]
fn outcomes_without_a_peer_are_refused() {
    let mut sfu = server();
    let mut session = SignalSession::new();
    let refused = session.finish_create_transport(
        Some(2),
        TransportDirection::Send,
        Some(transport("t")),
    );
    assert_eq!(error_of(refused), "join a room before creating transports");
    assert_eq!(
        error_of(reply(session.finish_create_producer(Some(4), Some("p".to_owned())))),
        "join a room before producing"
    );
    let (envelope, notices) = session.finish_produce(&mut sfu, Some(4), "p".to_owned());
    assert_eq!(error_of(envelope), "join a room before producing");
    assert!(notices.is_empty());
    assert_eq!(
        error_of(session.finish_create_consumer(Some(5), None)),
        "join a room before consuming"
    );
    session.transcription_started("p".to_owned());
    assert!(session.peer_id().is_none());
}

/// Takes a request through its steps; `works` says whether the media layer can do its part.
fn follow(
    session: &mut SignalSession,
    sfu: &mut Sfu,
    request_id: Option<u64>,
    signal: ClientSignal,
    works: bool,
) -> (ServerEnvelope, usize) {
    let mut step = session.on_signal(sfu, ClientEnvelope { request_id, signal });
    let mut steps = 1;
    loop {
        step = match step {
            Step::Reply(envelope) => return (envelope, steps),
            Step::CreateTransport { request_id, direction, .. } => {
                let id = match direction {
                    TransportDirection::Send => "out",
                    TransportDirection::Recv => "in",
                };
                let created = if works { Some(transport(id)) } else { None };
                Step::Reply(session.finish_create_transport(request_id, direction, created))
            }
            Step::ConnectTransport { request_id, transport_id, .. } => {
                Step::Reply(finish_connect_transport(request_id, transport_id, works))
            }
            Step::CreateProducer { request_id, .. } => session
                .finish_create_producer(request_id, if works { Some("p".to_owned()) } else { None }),
            Step::CheckConsumer { request_id, transport_id, producer_id, rtp_capabilities } => {
                finish_check_consumer(
                    request_id,
                    transport_id,
                    producer_id,
                    rtp_capabilities,
                    if works { ConsumerCheck::CanConsume } else { ConsumerCheck::CannotConsume },
                )
            }
            Step::CreateConsumer { request_id, producer_id, .. } => {
                let created = CreatedConsumer {
                    consumer_id: "c".to_owned(),
                    producer_id,
                    kind: MediaKind::Audio,
                    rtp_parameters: "rtp".to_owned(),
                };
                Step::Reply(session.finish_create_consumer(request_id, Some(created)))
            }
            Step::ResumeConsumer { request_id, consumer_id } => {
                Step::Reply(finish_resume_consumer(request_id, consumer_id, works))
            }
            Step::Publish { request_id, producer_id, .. } => {
                let (reply, _) = session.finish_produce(sfu, request_id, producer_id);
                Step::Reply(reply)
            }
        };
        steps += 1;
    }
}

#[test]
fn requests_are_answered_one_by_one_in_order() {
    for works in [true, false] {
        let mut sfu = server();
        let mut session = SignalSession::new();
        let requests = vec![
            (Some(7), ClientSignal::Ping),
            (Some(7), produce_signal("out")),
            (None, ClientSignal::Join { room_id: "lobby".to_owned() }),
            (
                Some(1),
                ClientSignal::CreateWebrtcTransport { direction: TransportDirection::Send },
            ),
            (
                Some(2),
                ClientSignal::CreateWebrtcTransport { direction: TransportDirection::Recv },
            ),
            (Some(3), connect_signal("out")),
            (None, produce_signal("out")),
            (Some(5), consume_signal("in", "p")),
            (Some(6), ClientSignal::ResumeConsumer { consumer_id: "c".to_owned() }),
        ];
        let ids: Vec<Option<u64>> = requests.iter().map(|(id, _)| *id).collect();
        let mut answered: Vec<Option<u64>> = Vec::new();
        let mut refused: Vec<bool> = Vec::new();
        let mut lengths: Vec<usize> = Vec::new();
        for (request_id, signal) in requests {
            let (reply, steps) = follow(&mut session, &mut sfu, request_id, signal, works);
            answered.push(reply.request_id);
            refused.push(matches!(reply.signal, ServerSignal::Error { .. }));
            lengths.push(steps);
        }
        assert_eq!(answered, ids);
        if works {
            assert_eq!(lengths, vec![1, 1, 1, 2, 2, 2, 3, 3, 2]);
            assert_eq!(refused, vec![false, true, false, false, false, false, false, false, false]);
        } else {
            assert_eq!(lengths, vec![1, 1, 1, 2, 2, 1, 1, 1, 1]);
            assert_eq!(refused, vec![false, true, false, true, true, true, true, true, true]);
        }
    }
}
