use airwire::protocol::{PeerId, RelayCommand, RelayEvent, MAX_RELAY_PACKET};
use airwire::relay::{
    inbound_step, read_registration, Delivery, FirstPacket, FirstPacketError, Inbound,
    InboundStep, RegisterError, Registration, Relay,
};

const SECOND: u64 = 1_000_000_000;

fn peer(number: u8) -> PeerId {
    PeerId([number; 16])
}

fn host(code: &str, max_guests: usize) -> Registration {
    Registration::Host { code: code.to_owned(), max_guests }
}

fn join(code: &str) -> Registration {
    Registration::Join { code: code.to_owned() }
}

fn targets(deliveries: &[Delivery]) -> Vec<PeerId> {
    let mut all: Vec<PeerId> = deliveries.iter().map(|delivery| delivery.to).collect();
    all.sort_by_key(|peer| peer.0);
    all
}

fn room_of(guests: u8) -> Relay {
    let mut relay = Relay::new();
    relay.register(peer(0), host("aB", 10), 0).ok().unwrap();
    for number in 1..=guests {
        relay.register(peer(number), join("aB"), 0).ok().unwrap();
    }
    relay
}

#[test]
fn registrations_are_read() {
    let command = RelayCommand::Host { version: 1, rendezvous: "aB".into(), max_guests: 5000 };
    match read_registration(FirstPacket::Command(command)) {
        Ok(Registration::Host { code, max_guests }) => {
            assert_eq!(code, "aB");
            assert_eq!(max_guests, 1024);
        }
        _ => panic!("not a host"),
    }
    let command = RelayCommand::Host { version: 1, rendezvous: "aB".into(), max_guests: 0 };
    assert!(matches!(
        read_registration(FirstPacket::Command(command)),
        Ok(Registration::Host { max_guests: 1, .. })
    ));
    let command = RelayCommand::Join { version: 1, rendezvous: "aB".into() };
    assert!(matches!(
        read_registration(FirstPacket::Command(command)),
        Ok(Registration::Join { .. })
    ));
}

#[test]
fn other_first_packets_are_refused() {
    let why = |first: FirstPacket| read_registration(first).err().unwrap();
    assert_eq!(why(FirstPacket::NotBinary), FirstPacketError::NotAPacket);
    assert_eq!(why(FirstPacket::Undecodable), FirstPacketError::Invalid);
    let command = RelayCommand::Join { version: 2, rendezvous: "!".into() };
    assert_eq!(why(FirstPacket::Command(command)), FirstPacketError::WrongVersion);
    let command = RelayCommand::Join { version: 1, rendezvous: "!".into() };
    assert_eq!(why(FirstPacket::Command(command)), FirstPacketError::Invalid);
    let command = RelayCommand::Data { to: None, payload: vec![] };
    assert_eq!(why(FirstPacket::Command(command)), FirstPacketError::Invalid);
    assert_eq!(
        FirstPacketError::NotAPacket.message(),
        "the first packet must register a room"
    );
    assert_eq!(FirstPacketError::WrongVersion.message(), "incompatible protocol version");
    assert_eq!(FirstPacketError::Invalid.message(), "invalid registration");
}

#[test]
fn messages_are_forwarded_within_limits() {
    assert!(matches!(inbound_step(Inbound::Closed), InboundStep::Stop));
    assert!(matches!(inbound_step(Inbound::Other), InboundStep::Skip));
    assert!(matches!(
        inbound_step(Inbound::Binary { size: MAX_RELAY_PACKET + 1, command: None }),
        InboundStep::Stop
    ));
    assert!(matches!(
        inbound_step(Inbound::Binary { size: 3, command: None }),
        InboundStep::Skip
    ));
    let command = Some(RelayCommand::Join { version: 1, rendezvous: "aB".into() });
    assert!(matches!(
        inbound_step(Inbound::Binary { size: 3, command }),
        InboundStep::Skip
    ));
    let command = Some(RelayCommand::Data { to: None, payload: vec![0; MAX_RELAY_PACKET + 1] });
    assert!(matches!(
        inbound_step(Inbound::Binary { size: 3, command }),
        InboundStep::Skip
    ));
    let command = Some(RelayCommand::Data { to: Some(peer(1)), payload: vec![1, 2] });
    match inbound_step(Inbound::Binary { size: 3, command }) {
        InboundStep::Forward { to, payload } => {
            assert_eq!(to, Some(peer(1)));
            assert_eq!(payload, vec![1, 2]);
        }
        _ => panic!("not forwarded"),
    }
}

#[test]
fn rooms_are_opened_once() {
    let mut relay = Relay::new();
    let opened = relay.register(peer(0), host("aB", 2), 0).ok().unwrap();
    assert!(opened.is_host);
    assert_eq!(opened.code, "aB");
    assert!(opened.notices.is_empty());
    assert_eq!(
        relay.register(peer(1), host("aB", 2), 0).err(),
        Some(RegisterError::CodeCollision)
    );
    assert_eq!(
        relay.register(peer(1), join("zz"), 0).err(),
        Some(RegisterError::RoomNotFound)
    );
}

#[test]
fn the_host_is_told_of_guests() {
    let mut relay = room_of(0);
    let entered = relay.register(peer(1), join("aB"), 0).ok().unwrap();
    assert!(!entered.is_host);
    assert_eq!(entered.notices.len(), 1);
    assert_eq!(entered.notices[0].to, peer(0));
    assert!(matches!(
        entered.notices[0].event,
        RelayEvent::PeerJoined { id } if id == peer(1)
    ));
}

#[test]
fn rooms_keep_their_guest_limit() {
    let mut relay = Relay::new();
    relay.register(peer(0), host("aB", 2), 0).ok().unwrap();
    relay.register(peer(1), join("aB"), 0).ok().unwrap();
    relay.register(peer(2), join("aB"), 0).ok().unwrap();
    assert_eq!(
        relay.register(peer(3), join("aB"), 0).err(),
        Some(RegisterError::RoomFull)
    );
    let _ = relay.unregister(&"aB".to_owned(), peer(1), false);
    relay.register(peer(3), join("aB"), 0).ok().unwrap();
}

#[test]
fn rooms_keep_their_rate_limit() {
    let mut relay = Relay::new();
    relay.register(peer(0), host("aB", 1), 0).ok().unwrap();
    relay.register(peer(1), join("aB"), SECOND).ok().unwrap();
    for _ in 0..59 {
        assert_eq!(
            relay.register(peer(2), join("aB"), SECOND).err(),
            Some(RegisterError::RoomFull)
        );
    }
    assert_eq!(
        relay.register(peer(2), join("aB"), 61 * SECOND).err(),
        Some(RegisterError::TooManyAttempts)
    );
    assert_eq!(
        relay.register(peer(2), join("aB"), 61 * SECOND + 1).err(),
        Some(RegisterError::RoomFull)
    );
}

#[test]
fn a_room_without_its_host_admits_nobody() {
    let mut relay = room_of(1);
    let _ = relay.unregister(&"aB".to_owned(), peer(0), false);
    assert_eq!(
        relay.register(peer(2), join("aB"), 0).err(),
        Some(RegisterError::HostUnavailable)
    );
}

#[test]
fn refusals_are_reported() {
    assert_eq!(RegisterError::CodeCollision.message(), "room code collision; start again");
    assert_eq!(RegisterError::RoomNotFound.message(), "room was not found");
    assert_eq!(
        RegisterError::TooManyAttempts.message(),
        "room join rate limit exceeded; try again shortly"
    );
    assert_eq!(RegisterError::RoomFull.message(), "room has reached its guest limit");
    assert_eq!(RegisterError::HostUnavailable.message(), "room host is unavailable");
}

#[test]
fn traffic_reaches_the_others_in_the_room() {
    let mut relay = room_of(3);
    relay.register(peer(9), host("zz", 1), 0).ok().unwrap();
    let code = "aB".to_owned();
    let deliveries = relay.route_data(&code, peer(1), None, vec![7]);
    assert_eq!(targets(&deliveries), vec![peer(0), peer(2), peer(3)]);
    for delivery in &deliveries {
        match &delivery.event {
            RelayEvent::Data { from, payload } => {
                assert_eq!(*from, peer(1));
                assert_eq!(*payload, vec![7]);
            }
            other => panic!("{other:?}"),
        }
    }
    assert_eq!(targets(&relay.route_data(&code, peer(1), Some(peer(3)), vec![7])), vec![peer(3)]);
    assert!(relay.route_data(&code, peer(1), Some(peer(1)), vec![7]).is_empty());
    assert!(relay.route_data(&code, peer(1), Some(peer(9)), vec![7]).is_empty());
    assert!(relay.route_data(&code, peer(9), None, vec![7]).is_empty());
    assert!(relay.route_data(&"no".to_owned(), peer(1), None, vec![7]).is_empty());
}

#[test]
fn members_are_told_who_leaves() {
    let mut relay = room_of(2);
    let code = "aB".to_owned();
    let notices = relay.unregister(&code, peer(1), false);
    assert_eq!(targets(&notices), vec![peer(0), peer(2)]);
    assert!(matches!(notices[0].event, RelayEvent::PeerLeft { id } if id == peer(1)));
    let notices = relay.unregister(&code, peer(0), true);
    assert_eq!(targets(&notices), vec![peer(2)]);
    assert!(matches!(notices[0].event, RelayEvent::RoomClosed));
    assert!(relay.unregister(&code, peer(2), false).is_empty());
    assert!(relay.route_data(&code, peer(2), None, vec![7]).is_empty());
}
