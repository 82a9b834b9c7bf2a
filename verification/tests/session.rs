use std::collections::HashMap;

use airwire::client::{
    read_registration, registration, Action, NetCommand, RegistrationError, Role, UiEvent,
};
use airwire::crypto::{seal_pair, start_exchange, OpenError};
use airwire::names::{NameSearch, NameStep};
use airwire::paths::LocalPath;
use airwire::protocol::{
    AppFrame, PeerId, RelayCommand, RelayEvent, Sealed, Welcome, WirePacket, FILE_CHUNK_SIZE,
};
use airwire::session::{disconnected, discard_notice, Session, SessionError};
use airwire::relay::{Delivery, Registration, Relay};
use airwire::transfer::Outgoing;

const CODE: &str = "aB3xY9";

fn peer(number: u8) -> PeerId {
    PeerId([number; 16])
}

fn copy_packet(packet: &WirePacket) -> WirePacket {
    let copy = |sealed: &Sealed| Sealed {
        nonce: sealed.nonce,
        ciphertext: sealed.ciphertext.clone(),
    };
    match packet {
        WirePacket::Spake { response, message } => WirePacket::Spake {
            response: *response,
            message: message.clone(),
        },
        WirePacket::PairSealed(sealed) => WirePacket::PairSealed(copy(sealed)),
        WirePacket::GroupSealed(sealed) => WirePacket::GroupSealed(copy(sealed)),
    }
}

struct Member {
    id: PeerId,
    is_host: bool,
    session: Session,
    events: Vec<UiEvent>,
    files: HashMap<String, Vec<u8>>,
    partial: HashMap<[u8; 16], String>,
}

/// A relay and its clients in one place. Values travel as numbers of slots.
struct World {
    relay: Relay,
    members: Vec<Member>,
    packets: Vec<WirePacket>,
    frames: Vec<AppFrame>,
    welcomes: Vec<([u8; 32], String, usize)>,
    sent_files: HashMap<String, Vec<u8>>,
}

fn slot(number: usize) -> Vec<u8> {
    (number as u64).to_le_bytes().to_vec()
}

fn number(slot: &[u8]) -> usize {
    let mut bytes = [0u8; 8];
    bytes.copy_from_slice(slot);
    u64::from_le_bytes(bytes) as usize
}

impl World {
    fn new() -> World {
        World {
            relay: Relay::new(),
            members: Vec::new(),
            packets: Vec::new(),
            frames: Vec::new(),
            welcomes: Vec::new(),
            sent_files: HashMap::new(),
        }
    }

    fn enter(&mut self, role: Role, alias: &str) -> usize {
        let id = PeerId::random();
        let asked = match registration(&role, CODE) {
            RelayCommand::Host { rendezvous, max_guests, .. } => {
                Registration::Host { code: rendezvous, max_guests }
            }
            RelayCommand::Join { rendezvous, .. } => Registration::Join { code: rendezvous },
            RelayCommand::Data { .. } => panic!("not a registration"),
        };
        let entered = self.relay.register(id, asked, 0).ok().unwrap();
        let answer = RelayEvent::Registered { id, is_host: entered.is_host };
        let id = read_registration(&role, answer).unwrap();
        let session = Session::new(&role, CODE, alias, id, false);
        let opening = session.opening();
        self.members.push(Member {
            id,
            is_host: entered.is_host,
            session,
            events: Vec::new(),
            files: HashMap::new(),
            partial: HashMap::new(),
        });
        let index = self.members.len() - 1;
        self.perform(index, opening);
        self.deliver(entered.notices);
        index
    }

    fn deliver(&mut self, deliveries: Vec<Delivery>) {
        for delivery in deliveries {
            if let Some(index) = self.members.iter().position(|member| member.id == delivery.to) {
                let actions = self.members[index].session.on_event(delivery.event);
                self.perform(index, actions);
            }
        }
    }

    fn send(&mut self, index: usize, to: Option<PeerId>, packet: WirePacket) {
        self.packets.push(packet);
        let payload = slot(self.packets.len() - 1);
        let from = self.members[index].id;
        let deliveries = self.relay.route_data(&"aB".to_owned(), from, to, payload);
        self.deliver(deliveries);
    }

    fn broadcast(&mut self, index: usize, frame: AppFrame) {
        self.frames.push(frame);
        let plaintext = slot(self.frames.len() - 1);
        if let Some(packet) = self.members[index].session.broadcast(&plaintext).unwrap() {
            self.send(index, None, packet);
        }
    }

    fn command(&mut self, index: usize, command: NetCommand) {
        let actions = self.members[index].session.on_command(command, 1);
        self.perform(index, actions);
    }

    fn leave(&mut self, index: usize) {
        let member = &self.members[index];
        let deliveries = self.relay.unregister(&"aB".to_owned(), member.id, member.is_host);
        self.deliver(deliveries);
    }

    fn perform(&mut self, index: usize, actions: Vec<Action>) {
        for action in actions {
            match action {
                Action::Show(event) => self.members[index].events.push(event),
                Action::Send { to, packet } => self.send(index, to, packet),
                Action::SendWelcome { guest, key, welcome } => {
                    self.welcomes.push((welcome.room_key, welcome.host_alias, welcome.peer_count));
                    let sealed = seal_pair(&key, &slot(self.welcomes.len() - 1)).unwrap();
                    self.send(index, Some(guest), WirePacket::PairSealed(sealed));
                }
                Action::Broadcast(frame) => self.broadcast(index, frame),
                Action::SendFile(path) => self.send_file(index, &path.shown),
                Action::ReadPacket { from, payload } => {
                    let packet = copy_packet(&self.packets[number(&payload)]);
                    let actions = self.members[index].session.on_packet(packet, from).unwrap();
                    self.perform(index, actions);
                }
                Action::ReadWelcome { plaintext } => {
                    let (room_key, host_alias, peer_count) =
                        self.welcomes[number(&plaintext)].clone();
                    let welcome = Welcome { room_key, host_alias, peer_count };
                    let actions = self.members[index].session.on_welcome(welcome);
                    self.perform(index, actions);
                }
                Action::ReadFrame { from, plaintext } => {
                    let frame = self.frames[number(&plaintext)].clone();
                    let actions = self.members[index].session.on_frame(from, frame);
                    self.perform(index, actions);
                }
                Action::Receive(offer) => {
                    let member = &mut self.members[index];
                    let mut search = NameSearch::new(&offer.safe_name);
                    let name = loop {
                        let candidate = search.candidate();
                        let on_disk = member.files.contains_key(&candidate);
                        let free = member
                            .session
                            .transfers()
                            .download_path_available(on_disk, &candidate);
                        match search.step(!free) {
                            NameStep::Use(name) => break name,
                            NameStep::Try(next) => search = next,
                        }
                    };
                    member.files.insert(offer.partial_name.clone(), Vec::new());
                    member.partial.insert(offer.id, offer.partial_name.clone());
                    let shown = format!("/downloads/{name}");
                    let event = member.session.begin_receive(offer, name, shown);
                    member.events.push(event);
                }
                Action::Append { id, bytes } => {
                    let member = &mut self.members[index];
                    let name = member.partial[&id].clone();
                    member.files.get_mut(&name).unwrap().extend_from_slice(&bytes);
                }
                Action::Close { id } => {
                    self.members[index].partial.remove(&id);
                }
                Action::Delete { name } => {
                    self.members[index].files.remove(&name);
                }
                Action::Rename { partial, name } => {
                    let contents = self.members[index].files.remove(&partial).unwrap();
                    assert!(self.members[index].files.insert(name, contents).is_none());
                }
                Action::Stop => {}
            }
        }
    }

    fn send_file(&mut self, index: usize, path: &str) {
        let contents = self.sent_files[path].clone();
        let name = path.rsplit('/').next().map(str::to_owned);
        let alias = self.members[index].session.alias().to_owned();
        let (mut file, offer) =
            Outgoing::begin(true, contents.len() as u64, name, &alias).unwrap();
        self.broadcast(index, offer);
        for chunk in contents.chunks(FILE_CHUNK_SIZE) {
            let piece = file.chunk(chunk.to_vec());
            self.broadcast(index, piece.frame);
            self.members[index].events.push(piece.progress.unwrap());
        }
        let (frame, event) = file.finish();
        self.broadcast(index, frame);
        self.members[index].events.push(event);
    }

    fn is_secure(&self, index: usize) -> bool {
        self.members[index]
            .events
            .iter()
            .any(|event| matches!(event, UiEvent::Ready { secure: true, .. }))
    }

    fn peer_count(&self, index: usize) -> Option<usize> {
        self.members[index].events.iter().rev().find_map(|event| match event {
            UiEvent::PeerCount(count) => Some(*count),
            _ => None,
        })
    }

    fn heard(&self, index: usize, expected_alias: &str, expected_text: &str) -> bool {
        self.members[index].events.iter().any(|event| {
            matches!(
                event,
                UiEvent::Chat { alias, text, mine: false }
                    if alias == expected_alias && text == expected_text
            )
        })
    }

    fn was_told(&self, index: usize, text: &str) -> bool {
        self.members[index].events.iter().any(|event| {
            matches!(event, UiEvent::Status(told) | UiEvent::Error(told) if told == text)
        })
    }
}

fn show(actions: &[Action]) -> Vec<&UiEvent> {
    actions
        .iter()
        .map(|action| match action {
            Action::Show(event) => event,
            _ => panic!("not shown"),
        })
        .collect()
}

#[test]
fn encrypted_group_chat_and_file_transfer_work_end_to_end() {
    let mut world = World::new();
    let host = world.enter(Role::Host { max_guests: 2 }, "host");
    assert!(world.is_secure(host));
    let guest = world.enter(Role::Guest, "guest");
    assert!(world.is_secure(guest));
    let second = world.enter(Role::Guest, "second");
    assert!(world.is_secure(second));
    assert_eq!(world.peer_count(host), Some(3));
    assert_eq!(world.peer_count(guest), Some(3));
    assert_eq!(world.peer_count(second), Some(3));

    world.command(second, NetCommand::Chat("hello encrypted group".into()));
    assert!(world.heard(host, "second", "hello encrypted group"));
    assert!(world.heard(guest, "second", "hello encrypted group"));
    assert!(!world.heard(second, "second", "hello encrypted group"));

    let contents = b"encrypted attachment bytes".to_vec();
    world.sent_files.insert("/tmp/payload.bin".into(), contents.clone());
    world.command(guest, NetCommand::SendFile(LocalPath::of_text("/tmp/payload.bin".into())));
    assert!(world.members[host].events.iter().any(|event| {
        matches!(
            event,
            UiEvent::FileReceived { from, path }
                if from == "guest" && path == "/downloads/payload.bin"
        )
    }));
    assert_eq!(world.members[host].files["payload.bin"], contents);
    assert_eq!(world.members[second].files["payload.bin"], contents);
    assert_eq!(world.members[host].files.len(), 1);

    world.command(guest, NetCommand::SendFile(LocalPath::of_text("/tmp/payload.bin".into())));
    assert_eq!(world.members[host].files["payload (1).bin"], contents);

    world.leave(second);
    assert!(world.was_told(host, "second left the room"));
    assert!(world.was_told(guest, "second left the room"));
    assert_eq!(world.peer_count(host), Some(2));
    assert_eq!(world.peer_count(guest), Some(2));
    world.leave(host);
    assert!(world.members[guest]
        .events
        .iter()
        .any(|event| matches!(event, UiEvent::Closed(why) if why == "the host closed this room")));
}

#[test]
fn calls_reach_the_room() {
    let mut world = World::new();
    let host = world.enter(Role::Host { max_guests: 2 }, "host");
    let guest = world.enter(Role::Guest, "guest");
    world.command(guest, NetCommand::StartCall);
    world.command(guest, NetCommand::VoicePcm { sample_rate: 8000, samples: vec![1, 2] });
    world.command(guest, NetCommand::VoicePcm { sample_rate: 8000, samples: vec![0; 4097] });
    world.command(guest, NetCommand::VoicePcm { sample_rate: 0, samples: vec![1] });
    world.command(guest, NetCommand::VoicePcm { sample_rate: 384_001, samples: vec![1] });
    world.command(guest, NetCommand::StopCall);
    let heard: Vec<&UiEvent> = world.members[host]
        .events
        .iter()
        .filter(|event| {
            matches!(
                event,
                UiEvent::VoiceStarted(_) | UiEvent::VoicePcm { .. } | UiEvent::VoiceStopped(_)
            )
        })
        .collect();
    assert_eq!(heard.len(), 3);
    assert!(matches!(heard[0], UiEvent::VoiceStarted(alias) if alias == "guest"));
    assert!(matches!(heard[1], UiEvent::VoicePcm { samples, .. } if *samples == vec![1, 2]));
    assert!(matches!(heard[2], UiEvent::VoiceStopped(alias) if alias == "guest"));
    assert!(world.members[guest]
        .events
        .iter()
        .any(|event| matches!(event, UiEvent::VoiceStarted(alias) if alias == "you (guest)")));
}

#[test]
fn registrations_are_written_and_answered() {
    match registration(&Role::Host { max_guests: 3 }, CODE) {
        RelayCommand::Host { version, rendezvous, max_guests } => {
            assert_eq!((version, rendezvous.as_str(), max_guests), (1, "aB", 3));
        }
        other => panic!("{other:?}"),
    }
    assert!(matches!(
        registration(&Role::Guest, CODE),
        RelayCommand::Join { version: 1, rendezvous } if rendezvous == "aB"
    ));
    assert!(matches!(
        registration(&Role::Guest, "aBzzzz"),
        RelayCommand::Join { version: 1, rendezvous } if rendezvous == "aB"
    ));
    let answer = RelayEvent::Registered { id: peer(1), is_host: false };
    assert_eq!(read_registration(&Role::Guest, answer).unwrap(), peer(1));
    let answer = RelayEvent::Registered { id: peer(1), is_host: true };
    let why = read_registration(&Role::Guest, answer).unwrap_err();
    assert!(matches!(why, RegistrationError::WrongRole));
    assert_eq!(why.message(), "relay returned the wrong room role");
    let answer = RelayEvent::Error { message: "room was not found".into() };
    let why = read_registration(&Role::Guest, answer).unwrap_err();
    assert_eq!(why.message(), "room was not found");
    let why = read_registration(&Role::Guest, RelayEvent::RoomClosed).unwrap_err();
    assert!(matches!(why, RegistrationError::Invalid));
    assert_eq!(why.message(), "relay sent an invalid registration response");
}

#[test]
fn members_open_with_their_state() {
    let session = Session::new(&Role::Guest, CODE, &"z".repeat(40), peer(1), false);
    assert_eq!(session.alias(), "z".repeat(32));
    assert!(!session.is_host());
    assert!(session.room_key().is_none());
    let opening = session.opening();
    match show(&opening)[..] {
        [UiEvent::Ready { secure: false, detail }, UiEvent::PeerCount(1)] => {
            assert_eq!(detail, "relay connected; authenticating the room code");
        }
        _ => panic!("unexpected opening"),
    }
    let session = Session::new(&Role::Host { max_guests: 1 }, CODE, " ", peer(1), false);
    assert_eq!(session.alias(), "anonymous");
    assert!(session.is_host());
    assert!(session.room_key().is_some());
    match show(&session.opening())[..] {
        [UiEvent::Ready { secure: true, detail }, UiEvent::PeerCount(1)] => {
            assert_eq!(detail, "room registered; waiting for encrypted peers");
        }
        _ => panic!("unexpected opening"),
    }
}

#[test]
fn nothing_is_sent_before_the_handshake() {
    let session = Session::new(&Role::Guest, CODE, "guest", peer(1), false);
    for command in [
        NetCommand::Chat("hi".into()),
        NetCommand::SendFile(LocalPath::of_text("/x".into())),
        NetCommand::StartCall,
        NetCommand::StopCall,
    ] {
        let actions = session.on_command(command, 1);
        assert!(matches!(
            show(&actions)[..],
            [UiEvent::Error(why)] if why == "secure room handshake is not complete"
        ));
    }
    let pcm = NetCommand::VoicePcm { sample_rate: 1, samples: vec![] };
    assert!(session.on_command(pcm, 1).is_empty());
    assert!(session.broadcast(&[1]).unwrap().is_none());
    assert!(session.on_command(NetCommand::Chat("  ".into()), 1).is_empty());
    assert!(matches!(session.on_command(NetCommand::Shutdown, 1)[..], [Action::Stop]));
}

#[test]
fn long_messages_are_cut() {
    let session = Session::new(&Role::Host { max_guests: 1 }, CODE, "host", peer(1), false);
    let actions = session.on_command(NetCommand::Chat("m".repeat(9000)), 77);
    match &actions[0] {
        Action::Broadcast(AppFrame::Chat { alias, text, sent_at_ms }) => {
            assert_eq!(alias, "host");
            assert_eq!(text.len(), 8000);
            assert_eq!(*sent_at_ms, 77);
        }
        _ => panic!("not sent"),
    }
    assert!(matches!(
        &actions[1],
        Action::Show(UiEvent::Chat { mine: true, text, .. }) if text.len() == 8000
    ));
}

#[test]
fn a_wrong_code_fails_the_handshake() {
    let mut host = Session::new(&Role::Host { max_guests: 1 }, CODE, "host", peer(0), false);
    let mut guest = Session::new(&Role::Guest, "aB3xNO", "guest", peer(1), false);
    let actions = host.on_event(RelayEvent::PeerJoined { id: peer(1) });
    let first = match &actions[0] {
        Action::Send { packet, .. } => copy_packet(packet),
        _ => panic!("not sent"),
    };
    let actions = guest.on_packet(first, peer(0)).unwrap();
    let answer = match &actions[0] {
        Action::Send { packet, .. } => copy_packet(packet),
        _ => panic!("not sent"),
    };
    let actions = host.on_packet(answer, peer(1)).unwrap();
    let sealed = match &actions[0] {
        Action::SendWelcome { key, welcome, .. } => {
            assert_eq!(welcome.peer_count, 2);
            seal_pair(key, b"welcome").unwrap()
        }
        _ => panic!("not welcomed"),
    };
    let why = guest.on_packet(WirePacket::PairSealed(sealed), peer(0)).err().unwrap();
    assert_eq!(why, SessionError::Welcome(OpenError::NotAuthentic));
    assert_eq!(why.message(), "packet authentication failed");
    assert!(guest.room_key().is_none());
    let sealed = Sealed { nonce: [0; 24], ciphertext: vec![] };
    let why = guest.on_packet(WirePacket::PairSealed(sealed), peer(0)).err().unwrap();
    assert_eq!(why, SessionError::NoPairKey);
    assert_eq!(why.message(), "missing authenticated pair key");
}

#[test]
fn malformed_exchanges_end_the_session() {
    let mut guest = Session::new(&Role::Guest, CODE, "guest", peer(1), false);
    let packet = WirePacket::Spake { response: false, message: vec![1] };
    let why = guest.on_packet(packet, peer(0)).err().unwrap();
    assert_eq!(why, SessionError::RoomAuthentication);
    assert_eq!(why.message(), "room authentication failed");
    let mut host = Session::new(&Role::Host { max_guests: 1 }, CODE, "host", peer(0), false);
    let _ = host.on_event(RelayEvent::PeerJoined { id: peer(1) });
    let packet = WirePacket::Spake { response: true, message: vec![1] };
    let why = host.on_packet(packet, peer(1)).err().unwrap();
    assert_eq!(why, SessionError::PeerAuthentication);
    assert_eq!(why.message(), "peer room authentication failed");
    let packet = WirePacket::Spake { response: true, message: vec![1] };
    assert!(host.on_packet(packet, peer(1)).unwrap().is_empty());
}

#[test]
fn a_guest_answers_one_exchange() {
    let mut guest = Session::new(&Role::Guest, CODE, "guest", peer(1), false);
    let offer = || WirePacket::Spake { response: false, message: start_exchange(CODE).message };
    assert_eq!(guest.on_packet(offer(), peer(0)).unwrap().len(), 1);
    assert!(guest.on_packet(offer(), peer(2)).unwrap().is_empty());
    let sealed = Sealed { nonce: [0; 24], ciphertext: vec![] };
    assert!(guest.on_packet(WirePacket::PairSealed(sealed), peer(2)).unwrap().is_empty());
}

#[test]
fn forged_frames_are_discarded() {
    let mut host = Session::new(&Role::Host { max_guests: 1 }, CODE, "host", peer(0), false);
    let sealed = Sealed { nonce: [0; 24], ciphertext: vec![0; 40] };
    let actions = host.on_packet(WirePacket::GroupSealed(sealed), peer(0xab)).unwrap();
    assert!(matches!(
        show(&actions)[..],
        [UiEvent::Error(why)] if why == "discarded an unauthenticated packet from ababab"
    ));
    assert!(matches!(
        discard_notice(&peer(1)),
        UiEvent::Error(why) if why == "discarded an unauthenticated packet from 010101"
    ));
    let mut guest = Session::new(&Role::Guest, CODE, "guest", peer(1), false);
    let sealed = Sealed { nonce: [0; 24], ciphertext: vec![0; 40] };
    assert!(guest.on_packet(WirePacket::GroupSealed(sealed), peer(0)).unwrap().is_empty());
}

#[test]
fn relay_events_are_shown() {
    let mut guest = Session::new(&Role::Guest, CODE, "guest", peer(1), false);
    assert!(guest.on_event(RelayEvent::PeerJoined { id: peer(2) }).is_empty());
    assert!(guest.on_event(RelayEvent::PeerLeft { id: peer(2) }).is_empty());
    assert!(guest
        .on_event(RelayEvent::Registered { id: peer(2), is_host: true })
        .is_empty());
    let actions = guest.on_event(RelayEvent::Error { message: "x".into() });
    assert!(matches!(show(&actions)[..], [UiEvent::Error(why)] if why == "x"));
    let actions = guest.on_event(RelayEvent::Data { from: peer(0), payload: vec![9] });
    assert!(matches!(
        &actions[..],
        [Action::ReadPacket { from, payload }] if *from == peer(0) && *payload == vec![9]
    ));
    for (closed, expected) in [
        (true, "relay closed the connection"),
        (false, "relay connection ended"),
    ] {
        let actions = disconnected(closed);
        assert!(matches!(&actions[0], Action::Show(UiEvent::Closed(why)) if why == expected));
        assert!(matches!(actions[1], Action::Stop));
    }
}

#[test]
fn hosts_forget_who_leaves() {
    let mut host = Session::new(&Role::Host { max_guests: 1 }, CODE, "host", peer(0), false);
    let _ = host.on_event(RelayEvent::PeerJoined { id: peer(1) });
    let actions = host.on_event(RelayEvent::PeerLeft { id: peer(1) });
    assert!(matches!(show(&actions)[..], [UiEvent::PeerCount(1)]));
    let packet = WirePacket::Spake { response: true, message: vec![1] };
    assert!(host.on_packet(packet, peer(1)).unwrap().is_empty());
    let _ = host.on_event(RelayEvent::PeerLeft { id: peer(1) });
    let actions = host.on_event(RelayEvent::PeerLeft { id: peer(1) });
    assert!(matches!(show(&actions)[..], [UiEvent::PeerCount(1)]));
}

#[test]
fn wiped_members_have_no_keys() {
    let mut host = Session::new(&Role::Host { max_guests: 1 }, CODE, "host", peer(0), false);
    host.wipe();
    assert_eq!(host.room_key(), Some(&[0; 32]));
    let mut guest = Session::new(&Role::Guest, CODE, "guest", peer(1), false);
    let welcome = Welcome { room_key: [3; 32], host_alias: "h".into(), peer_count: 2 };
    let actions = guest.on_welcome(welcome);
    assert_eq!(actions.len(), 3);
    assert_eq!(guest.room_key(), Some(&[3; 32]));
    let other = Welcome { room_key: [4; 32], host_alias: "x".into(), peer_count: 9 };
    assert!(guest.on_welcome(other).is_empty());
    assert_eq!(guest.room_key(), Some(&[3; 32]));
    guest.wipe();
    assert!(guest.room_key().is_none());
}

#[test]
fn the_room_key_is_kept() {
    let mut host = Session::new(&Role::Host { max_guests: 1 }, CODE, "host", peer(0), false);
    let key = *host.room_key().unwrap();
    let _ = host.on_event(RelayEvent::PeerJoined { id: peer(1) });
    let message = start_exchange(CODE).message;
    let actions = host
        .on_packet(WirePacket::Spake { response: true, message }, peer(2))
        .unwrap();
    assert!(actions.is_empty());
    let message = start_exchange(CODE).message;
    let actions = host
        .on_packet(WirePacket::Spake { response: true, message }, peer(1))
        .unwrap();
    match &actions[..] {
        [Action::SendWelcome { guest, welcome, .. }] => {
            assert_eq!(*guest, peer(1));
            assert_eq!(welcome.room_key, key);
        }
        _ => panic!("not welcomed"),
    }
    let _ = host.on_frame(peer(1), AppFrame::Joined { alias: "a\u{7}b".into() });
    let actions = host.on_event(RelayEvent::PeerLeft { id: peer(1) });
    assert!(matches!(
        &actions[1],
        Action::Broadcast(AppFrame::Left { alias }) if alias == "ab"
    ));
    assert_eq!(*host.room_key().unwrap(), key);
}

#[test]
fn offered_names_are_read_as_on_this_system() {
    let offer = |windows: bool| {
        let mut member = Session::new(&Role::Host { max_guests: 1 }, CODE, "host", peer(0), windows);
        let frame = AppFrame::FileOffer {
            id: [7; 16],
            alias: "guest".into(),
            name: "C:\\up\\a.txt".into(),
            size: 1,
            mime: "text/plain".into(),
        };
        match member.on_frame(peer(1), frame).pop() {
            Some(Action::Receive(offer)) => offer.safe_name,
            _ => unreachable!(),
        }
    };
    assert_eq!(offer(false), "C__up_a.txt");
    assert_eq!(offer(true), "a.txt");
}
