//! One member of a room: what it does with what the user asks, with what the
//! relay tells it and with what other members send.
//!
//! A [`Session`] decides and never waits. What it decides comes out as a list
//! of [`Action`]s, which are to be carried out in order; a failure of one ends
//! the session.

use vstd::prelude::*;

use crate::client;
use crate::client::{
    append, both, nothing, single, Action, ActionView, NetCommand, NetView, Role, UiEvent, UiView,
};
use crate::crypto;
use crate::crypto::{
    finish_exchange, open_group, open_pair, random_key, seal_group, start_exchange, wipe_key,
    OpenError, SealError,
};
use crate::names;
use crate::names::{clean_alias, visible_alias};
use crate::paths::PathView;
use crate::protocol;
use crate::protocol::{
    same_peer, AppFrame, EventView, FrameView, PacketView, PeerId, RelayEvent, Welcome,
    WelcomeView, WirePacket,
};
use crate::relay;
use crate::relay::RoomView;
use crate::table::Table;
use crate::text;
use crate::text::{blank, first_chars};
use crate::transfer;
use crate::transfer::{IncomingView, Offer, Transfers};

verus! {

broadcast use vstd::seq_lib::group_seq_properties;

/// The longest chat message, in characters.
pub const MAX_CHAT_CHARS: usize = 8000;

/// The most samples that one frame of a call may hold.
pub const MAX_VOICE_SAMPLES: usize = 4096;

/// The highest sample rate that a call may have.
pub const MAX_SAMPLE_RATE: u32 = 384000;

// ---------------------------------------------------------------------------
// The state of a member
// ---------------------------------------------------------------------------
/// What a member knows of the keys of its room.
pub enum SecurityState {
    Host {
        room_key: [u8; 32],
        /// What is kept of the key exchanges that have begun.
        handshakes: Table<PeerId, [u8; 32]>,
        /// The guests that have introduced themselves.
        aliases: Table<PeerId, String>,
    },
    Guest {
        room_key: Option<[u8; 32]>,
        /// The member with which the key exchange was done.
        host: Option<PeerId>,
        pair_key: Option<[u8; 32]>,
    },
}

/// The ghost counterpart of [`SecurityState`].
#[verifier::ext_equal]
pub enum SecurityView {
    Host {
        room_key: Seq<u8>,
        handshakes: Map<PeerId, Seq<u8>>,
        aliases: Map<PeerId, Seq<char>>,
    },
    Guest {
        room_key: Option<Seq<u8>>,
        host: Option<PeerId>,
        pair_key: Option<Seq<u8>>,
    },
}

/// The ghost counterpart of an optional key.
pub open spec fn key_view(key: Option<[u8; 32]>) -> Option<Seq<u8>> {
    match key {
        Some(key) => Some(key@),
        None => None,
    }
}

impl View for SecurityState {
    type V = SecurityView;

    open spec fn view(&self) -> SecurityView {
        match *self {
            SecurityState::Host { room_key, handshakes, aliases } => SecurityView::Host {
                room_key: room_key@,
                handshakes: handshakes@.map_values(|secret: [u8; 32]| secret@),
                aliases: aliases@.map_values(|alias: String| alias@),
            },
            SecurityState::Guest { room_key, host, pair_key } => SecurityView::Guest {
                room_key: key_view(room_key),
                host,
                pair_key: key_view(pair_key),
            },
        }
    }
}

impl SecurityState {
    /// The tables are well-formed.
    pub open spec fn wf(&self) -> bool {
        match *self {
            SecurityState::Host { room_key: _, handshakes, aliases } => handshakes.wf()
                && aliases.wf(),
            SecurityState::Guest { .. } => true,
        }
    }
}

/// One member of a room.
pub struct Session {
    self_id: PeerId,
    code: String,
    alias: String,
    /// Files are stored as Windows stores them.
    windows: bool,
    security: SecurityState,
    peer_count: usize,
    transfers: Transfers,
}

/// The ghost counterpart of [`Session`].
#[verifier::ext_equal]
pub struct SessionView {
    pub self_id: PeerId,
    pub code: Seq<char>,
    pub alias: Seq<char>,
    pub windows: bool,
    pub security: SecurityView,
    pub peer_count: usize,
    pub transfers: Map<[u8; 16], IncomingView>,
}

impl View for Session {
    type V = SessionView;

    closed spec fn view(&self) -> SessionView {
        SessionView {
            self_id: self.self_id,
            code: self.code@,
            alias: self.alias@,
            windows: self.windows,
            security: self.security@,
            peer_count: self.peer_count,
            transfers: self.transfers@,
        }
    }
}

impl SessionView {
    /// The key that the room shares, once the member has it.
    pub open spec fn room_key(self) -> Option<Seq<u8>> {
        match self.security {
            SecurityView::Host { room_key, .. } => Some(room_key),
            SecurityView::Guest { room_key, .. } => room_key,
        }
    }

    /// The same member with other keys.
    pub open spec fn with_security(self, security: SecurityView) -> SessionView {
        SessionView { security, ..self }
    }

    /// The same member with another number of members in its room.
    pub open spec fn with_peers(self, peer_count: usize) -> SessionView {
        SessionView { peer_count, ..self }
    }

    /// The same member with other transfers.
    pub open spec fn with_transfers(
        self,
        transfers: Map<[u8; 16], IncomingView>,
    ) -> SessionView {
        SessionView { transfers, ..self }
    }
}

/// The alias under which a member introduces itself.
pub open spec fn own_alias(alias: Seq<char>) -> Seq<char> {
    names::or_anonymous(text::head(alias, names::MAX_ALIAS_CHARS as nat))
}

/// What the user is told once the member is registered.
pub open spec fn opening_actions(is_host: bool) -> Seq<ActionView> {
    seq![
        ActionView::Show(
            UiView::Ready {
                secure: is_host,
                detail: if is_host {
                    "room registered; waiting for encrypted peers"@
                } else {
                    "relay connected; authenticating the room code"@
                },
            },
        ),
        ActionView::Show(UiView::PeerCount(1)),
    ]
}

/// The number of members that are left when one leaves.
pub open spec fn one_less(count: usize) -> usize {
    if count > 2 {
        (count - 1) as usize
    } else {
        1
    }
}

/// The number of members that are left when one leaves: there is always one.
fn count_less(count: usize) -> (r: usize)
    ensures
        r == one_less(count),
{
    if count > 2 {
        count - 1
    } else {
        1
    }
}

/// What the user is told if nothing can be sent yet.
pub open spec fn not_ready() -> ActionView {
    ActionView::Show(UiView::Error("secure room handshake is not complete"@))
}

/// What the user is told if nothing can be sent yet.
fn show_not_ready() -> (r: Action)
    ensures
        r@ == not_ready(),
{
    Action::Show(UiEvent::Error("secure room handshake is not complete".to_owned()))
}

// ---------------------------------------------------------------------------
// What the user asks
// ---------------------------------------------------------------------------
/// What a member does when the user asks for something at the time `now`.
pub open spec fn command_actions(member: SessionView, command: NetView, now: u64) -> Seq<
    ActionView,
> {
    let ready = member.room_key() is Some;
    match command {
        NetView::Chat(message) => {
            let message = text::head(message, MAX_CHAT_CHARS as nat);
            if text::is_blank(message) {
                seq![]
            } else if ready {
                seq![
                    ActionView::Broadcast(
                        FrameView::Chat { alias: member.alias, text: message, sent_at_ms: now },
                    ),
                    ActionView::Show(
                        UiView::Chat { alias: member.alias, text: message, mine: true },
                    ),
                ]
            } else {
                seq![not_ready()]
            }
        },
        NetView::SendFile(path) => if ready {
            seq![ActionView::SendFile(path)]
        } else {
            seq![not_ready()]
        },
        NetView::StartCall => if ready {
            seq![
                ActionView::Broadcast(FrameView::VoiceStart { alias: member.alias }),
                ActionView::Show(UiView::VoiceStarted("you ("@ + member.alias + ")"@)),
            ]
        } else {
            seq![not_ready()]
        },
        NetView::StopCall => if ready {
            seq![
                ActionView::Broadcast(FrameView::VoiceStop { alias: member.alias }),
                ActionView::Show(UiView::VoiceStopped("you ("@ + member.alias + ")"@)),
            ]
        } else {
            seq![not_ready()]
        },
        NetView::VoicePcm { sample_rate, samples } => if ready {
            seq![ActionView::Broadcast(FrameView::VoicePcm { sample_rate, samples })]
        } else {
            seq![]
        },
        NetView::Shutdown => seq![ActionView::Stop],
    }
}

// ---------------------------------------------------------------------------
// What the relay tells
// ---------------------------------------------------------------------------
/// A guest comes in: a host begins a key exchange, of which it keeps `secret`.
/// A guest does nothing.
pub open spec fn peer_joined_with(
    before: SessionView,
    id: PeerId,
    secret: Seq<u8>,
    after: SessionView,
    actions: Seq<ActionView>,
) -> bool {
    match before.security {
        SecurityView::Host { room_key, handshakes, aliases } => {
            &&& secret.len() == 32
            &&& after == before.with_security(
                SecurityView::Host {
                    room_key,
                    handshakes: handshakes.insert(id, secret),
                    aliases,
                },
            ).with_peers(before.peer_count.wrapping_add(1))
            &&& actions == seq![
                ActionView::Send {
                    to: Some(id),
                    packet: PacketView::Spake {
                        response: false,
                        message: crypto::exchange_message(before.code, secret),
                    },
                },
                ActionView::Show(UiView::PeerCount(before.peer_count.wrapping_add(1))),
            ]
        },
        SecurityView::Guest { .. } => after == before && actions == Seq::<ActionView>::empty(),
    }
}

/// A guest comes in: a host begins a key exchange, with whatever secret it
/// draws.
pub open spec fn peer_joined(
    before: SessionView,
    id: PeerId,
    after: SessionView,
    actions: Seq<ActionView>,
) -> bool {
    exists|secret: Seq<u8>| #[trigger] peer_joined_with(before, id, secret, after, actions)
}

/// A member once the relay has told it that `id` left: a host forgets it.
pub open spec fn without_peer(member: SessionView, id: PeerId) -> SessionView {
    match member.security {
        SecurityView::Host { room_key, handshakes, aliases } => member.with_security(
            SecurityView::Host {
                room_key,
                handshakes: handshakes.remove(id),
                aliases: aliases.remove(id),
            },
        ).with_peers(one_less(member.peer_count)),
        SecurityView::Guest { .. } => member,
    }
}

/// What a member does when the relay tells it that `id` left: a host tells the
/// others, if they know it.
pub open spec fn peer_left_actions(member: SessionView, id: PeerId) -> Seq<ActionView> {
    match member.security {
        SecurityView::Host { aliases, .. } => {
            let count = ActionView::Show(UiView::PeerCount(one_less(member.peer_count)));
            if aliases.contains_key(id) {
                seq![
                    count,
                    ActionView::Broadcast(FrameView::Left { alias: aliases[id] }),
                    ActionView::Show(UiView::Status(aliases[id] + " left the room"@)),
                ]
            } else {
                seq![count]
            }
        },
        SecurityView::Guest { .. } => seq![],
    }
}

/// What a member becomes and does when the relay tells it `event`.
pub open spec fn event_step(
    before: SessionView,
    event: EventView,
    after: SessionView,
    actions: Seq<ActionView>,
) -> bool {
    match event {
        EventView::PeerJoined { id } => peer_joined(before, id, after, actions),
        EventView::PeerLeft { id } => after == without_peer(before, id) && actions
            == peer_left_actions(before, id),
        EventView::Data { from, payload } => after == before && actions == seq![
            ActionView::ReadPacket { from, payload },
        ],
        EventView::RoomClosed => after == before && actions =~= seq![
            ActionView::Show(UiView::Closed("the host closed this room"@)),
            ActionView::Stop,
        ],
        EventView::Error { message } => after == before && actions == seq![
            ActionView::Show(UiView::Error(message)),
        ],
        EventView::Registered { .. } => after == before && actions == Seq::<ActionView>::empty(),
    }
}

// ---------------------------------------------------------------------------
// What other members send
// ---------------------------------------------------------------------------
/// Why a session ends when a packet comes in.
#[derive(Clone, Copy, Debug, PartialEq, Eq, Structural)]
pub enum SessionError {
    /// The host does not know the room code.
    RoomAuthentication,
    /// A guest does not know the room code.
    PeerAuthentication,
    /// There is no key to open a welcome with.
    NoPairKey,
    /// The welcome cannot be opened.
    Welcome(OpenError),
}

impl SessionError {
    /// How the error is reported.
    pub open spec fn text(self) -> Seq<char> {
        match self {
            SessionError::RoomAuthentication => "room authentication failed"@,
            SessionError::PeerAuthentication => "peer room authentication failed"@,
            SessionError::NoPairKey => "missing authenticated pair key"@,
            SessionError::Welcome(why) => why.text(),
        }
    }

    /// How the error is reported.
    pub fn message(&self) -> (r: String)
        ensures
            r@ == self.text(),
    {
        match self {
            SessionError::RoomAuthentication => "room authentication failed".to_owned(),
            SessionError::PeerAuthentication => "peer room authentication failed".to_owned(),
            SessionError::NoPairKey => "missing authenticated pair key".to_owned(),
            SessionError::Welcome(why) => why.message(),
        }
    }
}

/// Whether a member answers the first message of a key exchange: it is a guest
/// that has not done one.
pub open spec fn awaits_exchange(member: SessionView) -> bool {
    match member.security {
        SecurityView::Host { .. } => false,
        SecurityView::Guest { room_key, host, .. } => room_key is None && host is None,
    }
}

/// A guest answers the first message of a key exchange, of which it keeps
/// nothing but the key; `secret` is what its side of the exchange drew.
pub open spec fn exchange_answered_with(
    before: SessionView,
    from: PeerId,
    message: Seq<u8>,
    secret: Seq<u8>,
    after: SessionView,
    outcome: Result<Seq<ActionView>, SessionError>,
) -> bool {
    &&& secret.len() == 32
    &&& match crypto::pair_key(before.code, secret, message) {
        Some(key) => {
            &&& after == before.with_security(
                SecurityView::Guest { room_key: None, host: Some(from), pair_key: Some(key) },
            )
            &&& outcome == Ok::<Seq<ActionView>, SessionError>(
                seq![
                    ActionView::Send {
                        to: Some(from),
                        packet: PacketView::Spake {
                            response: true,
                            message: crypto::exchange_message(before.code, secret),
                        },
                    },
                ],
            )
        },
        None => {
            &&& after == before
            &&& outcome == Err::<Seq<ActionView>, SessionError>(SessionError::RoomAuthentication)
        },
    }
    &&& forall|other: Seq<u8>|
        other.len() == 32 && message == #[trigger] crypto::exchange_message(before.code, other)
            ==> crypto::pair_key(before.code, secret, message) is Some && crypto::pair_key(
            before.code,
            other,
            crypto::exchange_message(before.code, secret),
        ) == crypto::pair_key(before.code, secret, message)
}

/// A guest answers the first message of a key exchange, with whatever secret it
/// draws.
pub open spec fn exchange_answered(
    before: SessionView,
    from: PeerId,
    message: Seq<u8>,
    after: SessionView,
    outcome: Result<Seq<ActionView>, SessionError>,
) -> bool {
    exists|secret: Seq<u8>| #[trigger]
        exchange_answered_with(before, from, message, secret, after, outcome)
}

/// A member once the answer of a key exchange has come in: a host is done with
/// the exchange.
pub open spec fn after_answer(member: SessionView, from: PeerId) -> SessionView {
    match member.security {
        SecurityView::Host { room_key, handshakes, aliases } => member.with_security(
            SecurityView::Host { room_key, handshakes: handshakes.remove(from), aliases },
        ),
        SecurityView::Guest { .. } => member,
    }
}

/// What a member does when the answer of a key exchange comes in: a host that
/// waits for it sends the room key, sealed with the key of the exchange.
pub open spec fn answer_outcome(member: SessionView, from: PeerId, message: Seq<u8>) -> Result<
    Seq<ActionView>,
    SessionError,
> {
    match member.security {
        SecurityView::Host { room_key, handshakes, aliases } => if !handshakes.contains_key(from) {
            Ok(seq![])
        } else {
            match crypto::pair_key(member.code, handshakes[from], message) {
                Some(key) => Ok(
                    seq![
                        ActionView::SendWelcome {
                            guest: from,
                            key,
                            welcome: WelcomeView {
                                room_key,
                                host_alias: member.alias,
                                peer_count: (aliases.dom().len() as usize).wrapping_add(2),
                            },
                        },
                    ],
                ),
                None => Err(SessionError::PeerAuthentication),
            }
        },
        SecurityView::Guest { .. } => Ok(seq![]),
    }
}

/// If the answer comes from someone who knows the room code, the host accepts
/// it, and that someone has the same key.
pub open spec fn answer_agrees(member: SessionView, from: PeerId, message: Seq<u8>) -> bool {
    match member.security {
        SecurityView::Host { handshakes, .. } => handshakes.contains_key(from) ==> forall|
            other: Seq<u8>,
        |
            other.len() == 32 && message == #[trigger] crypto::exchange_message(member.code, other)
                ==> crypto::pair_key(member.code, handshakes[from], message) is Some
                && crypto::pair_key(
                member.code,
                other,
                crypto::exchange_message(member.code, handshakes[from]),
            ) == crypto::pair_key(member.code, handshakes[from], message),
        SecurityView::Guest { .. } => true,
    }
}

/// Whether a member expects a welcome from `from`.
pub open spec fn awaits_welcome(member: SessionView, from: PeerId) -> bool {
    match member.security {
        SecurityView::Host { .. } => false,
        SecurityView::Guest { room_key, host, .. } => host == Some(from) && room_key is None,
    }
}

/// A member once a welcome has come in: the key of the exchange is used up.
pub open spec fn after_sealed_welcome(member: SessionView, from: PeerId) -> SessionView {
    match member.security {
        SecurityView::Guest { room_key, host, .. } if awaits_welcome(
            member,
            from,
        ) => member.with_security(SecurityView::Guest { room_key, host, pair_key: None }),
        _ => member,
    }
}

/// What a member does when a sealed welcome comes in.
pub open spec fn sealed_welcome_outcome(
    member: SessionView,
    from: PeerId,
    sealed: protocol::SealedView,
) -> Result<Seq<ActionView>, SessionError> {
    match member.security {
        SecurityView::Guest { pair_key, .. } if awaits_welcome(member, from) => match pair_key {
            Some(key) => match crypto::opened(key, crypto::pair_context(), sealed) {
                Ok(plaintext) => Ok(seq![ActionView::ReadWelcome { plaintext }]),
                Err(why) => Err(SessionError::Welcome(why)),
            },
            None => Err(SessionError::NoPairKey),
        },
        _ => Ok(seq![]),
    }
}

/// What the user is told of a packet from `from` that is not authentic or makes
/// no sense.
pub open spec fn discarded(from: PeerId) -> UiView {
    UiView::Error("discarded an unauthenticated packet from "@ + protocol::hex(from.0@.take(3)))
}

/// What a member does when a sealed frame comes in.
pub open spec fn sealed_frame_actions(
    member: SessionView,
    from: PeerId,
    sealed: protocol::SealedView,
) -> Seq<ActionView> {
    match member.room_key() {
        None => seq![],
        Some(key) => match crypto::opened(key, crypto::group_context(from.0@), sealed) {
            Ok(plaintext) => seq![ActionView::ReadFrame { from, plaintext }],
            Err(_) => seq![ActionView::Show(discarded(from))],
        },
    }
}

/// What a member becomes and does when `packet` comes in from `from`.
pub open spec fn packet_step(
    before: SessionView,
    from: PeerId,
    packet: PacketView,
    after: SessionView,
    outcome: Result<Seq<ActionView>, SessionError>,
) -> bool {
    match packet {
        PacketView::Spake { response: false, message } => if awaits_exchange(before) {
            exchange_answered(before, from, message, after, outcome)
        } else {
            after == before && outcome == Ok::<Seq<ActionView>, SessionError>(seq![])
        },
        PacketView::Spake { response: true, message } => after == after_answer(before, from)
            && outcome == answer_outcome(before, from, message),
        PacketView::PairSealed(sealed) => after == after_sealed_welcome(before, from) && outcome
            == sealed_welcome_outcome(before, from, sealed),
        PacketView::GroupSealed(sealed) => after == before && outcome == Ok::<
            Seq<ActionView>,
            SessionError,
        >(sealed_frame_actions(before, from, sealed)),
    }
}

/// What came of a packet, in ghost form.
pub open spec fn outcome_view(r: Result<Vec<Action>, SessionError>) -> Result<
    Seq<ActionView>,
    SessionError,
> {
    match r {
        Ok(actions) => Ok(client::actions_view(actions@)),
        Err(why) => Err(why),
    }
}

/// Whether a member takes the room key out of a welcome: it is a guest that has
/// none.
pub open spec fn awaits_room_key(member: SessionView) -> bool {
    match member.security {
        SecurityView::Host { .. } => false,
        SecurityView::Guest { room_key, .. } => room_key is None,
    }
}

/// A member once it has read a welcome: a guest has the room key, and keeps the
/// one that it has.
pub open spec fn after_welcome(member: SessionView, welcome: WelcomeView) -> SessionView {
    match member.security {
        SecurityView::Guest { host, pair_key, .. } if awaits_room_key(
            member,
        ) => member.with_security(
            SecurityView::Guest { room_key: Some(welcome.room_key), host, pair_key },
        ).with_peers(welcome.peer_count),
        _ => member,
    }
}

/// What a guest does once it has read its welcome: it introduces itself.
pub open spec fn welcome_actions(member: SessionView, welcome: WelcomeView) -> Seq<ActionView> {
    if awaits_room_key(member) {
        seq![
            ActionView::Show(
                UiView::Ready {
                    secure: true,
                    detail: "end-to-end encrypted with host "@ + welcome.host_alias,
                },
            ),
            ActionView::Show(UiView::PeerCount(welcome.peer_count)),
            ActionView::Broadcast(FrameView::Joined { alias: member.alias }),
        ]
    } else {
        seq![]
    }
}

/// What a member makes of what `frame` says about who is in the room. A host
/// remembers who introduces itself; a guest counts.
pub open spec fn after_presence(member: SessionView, from: PeerId, frame: FrameView) -> SessionView {
    match (member.security, frame) {
        (
            SecurityView::Host { room_key, handshakes, aliases },
            FrameView::Joined { alias },
        ) => member.with_security(
            SecurityView::Host {
                room_key,
                handshakes,
                aliases: aliases.insert(from, names::shown_alias(alias)),
            },
        ),
        (SecurityView::Guest { .. }, FrameView::Joined { .. }) => member.with_peers(
            member.peer_count.wrapping_add(1),
        ),
        (SecurityView::Guest { .. }, FrameView::Left { .. }) => member.with_peers(
            one_less(member.peer_count),
        ),
        _ => member,
    }
}

/// What a guest tells the user of what `frame` says about who is in the room.
pub open spec fn presence_actions(member: SessionView, frame: FrameView) -> Seq<ActionView> {
    match (member.security, frame) {
        (SecurityView::Guest { .. }, FrameView::Joined { .. }) => seq![
            ActionView::Show(UiView::PeerCount(member.peer_count.wrapping_add(1))),
        ],
        (SecurityView::Guest { .. }, FrameView::Left { .. }) => seq![
            ActionView::Show(UiView::PeerCount(one_less(member.peer_count))),
        ],
        _ => seq![],
    }
}

/// The transfers of a member once a frame has come in.
pub open spec fn transfers_after(
    transfers: Map<[u8; 16], IncomingView>,
    frame: FrameView,
) -> Map<[u8; 16], IncomingView> {
    match frame {
        FrameView::FileChunk { id, sequence, bytes } => transfer::after_chunk(
            transfers,
            id,
            sequence,
            bytes,
        ),
        FrameView::FileComplete { id, .. } => transfers.remove(id),
        _ => transfers,
    }
}

/// What a member does with what a frame says.
pub open spec fn content_actions(
    windows: bool,
    transfers: Map<[u8; 16], IncomingView>,
    frame: FrameView,
) -> Seq<ActionView> {
    match frame {
        FrameView::Chat { alias, text: message, .. } => seq![
            ActionView::Show(
                UiView::Chat {
                    alias: names::shown_alias(alias),
                    text: text::head(message, MAX_CHAT_CHARS as nat),
                    mine: false,
                },
            ),
        ],
        FrameView::Joined { alias } => seq![
            ActionView::Show(UiView::Status(names::shown_alias(alias) + " joined securely"@)),
        ],
        FrameView::Left { alias } => seq![
            ActionView::Show(UiView::Status(names::shown_alias(alias) + " left the room"@)),
        ],
        FrameView::FileOffer { id, alias, name, size, .. } => match transfer::offer_answer(
            transfers,
            id,
            alias,
            name,
            size,
            windows,
        ) {
            Ok(offer) => seq![ActionView::Receive(offer)],
            Err(why) => seq![ActionView::Show(UiView::Error(why))],
        },
        FrameView::FileChunk { id, sequence, bytes } => transfer::chunk_actions(
            transfers,
            id,
            sequence,
            bytes,
        ),
        FrameView::FileComplete { id, sha256 } => transfer::complete_actions(
            transfers,
            id,
            sha256,
        ),
        FrameView::VoiceStart { alias } => seq![
            ActionView::Show(UiView::VoiceStarted(names::shown_alias(alias))),
        ],
        FrameView::VoicePcm { sample_rate, samples } => if samples.len() > MAX_VOICE_SAMPLES
            || sample_rate == 0 || sample_rate > MAX_SAMPLE_RATE {
            seq![]
        } else {
            seq![ActionView::Show(UiView::VoicePcm { sample_rate, samples })]
        },
        FrameView::VoiceStop { alias } => seq![
            ActionView::Show(UiView::VoiceStopped(names::shown_alias(alias))),
        ],
    }
}

/// A member once `frame` has come in from `from`.
pub open spec fn after_frame(member: SessionView, from: PeerId, frame: FrameView) -> SessionView {
    after_presence(member, from, frame).with_transfers(transfers_after(member.transfers, frame))
}

/// What a member does when `frame` comes in.
pub open spec fn frame_actions(member: SessionView, frame: FrameView) -> Seq<ActionView> {
    presence_actions(member, frame) + content_actions(member.windows, member.transfers, frame)
}

// ---------------------------------------------------------------------------
// Members at work
// ---------------------------------------------------------------------------
/// `text` with `before` in front and `after` behind.
fn wrapped(before: &str, text: &str, after: &str) -> (r: String)
    ensures
        r@ == before@ + text@ + after@,
{
    let mut out = before.to_owned();
    out.append(text);
    out.append(after);
    out
}

/// `text` with `after` behind.
fn followed(text: &str, after: &str) -> (r: String)
    ensures
        r@ == text@ + after@,
{
    let mut out = text.to_owned();
    out.append(after);
    out
}

/// What the user is told of a packet from `from` that is not authentic or makes
/// no sense.
pub fn discard_notice(from: &PeerId) -> (r: UiEvent)
    ensures
        r@ == discarded(*from),
{
    UiEvent::Error(
        followed("discarded an unauthenticated packet from ", from.short().as_str()),
    )
}

/// What is done when the connection to the relay ends: `closed` tells whether
/// the relay said goodbye.
pub fn disconnected(closed: bool) -> (r: Vec<Action>)
    ensures
        client::actions_view(r@) == seq![
            ActionView::Show(
                UiView::Closed(
                    if closed {
                        "relay closed the connection"@
                    } else {
                        "relay connection ended"@
                    },
                ),
            ),
            ActionView::Stop,
        ],
{
    let reason = if closed {
        "relay closed the connection".to_owned()
    } else {
        "relay connection ended".to_owned()
    };
    both(Action::Show(UiEvent::Closed(reason)), Action::Stop)
}

impl Session {
    /// The tables are well-formed.
    pub closed spec fn wf(&self) -> bool {
        self.security.wf() && self.transfers.wf()
    }

    /// A member that has just been registered as `id`, on Windows or elsewhere.
    /// A host draws the room key; which one is left open.
    pub fn new(role: &Role, code: &str, alias: &str, id: PeerId, windows: bool) -> (r: Session)
        ensures
            r.wf(),
            r@ == (SessionView {
                self_id: id,
                code: code@,
                alias: own_alias(alias@),
                windows,
                security: r@.security,
                peer_count: 1,
                transfers: Map::empty(),
            }),
            match *role {
                Role::Host { .. } => r@.security matches SecurityView::Host {
                    room_key,
                    handshakes,
                    aliases,
                } && room_key.len() == 32 && handshakes == Map::<PeerId, Seq<u8>>::empty()
                    && aliases == Map::<PeerId, Seq<char>>::empty(),
                Role::Guest => r@.security == (SecurityView::Guest {
                    room_key: None,
                    host: None,
                    pair_key: None,
                }),
            },
    {
        let security = match role {
            Role::Host { .. } => {
                let handshakes: Table<PeerId, [u8; 32]> = Table::new();
                let aliases: Table<PeerId, String> = Table::new();
                assert(handshakes@.map_values(|secret: [u8; 32]| secret@) =~= Map::<
                    PeerId,
                    Seq<u8>,
                >::empty());
                assert(aliases@.map_values(|alias: String| alias@) =~= Map::<
                    PeerId,
                    Seq<char>,
                >::empty());
                SecurityState::Host { room_key: random_key(), handshakes, aliases }
            },
            Role::Guest => SecurityState::Guest { room_key: None, host: None, pair_key: None },
        };
        Session {
            self_id: id,
            code: code.to_owned(),
            alias: visible_alias(first_chars(alias, names::MAX_ALIAS_CHARS)),
            windows,
            security,
            peer_count: 1,
            transfers: Transfers::new(),
        }
    }

    /// What the user is told first.
    pub fn opening(&self) -> (r: Vec<Action>)
        ensures
            client::actions_view(r@) == opening_actions(self@.security is Host),
    {
        let (secure, detail) = match &self.security {
            SecurityState::Host { .. } => (
                true,
                "room registered; waiting for encrypted peers".to_owned(),
            ),
            SecurityState::Guest { .. } => (
                false,
                "relay connected; authenticating the room code".to_owned(),
            ),
        };
        both(Action::Show(UiEvent::Ready { secure, detail }), Action::Show(UiEvent::PeerCount(1)))
    }

    /// The key that the room shares, once the member has it.
    pub fn room_key(&self) -> (r: Option<&[u8; 32]>)
        ensures
            match r {
                Some(key) => self@.room_key() == Some(key@),
                None => self@.room_key() is None,
            },
    {
        match &self.security {
            SecurityState::Host { room_key, .. } => Some(room_key),
            SecurityState::Guest { room_key, .. } => match room_key {
                Some(key) => Some(key),
                None => None,
            },
        }
    }

    /// Whether the member is a host.
    pub fn is_host(&self) -> (r: bool)
        ensures
            r == self@.security is Host,
    {
        match &self.security {
            SecurityState::Host { .. } => true,
            SecurityState::Guest { .. } => false,
        }
    }

    /// The alias under which the member introduces itself.
    pub fn alias(&self) -> (r: &str)
        ensures
            r@ == self@.alias,
    {
        self.alias.as_str()
    }

    /// The files that the member is receiving.
    pub fn transfers(&self) -> (r: &Transfers)
        requires
            self.wf(),
        ensures
            r.wf(),
            r@ == self@.transfers,
    {
        &self.transfers
    }

    /// Answers what the user asks at the time `now`, in milliseconds.
    pub fn on_command(&self, command: NetCommand, now: u64) -> (r: Vec<Action>)
        ensures
            client::actions_view(r@) == command_actions(self@, command@, now),
    {
        let ready = self.room_key().is_some();
        match command {
            NetCommand::Chat(message) => {
                let message = first_chars(message.as_str(), MAX_CHAT_CHARS);
                if blank(message.as_str()) {
                    nothing()
                } else if ready {
                    let frame = AppFrame::Chat {
                        alias: self.alias.as_str().to_owned(),
                        text: message.as_str().to_owned(),
                        sent_at_ms: now,
                    };
                    let event = UiEvent::Chat {
                        alias: self.alias.as_str().to_owned(),
                        text: message,
                        mine: true,
                    };
                    both(Action::Broadcast(frame), Action::Show(event))
                } else {
                    single(show_not_ready())
                }
            },
            NetCommand::SendFile(path) => if ready {
                single(Action::SendFile(path))
            } else {
                single(show_not_ready())
            },
            NetCommand::StartCall => if ready {
                both(
                    Action::Broadcast(
                        AppFrame::VoiceStart { alias: self.alias.as_str().to_owned() },
                    ),
                    Action::Show(UiEvent::VoiceStarted(wrapped("you (", self.alias.as_str(), ")"))),
                )
            } else {
                single(show_not_ready())
            },
            NetCommand::StopCall => if ready {
                both(
                    Action::Broadcast(AppFrame::VoiceStop { alias: self.alias.as_str().to_owned() }),
                    Action::Show(UiEvent::VoiceStopped(wrapped("you (", self.alias.as_str(), ")"))),
                )
            } else {
                single(show_not_ready())
            },
            NetCommand::VoicePcm { sample_rate, samples } => if ready {
                single(Action::Broadcast(AppFrame::VoicePcm { sample_rate, samples }))
            } else {
                nothing()
            },
            NetCommand::Shutdown => single(Action::Stop),
        }
    }

    /// Seals the bytes of a frame for the room, once the member has the room
    /// key. Only bytes that are too many for a packet are refused.
    pub fn broadcast(&self, plaintext: &[u8]) -> (r: Result<Option<WirePacket>, SealError>)
        ensures
            match r {
                Ok(Some(packet)) => self@.room_key() matches Some(key) && plaintext@.len()
                    <= protocol::MAX_RELAY_PACKET && (packet@ matches PacketView::GroupSealed(
                    sealed,
                ) && crypto::seals(
                    key,
                    crypto::group_context(self@.self_id.0@),
                    plaintext@,
                    sealed,
                )),
                Ok(None) => self@.room_key() is None,
                Err(SealError::TooLarge) => self@.room_key() is Some && plaintext@.len()
                    > protocol::MAX_RELAY_PACKET,
            },
    {
        match self.room_key() {
            None => Ok(None),
            Some(key) => match seal_group(key, &self.self_id.0, plaintext) {
                Ok(sealed) => Ok(Some(WirePacket::GroupSealed(sealed))),
                Err(why) => Err(why),
            },
        }
    }

    /// Takes in what the relay tells.
    pub fn on_event(&mut self, event: RelayEvent) -> (r: Vec<Action>)
        requires
            old(self).wf(),
        ensures
            final(self).wf(),
            event_step(old(self)@, event@, final(self)@, client::actions_view(r@)),
    {
        match event {
            RelayEvent::PeerJoined { id } => self.on_peer_joined(id),
            RelayEvent::PeerLeft { id } => self.on_peer_left(id),
            RelayEvent::Data { from, payload } => single(Action::ReadPacket { from, payload }),
            RelayEvent::RoomClosed => both(
                Action::Show(UiEvent::Closed("the host closed this room".to_owned())),
                Action::Stop,
            ),
            RelayEvent::Error { message } => single(Action::Show(UiEvent::Error(message))),
            RelayEvent::Registered { .. } => nothing(),
        }
    }

    /// A guest comes in: a host begins a key exchange.
    fn on_peer_joined(&mut self, id: PeerId) -> (r: Vec<Action>)
        requires
            old(self).wf(),
        ensures
            final(self).wf(),
            peer_joined(old(self)@, id, final(self)@, client::actions_view(r@)),
    {
        match &mut self.security {
            SecurityState::Host { handshakes, .. } => {
                let exchange = start_exchange(self.code.as_str());
                let ghost before = handshakes@;
                handshakes.insert(id, exchange.secret);
                proof {
                    assert(handshakes@.map_values(|secret: [u8; 32]| secret@)
                        =~= before.map_values(|secret: [u8; 32]| secret@).insert(
                        id,
                        exchange.secret@,
                    ));
                }
                self.peer_count = self.peer_count.wrapping_add(1);
                let r = both(
                    Action::Send {
                        to: Some(id),
                        packet: WirePacket::Spake { response: false, message: exchange.message },
                    },
                    Action::Show(UiEvent::PeerCount(self.peer_count)),
                );
                assert(peer_joined_with(
                    old(self)@,
                    id,
                    exchange.secret@,
                    self@,
                    client::actions_view(r@),
                ));
                r
            },
            SecurityState::Guest { .. } => {
                let r = nothing();
                assert(peer_joined_with(old(self)@, id, seq![], self@, client::actions_view(r@)));
                r
            },
        }
    }

    /// A guest leaves: a host tells the others.
    fn on_peer_left(&mut self, id: PeerId) -> (r: Vec<Action>)
        requires
            old(self).wf(),
        ensures
            final(self).wf(),
            final(self)@ == without_peer(old(self)@, id),
            client::actions_view(r@) == peer_left_actions(old(self)@, id),
    {
        match &mut self.security {
            SecurityState::Host { handshakes, aliases, .. } => {
                self.peer_count = count_less(self.peer_count);
                let mut actions = single(Action::Show(UiEvent::PeerCount(self.peer_count)));
                let ghost open = handshakes@;
                let ghost known = aliases@;
                let _ = handshakes.remove(&id);
                let departed = aliases.remove(&id);
                proof {
                    assert(known.map_values(|alias: String| alias@).contains_key(id)
                        == known.contains_key(id));
                    assert(handshakes@.map_values(|secret: [u8; 32]| secret@) =~= open.map_values(
                        |secret: [u8; 32]| secret@,
                    ).remove(id));
                    assert(aliases@.map_values(|alias: String| alias@) =~= known.map_values(
                        |alias: String| alias@,
                    ).remove(id));
                }
                match departed {
                    Some(departed) => {
                        let status = followed(departed.as_str(), " left the room");
                        append(
                            &mut actions,
                            Action::Broadcast(AppFrame::Left { alias: departed }),
                        );
                        append(&mut actions, Action::Show(UiEvent::Status(status)));
                    },
                    None => {},
                }
                assert(client::actions_view(actions@) =~= peer_left_actions(old(self)@, id));
                actions
            },
            SecurityState::Guest { .. } => nothing(),
        }
    }

    /// Takes in a packet that came from `from`.
    pub fn on_packet(&mut self, packet: WirePacket, from: PeerId) -> (r: Result<
        Vec<Action>,
        SessionError,
    >)
        requires
            old(self).wf(),
        ensures
            final(self).wf(),
            packet_step(old(self)@, from, packet@, final(self)@, outcome_view(r)),
            packet@ matches PacketView::Spake { response: true, message } ==> answer_agrees(
                old(self)@,
                from,
                message,
            ),
    {
        match packet {
            WirePacket::Spake { response, message } => if response {
                self.on_exchange_answer(message, from)
            } else {
                self.on_exchange_start(message, from)
            },
            WirePacket::PairSealed(sealed) => self.on_sealed_welcome(sealed, from),
            WirePacket::GroupSealed(sealed) => {
                let actions = match self.room_key() {
                    None => nothing(),
                    Some(key) => match open_group(key, &from.0, &sealed) {
                        Ok(plaintext) => single(Action::ReadFrame { from, plaintext }),
                        Err(_) => single(Action::Show(discard_notice(&from))),
                    },
                };
                Ok(actions)
            },
        }
    }

    /// The first message of a key exchange comes in: a guest that has not done
    /// one answers it.
    fn on_exchange_start(&mut self, message: Vec<u8>, from: PeerId) -> (r: Result<
        Vec<Action>,
        SessionError,
    >)
        requires
            old(self).wf(),
        ensures
            final(self).wf(),
            packet_step(
                old(self)@,
                from,
                (PacketView::Spake { response: false, message: message@ }),
                final(self)@,
                outcome_view(r),
            ),
    {
        let awaited = match &self.security {
            SecurityState::Host { .. } => false,
            SecurityState::Guest { room_key, host, .. } => room_key.is_none() && host.is_none(),
        };
        if !awaited {
            return Ok(nothing());
        }
        let exchange = start_exchange(self.code.as_str());
        let mut secret = exchange.secret;
        let key = finish_exchange(self.code.as_str(), &secret, message.as_slice());
        wipe_key(&mut secret);
        match key {
            None => {
                let r = Err(SessionError::RoomAuthentication);
                assert(exchange_answered_with(
                    old(self)@,
                    from,
                    message@,
                    exchange.secret@,
                    self@,
                    outcome_view(r),
                ));
                r
            },
            Some(key) => {
                self.security = SecurityState::Guest {
                    room_key: None,
                    host: Some(from),
                    pair_key: Some(key),
                };
                let r = Ok(
                    single(
                        Action::Send {
                            to: Some(from),
                            packet: WirePacket::Spake { response: true, message: exchange.message },
                        },
                    ),
                );
                assert(exchange_answered_with(
                    old(self)@,
                    from,
                    message@,
                    exchange.secret@,
                    self@,
                    outcome_view(r),
                ));
                r
            },
        }
    }

    /// The answer of a key exchange comes in: a host that waits for it sends
    /// the room key.
    fn on_exchange_answer(&mut self, message: Vec<u8>, from: PeerId) -> (r: Result<
        Vec<Action>,
        SessionError,
    >)
        requires
            old(self).wf(),
        ensures
            final(self).wf(),
            final(self)@ == after_answer(old(self)@, from),
            outcome_view(r) == answer_outcome(old(self)@, from, message@),
            answer_agrees(old(self)@, from, message@),
    {
        match &mut self.security {
            SecurityState::Guest { .. } => Ok(nothing()),
            SecurityState::Host { room_key, handshakes, aliases } => {
                let ghost open = handshakes@;
                let ghost secrets = open.map_values(|secret: [u8; 32]| secret@);
                let ghost names = aliases@.map_values(|alias: String| alias@);
                assert(names.dom() =~= aliases@.dom());
                let found = handshakes.remove(&from);
                assert(handshakes@.map_values(|secret: [u8; 32]| secret@) =~= secrets.remove(from));
                assert(secrets.contains_key(from) == open.contains_key(from));
                match found {
                    None => Ok(nothing()),
                    Some(found) => {
                        let mut secret = found;
                        let key = finish_exchange(
                            self.code.as_str(),
                            &secret,
                            message.as_slice(),
                        );
                        wipe_key(&mut secret);
                        match key {
                            None => Err(SessionError::PeerAuthentication),
                            Some(key) => {
                                let welcome = Welcome {
                                    room_key: *room_key,
                                    host_alias: self.alias.as_str().to_owned(),
                                    peer_count: aliases.len().wrapping_add(2),
                                };
                                Ok(single(Action::SendWelcome { guest: from, key, welcome }))
                            },
                        }
                    },
                }
            },
        }
    }

    /// A sealed welcome comes in: a guest that expects it opens it, and uses up
    /// the key of its exchange.
    fn on_sealed_welcome(&mut self, sealed: protocol::Sealed, from: PeerId) -> (r: Result<
        Vec<Action>,
        SessionError,
    >)
        requires
            old(self).wf(),
        ensures
            final(self).wf(),
            final(self)@ == after_sealed_welcome(old(self)@, from),
            outcome_view(r) == sealed_welcome_outcome(old(self)@, from, sealed@),
    {
        match &mut self.security {
            SecurityState::Host { .. } => Ok(nothing()),
            SecurityState::Guest { room_key, host, pair_key } => {
                let expected = match host {
                    Some(host) => same_peer(host, &from),
                    None => false,
                };
                if !expected || room_key.is_some() {
                    return Ok(nothing());
                }
                match pair_key.take() {
                    None => Err(SessionError::NoPairKey),
                    Some(found) => {
                        let mut key = found;
                        let opened = open_pair(&key, &sealed);
                        wipe_key(&mut key);
                        match opened {
                            Ok(plaintext) => Ok(single(Action::ReadWelcome { plaintext })),
                            Err(why) => Err(SessionError::Welcome(why)),
                        }
                    },
                }
            },
        }
    }

    /// Takes in the welcome of the host: a guest that has no room key gets it, and
    /// introduces itself.
    pub fn on_welcome(&mut self, welcome: Welcome) -> (r: Vec<Action>)
        requires
            old(self).wf(),
        ensures
            final(self).wf(),
            final(self)@ == after_welcome(old(self)@, welcome@),
            client::actions_view(r@) == welcome_actions(old(self)@, welcome@),
    {
        let mut welcome = welcome;
        match &mut self.security {
            SecurityState::Host { .. } => {
                wipe_key(&mut welcome.room_key);
                nothing()
            },
            SecurityState::Guest { room_key, .. } => {
                if room_key.is_some() {
                    wipe_key(&mut welcome.room_key);
                    return nothing();
                }
                *room_key = Some(welcome.room_key);
                wipe_key(&mut welcome.room_key);
                self.peer_count = welcome.peer_count;
                let mut actions = both(
                    Action::Show(
                        UiEvent::Ready {
                            secure: true,
                            detail: followed(
                                "end-to-end encrypted with host ",
                                welcome.host_alias.as_str(),
                            ),
                        },
                    ),
                    Action::Show(UiEvent::PeerCount(self.peer_count)),
                );
                append(
                    &mut actions,
                    Action::Broadcast(AppFrame::Joined { alias: self.alias.as_str().to_owned() }),
                );
                actions
            },
        }
    }

    /// Takes in a frame that came from `from`.
    pub fn on_frame(&mut self, from: PeerId, frame: AppFrame) -> (r: Vec<Action>)
        requires
            old(self).wf(),
        ensures
            final(self).wf(),
            final(self)@ == after_frame(old(self)@, from, frame@),
            client::actions_view(r@) == frame_actions(old(self)@, frame@),
    {
        let mut actions = self.on_presence(from, &frame);
        let mut content = self.on_content(frame);
        let ghost noted = actions@;
        let ghost rest = content@;
        actions.append(&mut content);
        assert(client::actions_view(actions@) =~= client::actions_view(noted) + client::actions_view(rest));
        actions
    }

    /// Takes in what a frame says about who is in the room.
    fn on_presence(&mut self, from: PeerId, frame: &AppFrame) -> (r: Vec<Action>)
        requires
            old(self).wf(),
        ensures
            final(self).wf(),
            final(self)@ == after_presence(old(self)@, from, frame@),
            final(self)@.transfers == old(self)@.transfers,
            client::actions_view(r@) == presence_actions(old(self)@, frame@),
    {
        match &mut self.security {
            SecurityState::Host { aliases, .. } => {
                if let AppFrame::Joined { alias } = frame {
                    let ghost known = aliases@;
                    let shown = clean_alias(alias.as_str());
                    aliases.insert(from, shown);
                    assert(aliases@.map_values(|alias: String| alias@) =~= known.map_values(
                        |alias: String| alias@,
                    ).insert(from, shown@));
                }
                nothing()
            },
            SecurityState::Guest { .. } => match frame {
                AppFrame::Joined { .. } => {
                    self.peer_count = self.peer_count.wrapping_add(1);
                    single(Action::Show(UiEvent::PeerCount(self.peer_count)))
                },
                AppFrame::Left { .. } => {
                    self.peer_count = count_less(self.peer_count);
                    single(Action::Show(UiEvent::PeerCount(self.peer_count)))
                },
                _ => nothing(),
            },
        }
    }

    /// Takes in what a frame says.
    fn on_content(&mut self, frame: AppFrame) -> (r: Vec<Action>)
        requires
            old(self).wf(),
        ensures
            final(self).wf(),
            final(self)@ == old(self)@.with_transfers(
                transfers_after(old(self)@.transfers, frame@),
            ),
            client::actions_view(r@) == content_actions(
                old(self)@.windows,
                old(self)@.transfers,
                frame@,
            ),
    {
        match frame {
            AppFrame::Chat { alias, text: message, .. } => single(
                Action::Show(
                    UiEvent::Chat {
                        alias: clean_alias(alias.as_str()),
                        text: first_chars(message.as_str(), MAX_CHAT_CHARS),
                        mine: false,
                    },
                ),
            ),
            AppFrame::Joined { alias } => single(
                Action::Show(
                    UiEvent::Status(
                        followed(clean_alias(alias.as_str()).as_str(), " joined securely"),
                    ),
                ),
            ),
            AppFrame::Left { alias } => single(
                Action::Show(
                    UiEvent::Status(
                        followed(clean_alias(alias.as_str()).as_str(), " left the room"),
                    ),
                ),
            ),
            AppFrame::FileOffer { id, alias, name, size, .. } => {
                match self.transfers.consider(
                    id,
                    alias.as_str(),
                    name.as_str(),
                    size,
                    self.windows,
                ) {
                    Ok(offer) => single(Action::Receive(offer)),
                    Err(why) => single(Action::Show(UiEvent::Error(why))),
                }
            },
            AppFrame::FileChunk { id, sequence, bytes } => self.transfers.chunk(
                id,
                sequence,
                bytes,
            ),
            AppFrame::FileComplete { id, sha256 } => self.transfers.complete(id, sha256),
            AppFrame::VoiceStart { alias } => single(
                Action::Show(UiEvent::VoiceStarted(clean_alias(alias.as_str()))),
            ),
            AppFrame::VoicePcm { sample_rate, samples } => {
                if samples.len() > MAX_VOICE_SAMPLES || sample_rate == 0 || sample_rate
                    > MAX_SAMPLE_RATE {
                    nothing()
                } else {
                    single(Action::Show(UiEvent::VoicePcm { sample_rate, samples }))
                }
            },
            AppFrame::VoiceStop { alias } => single(
                Action::Show(UiEvent::VoiceStopped(clean_alias(alias.as_str()))),
            ),
        }
    }

    /// Begins to receive an offered file under `final_name`, once its partial
    /// file has been created, and says what to tell the user.
    pub fn begin_receive(&mut self, offer: Offer, final_name: String, shown_path: String) -> (r:
        UiEvent)
        requires
            old(self).wf(),
            transfer::admits(old(self)@.transfers, offer@.id),
            offer@.size <= protocol::MAX_FILE_SIZE,
        ensures
            final(self).wf(),
            final(self)@ == old(self)@.with_transfers(
                old(self)@.transfers.insert(
                    offer@.id,
                    transfer::begun(offer@, final_name@, shown_path@),
                ),
            ),
            r@ == UiView::Status(
                "receiving "@ + offer@.name + " ("@ + names::readable_size(offer@.size as nat)
                    + ") from "@ + offer@.from,
            ),
    {
        self.transfers.begin(offer, final_name, shown_path)
    }

    /// Erases the keys of the room.
    pub fn wipe(&mut self)
        requires
            old(self).wf(),
        ensures
            final(self).wf(),
            final(self)@ == old(self)@.with_security(final(self)@.security),
            match old(self)@.security {
                SecurityView::Host { handshakes, aliases, .. } => final(self)@.security == (
                SecurityView::Host { room_key: crypto::zero_key(), handshakes, aliases }),
                SecurityView::Guest { host, .. } => final(self)@.security == (SecurityView::Guest {
                    room_key: None,
                    host,
                    pair_key: None,
                }),
            },
    {
        match &mut self.security {
            SecurityState::Host { room_key, .. } => wipe_key(room_key),
            SecurityState::Guest { room_key, pair_key, .. } => {
                wipe_option(room_key);
                wipe_option(pair_key);
            },
        }
    }
}

/// Erases a key, if there is one.
fn wipe_option(key: &mut Option<[u8; 32]>)
    ensures
        *final(key) is None,
{
    match key {
        Some(bytes) => wipe_key(bytes),
        None => {},
    }
    *key = None;
}

// ---------------------------------------------------------------------------
// Laws
// ---------------------------------------------------------------------------
/// Nothing is sent to the room before the member has the room key, whatever
/// the user asks.
pub proof fn law_nothing_is_sent_without_the_room_key(
    member: SessionView,
    command: NetView,
    now: u64,
    frame: FrameView,
)
    requires
        member.room_key() is None,
    ensures
        !command_actions(member, command, now).contains(ActionView::Broadcast(frame)),
{
}

/// There is always someone in the room: the member itself.
pub proof fn law_someone_is_always_counted(member: SessionView, id: PeerId, alias: Seq<char>)
    requires
        member.peer_count >= 1,
    ensures
        without_peer(member, id).peer_count >= 1,
        after_frame(member, id, FrameView::Left { alias }).peer_count >= 1,
{
}

/// What one member seals for the room, every other member with the room key
/// reads, when the relay says who sent it.
pub proof fn law_members_read_each_other(
    sender: SessionView,
    reader: SessionView,
    plaintext: Seq<u8>,
    sealed: protocol::SealedView,
)
    requires
        sender.room_key() matches Some(key) && crypto::seals(
            key,
            crypto::group_context(sender.self_id.0@),
            plaintext,
            sealed,
        ),
        reader.room_key() == sender.room_key(),
    ensures
        sealed_frame_actions(reader, sender.self_id, sealed) == seq![
            ActionView::ReadFrame { from: sender.self_id, plaintext },
        ],
{
}

/// What a member of a room sends to all of it reaches every other member, and
/// each that has the room key reads it.
pub proof fn law_broadcasts_reach_the_room(
    rooms: Map<Seq<char>, RoomView>,
    room: Seq<char>,
    sender: SessionView,
    reader: SessionView,
    plaintext: Seq<u8>,
    sealed: protocol::SealedView,
)
    requires
        rooms.contains_key(room),
        rooms[room].peers.contains(sender.self_id),
        rooms[room].peers.contains(reader.self_id),
        sender.self_id != reader.self_id,
        sender.room_key() matches Some(key) && crypto::seals(
            key,
            crypto::group_context(sender.self_id.0@),
            plaintext,
            sealed,
        ),
        reader.room_key() == sender.room_key(),
    ensures
        relay::recipients(rooms, room, sender.self_id, None).contains(reader.self_id),
        sealed_frame_actions(reader, sender.self_id, sealed) == seq![
            ActionView::ReadFrame { from: sender.self_id, plaintext },
        ],
{
    relay::law_everyone_receives_room_traffic(rooms, room, sender.self_id, reader.self_id);
    law_members_read_each_other(sender, reader, plaintext, sealed);
}

/// A frame that does not open under the room key as one of the member that the
/// relay names never reaches the member's state, and the user is warned.
pub proof fn law_forged_frames_change_nothing(
    reader: SessionView,
    from: PeerId,
    sealed: protocol::SealedView,
    after: SessionView,
    outcome: Result<Seq<ActionView>, SessionError>,
)
    requires
        reader.room_key() matches Some(key) && crypto::opened(
            key,
            crypto::group_context(from.0@),
            sealed,
        ) is Err,
        packet_step(reader, from, PacketView::GroupSealed(sealed), after, outcome),
    ensures
        after == reader,
        outcome == Ok::<Seq<ActionView>, SessionError>(seq![ActionView::Show(discarded(from))]),
{
}

/// A guest takes the room key from nobody but the member with which it did its
/// key exchange, and only once.
pub proof fn law_welcome_comes_from_the_host(
    guest: SessionView,
    from: PeerId,
    sealed: protocol::SealedView,
    plaintext: Seq<u8>,
)
    requires
        sealed_welcome_outcome(guest, from, sealed) == Ok::<Seq<ActionView>, SessionError>(
            seq![ActionView::ReadWelcome { plaintext }],
        ),
    ensures
        guest.security matches SecurityView::Guest { room_key, host, pair_key } && room_key is None
            && host == Some(from) && (pair_key matches Some(key) && crypto::opened(
            key,
            crypto::pair_context(),
            sealed,
        ) == Ok::<Seq<u8>, OpenError>(plaintext)),
{
    let outcome = sealed_welcome_outcome(guest, from, sealed);
    let wanted: Seq<ActionView> = seq![ActionView::ReadWelcome { plaintext }];
    assert(outcome->Ok_0.len() == 1);
    assert(outcome->Ok_0[0] == wanted[0]);
}

/// No packet, event or frame changes the room key of a member, and no welcome
/// changes one that it has: a host keeps the one it drew, and a guest the one of
/// its first welcome.
pub proof fn law_the_room_key_is_kept(
    before: SessionView,
    from: PeerId,
    packet: PacketView,
    event: EventView,
    frame: FrameView,
    welcome: WelcomeView,
    after: SessionView,
    outcome: Result<Seq<ActionView>, SessionError>,
    actions: Seq<ActionView>,
)
    ensures
        packet_step(before, from, packet, after, outcome) ==> after.room_key()
            == before.room_key(),
        event_step(before, event, after, actions) ==> after.room_key() == before.room_key(),
        after_frame(before, from, frame).room_key() == before.room_key(),
        before.room_key() is Some ==> after_welcome(before, welcome).room_key()
            == before.room_key(),
{
}

/// Once a guest has done its key exchange, no packet gives it another host.
pub proof fn law_a_guest_keeps_its_host(
    before: SessionView,
    from: PeerId,
    packet: PacketView,
    after: SessionView,
    outcome: Result<Seq<ActionView>, SessionError>,
    chosen: PeerId,
)
    requires
        before.security matches SecurityView::Guest { host, .. } && host == Some(chosen),
        packet_step(before, from, packet, after, outcome),
    ensures
        after.security matches SecurityView::Guest { host, .. } && host == Some(chosen),
{
}

/// A host hands the room key to nobody but the member whose answer came in, and
/// only if it had begun a key exchange with it; the key that seals it is that
/// of the exchange.
pub proof fn law_the_room_key_needs_an_exchange(
    member: SessionView,
    from: PeerId,
    message: Seq<u8>,
    guest: PeerId,
    key: Seq<u8>,
    welcome: WelcomeView,
)
    requires
        answer_outcome(member, from, message) matches Ok(actions) && actions.contains(
            ActionView::SendWelcome { guest, key, welcome },
        ),
    ensures
        guest == from,
        member.security matches SecurityView::Host { handshakes, .. } && handshakes.contains_key(
            from,
        ) && crypto::pair_key(member.code, handshakes[from], message) == Some(key),
{
}

/// The key exchange of a host and a guest that know the same room code ends
/// with the room key in the hands of the guest.
///
/// The guest answers the message that the host sent it; the host answers with
/// a welcome under a key that the guest has; the guest opens the welcome, and
/// then both have the same room key.
pub proof fn law_the_handshake_shares_the_room_key(
    host: SessionView,
    guest: SessionView,
    guest_secret: Seq<u8>,
    answered: SessionView,
    outcome: Result<Seq<ActionView>, SessionError>,
    welcome: WelcomeView,
    plaintext: Seq<u8>,
    sealed: protocol::SealedView,
)
    requires
        host.code == guest.code,
        awaits_exchange(guest),
        host.security matches SecurityView::Host { handshakes, .. } && handshakes.contains_key(
            guest.self_id,
        ) && handshakes[guest.self_id].len() == 32 && exchange_answered_with(
            guest,
            host.self_id,
            crypto::exchange_message(host.code, handshakes[guest.self_id]),
            guest_secret,
            answered,
            outcome,
        ),
        answer_outcome(
            host,
            guest.self_id,
            crypto::exchange_message(guest.code, guest_secret),
        ) matches Ok(actions) && actions.len() == 1 && (actions[0] matches ActionView::SendWelcome {
            key,
            welcome: sent,
            ..
        } && sent == welcome && crypto::seals(key, crypto::pair_context(), plaintext, sealed)),
    ensures
        outcome == Ok::<Seq<ActionView>, SessionError>(
            seq![
                ActionView::Send {
                    to: Some(host.self_id),
                    packet: PacketView::Spake {
                        response: true,
                        message: crypto::exchange_message(guest.code, guest_secret),
                    },
                },
            ],
        ),
        sealed_welcome_outcome(answered, host.self_id, sealed) == Ok::<
            Seq<ActionView>,
            SessionError,
        >(seq![ActionView::ReadWelcome { plaintext }]),
        after_welcome(
            after_sealed_welcome(answered, host.self_id),
            welcome,
        ).room_key() == host.room_key(),
{
    let secret = host.security->handshakes[guest.self_id];
    let message = crypto::exchange_message(host.code, secret);
    assert(crypto::pair_key(guest.code, guest_secret, message) is Some);
}

/// What the user types reaches the room once the member has the room key: the
/// message goes out under the member's alias with the time at which it was
/// typed, and is shown to the user as their own. A message of up to eight
/// thousand characters is not changed, a longer one is cut off there, and a blank
/// one goes nowhere.
pub proof fn law_messages_go_out(member: SessionView, message: Seq<char>, now: u64)
    ensures
        member.room_key() is Some && message.len() <= 8000 && !text::is_blank(message)
            ==> command_actions(member, NetView::Chat(message), now) == seq![
            ActionView::Broadcast(
                FrameView::Chat { alias: member.alias, text: message, sent_at_ms: now },
            ),
            ActionView::Show(UiView::Chat { alias: member.alias, text: message, mine: true }),
        ],
        message.len() > 8000 ==> command_actions(member, NetView::Chat(message), now)
            == command_actions(member, NetView::Chat(message.take(8000)), now),
        message.len() <= 8000 && text::is_blank(message) ==> command_actions(
            member,
            NetView::Chat(message),
            now,
        ).len() == 0,
{
    if message.len() > 8000 {
        assert(text::head(message, 8000) =~= message.take(8000));
        assert(text::head(message.take(8000), 8000) =~= message.take(8000));
    }
}

/// Once the member has the room key, a file that the user asks for is sent, a
/// call is begun and ended for everyone under the member's alias, and every
/// sample that is recorded goes out as it is.
pub proof fn law_requests_are_granted(
    member: SessionView,
    path: PathView,
    sample_rate: u32,
    samples: Seq<i16>,
    now: u64,
)
    requires
        member.room_key() is Some,
    ensures
        command_actions(member, NetView::SendFile(path), now) == seq![ActionView::SendFile(path)],
        command_actions(member, NetView::StartCall, now) == seq![
            ActionView::Broadcast(FrameView::VoiceStart { alias: member.alias }),
            ActionView::Show(UiView::VoiceStarted("you ("@ + member.alias + ")"@)),
        ],
        command_actions(member, NetView::StopCall, now) == seq![
            ActionView::Broadcast(FrameView::VoiceStop { alias: member.alias }),
            ActionView::Show(UiView::VoiceStopped("you ("@ + member.alias + ")"@)),
        ],
        command_actions(member, NetView::VoicePcm { sample_rate, samples }, now) == seq![
            ActionView::Broadcast(FrameView::VoicePcm { sample_rate, samples }),
        ],
{
}

/// Before the member has the room key, the user is told that the room is not
/// ready, and nothing else happens; samples are dropped without a word.
pub proof fn law_requests_wait_for_the_room_key(
    member: SessionView,
    command: NetView,
    now: u64,
)
    requires
        member.room_key() is None,
    ensures
        command is SendFile || command is StartCall || command is StopCall ==> command_actions(
            member,
            command,
            now,
        ) == seq![ActionView::Show(UiView::Error("secure room handshake is not complete"@))],
        command matches NetView::Chat(message) ==> message.len() <= 8000 && !text::is_blank(message)
            ==> command_actions(member, command, now) == seq![
            ActionView::Show(UiView::Error("secure room handshake is not complete"@)),
        ],
        command is VoicePcm ==> command_actions(member, command, now).len() == 0,
{
}

/// Only the user ends the session: asking for it is all it takes, with or without
/// the room key, and nothing else that the user asks for does.
pub proof fn law_the_user_can_leave(member: SessionView, command: NetView, now: u64)
    ensures
        command is Shutdown ==> command_actions(member, command, now) == seq![ActionView::Stop],
        !(command is Shutdown) ==> !command_actions(member, command, now).contains(
            ActionView::Stop,
        ),
{
}

/// A host is ready at once and a guest is not, and both begin alone in the room.
pub proof fn law_members_begin_alone(is_host: bool)
    ensures
        opening_actions(is_host).len() == 2,
        opening_actions(is_host)[0] matches ActionView::Show(UiView::Ready { secure, .. })
            && secure == is_host,
        opening_actions(is_host)[1] == ActionView::Show(UiView::PeerCount(1)),
        opening_actions(true)[0] == ActionView::Show(
            UiView::Ready {
                secure: true,
                detail: "room registered; waiting for encrypted peers"@,
            },
        ),
        opening_actions(false)[0] == ActionView::Show(
            UiView::Ready {
                secure: false,
                detail: "relay connected; authenticating the room code"@,
            },
        ),
{
}

/// An alias of up to thirty-two characters with something to see in it is kept, a
/// longer one is cut off there, and nobody is without one.
pub proof fn law_aliases_are_kept(alias: Seq<char>)
    ensures
        alias.len() <= 32 && !text::is_blank(alias) ==> own_alias(alias) == alias,
        alias.len() > 32 ==> own_alias(alias) == own_alias(alias.take(32)),
        alias.len() <= 32 && text::is_blank(alias) ==> own_alias(alias) == "anonymous"@,
        own_alias(alias).len() <= 32,
{
    reveal_strlit("anonymous");
    if alias.len() > 32 {
        assert(text::head(alias, 32) =~= alias.take(32));
        assert(text::head(alias.take(32), 32) =~= alias.take(32));
    }
}

/// When a guest comes in, its host counts it, keeps what it needs of the key
/// exchange with this guest, keeps everything else, sends the first message of
/// the exchange to this guest alone, and tells the user how many there are. A
/// guest does nothing.
pub proof fn law_hosts_greet_every_guest(
    before: SessionView,
    id: PeerId,
    secret: Seq<u8>,
    after: SessionView,
    actions: Seq<ActionView>,
    other: PeerId,
)
    requires
        peer_joined_with(before, id, secret, after, actions),
        before.peer_count < usize::MAX,
    ensures
        before.security is Guest ==> after == before && actions.len() == 0,
        before.security is Host ==> after.peer_count == before.peer_count + 1,
        before.security is Host ==> after.security is Host && after.room_key() == before.room_key()
            && after.self_id == before.self_id && after.code == before.code && after.alias
            == before.alias && after.transfers == before.transfers,
        before.security matches SecurityView::Host { handshakes, aliases, .. } ==> (
        after.security matches SecurityView::Host { handshakes: begun, aliases: known, .. }
            && begun.contains_key(id) && begun[id] == secret && known == aliases && (other != id
            ==> begun.contains_key(other) == handshakes.contains_key(other) && begun[other]
            == handshakes[other])),
        before.security is Host ==> actions == seq![
            ActionView::Send {
                to: Some(id),
                packet: PacketView::Spake {
                    response: false,
                    message: crypto::exchange_message(before.code, secret),
                },
            },
            ActionView::Show(UiView::PeerCount((before.peer_count + 1) as usize)),
        ],
{
}

/// When a guest leaves, its host counts one member less, forgets it and nobody
/// else, and tells the others under the alias by which they know it. A guest
/// leaves it to the host.
pub proof fn law_hosts_see_guests_leave(member: SessionView, id: PeerId, other: PeerId)
    ensures
        member.security is Guest ==> without_peer(member, id) == member && peer_left_actions(
            member,
            id,
        ).len() == 0,
        member.security is Host && member.peer_count > 1 ==> without_peer(member, id).peer_count
            == member.peer_count - 1,
        member.security matches SecurityView::Host { handshakes, aliases, .. } ==> (without_peer(
            member,
            id,
        ).security matches SecurityView::Host { handshakes: left, aliases: known, .. }
            && !left.contains_key(id) && !known.contains_key(id) && (other != id
            ==> left.contains_key(other) == handshakes.contains_key(other) && known.contains_key(
            other,
        ) == aliases.contains_key(other) && (known.contains_key(other) ==> known[other]
            == aliases[other]) && (left.contains_key(other) ==> left[other] == handshakes[other]))),
        without_peer(member, id).room_key() == member.room_key(),
        without_peer(member, id).transfers == member.transfers,
        member.security is Host ==> peer_left_actions(member, id).len() > 0 && peer_left_actions(
            member,
            id,
        )[0] == ActionView::Show(UiView::PeerCount(without_peer(member, id).peer_count)),
        member.security matches SecurityView::Host { aliases, .. } ==> aliases.contains_key(id)
            ==> peer_left_actions(member, id).len() == 3 && peer_left_actions(member, id)[1]
            == ActionView::Broadcast(FrameView::Left { alias: aliases[id] }) && peer_left_actions(
            member,
            id,
        )[2] == ActionView::Show(UiView::Status(aliases[id] + " left the room"@)),
        member.security matches SecurityView::Host { aliases, .. } ==> !aliases.contains_key(id)
            ==> peer_left_actions(member, id).len() == 1,
{
}

/// The count of members goes down by one with everyone who leaves, but a member
/// always counts itself.
pub proof fn law_members_are_counted_down(count: usize)
    ensures
        count >= 2 ==> one_less(count) == count - 1,
        count <= 1 ==> one_less(count) == 1,
{
}

/// What the relay hands over is read as it is, what it complains of is shown, and
/// when it closes the room the user is told and the session ends.
pub proof fn law_the_relay_is_heard(
    before: SessionView,
    from: PeerId,
    payload: Seq<u8>,
    message: Seq<char>,
    id: PeerId,
    is_host: bool,
    after: SessionView,
    actions: Seq<ActionView>,
)
    ensures
        event_step(before, EventView::Data { from, payload }, after, actions) ==> after == before
            && actions == seq![ActionView::ReadPacket { from, payload }],
        event_step(before, EventView::Error { message }, after, actions) ==> after == before
            && actions == seq![ActionView::Show(UiView::Error(message))],
        event_step(before, EventView::RoomClosed, after, actions) ==> after == before && actions
            == seq![
            ActionView::Show(UiView::Closed("the host closed this room"@)),
            ActionView::Stop,
        ],
        event_step(before, EventView::Registered { id, is_host }, after, actions) ==> after
            == before && actions.len() == 0,
        event_step(before, EventView::PeerLeft { id }, after, actions) ==> after == without_peer(
            before,
            id,
        ) && actions == peer_left_actions(before, id),
        event_step(before, EventView::PeerJoined { id }, after, actions) ==> peer_joined(
            before,
            id,
            after,
            actions,
        ),
{
}

/// A member answers the first message of one key exchange and of no other: it
/// must be a guest that has neither the room key nor a host.
pub proof fn law_guests_answer_once(member: SessionView)
    ensures
        member.security is Host ==> !awaits_exchange(member),
        member.security matches SecurityView::Guest { room_key, host, .. } ==> (awaits_exchange(
            member,
        ) <==> room_key is None && host is None),
        awaits_exchange(member) ==> member.room_key() is None,
{
}

/// A guest whose message is not acceptable learns that the room code is wrong and
/// keeps its state; one whose message is takes the sender for its host, keeps the
/// key of the pair, and answers the sender alone.
pub proof fn law_exchanges_are_answered(
    before: SessionView,
    from: PeerId,
    message: Seq<u8>,
    secret: Seq<u8>,
    after: SessionView,
    outcome: Result<Seq<ActionView>, SessionError>,
)
    requires
        exchange_answered_with(before, from, message, secret, after, outcome),
    ensures
        crypto::pair_key(before.code, secret, message) is None ==> after == before && outcome
            == Err::<Seq<ActionView>, SessionError>(SessionError::RoomAuthentication),
        crypto::pair_key(before.code, secret, message) is Some ==> after.security == (
        SecurityView::Guest {
            room_key: None,
            host: Some(from),
            pair_key: crypto::pair_key(before.code, secret, message),
        }) && outcome == Ok::<Seq<ActionView>, SessionError>(
            seq![
                ActionView::Send {
                    to: Some(from),
                    packet: PacketView::Spake {
                        response: true,
                        message: crypto::exchange_message(before.code, secret),
                    },
                },
            ],
        ),
        after.code == before.code && after.alias == before.alias && after.self_id == before.self_id
            && after.transfers == before.transfers && after.peer_count == before.peer_count,
{
}

/// A host whose exchange with a guest is done hands the room key to that guest,
/// with its own alias and the number of members that there will be; it is done
/// with the exchange whether the answer was right or wrong, and an answer that it
/// does not wait for has no effect.
pub proof fn law_answers_are_rewarded(member: SessionView, from: PeerId, message: Seq<u8>)
    ensures
        member.security matches SecurityView::Host { room_key, handshakes, aliases } ==> (
        handshakes.contains_key(from) ==> match crypto::pair_key(
            member.code,
            handshakes[from],
            message,
        ) {
            None => answer_outcome(member, from, message) == Err::<Seq<ActionView>, SessionError>(
                SessionError::PeerAuthentication,
            ),
            Some(key) => aliases.dom().len() < usize::MAX - 2 ==> answer_outcome(
                member,
                from,
                message,
            ) == Ok::<Seq<ActionView>, SessionError>(
                seq![
                    ActionView::SendWelcome {
                        guest: from,
                        key,
                        welcome: WelcomeView {
                            room_key,
                            host_alias: member.alias,
                            peer_count: (aliases.dom().len() + 2) as usize,
                        },
                    },
                ],
            ),
        }),
        member.security matches SecurityView::Host { handshakes, .. } ==> !handshakes.contains_key(
            from,
        ) ==> answer_outcome(member, from, message) == Ok::<Seq<ActionView>, SessionError>(seq![]),
        member.security is Guest ==> answer_outcome(member, from, message) == Ok::<
            Seq<ActionView>,
            SessionError,
        >(seq![]) && after_answer(member, from) == member,
        after_answer(member, from).security matches SecurityView::Host { handshakes, .. }
            ==> !handshakes.contains_key(from),
        after_answer(member, from).room_key() == member.room_key(),
{
}

/// A guest opens the welcome of its host with the key of their exchange, once: a
/// welcome that does not open ends the session, and one from anybody else, or to
/// someone who has the room key, is ignored.
pub proof fn law_welcomes_are_opened(
    member: SessionView,
    from: PeerId,
    sealed: protocol::SealedView,
)
    ensures
        member.security matches SecurityView::Guest { room_key, host, pair_key } ==> (room_key is None
            && host == Some(from) ==> (after_sealed_welcome(member, from).security == (
        SecurityView::Guest { room_key, host, pair_key: None })) && match pair_key {
            None => sealed_welcome_outcome(member, from, sealed) == Err::<
                Seq<ActionView>,
                SessionError,
            >(SessionError::NoPairKey),
            Some(key) => match crypto::opened(key, crypto::pair_context(), sealed) {
                Ok(plaintext) => sealed_welcome_outcome(member, from, sealed) == Ok::<
                    Seq<ActionView>,
                    SessionError,
                >(seq![ActionView::ReadWelcome { plaintext }]),
                Err(why) => sealed_welcome_outcome(member, from, sealed) == Err::<
                    Seq<ActionView>,
                    SessionError,
                >(SessionError::Welcome(why)),
            },
        }),
        member.security matches SecurityView::Guest { room_key, host, .. } ==> (room_key is Some
            || host != Some(from) ==> sealed_welcome_outcome(member, from, sealed) == Ok::<
            Seq<ActionView>,
            SessionError,
        >(seq![]) && after_sealed_welcome(member, from) == member),
        member.security is Host ==> sealed_welcome_outcome(member, from, sealed) == Ok::<
            Seq<ActionView>,
            SessionError,
        >(seq![]) && after_sealed_welcome(member, from) == member,
{
}

/// A guest that reads its welcome has the room key and the number of members in
/// it, tells the user that the room is encrypted and with whom, and introduces
/// itself to the room.
pub proof fn law_welcomed_guests_introduce_themselves(member: SessionView, welcome: WelcomeView)
    ensures
        member.security is Guest && member.room_key() is None ==> after_welcome(
            member,
            welcome,
        ).room_key() == Some(welcome.room_key) && after_welcome(member, welcome).peer_count
            == welcome.peer_count && welcome_actions(member, welcome) == seq![
            ActionView::Show(
                UiView::Ready {
                    secure: true,
                    detail: "end-to-end encrypted with host "@ + welcome.host_alias,
                },
            ),
            ActionView::Show(UiView::PeerCount(welcome.peer_count)),
            ActionView::Broadcast(FrameView::Joined { alias: member.alias }),
        ],
        member.room_key() is Some ==> after_welcome(member, welcome) == member && welcome_actions(
            member,
            welcome,
        ).len() == 0,
        after_welcome(member, welcome).alias == member.alias && after_welcome(
            member,
            welcome,
        ).self_id == member.self_id && after_welcome(member, welcome).transfers == member.transfers,
{
}

/// A packet for the room is read by whoever has the room key: what opens as the
/// sender's is handed on as the sender's, what does not is reported with the
/// beginning of the sender's identifier, and without the room key nothing
/// happens.
pub proof fn law_room_packets_are_read(
    member: SessionView,
    from: PeerId,
    sealed: protocol::SealedView,
)
    ensures
        member.room_key() is None ==> sealed_frame_actions(member, from, sealed).len() == 0,
        member.room_key() matches Some(key) ==> match crypto::opened(
            key,
            crypto::group_context(from.0@),
            sealed,
        ) {
            Ok(plaintext) => sealed_frame_actions(member, from, sealed) == seq![
                ActionView::ReadFrame { from, plaintext },
            ],
            Err(_) => sealed_frame_actions(member, from, sealed) == seq![
                ActionView::Show(
                    UiView::Error(
                        "discarded an unauthenticated packet from "@ + protocol::hex(
                            from.0@.take(3),
                        ),
                    ),
                ),
            ],
        },
{
}

/// Every kind of packet goes its own way: the first message of an exchange, its
/// answer, the welcome, and what is meant for the room.
pub proof fn law_packets_go_their_way(
    before: SessionView,
    from: PeerId,
    message: Seq<u8>,
    sealed: protocol::SealedView,
    after: SessionView,
    outcome: Result<Seq<ActionView>, SessionError>,
)
    ensures
        packet_step(
            before,
            from,
            PacketView::Spake { response: false, message },
            after,
            outcome,
        ) ==> if awaits_exchange(before) {
            exchange_answered(before, from, message, after, outcome)
        } else {
            after == before && outcome == Ok::<Seq<ActionView>, SessionError>(seq![])
        },
        packet_step(
            before,
            from,
            PacketView::Spake { response: true, message },
            after,
            outcome,
        ) ==> after == after_answer(before, from) && outcome == answer_outcome(
            before,
            from,
            message,
        ),
        packet_step(before, from, PacketView::PairSealed(sealed), after, outcome) ==> after
            == after_sealed_welcome(before, from) && outcome == sealed_welcome_outcome(
            before,
            from,
            sealed,
        ),
        packet_step(before, from, PacketView::GroupSealed(sealed), after, outcome) ==> after
            == before && outcome == Ok::<Seq<ActionView>, SessionError>(
            sealed_frame_actions(before, from, sealed),
        ),
{
}

/// A message of someone else is shown under their alias, as it is up to eight
/// thousand characters, and never as the user's own.
pub proof fn law_messages_are_shown(
    member: SessionView,
    alias: Seq<char>,
    message: Seq<char>,
    sent_at_ms: u64,
)
    requires
        message.len() <= 8000,
    ensures
        frame_actions(member, FrameView::Chat { alias, text: message, sent_at_ms }) == seq![
            ActionView::Show(
                UiView::Chat { alias: names::shown_alias(alias), text: message, mine: false },
            ),
        ],
{
    assert(frame_actions(member, FrameView::Chat { alias, text: message, sent_at_ms }) =~= seq![
        ActionView::Show(
            UiView::Chat { alias: names::shown_alias(alias), text: message, mine: false },
        ),
    ]);
}

/// A call is heard: what comes in of it is handed on to be played, with the same
/// samples at the same rate, if it is no more than 4096 samples at a rate from
/// one to 384000, and dropped otherwise; and the user is told when a call begins
/// and when it ends.
pub proof fn law_calls_are_played(
    member: SessionView,
    sample_rate: u32,
    samples: Seq<i16>,
    alias: Seq<char>,
)
    ensures
        samples.len() <= 4096 && 1 <= sample_rate <= 384000 ==> frame_actions(
            member,
            FrameView::VoicePcm { sample_rate, samples },
        ) == seq![ActionView::Show(UiView::VoicePcm { sample_rate, samples })],
        samples.len() > 4096 || sample_rate == 0 || sample_rate > 384000 ==> frame_actions(
            member,
            FrameView::VoicePcm { sample_rate, samples },
        ).len() == 0,
        frame_actions(member, FrameView::VoiceStart { alias }) == seq![
            ActionView::Show(UiView::VoiceStarted(names::shown_alias(alias))),
        ],
        frame_actions(member, FrameView::VoiceStop { alias }) == seq![
            ActionView::Show(UiView::VoiceStopped(names::shown_alias(alias))),
        ],
{
    assert(frame_actions(member, FrameView::VoiceStart { alias }) =~= seq![
        ActionView::Show(UiView::VoiceStarted(names::shown_alias(alias))),
    ]);
    assert(frame_actions(member, FrameView::VoiceStop { alias }) =~= seq![
        ActionView::Show(UiView::VoiceStopped(names::shown_alias(alias))),
    ]);
    if samples.len() <= 4096 && 1 <= sample_rate <= 384000 {
        assert(frame_actions(member, FrameView::VoicePcm { sample_rate, samples }) =~= seq![
            ActionView::Show(UiView::VoicePcm { sample_rate, samples }),
        ]);
    }
}

/// Who comes and who goes is shown by alias. A guest counts them; a host
/// remembers who introduced itself, and leaves counting to the relay.
pub proof fn law_comings_and_goings_are_shown(
    member: SessionView,
    from: PeerId,
    alias: Seq<char>,
    other: PeerId,
)
    requires
        1 <= member.peer_count < usize::MAX,
    ensures
        frame_actions(member, FrameView::Joined { alias }).last() == ActionView::Show(
            UiView::Status(names::shown_alias(alias) + " joined securely"@),
        ),
        frame_actions(member, FrameView::Left { alias }).last() == ActionView::Show(
            UiView::Status(names::shown_alias(alias) + " left the room"@),
        ),
        member.security is Guest ==> after_frame(
            member,
            from,
            FrameView::Joined { alias },
        ).peer_count == member.peer_count + 1 && frame_actions(
            member,
            FrameView::Joined { alias },
        ).first() == ActionView::Show(UiView::PeerCount((member.peer_count + 1) as usize)),
        member.security is Guest && member.peer_count > 1 ==> after_frame(
            member,
            from,
            FrameView::Left { alias },
        ).peer_count == member.peer_count - 1 && frame_actions(
            member,
            FrameView::Left { alias },
        ).first() == ActionView::Show(UiView::PeerCount((member.peer_count - 1) as usize)),
        member.security is Host ==> after_frame(
            member,
            from,
            FrameView::Joined { alias },
        ).peer_count == member.peer_count && after_frame(
            member,
            from,
            FrameView::Left { alias },
        ) == member,
        member.security matches SecurityView::Host { aliases, .. } ==> (after_frame(
            member,
            from,
            FrameView::Joined { alias },
        ).security matches SecurityView::Host { aliases: known, .. } && known.contains_key(from)
            && known[from] == names::shown_alias(alias) && (other != from ==> known.contains_key(
            other,
        ) == aliases.contains_key(other) && known[other] == aliases[other])),
{
}

/// Only files that arrive change the transfers of a member, and only who comes
/// and goes changes what it knows of the room; whatever else is sent leaves the
/// member as it is.
pub proof fn law_talk_changes_nothing(member: SessionView, from: PeerId, frame: FrameView)
    ensures
        !(frame is FileChunk || frame is FileComplete) ==> after_frame(
            member,
            from,
            frame,
        ).transfers == member.transfers,
        !(frame is Joined || frame is Left) ==> after_frame(member, from, frame).security
            == member.security && after_frame(member, from, frame).peer_count == member.peer_count,
        frame is Chat || frame is VoiceStart || frame is VoicePcm || frame is VoiceStop
            || frame is FileOffer ==> after_frame(member, from, frame) == member,
        after_frame(member, from, frame).self_id == member.self_id,
        after_frame(member, from, frame).code == member.code,
        after_frame(member, from, frame).alias == member.alias,
{
}

/// An offered file is received or refused as the transfers decide, a piece of a
/// file goes to its transfer, and a file that is said to be complete is off the
/// list.
pub proof fn law_files_go_to_their_transfer(
    member: SessionView,
    from: PeerId,
    id: [u8; 16],
    alias: Seq<char>,
    name: Seq<char>,
    size: u64,
    mime: Seq<char>,
    sequence: u32,
    bytes: Seq<u8>,
    sha256: Seq<u8>,
)
    ensures
        match transfer::offer_answer(member.transfers, id, alias, name, size, member.windows) {
            Ok(offer) => frame_actions(
                member,
                FrameView::FileOffer { id, alias, name, size, mime },
            ) == seq![ActionView::Receive(offer)],
            Err(why) => frame_actions(
                member,
                FrameView::FileOffer { id, alias, name, size, mime },
            ) == seq![ActionView::Show(UiView::Error(why))],
        },
        frame_actions(member, FrameView::FileChunk { id, sequence, bytes })
            == transfer::chunk_actions(member.transfers, id, sequence, bytes),
        after_frame(member, from, FrameView::FileChunk { id, sequence, bytes }).transfers
            == transfer::after_chunk(member.transfers, id, sequence, bytes),
        frame_actions(member, FrameView::FileComplete { id, sha256 })
            == transfer::complete_actions(member.transfers, id, sha256),
        after_frame(member, from, FrameView::FileComplete { id, sha256 }).transfers
            == member.transfers.remove(id),
{
    match transfer::offer_answer(member.transfers, id, alias, name, size, member.windows) {
        Ok(offer) => {
            assert(frame_actions(member, FrameView::FileOffer { id, alias, name, size, mime })
                =~= seq![ActionView::Receive(offer)]);
        },
        Err(why) => {
            assert(frame_actions(member, FrameView::FileOffer { id, alias, name, size, mime })
                =~= seq![ActionView::Show(UiView::Error(why))]);
        },
    }
    assert(frame_actions(member, FrameView::FileChunk { id, sequence, bytes })
        =~= transfer::chunk_actions(member.transfers, id, sequence, bytes));
    assert(frame_actions(member, FrameView::FileComplete { id, sha256 })
        =~= transfer::complete_actions(member.transfers, id, sha256));
}

/// What each failure that ends a session says.
pub proof fn law_session_errors_are_worded(why: SessionError)
    ensures
        why.text() == match why {
            SessionError::RoomAuthentication => "room authentication failed"@,
            SessionError::PeerAuthentication => "peer room authentication failed"@,
            SessionError::NoPairKey => "missing authenticated pair key"@,
            SessionError::Welcome(OpenError::TooShort) => "encrypted packet is too short"@,
            SessionError::Welcome(OpenError::NotAuthentic) => "packet authentication failed"@,
        },
{
}

/// A host and a guest who know the same room code end a key exchange with the same
/// key, whatever secrets they drew.
pub proof fn law_exchanges_agree(
    member: SessionView,
    from: PeerId,
    message: Seq<u8>,
    secret: Seq<u8>,
    other: Seq<u8>,
)
    requires
        answer_agrees(member, from, message),
        member.security matches SecurityView::Host { handshakes, .. } && handshakes.contains_key(
            from,
        ) && handshakes[from] == secret,
        other.len() == 32,
        message == crypto::exchange_message(member.code, other),
    ensures
        crypto::pair_key(member.code, secret, message) matches Some(key) && crypto::pair_key(
            member.code,
            other,
            crypto::exchange_message(member.code, secret),
        ) == Some(key),
{
}

} // verus!
