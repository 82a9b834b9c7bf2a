//! A whole room, from end to end: what its members get from each other.
//!
//! Nothing here is carried out. The laws put together what is known of the key
//! exchange, of the relay, of the members and of the files they send.

use vstd::prelude::*;

use crate::client;
use crate::client::{ActionView, NetView, Role, UiView};
use crate::crypto;
use crate::names;
use crate::protocol;
use crate::protocol::{EventView, FrameView, PacketView, PeerId, SealedView, WelcomeView};
use crate::relay;
use crate::relay::RoomView;
use crate::session;
use crate::session::{SecurityView, SessionError, SessionView};
use crate::text;
use crate::transfer;
use crate::transfer::{IncomingView, OfferView};

verus! {

broadcast use vstd::seq_lib::group_seq_properties;

// ---------------------------------------------------------------------------
// Members
// ---------------------------------------------------------------------------
/// A key exchange, from the first message of the host to the welcome.
pub struct Handshake {
    /// The host when the answer of the guest comes in.
    pub host: SessionView,
    /// The guest when the first message of the host comes in.
    pub guest: SessionView,
    /// What the guest's side of the exchange drew.
    pub secret: Seq<u8>,
    /// The guest once it has answered.
    pub answered: SessionView,
    /// What came of the first message.
    pub outcome: Result<Seq<ActionView>, SessionError>,
    pub welcome: WelcomeView,
    /// The bytes of the welcome, and the packet they are sealed in.
    pub plaintext: Seq<u8>,
    pub sealed: SealedView,
}

impl Handshake {
    /// The host and the guest know the same room code, and everything that they
    /// sent each other arrived.
    pub open spec fn done(self) -> bool {
        &&& self.host.code == self.guest.code
        &&& session::awaits_exchange(self.guest)
        &&& self.host.security matches SecurityView::Host { handshakes, .. }
            && handshakes.contains_key(self.guest.self_id) && handshakes[self.guest.self_id].len()
            == 32 && session::exchange_answered_with(
            self.guest,
            self.host.self_id,
            crypto::exchange_message(self.host.code, handshakes[self.guest.self_id]),
            self.secret,
            self.answered,
            self.outcome,
        )
        &&& session::answer_outcome(
            self.host,
            self.guest.self_id,
            crypto::exchange_message(self.guest.code, self.secret),
        ) matches Ok(actions) && actions.len() == 1 && (actions[0] matches ActionView::SendWelcome {
            key,
            welcome,
            ..
        } && welcome == self.welcome && crypto::seals(
            key,
            crypto::pair_context(),
            self.plaintext,
            self.sealed,
        ))
    }

    /// The guest once it has read its welcome.
    pub open spec fn member(self) -> SessionView {
        session::after_welcome(
            session::after_sealed_welcome(self.answered, self.host.self_id),
            self.welcome,
        )
    }
}

/// Whether `member` comes into the room with the key `key`: it is the host, or
/// a guest whose key exchange with the host is done.
pub open spec fn comes_in(key: Seq<u8>, member: SessionView) -> bool {
    ||| member.security is Host && member.room_key() == Some(key)
    ||| exists|exchange: Handshake| #[trigger]
        exchange.done() && exchange.host.room_key() == Some(key) && exchange.member() == member
}

/// Whether a packet, an event, a frame, a welcome or the beginning of a transfer
/// turns `before` into `after`.
pub open spec fn advances(before: SessionView, after: SessionView) -> bool {
    ||| exists|from: PeerId, packet: PacketView, outcome: Result<Seq<ActionView>, SessionError>|
        #[trigger] session::packet_step(before, from, packet, after, outcome)
    ||| exists|event: EventView, actions: Seq<ActionView>| #[trigger]
        session::event_step(before, event, after, actions)
    ||| exists|from: PeerId, frame: FrameView| after == #[trigger] session::after_frame(
        before,
        from,
        frame,
    )
    ||| exists|welcome: WelcomeView|
        after == #[trigger] session::after_welcome(before, welcome)
    ||| exists|transfers: Map<[u8; 16], IncomingView>|
        after == #[trigger] before.with_transfers(transfers)
}

/// The states that a member of the room with the key `key` goes through.
pub open spec fn is_stay(key: Seq<u8>, states: Seq<SessionView>) -> bool {
    &&& states.len() > 0
    &&& comes_in(key, states[0])
    &&& forall|i: int| 0 < i < states.len() ==> advances(states[i - 1], #[trigger] states[i])
}

/// Whether `member` has come into the room with the key `key`, however long ago
/// and whatever has happened since.
pub open spec fn belongs(key: Seq<u8>, member: SessionView) -> bool {
    exists|states: Seq<SessionView>| #[trigger] is_stay(key, states) && states.last() == member
}

/// Who comes in has the key of the room.
proof fn lemma_comes_in_with_the_key(key: Seq<u8>, member: SessionView)
    requires
        comes_in(key, member),
    ensures
        member.room_key() == Some(key),
{
    if !(member.security is Host && member.room_key() == Some(key)) {
        let h = choose|h: Handshake| #[trigger]
            h.done() && h.host.room_key() == Some(key) && h.member() == member;
        session::law_the_handshake_shares_the_room_key(
            h.host,
            h.guest,
            h.secret,
            h.answered,
            h.outcome,
            h.welcome,
            h.plaintext,
            h.sealed,
        );
    }
}

/// Nothing that happens takes the key of the room away or changes it.
proof fn lemma_the_key_stays(before: SessionView, after: SessionView)
    requires
        advances(before, after),
        before.room_key() is Some,
    ensures
        after.room_key() == before.room_key(),
{
    if exists|from: PeerId, packet: PacketView, outcome: Result<Seq<ActionView>, SessionError>|
        #[trigger] session::packet_step(before, from, packet, after, outcome) {
        let (from, packet, outcome) = choose|
            from: PeerId,
            packet: PacketView,
            outcome: Result<Seq<ActionView>, SessionError>,
        | #[trigger] session::packet_step(before, from, packet, after, outcome);
        session::law_the_room_key_is_kept(
            before,
            from,
            packet,
            EventView::RoomClosed,
            FrameView::Joined { alias: before.alias },
            arbitrary(),
            after,
            outcome,
            seq![],
        );
    } else if exists|event: EventView, actions: Seq<ActionView>| #[trigger]
        session::event_step(before, event, after, actions) {
        let (event, actions) = choose|event: EventView, actions: Seq<ActionView>| #[trigger]
            session::event_step(before, event, after, actions);
        session::law_the_room_key_is_kept(
            before,
            before.self_id,
            arbitrary(),
            event,
            FrameView::Joined { alias: before.alias },
            arbitrary(),
            after,
            arbitrary(),
            actions,
        );
    }
}

/// The last state of a stay has the key of the room.
proof fn lemma_stays_keep_the_key(key: Seq<u8>, states: Seq<SessionView>)
    requires
        is_stay(key, states),
    ensures
        states.last().room_key() == Some(key),
    decreases states.len(),
{
    if states.len() == 1 {
        lemma_comes_in_with_the_key(key, states[0]);
    } else {
        let front = states.drop_last();
        assert forall|i: int| 0 < i < front.len() implies advances(front[i - 1], #[trigger] front[i])
            by {
            assert(front[i] == states[i]);
        }
        lemma_stays_keep_the_key(key, front);
        assert(advances(states[states.len() - 2], states[states.len() - 1]));
        lemma_the_key_stays(front.last(), states.last());
    }
}

/// Every member of a room has the key that its host drew, whenever it came in
/// and whatever has happened since.
pub proof fn law_members_share_the_room_key(key: Seq<u8>, member: SessionView)
    requires
        belongs(key, member),
    ensures
        member.room_key() == Some(key),
{
    let states = choose|states: Seq<SessionView>| #[trigger]
        is_stay(key, states) && states.last() == member;
    lemma_stays_keep_the_key(key, states);
}

// ---------------------------------------------------------------------------
// Messages
// ---------------------------------------------------------------------------
/// The frame that carries a chat message of `sender`.
pub open spec fn chat_frame(sender: SessionView, message: Seq<char>, now: u64) -> FrameView {
    FrameView::Chat {
        alias: sender.alias,
        text: text::head(message, session::MAX_CHAT_CHARS as nat),
        sent_at_ms: now,
    }
}

/// A chat message that one member of a room types is shown to every other,
/// unchanged but for what goes beyond the longest message.
///
/// The sender broadcasts the message; the relay hands it to the reader, in
/// whatever packet the sender sealed it; the reader opens the packet and finds
/// the bytes of the message in it; and it shows the message that they stand
/// for.
pub proof fn law_messages_reach_every_member(
    key: Seq<u8>,
    rooms: Map<Seq<char>, RoomView>,
    room: Seq<char>,
    sender: SessionView,
    reader: SessionView,
    message: Seq<char>,
    now: u64,
    plaintext: Seq<u8>,
    sealed: SealedView,
)
    requires
        belongs(key, sender),
        belongs(key, reader),
        sender.self_id != reader.self_id,
        rooms.contains_key(room),
        rooms[room].peers.contains(sender.self_id),
        rooms[room].peers.contains(reader.self_id),
        !text::is_blank(text::head(message, session::MAX_CHAT_CHARS as nat)),
        crypto::seals(key, crypto::group_context(sender.self_id.0@), plaintext, sealed),
    ensures
        session::command_actions(sender, NetView::Chat(message), now)[0] == ActionView::Broadcast(
            chat_frame(sender, message, now),
        ),
        relay::recipients(rooms, room, sender.self_id, None).contains(reader.self_id),
        session::sealed_frame_actions(reader, sender.self_id, sealed) == seq![
            ActionView::ReadFrame { from: sender.self_id, plaintext },
        ],
        session::frame_actions(reader, chat_frame(sender, message, now)) == seq![
            ActionView::Show(
                UiView::Chat {
                    alias: names::shown_alias(sender.alias),
                    text: text::head(message, session::MAX_CHAT_CHARS as nat),
                    mine: false,
                },
            ),
        ],
        message.len() <= session::MAX_CHAT_CHARS ==> text::head(
            message,
            session::MAX_CHAT_CHARS as nat,
        ) == message,
{
    law_members_share_the_room_key(key, sender);
    law_members_share_the_room_key(key, reader);
    session::law_broadcasts_reach_the_room(rooms, room, sender, reader, plaintext, sealed);
    let shown = text::head(message, session::MAX_CHAT_CHARS as nat);
    assert(text::head(shown, session::MAX_CHAT_CHARS as nat) =~= shown);
    if message.len() <= session::MAX_CHAT_CHARS {
        assert(shown =~= message);
    }
    assert(session::frame_actions(reader, chat_frame(sender, message, now)) =~= seq![
        ActionView::Show(
            UiView::Chat { alias: names::shown_alias(sender.alias), text: shown, mine: false },
        ),
    ]);
}

// ---------------------------------------------------------------------------
// Files
// ---------------------------------------------------------------------------
/// Something that happens to a member while it receives files.
pub enum Happening {
    /// A frame comes in.
    Frame { from: PeerId, frame: FrameView },
    /// An offered file begins to be received.
    Begin { offer: OfferView, final_name: Seq<char>, shown_path: Seq<char> },
}

/// A member once something has happened.
pub open spec fn after_one(member: SessionView, happening: Happening) -> SessionView {
    match happening {
        Happening::Frame { from, frame } => session::after_frame(member, from, frame),
        Happening::Begin { offer, final_name, shown_path } => member.with_transfers(
            member.transfers.insert(offer.id, transfer::begun(offer, final_name, shown_path)),
        ),
    }
}

/// A member once everything has happened, in order.
pub open spec fn after_all(member: SessionView, happenings: Seq<Happening>) -> SessionView
    decreases happenings.len(),
{
    if happenings.len() == 0 {
        member
    } else {
        after_one(after_all(member, happenings.drop_last()), happenings.last())
    }
}

/// Whether something is about the file `id`, beyond its offer.
pub open spec fn concerns(id: [u8; 16], happening: Happening) -> bool {
    match happening {
        Happening::Frame { from: _, frame } => match frame {
            FrameView::FileChunk { id: other, .. } => other == id,
            FrameView::FileComplete { id: other, .. } => other == id,
            _ => false,
        },
        Happening::Begin { offer, .. } => offer.id == id,
    }
}

/// What is about the file `id` among `happenings`.
pub open spec fn about(id: [u8; 16], happenings: Seq<Happening>) -> Seq<Happening> {
    happenings.filter(|happening: Happening| concerns(id, happening))
}

/// The frame that carries the piece with the number `i` of a file.
pub open spec fn piece_frame(id: [u8; 16], chunks: Seq<Seq<u8>>, i: int) -> FrameView {
    FrameView::FileChunk { id, sequence: i as u32, bytes: chunks[i] }
}

/// All pieces of a file come in from `from`, in order.
pub open spec fn pieces(from: PeerId, id: [u8; 16], chunks: Seq<Seq<u8>>) -> Seq<Happening> {
    Seq::new(
        chunks.len(),
        |i: int| Happening::Frame { from, frame: piece_frame(id, chunks, i) },
    )
}

/// What is about a file among the first happenings comes first among what is
/// about it.
proof fn lemma_about_a_part(id: [u8; 16], happenings: Seq<Happening>, k: int)
    requires
        0 <= k <= happenings.len(),
    ensures
        ({
            let part = about(id, happenings.take(k));
            let all = about(id, happenings);
            &&& part.len() <= all.len()
            &&& part == all.take(part.len() as int)
            &&& k < happenings.len() && concerns(id, happenings[k]) ==> part.len() < all.len()
                && all[part.len() as int] == happenings[k]
        }),
    decreases happenings.len(),
{
    reveal(Seq::filter);
    if k == happenings.len() {
        assert(happenings.take(k) =~= happenings);
        assert(about(id, happenings).take(about(id, happenings).len() as int) =~= about(
            id,
            happenings,
        ));
    } else {
        let front = happenings.drop_last();
        lemma_about_a_part(id, front, k);
        assert(front.take(k) =~= happenings.take(k));
        let part = about(id, happenings.take(k));
        assert(part =~= about(id, happenings).take(part.len() as int));
        if k == front.len() {
            assert(front.take(k) =~= front);
        } else {
            assert(front[k] == happenings[k]);
        }
    }
}

/// Whatever else happens to a member while it receives a file, it has received
/// the pieces that have come in, and it keeps the key of the room.
proof fn lemma_pieces_so_far(
    member: SessionView,
    from: PeerId,
    offer: OfferView,
    final_name: Seq<char>,
    shown_path: Seq<char>,
    chunks: Seq<Seq<u8>>,
    happenings: Seq<Happening>,
)
    requires
        member.transfers.contains_key(offer.id),
        member.transfers[offer.id] == transfer::begun(offer, final_name, shown_path),
        transfer::joined(chunks).len() <= offer.size,
        chunks.len() <= u32::MAX,
        forall|i: int|
            0 <= i < chunks.len() ==> (#[trigger] chunks[i]).len() <= protocol::FILE_CHUNK_SIZE,
        about(offer.id, happenings) == pieces(from, offer.id, chunks),
    ensures
        after_all(member, happenings).room_key() == member.room_key(),
        after_all(member, happenings).transfers.contains_key(offer.id),
        after_all(member, happenings).transfers[offer.id] == (IncomingView {
            bytes: transfer::joined(chunks),
            next_sequence: chunks.len() as u32,
            ..transfer::begun(offer, final_name, shown_path)
        }),
    decreases happenings.len(),
{
    let id = offer.id;
    reveal(Seq::filter);
    if happenings.len() == 0 {
        assert(pieces(from, id, chunks).len() == 0);
    } else {
        let front = happenings.drop_last();
        let last = happenings.last();
        let before = after_all(member, front);
        if concerns(id, last) {
            assert(about(id, happenings) == about(id, front).push(last));
            let less = chunks.drop_last();
            assert(about(id, happenings).last() == last);
            assert(about(id, front) =~= about(id, happenings).drop_last());
            assert(about(id, front) =~= pieces(from, id, less)) by {
                assert forall|i: int| 0 <= i < less.len() implies pieces(from, id, less)[i]
                    == about(id, front)[i] by {
                    assert(less[i] == chunks[i]);
                    assert(about(id, front)[i] == pieces(from, id, chunks)[i]);
                }
            }
            assert forall|i: int| 0 <= i < less.len() implies (#[trigger] less[i]).len()
                <= protocol::FILE_CHUNK_SIZE by {
                assert(less[i] == chunks[i]);
            }
            lemma_pieces_so_far(member, from, offer, final_name, shown_path, less, front);
            assert(last == pieces(from, id, chunks)[chunks.len() - 1]);
            assert(chunks.last() == chunks[chunks.len() - 1]);
        } else {
            assert(about(id, happenings) == about(id, front));
            lemma_pieces_so_far(member, from, offer, final_name, shown_path, chunks, front);
        }
    }
}

/// Whether `member` opens whatever packet `from` has sealed for the room, and
/// finds the bytes of a frame in it.
pub open spec fn reads(key: Seq<u8>, from: PeerId, member: SessionView) -> bool {
    forall|plaintext: Seq<u8>, sealed: SealedView| #[trigger]
        crypto::seals(key, crypto::group_context(from.0@), plaintext, sealed)
            ==> session::sealed_frame_actions(member, from, sealed) == seq![
            ActionView::ReadFrame { from, plaintext },
        ]
}

/// Whether `member` appends the piece with the number `i` to the file `id` when
/// it comes in.
pub open spec fn appends(member: SessionView, id: [u8; 16], chunks: Seq<Seq<u8>>, i: int) -> bool {
    &&& 0 <= i < chunks.len()
    &&& session::frame_actions(member, piece_frame(id, chunks, i))[0] == ActionView::Append {
        id,
        bytes: chunks[i],
    }
}

/// A file that one member of a room sends arrives whole at every other that has
/// room for it, whatever else happens meanwhile.
///
/// The relay hands every packet of the sender to the reader, who opens it and
/// finds the bytes of a frame in it, at any time. The reader receives the offer;
/// it appends every piece to the file, in order; what it has received in the end
/// is what was sent; and the closing frame gives the file its name.
pub proof fn law_files_reach_every_member(
    key: Seq<u8>,
    rooms: Map<Seq<char>, RoomView>,
    room: Seq<char>,
    sender: SessionView,
    reader: SessionView,
    id: [u8; 16],
    name: Seq<char>,
    size: u64,
    mime: Seq<char>,
    final_name: Seq<char>,
    shown_path: Seq<char>,
    chunks: Seq<Seq<u8>>,
    meanwhile: Seq<Happening>,
)
    requires
        belongs(key, sender),
        belongs(key, reader),
        sender.self_id != reader.self_id,
        rooms.contains_key(room),
        rooms[room].peers.contains(sender.self_id),
        rooms[room].peers.contains(reader.self_id),
        transfer::admits(reader.transfers, id),
        transfer::joined(chunks).len() == size <= protocol::MAX_FILE_SIZE,
        chunks.len() <= u32::MAX,
        forall|i: int|
            0 <= i < chunks.len() ==> (#[trigger] chunks[i]).len() <= protocol::FILE_CHUNK_SIZE,
        about(id, meanwhile) == pieces(sender.self_id, id, chunks),
    ensures
        relay::recipients(rooms, room, sender.self_id, None).contains(reader.self_id),
        ({
            let offer = transfer::offered(id, sender.alias, name, size, reader.windows);
            let begun = after_one(reader, Happening::Begin { offer, final_name, shown_path });
            let last = after_all(begun, meanwhile);
            let content = transfer::joined(chunks);
            &&& session::frame_actions(
                reader,
                FrameView::FileOffer { id, alias: sender.alias, name, size, mime },
            ) == seq![ActionView::Receive(offer)]
            &&& forall|k: int|
                0 <= k <= meanwhile.len() ==> reads(
                    key,
                    sender.self_id,
                    #[trigger] after_all(begun, meanwhile.take(k)),
                )
            &&& forall|k: int|
                0 <= k < meanwhile.len() && concerns(id, #[trigger] meanwhile[k]) ==> appends(
                    after_all(begun, meanwhile.take(k)),
                    id,
                    chunks,
                    about(id, meanwhile.take(k)).len() as int,
                )
            &&& last.transfers.contains_key(id)
            &&& last.transfers[id].bytes == content
            &&& session::frame_actions(
                last,
                FrameView::FileComplete { id, sha256: crypto::sha256(content) },
            ) == seq![
                ActionView::Close { id },
                ActionView::Rename { partial: offer.partial_name, name: final_name },
                ActionView::Show(
                    UiView::FileReceived {
                        from: names::shown_alias(sender.alias),
                        path: shown_path,
                    },
                ),
            ]
        }),
{
    let offer = transfer::offered(id, sender.alias, name, size, reader.windows);
    let begun = after_one(reader, Happening::Begin { offer, final_name, shown_path });
    let last = after_all(begun, meanwhile);
    let content = transfer::joined(chunks);
    let from = sender.self_id;
    law_members_share_the_room_key(key, sender);
    law_members_share_the_room_key(key, reader);
    relay::law_everyone_receives_room_traffic(rooms, room, from, reader.self_id);
    assert(session::frame_actions(
        reader,
        FrameView::FileOffer { id, alias: sender.alias, name, size, mime },
    ) =~= seq![ActionView::Receive(offer)]);
    assert forall|k: int| 0 <= k <= meanwhile.len() implies reads(
        key,
        from,
        #[trigger] after_all(begun, meanwhile.take(k)),
    ) by {
        lemma_part_of_a_file(begun, from, offer, final_name, shown_path, chunks, meanwhile, k);
    }
    assert forall|k: int|
        0 <= k < meanwhile.len() && concerns(id, #[trigger] meanwhile[k]) implies appends(
        after_all(begun, meanwhile.take(k)),
        id,
        chunks,
        about(id, meanwhile.take(k)).len() as int,
    ) by {
        lemma_part_of_a_file(begun, from, offer, final_name, shown_path, chunks, meanwhile, k);
        lemma_about_a_part(id, meanwhile, k);
    }
    lemma_pieces_so_far(begun, from, offer, final_name, shown_path, chunks, meanwhile);
    assert(session::frame_actions(
        last,
        FrameView::FileComplete { id, sha256: crypto::sha256(content) },
    ) =~= transfer::complete_actions(last.transfers, id, crypto::sha256(content)));
}

/// What a member that receives a file has of it once the first happenings are
/// over.
proof fn lemma_part_of_a_file(
    member: SessionView,
    from: PeerId,
    offer: OfferView,
    final_name: Seq<char>,
    shown_path: Seq<char>,
    chunks: Seq<Seq<u8>>,
    happenings: Seq<Happening>,
    k: int,
)
    requires
        0 <= k <= happenings.len(),
        member.transfers.contains_key(offer.id),
        member.transfers[offer.id] == transfer::begun(offer, final_name, shown_path),
        transfer::joined(chunks).len() <= offer.size,
        chunks.len() <= u32::MAX,
        forall|i: int|
            0 <= i < chunks.len() ==> (#[trigger] chunks[i]).len() <= protocol::FILE_CHUNK_SIZE,
        about(offer.id, happenings) == pieces(from, offer.id, chunks),
    ensures
        after_all(member, happenings.take(k)).room_key() == member.room_key(),
        ({
            let some = about(offer.id, happenings.take(k)).len() as int;
            &&& some <= chunks.len()
            &&& after_all(member, happenings.take(k)).transfers.contains_key(offer.id)
            &&& after_all(member, happenings.take(k)).transfers[offer.id] == (IncomingView {
                bytes: transfer::joined(chunks.take(some)),
                next_sequence: some as u32,
                ..transfer::begun(offer, final_name, shown_path)
            })
            &&& some < chunks.len() ==> transfer::joined(chunks.take(some)).len()
                + chunks[some].len() <= offer.size
        }),
{
    let id = offer.id;
    let part = about(id, happenings.take(k));
    let some = part.len() as int;
    lemma_about_a_part(id, happenings, k);
    let less = chunks.take(some);
    assert forall|i: int| 0 <= i < some implies pieces(from, id, less)[i] == part[i] by {
        assert(part[i] == pieces(from, id, chunks)[i]);
        assert(less[i] == chunks[i]);
    }
    assert(part =~= pieces(from, id, less));
    assert forall|i: int| 0 <= i < less.len() implies (#[trigger] less[i]).len()
        <= protocol::FILE_CHUNK_SIZE by {
        assert(less[i] == chunks[i]);
    }
    lemma_joined_grows(chunks, some);
    if some < chunks.len() {
        lemma_joined_grows(chunks, some + 1);
        assert(chunks.take(some + 1).drop_last() =~= less);
        assert(chunks.take(some + 1).last() == chunks[some]);
    }
    lemma_pieces_so_far(member, from, offer, final_name, shown_path, less, happenings.take(k));
}

/// The first pieces of a file are no longer than all of it.
proof fn lemma_joined_grows(chunks: Seq<Seq<u8>>, k: int)
    requires
        0 <= k <= chunks.len(),
    ensures
        transfer::joined(chunks.take(k)).len() <= transfer::joined(chunks).len(),
    decreases chunks.len(),
{
    if k == chunks.len() {
        assert(chunks.take(k) =~= chunks);
    } else {
        lemma_joined_grows(chunks.drop_last(), k);
        assert(chunks.drop_last().take(k) =~= chunks.take(k));
    }
}

// ---------------------------------------------------------------------------
// Calls
// ---------------------------------------------------------------------------
/// What one member of a room says in a call is heard by every other: the sender
/// broadcasts the samples as they were recorded; the relay hands them to the
/// reader, who finds their bytes in the packet; and the very same samples are
/// handed on to be played at the same rate. Beginning and ending the call reach
/// everyone in the same way.
pub proof fn law_calls_reach_every_member(
    key: Seq<u8>,
    rooms: Map<Seq<char>, RoomView>,
    room: Seq<char>,
    sender: SessionView,
    reader: SessionView,
    sample_rate: u32,
    samples: Seq<i16>,
    now: u64,
    plaintext: Seq<u8>,
    sealed: SealedView,
)
    requires
        belongs(key, sender),
        belongs(key, reader),
        sender.self_id != reader.self_id,
        rooms.contains_key(room),
        rooms[room].peers.contains(sender.self_id),
        rooms[room].peers.contains(reader.self_id),
        samples.len() <= 4096,
        1 <= sample_rate <= 384000,
        crypto::seals(key, crypto::group_context(sender.self_id.0@), plaintext, sealed),
    ensures
        relay::recipients(rooms, room, sender.self_id, None).contains(reader.self_id),
        session::sealed_frame_actions(reader, sender.self_id, sealed) == seq![
            ActionView::ReadFrame { from: sender.self_id, plaintext },
        ],
        session::command_actions(sender, NetView::VoicePcm { sample_rate, samples }, now) == seq![
            ActionView::Broadcast(FrameView::VoicePcm { sample_rate, samples }),
        ],
        session::frame_actions(reader, FrameView::VoicePcm { sample_rate, samples }) == seq![
            ActionView::Show(UiView::VoicePcm { sample_rate, samples }),
        ],
        session::command_actions(sender, NetView::StartCall, now)[0] == ActionView::Broadcast(
            FrameView::VoiceStart { alias: sender.alias },
        ),
        session::frame_actions(reader, FrameView::VoiceStart { alias: sender.alias }) == seq![
            ActionView::Show(UiView::VoiceStarted(names::shown_alias(sender.alias))),
        ],
        session::command_actions(sender, NetView::StopCall, now)[0] == ActionView::Broadcast(
            FrameView::VoiceStop { alias: sender.alias },
        ),
        session::frame_actions(reader, FrameView::VoiceStop { alias: sender.alias }) == seq![
            ActionView::Show(UiView::VoiceStopped(names::shown_alias(sender.alias))),
        ],
{
    law_members_share_the_room_key(key, sender);
    law_members_share_the_room_key(key, reader);
    session::law_broadcasts_reach_the_room(rooms, room, sender, reader, plaintext, sealed);
    session::law_calls_are_played(reader, sample_rate, samples, sender.alias);
}

// ---------------------------------------------------------------------------
// Coming in
// ---------------------------------------------------------------------------
/// Members with the same room code meet: the relay opens for a host the room that
/// it lets a guest with the same code ask for, and for as many guests as the host
/// wants.
pub proof fn law_members_with_one_code_meet(code: Seq<char>, max_guests: usize)
    requires
        protocol::valid_code(code),
        1 <= max_guests <= 1024,
    ensures
        relay::requested(client::registration_view(Role::Host { max_guests }, code)) == Ok::<
            (Seq<char>, Option<usize>),
            relay::FirstPacketError,
        >((seq![code[0], code[1]], Some(max_guests))),
        relay::requested(client::registration_view(Role::Guest, code)) == Ok::<
            (Seq<char>, Option<usize>),
            relay::FirstPacketError,
        >((seq![code[0], code[1]], None)),
{
    client::law_members_ask_for_their_room(code, max_guests);
    protocol::law_rendezvous_of_valid_code_is_valid(code);
    protocol::law_the_rendezvous_begins_the_code(code, code);
}

} // verus!
