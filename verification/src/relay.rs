//! The relay: which rooms exist, who is in them and who receives what.
//!
//! The relay decides; whoever owns the sockets carries out what it decides.
//! Times are readings of one monotonic clock, in nanoseconds.

use vstd::prelude::*;

use std::collections::VecDeque;

use crate::protocol;
use crate::protocol::{
    copy_bytes, same_peer, validate_rendezvous, CommandView, EventView, PeerId, RelayCommand, RelayEvent,
    MAX_RELAY_PACKET, PROTOCOL_VERSION,
};
use crate::table::{Key, Table};

verus! {

/// How long an attempt to join counts against a room: one minute.
pub const JOIN_WINDOW_NS: u64 = 60_000_000_000;

/// How many attempts to join a room admits within [`JOIN_WINDOW_NS`].
pub const JOIN_LIMIT: usize = 60;

/// The largest number of guests that a room can be opened for.
pub const MAX_GUESTS: usize = 1024;

// ---------------------------------------------------------------------------
// The first packet of a connection
// ---------------------------------------------------------------------------
/// What a connection asks for with its first packet.
pub enum Registration {
    Host { code: String, max_guests: usize },
    Join { code: String },
}

/// The first message that arrives on a connection.
pub enum FirstPacket {
    /// Nothing came, or something other than a binary message.
    NotBinary,
    /// A binary message that is no command.
    Undecodable,
    /// A command.
    Command(RelayCommand),
}

/// Why a first packet opens no session.
#[derive(Clone, Copy, Debug, PartialEq, Eq, Structural)]
pub enum FirstPacketError {
    NotAPacket,
    WrongVersion,
    Invalid,
}

impl FirstPacketError {
    /// What the client is told.
    pub open spec fn text(self) -> Seq<char> {
        match self {
            FirstPacketError::NotAPacket => "the first packet must register a room"@,
            FirstPacketError::WrongVersion => "incompatible protocol version"@,
            FirstPacketError::Invalid => "invalid registration"@,
        }
    }

    /// What the client is told.
    pub fn message(&self) -> (r: String)
        ensures
            r@ == self.text(),
    {
        match self {
            FirstPacketError::NotAPacket => "the first packet must register a room".to_owned(),
            FirstPacketError::WrongVersion => "incompatible protocol version".to_owned(),
            FirstPacketError::Invalid => "invalid registration".to_owned(),
        }
    }
}

/// The number of guests that a room is opened for when `asked` are asked for.
pub open spec fn clamped_guests(asked: usize) -> usize {
    if asked < 1 {
        1
    } else if asked > MAX_GUESTS {
        MAX_GUESTS
    } else {
        asked
    }
}

/// The room that a command asks for, with the number of guests if it is to be
/// opened, or why the command is refused.
pub open spec fn requested(command: CommandView) -> Result<
    (Seq<char>, Option<usize>),
    FirstPacketError,
> {
    match command {
        CommandView::Host { version, rendezvous, max_guests } => if version != PROTOCOL_VERSION {
            Err(FirstPacketError::WrongVersion)
        } else if protocol::valid_rendezvous(rendezvous) {
            Ok((rendezvous, Some(clamped_guests(max_guests))))
        } else {
            Err(FirstPacketError::Invalid)
        },
        CommandView::Join { version, rendezvous } => if version != PROTOCOL_VERSION {
            Err(FirstPacketError::WrongVersion)
        } else if protocol::valid_rendezvous(rendezvous) {
            Ok((rendezvous, None))
        } else {
            Err(FirstPacketError::Invalid)
        },
        CommandView::Data { .. } => Err(FirstPacketError::Invalid),
    }
}

/// A room is opened for as many guests as its host asks for, if that is a number
/// from one to 1024, and otherwise for the nearest of these numbers. So nobody
/// who asks for more gets less, and no room is closed to everyone.
pub proof fn law_hosts_get_the_guests_they_ask_for(asked: usize, more: usize)
    ensures
        1 <= clamped_guests(asked) <= 1024,
        1 <= asked <= 1024 ==> clamped_guests(asked) == asked,
        asked == 0 ==> clamped_guests(asked) == 1,
        asked >= 1024 ==> clamped_guests(asked) == 1024,
        asked <= more ==> clamped_guests(asked) <= clamped_guests(more),
{
}

/// The relay understands a registration in the first version of the protocol
/// with a rendezvous of two letters or digits, and no other: a host gets the
/// room that it names with the guests it asks for, a guest asks for the room it
/// names, and data is no registration.
pub proof fn law_registrations_are_understood(
    version: u16,
    rendezvous: Seq<char>,
    max_guests: usize,
    to: Option<PeerId>,
    payload: Seq<u8>,
)
    ensures
        ({
            let host = requested(CommandView::Host { version, rendezvous, max_guests });
            let guest = requested(CommandView::Join { version, rendezvous });
            let named = rendezvous.len() == 2 && crate::text::is_alphanumeric(rendezvous[0])
                && crate::text::is_alphanumeric(rendezvous[1]);
            &&& host is Ok <==> version == 1 && named
            &&& guest is Ok <==> version == 1 && named
            &&& host is Ok ==> host->Ok_0.0 == rendezvous && guest->Ok_0 == (
                rendezvous,
                None::<usize>,
            )
            &&& host is Ok && 1 <= max_guests <= 1024 ==> host->Ok_0.1 == Some(max_guests)
            &&& host is Ok ==> (host->Ok_0.1 matches Some(limit) && 1 <= limit <= 1024)
            &&& version != 1 ==> host->Err_0 == FirstPacketError::WrongVersion && guest->Err_0
                == FirstPacketError::WrongVersion
            &&& version == 1 && !named ==> host->Err_0 == FirstPacketError::Invalid && guest->Err_0
                == FirstPacketError::Invalid
            &&& requested(CommandView::Data { to, payload }) == Err::<
                (Seq<char>, Option<usize>),
                FirstPacketError,
            >(FirstPacketError::Invalid)
        }),
{
}

/// What the first packet of a connection asks for, or why it is refused.
///
/// A host or guest that speaks another protocol version is told so, whatever
/// its rendezvous; anything else that is not a registration with a valid
/// rendezvous is invalid.
pub fn read_registration(first: FirstPacket) -> (r: Result<Registration, FirstPacketError>)
    ensures
        match first {
            FirstPacket::NotBinary => r == Err::<Registration, _>(FirstPacketError::NotAPacket),
            FirstPacket::Undecodable => r == Err::<Registration, _>(FirstPacketError::Invalid),
            FirstPacket::Command(RelayCommand::Host { version, rendezvous, max_guests }) => {
                if version != PROTOCOL_VERSION {
                    r == Err::<Registration, _>(FirstPacketError::WrongVersion)
                } else if protocol::valid_rendezvous(rendezvous@) {
                    r matches Ok(Registration::Host { code, max_guests: limit }) && code@
                        == rendezvous@ && limit == clamped_guests(max_guests)
                } else {
                    r == Err::<Registration, _>(FirstPacketError::Invalid)
                }
            },
            FirstPacket::Command(RelayCommand::Join { version, rendezvous }) => {
                if version != PROTOCOL_VERSION {
                    r == Err::<Registration, _>(FirstPacketError::WrongVersion)
                } else if protocol::valid_rendezvous(rendezvous@) {
                    r matches Ok(Registration::Join { code }) && code@ == rendezvous@
                } else {
                    r == Err::<Registration, _>(FirstPacketError::Invalid)
                }
            },
            FirstPacket::Command(RelayCommand::Data { .. }) => r == Err::<Registration, _>(
                FirstPacketError::Invalid,
            ),
        },
        first matches FirstPacket::Command(command) ==> match requested(command@) {
            Ok((code, Some(limit))) => r matches Ok(Registration::Host {
                code: asked,
                max_guests,
            }) && asked@ == code && max_guests == limit,
            Ok((code, None)) => r matches Ok(Registration::Join { code: asked }) && asked@ == code,
            Err(why) => r == Err::<Registration, _>(why),
        },
        first matches FirstPacket::Command(RelayCommand::Host { version, rendezvous, max_guests })
            ==> version == 1 && protocol::valid_rendezvous(rendezvous@) ==> (r matches Ok(
            Registration::Host { code, max_guests: limit },
        ) && code@ == rendezvous@ && 1 <= limit <= 1024 && (1 <= max_guests <= 1024 ==> limit
            == max_guests) && (max_guests >= 1024 ==> limit == 1024) && (max_guests == 0 ==> limit
            == 1)),
{
    match first {
        FirstPacket::NotBinary => Err(FirstPacketError::NotAPacket),
        FirstPacket::Undecodable => Err(FirstPacketError::Invalid),
        FirstPacket::Command(RelayCommand::Host { version, rendezvous, max_guests }) => {
            if version != PROTOCOL_VERSION {
                Err(FirstPacketError::WrongVersion)
            } else if validate_rendezvous(rendezvous.as_str()) {
                let limit = if max_guests < 1 {
                    1
                } else if max_guests > MAX_GUESTS {
                    MAX_GUESTS
                } else {
                    max_guests
                };
                Ok(Registration::Host { code: rendezvous, max_guests: limit })
            } else {
                Err(FirstPacketError::Invalid)
            }
        },
        FirstPacket::Command(RelayCommand::Join { version, rendezvous }) => {
            if version != PROTOCOL_VERSION {
                Err(FirstPacketError::WrongVersion)
            } else if validate_rendezvous(rendezvous.as_str()) {
                Ok(Registration::Join { code: rendezvous })
            } else {
                Err(FirstPacketError::Invalid)
            }
        },
        FirstPacket::Command(RelayCommand::Data { .. }) => Err(FirstPacketError::Invalid),
    }
}

// ---------------------------------------------------------------------------
// The packets that follow
// ---------------------------------------------------------------------------
/// A message on a connection that has been registered.
pub enum Inbound {
    /// A binary message of `size` bytes, and the command in it if there is one.
    Binary { size: usize, command: Option<RelayCommand> },
    /// The connection was closed or failed.
    Closed,
    /// A message of another kind.
    Other,
}

/// What to do with a message on a registered connection.
pub enum InboundStep {
    /// End the session.
    Stop,
    /// Read on.
    Skip,
    /// Hand the payload to [`Relay::route_data`].
    Forward { to: Option<PeerId>, payload: Vec<u8> },
}

/// What to do with a message on a registered connection: a closed connection
/// or an oversized packet ends the session, and only data within the size
/// limit is forwarded.
pub fn inbound_step(message: Inbound) -> (r: InboundStep)
    ensures
        match message {
            Inbound::Closed => r is Stop,
            Inbound::Other => r is Skip,
            Inbound::Binary { size, command } => {
                if size > MAX_RELAY_PACKET {
                    r is Stop
                } else {
                    match command {
                        Some(RelayCommand::Data { to, payload }) => {
                            if payload@.len() > MAX_RELAY_PACKET {
                                r is Skip
                            } else {
                                r matches InboundStep::Forward { to: t, payload: p } && t == to && p
                                    == payload
                            }
                        },
                        _ => r is Skip,
                    }
                }
            },
        },
        (r is Stop) <==> (message is Closed || (message matches Inbound::Binary { size, .. } && size
            > 524288)),
        r is Forward ==> (message matches Inbound::Binary { size, command } && size <= 524288
            && command is Some && command->0 is Data),
        message matches Inbound::Binary { size, command } ==> command matches Some(
            RelayCommand::Data { to, payload },
        ) ==> size <= 524288 && payload@.len() <= 524288 ==> (r matches InboundStep::Forward {
            to: t,
            payload: p,
        } && t == to && p == payload),
{
    match message {
        Inbound::Closed => InboundStep::Stop,
        Inbound::Other => InboundStep::Skip,
        Inbound::Binary { size, command } => {
            if size > MAX_RELAY_PACKET {
                return InboundStep::Stop;
            }
            match command {
                Some(RelayCommand::Data { to, payload }) => {
                    if payload.len() > MAX_RELAY_PACKET {
                        InboundStep::Skip
                    } else {
                        InboundStep::Forward { to, payload }
                    }
                },
                _ => InboundStep::Skip,
            }
        },
    }
}

// ---------------------------------------------------------------------------
// Attempts to join
// ---------------------------------------------------------------------------
/// Whether an attempt no longer counts.
pub open spec fn expired(attempt: u64, now: u64) -> bool {
    now - attempt > JOIN_WINDOW_NS
}

/// The attempts that still count: those from the first unexpired one on.
pub open spec fn live_attempts(attempts: Seq<u64>, now: u64) -> Seq<u64>
    decreases attempts.len(),
{
    if attempts.len() > 0 && expired(attempts.first(), now) {
        live_attempts(attempts.drop_first(), now)
    } else {
        attempts
    }
}

/// Whether a room that remembers `attempts` considers one more at `now`.
pub open spec fn admits_attempt(attempts: Seq<u64>, now: u64) -> bool {
    live_attempts(attempts, now).len() < JOIN_LIMIT
}

/// What a room remembers after an attempt at `now`: an attempt over the limit
/// is not remembered.
pub open spec fn attempts_after(attempts: Seq<u64>, now: u64) -> Seq<u64> {
    if admits_attempt(attempts, now) {
        live_attempts(attempts, now).push(now)
    } else {
        live_attempts(attempts, now)
    }
}

/// What a fresh room remembers after attempts at `times`.
pub open spec fn remembered(times: Seq<u64>) -> Seq<u64>
    decreases times.len(),
{
    if times.len() == 0 {
        seq![]
    } else {
        attempts_after(remembered(times.drop_last()), times.last())
    }
}

/// Those of the attempts at `times` that a fresh room considers.
pub open spec fn considered(times: Seq<u64>) -> Seq<u64>
    decreases times.len(),
{
    if times.len() == 0 {
        seq![]
    } else if admits_attempt(remembered(times.drop_last()), times.last()) {
        considered(times.drop_last()).push(times.last())
    } else {
        considered(times.drop_last())
    }
}

/// Times that never go back.
pub open spec fn in_order(times: Seq<u64>) -> bool {
    forall|i: int, j: int| 0 <= i <= j < times.len() ==> times[i] <= times[j]
}

/// Of attempts in order, those that still count are exactly the unexpired
/// ones, and they stand at the end.
proof fn lemma_live_suffix(attempts: Seq<u64>, now: u64)
    requires
        in_order(attempts),
    ensures
        live_attempts(attempts, now).len() <= attempts.len(),
        live_attempts(attempts, now) == attempts.skip(
            attempts.len() - live_attempts(attempts, now).len(),
        ),
        forall|i: int|
            0 <= i < attempts.len() - live_attempts(attempts, now).len() ==> expired(
                #[trigger] attempts[i],
                now,
            ),
    decreases attempts.len(),
{
    let live = live_attempts(attempts, now);
    if attempts.len() > 0 && expired(attempts.first(), now) {
        let rest = attempts.drop_first();
        assert forall|i: int, j: int| 0 <= i <= j < rest.len() implies rest[i] <= rest[j] by {
            assert(rest[i] == attempts[i + 1] && rest[j] == attempts[j + 1]);
        }
        lemma_live_suffix(rest, now);
        assert(live =~= attempts.skip(attempts.len() - live.len()));
        assert forall|i: int| 0 <= i < attempts.len() - live.len() implies expired(
            #[trigger] attempts[i],
            now,
        ) by {
            if i > 0 {
                assert(attempts[i] == rest[i - 1]);
            }
        }
    } else {
        assert(live =~= attempts.skip(0));
    }
}

/// A room remembers the latest of the attempts it considered, and those it has
/// forgotten are expired.
proof fn lemma_remembered(times: Seq<u64>)
    requires
        in_order(times),
    ensures
        remembered(times).len() <= considered(times).len(),
        remembered(times) == considered(times).skip(
            considered(times).len() - remembered(times).len(),
        ),
        in_order(considered(times)),
        times.len() > 0 ==> forall|i: int|
            0 <= i < considered(times).len() ==> #[trigger] considered(times)[i] <= times.last(),
        times.len() > 0 ==> forall|i: int|
            0 <= i < considered(times).len() - remembered(times).len() ==> expired(
                #[trigger] considered(times)[i],
                times.last(),
            ),
        forall|i: int|
            0 <= i && i + JOIN_LIMIT < considered(times).len() ==> #[trigger] considered(times)[i
                + JOIN_LIMIT] - considered(times)[i] > JOIN_WINDOW_NS,
    decreases times.len(),
{
    if times.len() > 0 {
        let front = times.drop_last();
        let now = times.last();
        assert forall|i: int, j: int| 0 <= i <= j < front.len() implies front[i] <= front[j] by {
            assert(front[i] == times[i] && front[j] == times[j]);
        }
        lemma_remembered(front);
        let old_queue = remembered(front);
        let old_all = considered(front);
        if front.len() > 0 {
            assert(front.last() == times[times.len() - 2]);
            assert(front.last() <= now);
        } else {
            assert(old_all.len() == 0);
        }
        assert forall|i: int, j: int| 0 <= i <= j < old_queue.len() implies old_queue[i]
            <= old_queue[j] by {
            let d = old_all.len() - old_queue.len();
            assert(old_queue[i] == old_all[i + d] && old_queue[j] == old_all[j + d]);
        }
        lemma_live_suffix(old_queue, now);
        let live = live_attempts(old_queue, now);
        let shift = old_all.len() - live.len();
        assert(live =~= old_all.skip(shift));
        assert forall|i: int| 0 <= i < shift implies expired(#[trigger] old_all[i], now) by {
            let d = old_all.len() - old_queue.len();
            if i >= d {
                assert(old_all[i] == old_queue[i - d]);
            }
        }
        let all = considered(times);
        let queue = remembered(times);
        if admits_attempt(old_queue, now) {
            assert(queue =~= all.skip(all.len() - queue.len()));
            assert forall|i: int| 0 <= i && i + JOIN_LIMIT < all.len() implies #[trigger] all[i
                + JOIN_LIMIT] - all[i] > JOIN_WINDOW_NS by {
                if i + JOIN_LIMIT == old_all.len() {
                    assert(i < shift);
                    assert(expired(old_all[i], now));
                } else {
                    assert(all[i + JOIN_LIMIT] == old_all[i + JOIN_LIMIT]);
                    assert(all[i] == old_all[i]);
                }
            }
        } else {
            assert(queue =~= all.skip(all.len() - queue.len()));
        }
    }
}

/// A room considers at most sixty attempts to join per minute: of the attempts
/// that it considers, any one and the sixtieth after it lie more than a minute
/// apart.
pub proof fn law_sixty_attempts_per_minute(times: Seq<u64>, i: int)
    requires
        in_order(times),
        0 <= i,
        i + 60 < considered(times).len(),
    ensures
        considered(times)[i + 60] - considered(times)[i] > 60_000_000_000,
{
    lemma_remembered(times);
    assert(considered(times)[i + JOIN_LIMIT] - considered(times)[i] > JOIN_WINDOW_NS);
}

/// No attempt is turned away without reason: a room that remembers fewer than
/// sixty attempts considers the next one, and so does one whose sixtieth last
/// attempt is more than a minute ago; one whose sixtieth last attempt is not
/// considers none.
pub proof fn law_patient_guests_are_considered(attempts: Seq<u64>, now: u64)
    requires
        in_order(attempts),
    ensures
        admits_attempt(attempts, now) <==> (attempts.len() < 60 || now - attempts[attempts.len()
            - 60] > 60_000_000_000),
{
    lemma_live_suffix(attempts, now);
    let live = live_attempts(attempts, now);
    let gone = attempts.len() - live.len();
    if attempts.len() >= 60 {
        let k = attempts.len() - 60;
        if live.len() < 60 {
            assert(k < gone);
            assert(expired(attempts[k], now));
        } else {
            lemma_first_live(attempts, now);
            assert(live[0] == attempts[gone]);
            assert(attempts[gone] <= attempts[k]);
        }
    }
}

/// The first attempt that still counts is not expired.
proof fn lemma_first_live(attempts: Seq<u64>, now: u64)
    ensures
        live_attempts(attempts, now).len() > 0 ==> !expired(live_attempts(attempts, now)[0], now),
    decreases attempts.len(),
{
    if attempts.len() > 0 && expired(attempts.first(), now) {
        lemma_first_live(attempts.drop_first(), now);
    }
}

/// An attempt that is considered is remembered as the latest, and one that is
/// not leaves no trace; nothing that a room remembers is more than a minute old.
pub proof fn law_considered_attempts_are_remembered(attempts: Seq<u64>, now: u64, i: int)
    requires
        in_order(attempts),
        0 <= i < attempts_after(attempts, now).len(),
    ensures
        now - attempts_after(attempts, now)[i] <= 60_000_000_000,
        admits_attempt(attempts, now) ==> attempts_after(attempts, now).last() == now,
        !admits_attempt(attempts, now) ==> attempts_after(attempts, now).len() <= attempts.len(),
        attempts_after(attempts, now)[i] == now || attempts.contains(
            attempts_after(attempts, now)[i],
        ),
{
    lemma_live_suffix(attempts, now);
    lemma_first_live(attempts, now);
    let live = live_attempts(attempts, now);
    let gone = attempts.len() - live.len();
    if i < live.len() {
        assert(live[i] == attempts[gone + i]);
        assert(live[0] == attempts[gone]);
        assert(attempts[gone] <= attempts[gone + i]);
    }
}

// ---------------------------------------------------------------------------
// Rooms
// ---------------------------------------------------------------------------
/// A room: its host, its members and the attempts to join it.
pub struct Room {
    host: PeerId,
    max_guests: usize,
    peers: Table<PeerId, ()>,
    join_attempts: VecDeque<u64>,
}

/// The ghost counterpart of [`Room`].
#[verifier::ext_equal]
pub struct RoomView {
    pub host: PeerId,
    pub max_guests: usize,
    pub peers: Set<PeerId>,
    pub attempts: Seq<u64>,
}

impl View for Room {
    type V = RoomView;

    closed spec fn view(&self) -> RoomView {
        RoomView {
            host: self.host,
            max_guests: self.max_guests,
            peers: self.peers@.dom(),
            attempts: self.join_attempts@,
        }
    }
}

impl RoomView {
    /// What holds of every room: its members are finitely many and within the
    /// guest limit, and it remembers no more attempts than the limit.
    pub open spec fn valid(self) -> bool {
        &&& self.peers.finite()
        &&& self.peers.len() <= self.max_guests + 1
        &&& self.attempts.len() <= JOIN_LIMIT
    }

    /// The number of guests. The host is one of the members.
    pub open spec fn guests(self) -> nat {
        if self.peers.len() > 0 {
            (self.peers.len() - 1) as nat
        } else {
            0
        }
    }

    /// Whether no further guest fits.
    pub open spec fn full(self) -> bool {
        self.guests() >= self.max_guests
    }
}

impl Room {
    /// The room is well formed.
    pub closed spec fn wf(&self) -> bool {
        &&& self.peers.wf()
        &&& self@.valid()
    }
}

/// Why a connection cannot enter the room it asks for.
#[derive(Clone, Copy, Debug, PartialEq, Eq, Structural)]
pub enum RegisterError {
    CodeCollision,
    RoomNotFound,
    TooManyAttempts,
    RoomFull,
    HostUnavailable,
}

impl RegisterError {
    /// What the client is told.
    pub open spec fn text(self) -> Seq<char> {
        match self {
            RegisterError::CodeCollision => "room code collision; start again"@,
            RegisterError::RoomNotFound => "room was not found"@,
            RegisterError::TooManyAttempts => "room join rate limit exceeded; try again shortly"@,
            RegisterError::RoomFull => "room has reached its guest limit"@,
            RegisterError::HostUnavailable => "room host is unavailable"@,
        }
    }

    /// What the client is told.
    pub fn message(&self) -> (r: String)
        ensures
            r@ == self.text(),
    {
        match self {
            RegisterError::CodeCollision => "room code collision; start again".to_owned(),
            RegisterError::RoomNotFound => "room was not found".to_owned(),
            RegisterError::TooManyAttempts =>
                "room join rate limit exceeded; try again shortly".to_owned(),
            RegisterError::RoomFull => "room has reached its guest limit".to_owned(),
            RegisterError::HostUnavailable => "room host is unavailable".to_owned(),
        }
    }
}

/// An event on its way to a member of a room.
pub struct Delivery {
    pub to: PeerId,
    pub event: RelayEvent,
}

/// The ghost counterpart of [`Delivery`].
#[verifier::ext_equal]
pub struct DeliveryView {
    pub to: PeerId,
    pub event: EventView,
}

impl View for Delivery {
    type V = DeliveryView;

    open spec fn view(&self) -> DeliveryView {
        DeliveryView { to: self.to, event: self.event@ }
    }
}

/// `deliveries` hands `event` to each of `targets` once, and nothing else to
/// anyone. In which order is left open.
pub open spec fn delivers(
    deliveries: Seq<Delivery>,
    targets: Set<PeerId>,
    event: EventView,
) -> bool {
    &&& forall|i: int|
        0 <= i < deliveries.len() ==> targets.contains((#[trigger] deliveries[i]).to)
            && deliveries[i].event@ == event
    &&& forall|i: int, j: int|
        0 <= i < j < deliveries.len() ==> (#[trigger] deliveries[i]).to != (
        #[trigger] deliveries[j]).to
    &&& forall|p: PeerId| #[trigger]
        targets.contains(p) ==> exists|i: int|
            0 <= i < deliveries.len() && (#[trigger] deliveries[i]).to == p
}

/// `members` without `except`, in order.
spec fn others(members: Seq<PeerId>, except: PeerId) -> Seq<PeerId>
    decreases members.len(),
{
    if members.len() == 0 {
        members
    } else if members.last() == except {
        others(members.drop_last(), except)
    } else {
        others(members.drop_last(), except).push(members.last())
    }
}

/// Leaving one out keeps every other member, once.
proof fn lemma_others(members: Seq<PeerId>, except: PeerId)
    requires
        members.no_duplicates(),
    ensures
        others(members, except).no_duplicates(),
        forall|p: PeerId| #[trigger]
            others(members, except).contains(p) <==> members.contains(p) && p != except,
    decreases members.len(),
{
    if members.len() > 0 {
        let front = members.drop_last();
        let rest = others(front, except);
        lemma_others(front, except);
        assert forall|p: PeerId| #[trigger] others(members, except).contains(p) <==> members.contains(p) && p
            != except by {
            if members.contains(p) && p != except {
                let k = choose|k: int| 0 <= k < members.len() && members[k] == p;
                if k < front.len() {
                    assert(front[k] == p);
                    assert(front.contains(p));
                    assert(rest.contains(p));
                    let m = choose|m: int| 0 <= m < rest.len() && rest[m] == p;
                    assert(others(members, except)[m] == p);
                } else {
                    assert(others(members, except)[rest.len() as int] == p);
                }
            }
            if others(members, except).contains(p) {
                let m = choose|m: int|
                    0 <= m < others(members, except).len() && others(members, except)[m] == p;
                if m < rest.len() {
                    assert(rest[m] == p);
                    assert(rest.contains(p));
                    assert(front.contains(p));
                    let k = choose|k: int| 0 <= k < front.len() && front[k] == p;
                    assert(members[k] == p);
                } else {
                    assert(members[members.len() - 1] == p);
                }
            }
        }
        assert(!rest.contains(members.last())) by {
            if front.contains(members.last()) {
                let k = choose|k: int| 0 <= k < front.len() && front[k] == members.last();
                assert(members[k] == members[members.len() - 1]);
            }
        }
    }
}

/// A connection that has entered a room, and whom to tell.
pub struct Registered {
    pub code: String,
    pub is_host: bool,
    pub notices: Vec<Delivery>,
}

/// What a room looks like after an attempt to join it by `id` at `now`, and
/// what comes of the attempt.
pub open spec fn join_room(room: RoomView, id: PeerId, now: u64) -> (
    RoomView,
    Result<(), RegisterError>,
) {
    let tried = RoomView { attempts: attempts_after(room.attempts, now), ..room };
    if !admits_attempt(room.attempts, now) {
        (tried, Err(RegisterError::TooManyAttempts))
    } else if room.full() {
        (tried, Err(RegisterError::RoomFull))
    } else if !room.peers.contains(room.host) {
        (tried, Err(RegisterError::HostUnavailable))
    } else {
        (RoomView { peers: room.peers.insert(id), ..tried }, Ok(()))
    }
}

/// The room that `id` opens.
pub open spec fn opened_room(id: PeerId, max_guests: usize) -> RoomView {
    RoomView { host: id, max_guests, peers: set![id], attempts: seq![] }
}

/// The rooms that exist.
pub struct Relay {
    rooms: Table<String, Room>,
}

impl View for Relay {
    type V = Map<Seq<char>, RoomView>;

    closed spec fn view(&self) -> Map<Seq<char>, RoomView> {
        self.rooms@.map_values(|room: Room| room@)
    }
}

impl Relay {
    /// Every room is well formed.
    pub closed spec fn wf(&self) -> bool {
        &&& self.rooms.wf()
        &&& forall|code: Seq<char>| #[trigger]
            self.rooms@.contains_key(code) ==> self.rooms@[code].wf()
    }

    /// Every room keeps within its limits.
    pub proof fn law_rooms_keep_their_limits(&self, code: Seq<char>)
        requires
            self.wf(),
            self@.contains_key(code),
        ensures
            self@[code].peers.finite(),
            self@[code].peers.len() <= self@[code].max_guests + 1,
            self@[code].attempts.len() <= JOIN_LIMIT,
    {
        assert(self.rooms@.contains_key(code));
    }

    /// A relay without rooms.
    pub fn new() -> (r: Relay)
        ensures
            r.wf(),
            r@ == Map::<Seq<char>, RoomView>::empty(),
    {
        let r = Relay { rooms: Table::new() };
        assert(r@ =~= Map::<Seq<char>, RoomView>::empty());
        r
    }

    /// Takes a room out, or puts a room in: how the view of the rooms follows
    /// the table.
    proof fn lemma_views(rooms: Map<Seq<char>, Room>, code: Seq<char>, room: Room)
        ensures
            rooms.insert(code, room).map_values(|r: Room| r@) == rooms.map_values(
                |r: Room| r@,
            ).insert(code, room@),
            rooms.remove(code).map_values(|r: Room| r@) == rooms.map_values(|r: Room| r@).remove(
                code,
            ),
    {
        assert(rooms.insert(code, room).map_values(|r: Room| r@) =~= rooms.map_values(
            |r: Room| r@,
        ).insert(code, room@));
        assert(rooms.remove(code).map_values(|r: Room| r@) =~= rooms.map_values(
            |r: Room| r@,
        ).remove(code));
    }

    /// Lets the connection `id` open or enter the room it asks for.
    ///
    /// Opening a room fails only if its code is taken. An attempt to enter one
    /// is first held against the rate limit, then counted, and then held
    /// against the guest limit. The host of a room is told of each guest that
    /// enters.
    pub fn register(&mut self, id: PeerId, registration: Registration, now: u64) -> (r: Result<
        Registered,
        RegisterError,
    >)
        requires
            old(self).wf(),
        ensures
            final(self).wf(),
            match registration {
                Registration::Host { code, max_guests } => {
                    if old(self)@.contains_key(code@) {
                        &&& r matches Err(RegisterError::CodeCollision)
                        &&& final(self)@ == old(self)@
                    } else {
                        &&& r matches Ok(entered)
                        &&& entered.code@ == code@
                        &&& entered.is_host
                        &&& entered.notices@.len() == 0
                        &&& final(self)@ == old(self)@.insert(code@, opened_room(id, max_guests))
                    }
                },
                Registration::Join { code } => {
                    if !old(self)@.contains_key(code@) {
                        &&& r matches Err(RegisterError::RoomNotFound)
                        &&& final(self)@ == old(self)@
                    } else {
                        let (room, outcome) = join_room(old(self)@[code@], id, now);
                        &&& final(self)@ == old(self)@.insert(code@, room)
                        &&& match outcome {
                            Ok(()) => {
                                &&& r matches Ok(entered)
                                &&& entered.code@ == code@
                                &&& !entered.is_host
                                &&& entered.notices@.len() == 1
                                &&& entered.notices@[0]@ == (DeliveryView {
                                    to: old(self)@[code@].host,
                                    event: EventView::PeerJoined { id },
                                })
                            },
                            Err(why) => r matches Err(e) && e == why,
                        }
                    }
                },
            },
    {
        let ghost before = self.rooms@;
        match registration {
            Registration::Host { code, max_guests } => {
                if self.rooms.contains(&code) {
                    return Err(RegisterError::CodeCollision);
                }
                let mut peers: Table<PeerId, ()> = Table::new();
                peers.insert(id, ());
                let room = Room { host: id, max_guests, peers, join_attempts: VecDeque::new() };
                assert(room@ =~= opened_room(id, max_guests)) by {
                    assert(room@.peers =~= set![id]);
                }
                proof {
                    Relay::lemma_views(before, code@, room);
                }
                let key = code.clone();
                self.rooms.insert(key, room);
                Ok(Registered { code, is_host: true, notices: Vec::new() })
            },
            Registration::Join { code } => {
                let mut room = match self.rooms.remove(&code) {
                    Some(room) => room,
                    None => {
                        assert(before.remove(code@) =~= before);
                        return Err(RegisterError::RoomNotFound);
                    },
                };
                let ghost found = room;
                assert(found@ == old(self)@[code@]);
                let outcome = Relay::try_join(&mut room, id, now);
                let host = room.host;
                let key = code.clone();
                proof {
                    assert(before.remove(code@).insert(code@, room) =~= before.insert(
                        code@,
                        room,
                    ));
                    Relay::lemma_views(before, code@, room);
                }
                self.rooms.insert(key, room);
                match outcome {
                    Ok(()) => {
                        let mut notices: Vec<Delivery> = Vec::new();
                        notices.push(Delivery { to: host, event: RelayEvent::PeerJoined { id } });
                        Ok(Registered { code, is_host: false, notices })
                    },
                    Err(why) => Err(why),
                }
            },
        }
    }

    /// Lets `id` try to enter `room`.
    fn try_join(room: &mut Room, id: PeerId, now: u64) -> (r: Result<(), RegisterError>)
        requires
            old(room).wf(),
        ensures
            final(room).wf(),
            (final(room)@, r) == join_room(old(room)@, id, now),
    {
        let ghost start = *room;
        while room.join_attempts.len() > 0 && now > room.join_attempts[0] && now
            - room.join_attempts[0] > JOIN_WINDOW_NS
            invariant
                room.host == start.host,
                room.max_guests == start.max_guests,
                room.peers == start.peers,
                room.join_attempts@.len() <= JOIN_LIMIT,
                live_attempts(start.join_attempts@, now) == live_attempts(room.join_attempts@, now),
            decreases room.join_attempts@.len(),
        {
            let ghost queue = room.join_attempts@;
            let _ = room.join_attempts.pop_front();
            assert(room.join_attempts@ =~= queue.drop_first());
        }
        assert(room.join_attempts@ == live_attempts(start.join_attempts@, now));
        if room.join_attempts.len() >= JOIN_LIMIT {
            return Err(RegisterError::TooManyAttempts);
        }
        room.join_attempts.push_back(now);
        let members = room.peers.len();
        let guests = if members > 0 {
            members - 1
        } else {
            0
        };
        if guests >= room.max_guests {
            return Err(RegisterError::RoomFull);
        }
        if !room.peers.contains(&room.host) {
            return Err(RegisterError::HostUnavailable);
        }
        let ghost members_before = room.peers@;
        room.peers.insert(id, ());
        proof {
            assert(room.peers@.dom() =~= members_before.dom().insert(id));
        }
        Ok(())
    }

    /// Hands `event` to every member of the room but `except`.
    fn tell_others(room: &Room, except: PeerId, event: &RelayEvent) -> (r: Vec<Delivery>)
        requires
            room.wf(),
        ensures
            delivers(r@, room@.peers.remove(except), event@),
    {
        let members = room.peers.keys();
        let mut out: Vec<Delivery> = Vec::new();
        let mut i: usize = 0;
        while i < members.len()
            invariant
                i <= members@.len(),
                out@.len() == others(members@.take(i as int), except).len(),
                forall|k: int|
                    0 <= k < out@.len() ==> (#[trigger] out@[k]).to == others(
                        members@.take(i as int),
                        except,
                    )[k] && out@[k].event@ == event@,
            decreases members@.len() - i,
        {
            assert(members@.take(i + 1).drop_last() =~= members@.take(i as int));
            assert(members@.take(i + 1).last() == members@[i as int]);
            if !same_peer(&members[i], &except) {
                out.push(Delivery { to: members[i], event: copy_event(event) });
            }
            i += 1;
        }
        proof {
            assert(members@.take(i as int) =~= members@);
            assert forall|k: int, l: int| 0 <= k < l < members@.len() implies members@[k]
                != members@[l] by {
                assert(members@[k].model() != members@[l].model());
            }
            lemma_others(members@, except);
            let told = others(members@, except);
            let targets = room@.peers.remove(except);
            assert forall|k: int| 0 <= k < out@.len() implies targets.contains(
                (#[trigger] out@[k]).to,
            ) by {
                assert(told.contains(told[k]));
                let l = choose|l: int| 0 <= l < members@.len() && members@[l] == told[k];
                assert(room.peers@.contains_key(members@[l].model()));
            }
            assert forall|p: PeerId| #[trigger] targets.contains(p) implies exists|k: int|
                0 <= k < out@.len() && (#[trigger] out@[k]).to == p by {
                assert(room.peers@.contains_key(p));
                let l = choose|l: int| 0 <= l < members@.len() && members@[l].model() == p;
                assert(members@.contains(p));
                assert(told.contains(p));
                let k = choose|k: int| 0 <= k < told.len() && told[k] == p;
                assert(out@[k].to == p);
            }
        }
        out
    }

    /// Who receives `payload` when `from` sends it in the room `code`: the
    /// member `to` if one is named, and otherwise every other member. A sender
    /// that is not in the room reaches no one, and no one reaches themselves.
    pub fn route_data(
        &self,
        code: &String,
        from: PeerId,
        to: Option<PeerId>,
        payload: Vec<u8>,
    ) -> (r: Vec<Delivery>)
        requires
            self.wf(),
        ensures
            delivers(
                r@,
                recipients(self@, code@, from, to),
                (EventView::Data { from, payload: payload@ }),
            ),
    {
        let room = match self.rooms.get(code) {
            Some(room) => room,
            None => {
                return Vec::new();
            },
        };
        if !room.peers.contains(&from) {
            return Vec::new();
        }
        let event = RelayEvent::Data { from, payload };
        match to {
            Some(target) => {
                let mut out: Vec<Delivery> = Vec::new();
                if !same_peer(&target, &from) && room.peers.contains(&target) {
                    out.push(Delivery { to: target, event });
                    assert(out@[0].to == target);
                }
                out
            },
            None => Relay::tell_others(room, from, &event),
        }
    }

    /// Lets the connection `id` leave. When the host leaves, the room is gone
    /// and the others are told that it closed; when a guest leaves, those who
    /// remain are told who left.
    pub fn unregister(&mut self, code: &String, id: PeerId, is_host: bool) -> (r: Vec<Delivery>)
        requires
            old(self).wf(),
        ensures
            final(self).wf(),
            if !old(self)@.contains_key(code@) {
                r@.len() == 0 && final(self)@ == old(self)@
            } else {
                let room = old(self)@[code@];
                if is_host {
                    &&& final(self)@ == old(self)@.remove(code@)
                    &&& delivers(r@, room.peers.remove(id), EventView::RoomClosed)
                } else {
                    &&& final(self)@ == old(self)@.insert(
                        code@,
                        (RoomView { peers: room.peers.remove(id), ..room }),
                    )
                    &&& delivers(r@, room.peers.remove(id), (EventView::PeerLeft { id }))
                }
            },
    {
        let ghost before = self.rooms@;
        let mut room = match self.rooms.remove(code) {
            Some(room) => room,
            None => {
                assert(before.remove(code@) =~= before);
                return Vec::new();
            },
        };
        assert(room@ == old(self)@[code@]);
        proof {
            Relay::lemma_views(before, code@, room);
        }
        if is_host {
            return Relay::tell_others(&room, id, &RelayEvent::RoomClosed);
        }
        let ghost members = room.peers@;
        let _ = room.peers.remove(&id);
        proof {
            assert(room.peers@.dom() =~= members.dom().remove(id));
            assert(before.remove(code@).insert(code@, room) =~= before.insert(code@, room));
            Relay::lemma_views(before, code@, room);
            assert(room@.peers.remove(id) =~= members.dom().remove(id));
        }
        let notices = Relay::tell_others(&room, id, &RelayEvent::PeerLeft { id });
        let key = code.clone();
        self.rooms.insert(key, room);
        notices
    }
}

/// A copy of an event.
fn copy_event(event: &RelayEvent) -> (r: RelayEvent)
    ensures
        r@ == event@,
{
    match event {
        RelayEvent::Registered { id, is_host } => RelayEvent::Registered {
            id: *id,
            is_host: *is_host,
        },
        RelayEvent::PeerJoined { id } => RelayEvent::PeerJoined { id: *id },
        RelayEvent::PeerLeft { id } => RelayEvent::PeerLeft { id: *id },
        RelayEvent::Data { from, payload } => RelayEvent::Data {
            from: *from,
            payload: copy_bytes(payload),
        },
        RelayEvent::RoomClosed => RelayEvent::RoomClosed,
        RelayEvent::Error { message } => RelayEvent::Error { message: message.clone() },
    }
}

/// Who receives what `from` sends in the room `code`.
pub open spec fn recipients(
    rooms: Map<Seq<char>, RoomView>,
    code: Seq<char>,
    from: PeerId,
    to: Option<PeerId>,
) -> Set<PeerId> {
    if !rooms.contains_key(code) || !rooms[code].peers.contains(from) {
        Set::empty()
    } else {
        match to {
            Some(target) => if target != from && rooms[code].peers.contains(target) {
                set![target]
            } else {
                Set::empty()
            },
            None => rooms[code].peers.remove(from),
        }
    }
}

// ---------------------------------------------------------------------------
// Laws
// ---------------------------------------------------------------------------
/// What is sent in a room reaches nobody outside it, and never its sender.
pub proof fn law_traffic_stays_in_the_room(
    rooms: Map<Seq<char>, RoomView>,
    code: Seq<char>,
    from: PeerId,
    to: Option<PeerId>,
    receiver: PeerId,
)
    requires
        recipients(rooms, code, from, to).contains(receiver),
    ensures
        rooms.contains_key(code),
        rooms[code].peers.contains(from),
        rooms[code].peers.contains(receiver),
        receiver != from,
{
}

/// Every other member of a room receives what a member sends to all.
pub proof fn law_everyone_receives_room_traffic(
    rooms: Map<Seq<char>, RoomView>,
    code: Seq<char>,
    from: PeerId,
    receiver: PeerId,
)
    requires
        rooms.contains_key(code),
        rooms[code].peers.contains(from),
        rooms[code].peers.contains(receiver),
        receiver != from,
    ensures
        recipients(rooms, code, from, None).contains(receiver),
{
}

/// A refused guest changes nothing but the attempts that a room remembers.
pub proof fn law_refused_guests_change_no_membership(room: RoomView, id: PeerId, now: u64)
    requires
        join_room(room, id, now).1 is Err,
    ensures
        join_room(room, id, now).0 == (RoomView {
            attempts: attempts_after(room.attempts, now),
            ..room
        }),
{
}

/// A guest that leaves leaves the members as they were before it came.
pub proof fn law_leaving_undoes_joining(room: RoomView, id: PeerId, now: u64)
    requires
        !room.peers.contains(id),
        join_room(room, id, now).1 is Ok,
    ensures
        join_room(room, id, now).0.peers.remove(id) == room.peers,
{
    assert(room.peers.insert(id).remove(id) =~= room.peers);
}

/// A room admits guests up to its limit and no further.
pub proof fn law_the_guest_limit_holds(room: RoomView, id: PeerId, now: u64)
    requires
        room.peers.finite(),
        room.peers.contains(room.host),
        !room.peers.contains(id),
    ensures
        join_room(room, id, now).1 is Ok ==> join_room(room, id, now).0.guests()
            <= room.max_guests,
        room.guests() >= room.max_guests ==> join_room(room, id, now).1 is Err,
        room.guests() < room.max_guests && admits_attempt(room.attempts, now) ==> join_room(
            room,
            id,
            now,
        ).1 is Ok,
        join_room(room, id, now).1 is Ok ==> join_room(room, id, now).0.peers.len()
            <= room.max_guests + 1,
        room.peers.len() > room.max_guests ==> join_room(room, id, now).1 is Err,
        room.peers.len() <= room.max_guests && admits_attempt(room.attempts, now) ==> join_room(
            room,
            id,
            now,
        ).1 is Ok,
{
    assert(room.peers.len() > 0) by {
        if room.peers.len() == 0 {
            assert(room.peers =~= Set::empty());
        }
    }
}

/// A guest who is let in is a member afterwards, beside everyone who was one
/// before, and nothing else of the room changes but that the attempt is
/// remembered.
pub proof fn law_admitted_guests_are_members(room: RoomView, id: PeerId, now: u64, other: PeerId)
    requires
        join_room(room, id, now).1 is Ok,
    ensures
        join_room(room, id, now).0.peers.contains(id),
        other != id ==> join_room(room, id, now).0.peers.contains(other) == room.peers.contains(
            other,
        ),
        join_room(room, id, now).0.host == room.host,
        join_room(room, id, now).0.max_guests == room.max_guests,
        join_room(room, id, now).0.attempts.len() > 0,
        join_room(room, id, now).0.attempts.last() == now,
{
}

/// A guest is turned away for the first of these reasons that holds, and is told
/// which: there were too many attempts, the room is full, or its host is gone.
pub proof fn law_refused_guests_are_told_why(room: RoomView, id: PeerId, now: u64)
    requires
        room.peers.finite(),
        room.peers.len() > 0,
    ensures
        ({
            let outcome = join_room(room, id, now).1;
            let considered = admits_attempt(room.attempts, now);
            &&& outcome == Err::<(), _>(RegisterError::TooManyAttempts) <==> !considered
            &&& outcome == Err::<(), _>(RegisterError::RoomFull) <==> considered
                && room.peers.len() > room.max_guests
            &&& outcome == Err::<(), _>(RegisterError::HostUnavailable) <==> considered
                && room.peers.len() <= room.max_guests && !room.peers.contains(room.host)
            &&& outcome is Ok <==> considered && room.peers.len() <= room.max_guests
                && room.peers.contains(room.host)
            &&& outcome != Err::<(), _>(RegisterError::CodeCollision) && outcome != Err::<(), _>(
                RegisterError::RoomNotFound,
            )
        }),
{
}

/// Who opens a room is its host and its only member, and the room takes as many
/// guests as it was opened for: the first ones get in whenever they come.
pub proof fn law_opened_rooms_await_guests(id: PeerId, max_guests: usize, guest: PeerId, now: u64)
    requires
        guest != id,
        max_guests > 0,
    ensures
        opened_room(id, max_guests).host == id,
        opened_room(id, max_guests).max_guests == max_guests,
        opened_room(id, max_guests).peers.contains(id),
        !opened_room(id, max_guests).peers.contains(guest),
        join_room(opened_room(id, max_guests), guest, now).1 is Ok,
{
    assert(set![id].len() == 1);
}

/// The rooms that take in `guests`, one after the other, at these times.
pub open spec fn filled(room: RoomView, guests: Seq<PeerId>, times: Seq<u64>) -> RoomView
    decreases guests.len(),
{
    if guests.len() == 0 {
        room
    } else {
        join_room(filled(room, guests.drop_last(), times), guests.last(), times[guests.len() - 1]).0
    }
}

/// However many try, and whenever, a room never holds more guests than it was
/// opened for, and its host stays a member of it.
pub proof fn law_rooms_never_overflow(
    id: PeerId,
    max_guests: usize,
    guests: Seq<PeerId>,
    times: Seq<u64>,
)
    requires
        times.len() == guests.len(),
    ensures
        filled(opened_room(id, max_guests), guests, times).peers.finite(),
        filled(opened_room(id, max_guests), guests, times).peers.len() <= max_guests + 1,
        filled(opened_room(id, max_guests), guests, times).peers.contains(id),
        filled(opened_room(id, max_guests), guests, times).max_guests == max_guests,
    decreases guests.len(),
{
    if guests.len() > 0 {
        let front = guests.drop_last();
        let room = opened_room(id, max_guests);
        lemma_filled_times(room, front, times);
        law_rooms_never_overflow(id, max_guests, front, times.drop_last());
    } else {
        assert(set![id].len() == 1);
    }
}

/// Later times make no difference to earlier guests.
proof fn lemma_filled_times(room: RoomView, guests: Seq<PeerId>, times: Seq<u64>)
    requires
        guests.len() < times.len(),
    ensures
        filled(room, guests, times) == filled(room, guests, times.drop_last()),
    decreases guests.len(),
{
    if guests.len() > 0 {
        lemma_filled_shorter(room, guests.drop_last(), times, times.drop_last());
        assert(times[guests.len() - 1] == times.drop_last()[guests.len() - 1]);
    }
}

/// Only the times of the guests that try count.
proof fn lemma_filled_shorter(room: RoomView, guests: Seq<PeerId>, a: Seq<u64>, b: Seq<u64>)
    requires
        guests.len() <= a.len(),
        guests.len() <= b.len(),
        forall|i: int| 0 <= i < guests.len() ==> a[i] == b[i],
    ensures
        filled(room, guests, a) == filled(room, guests, b),
    decreases guests.len(),
{
    if guests.len() > 0 {
        lemma_filled_shorter(room, guests.drop_last(), a, b);
    }
}

/// What is sent to one member of the room reaches that member and no other, and
/// what is sent by someone outside the room reaches nobody.
pub proof fn law_messages_to_one_reach_one(
    rooms: Map<Seq<char>, RoomView>,
    code: Seq<char>,
    from: PeerId,
    to: PeerId,
    receiver: PeerId,
)
    ensures
        rooms.contains_key(code) && rooms[code].peers.contains(from) && rooms[code].peers.contains(
            to,
        ) && to != from ==> recipients(rooms, code, from, Some(to)).contains(to),
        receiver != to ==> !recipients(rooms, code, from, Some(to)).contains(receiver),
        !rooms.contains_key(code) || !rooms[code].peers.contains(from) ==> !recipients(
            rooms,
            code,
            from,
            Some(to),
        ).contains(receiver) && !recipients(rooms, code, from, None).contains(receiver),
        !recipients(rooms, code, from, None).contains(from),
{
}

/// What is delivered to some members goes to each of them exactly once, as it is,
/// and to nobody else.
pub proof fn law_deliveries_arrive_once(
    deliveries: Seq<Delivery>,
    targets: Set<PeerId>,
    event: EventView,
    p: PeerId,
)
    requires
        delivers(deliveries, targets, event),
    ensures
        targets.contains(p) <==> exists|i: int|
            0 <= i < deliveries.len() && (#[trigger] deliveries[i]).to == p,
        forall|i: int|
            0 <= i < deliveries.len() ==> (#[trigger] deliveries[i]).event@ == event,
        forall|i: int, j: int|
            0 <= i < deliveries.len() && 0 <= j < deliveries.len() && (#[trigger] deliveries[i]).to
                == p && (#[trigger] deliveries[j]).to == p ==> i == j,
{
}

/// What each refusal says.
pub proof fn law_refusals_are_worded()
    ensures
        forall|why: RegisterError| #[trigger]
            why.text() == match why {
                RegisterError::CodeCollision => "room code collision; start again"@,
                RegisterError::RoomNotFound => "room was not found"@,
                RegisterError::TooManyAttempts =>
                    "room join rate limit exceeded; try again shortly"@,
                RegisterError::RoomFull => "room has reached its guest limit"@,
                RegisterError::HostUnavailable => "room host is unavailable"@,
            },
        forall|why: FirstPacketError| #[trigger]
            why.text() == match why {
                FirstPacketError::NotAPacket => "the first packet must register a room"@,
                FirstPacketError::WrongVersion => "incompatible protocol version"@,
                FirstPacketError::Invalid => "invalid registration"@,
            },
{
}

} // verus!
