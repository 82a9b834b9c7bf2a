//! The vocabulary of a room: identifiers, room codes and the messages that
//! travel between clients and the relay.
//!
//! Every message type has a ghost counterpart whose name ends in `View`; the
//! contracts of the library speak about messages through it.

use vstd::prelude::*;

use rand::distributions::Alphanumeric;
use rand::Rng;

use crate::text;
use crate::text::{alphanumeric_char, chars_of, first_chars};

verus! {

broadcast use vstd::seq_lib::group_seq_properties;

/// The version that both ends of a relay connection must speak.
pub const PROTOCOL_VERSION: u16 = 1;

/// The number of characters in a room code.
pub const CODE_LEN: usize = 6;

/// The number of leading characters of a room code that the relay sees.
pub const RENDEZVOUS_LEN: usize = 2;

/// The largest packet, in bytes, that travels through the relay.
pub const MAX_RELAY_PACKET: usize = 524288;

/// The largest piece of a file, in bytes, that travels in one frame.
pub const FILE_CHUNK_SIZE: usize = 49152;

/// The largest file, in bytes, that may be sent.
pub const MAX_FILE_SIZE: u64 = 536870912;

// ---------------------------------------------------------------------------
// Outside functions
// ---------------------------------------------------------------------------
/// The lower-case hexadecimal digit with the value `d`.
pub open spec fn hex_digit(d: int) -> char {
    if d < 10 {
        ('0' as int + d) as char
    } else {
        ('a' as int + (d - 10)) as char
    }
}

/// Two lower-case hexadecimal digits for each byte, high digit first.
pub open spec fn hex(bytes: Seq<u8>) -> Seq<char>
    decreases bytes.len(),
{
    if bytes.len() == 0 {
        seq![]
    } else {
        hex(bytes.drop_last()) + seq![
            hex_digit(bytes.last() as int / 16),
            hex_digit(bytes.last() as int % 16),
        ]
    }
}

/// `hex::encode`: two lower-case hexadecimal digits for each byte, in order.
#[verifier::external_body]
pub(crate) fn hex_encode(bytes: &[u8]) -> (r: String)
    ensures
        r@ == hex(bytes@),
{
    hex::encode(bytes)
}

/// `rand::random` for sixteen bytes. Any value may come back, so nothing is
/// claimed of it.
#[verifier::external_body]
pub(crate) fn random_id() -> [u8; 16] {
    rand::random()
}

/// One draw from `rand::distributions::Alphanumeric`: an ASCII letter or
/// digit. Which one is left open.
#[verifier::external_body]
fn random_alphanumeric() -> (r: char)
    ensures
        text::is_alphanumeric(r),
{
    char::from(rand::thread_rng().sample(Alphanumeric))
}

// ---------------------------------------------------------------------------
// Peers
// ---------------------------------------------------------------------------
/// What identifies a connection to the relay.
#[derive(Clone, Copy, Debug, PartialEq, Eq, Hash)]
pub struct PeerId(pub [u8; 16]);

impl PeerId {
    /// A fresh random identifier. Any value may come back.
    pub fn random() -> PeerId {
        PeerId(random_id())
    }

    /// The first three bytes in hexadecimal.
    pub fn short(&self) -> (r: String)
        ensures
            r@ == hex(self.0@.take(3)),
    {
        let mut leading: Vec<u8> = Vec::new();
        leading.push(self.0[0]);
        leading.push(self.0[1]);
        leading.push(self.0[2]);
        assert(leading@ =~= self.0@.take(3));
        hex_encode(leading.as_slice())
    }

    /// How the identifier is written in diagnostics.
    pub fn debug_text(&self) -> (r: String)
        ensures
            r@ == "PeerId(\""@ + hex(self.0@.take(3)) + "\")"@,
    {
        let mut out = "PeerId(\"".to_owned();
        out.append(self.short().as_str());
        out.append("\")");
        out
    }
}

/// Whether two identifiers are the same.
pub fn same_id(a: &[u8; 16], b: &[u8; 16]) -> (r: bool)
    ensures
        r == (*a == *b),
{
    let mut i: usize = 0;
    while i < 16
        invariant
            i <= 16,
            forall|j: int| 0 <= j < i ==> a[j] == b[j],
        decreases 16 - i,
    {
        if a[i] != b[i] {
            return false;
        }
        i += 1;
    }
    assert(*a =~= *b);
    true
}

/// Whether two peers are the same.
pub fn same_peer(a: &PeerId, b: &PeerId) -> (r: bool)
    ensures
        r == (*a == *b),
{
    same_id(&a.0, &b.0)
}

/// A copy of `bytes`.
pub fn copy_bytes(bytes: &Vec<u8>) -> (r: Vec<u8>)
    ensures
        r@ == bytes@,
{
    let r = bytes.clone();
    assert(r@ =~= bytes@);
    r
}

// ---------------------------------------------------------------------------
// Messages between a client and the relay
// ---------------------------------------------------------------------------
/// What a client asks of the relay.
#[derive(Debug)]
pub enum RelayCommand {
    /// Open a room.
    Host { version: u16, rendezvous: String, max_guests: usize },
    /// Enter a room.
    Join { version: u16, rendezvous: String },
    /// Hand `payload` to one peer, or to everyone else in the room.
    Data { to: Option<PeerId>, payload: Vec<u8> },
}

/// The ghost counterpart of [`RelayCommand`].
#[verifier::ext_equal]
pub enum CommandView {
    Host { version: u16, rendezvous: Seq<char>, max_guests: usize },
    Join { version: u16, rendezvous: Seq<char> },
    Data { to: Option<PeerId>, payload: Seq<u8> },
}

impl View for RelayCommand {
    type V = CommandView;

    open spec fn view(&self) -> CommandView {
        match *self {
            RelayCommand::Host { version, rendezvous, max_guests } => CommandView::Host {
                version,
                rendezvous: rendezvous@,
                max_guests,
            },
            RelayCommand::Join { version, rendezvous } => CommandView::Join {
                version,
                rendezvous: rendezvous@,
            },
            RelayCommand::Data { to, payload } => CommandView::Data { to, payload: payload@ },
        }
    }
}

/// What the relay tells a client.
#[derive(Debug)]
pub enum RelayEvent {
    Registered { id: PeerId, is_host: bool },
    PeerJoined { id: PeerId },
    PeerLeft { id: PeerId },
    Data { from: PeerId, payload: Vec<u8> },
    RoomClosed,
    Error { message: String },
}

/// The ghost counterpart of [`RelayEvent`].
#[verifier::ext_equal]
pub enum EventView {
    Registered { id: PeerId, is_host: bool },
    PeerJoined { id: PeerId },
    PeerLeft { id: PeerId },
    Data { from: PeerId, payload: Seq<u8> },
    RoomClosed,
    Error { message: Seq<char> },
}

impl View for RelayEvent {
    type V = EventView;

    open spec fn view(&self) -> EventView {
        match *self {
            RelayEvent::Registered { id, is_host } => EventView::Registered { id, is_host },
            RelayEvent::PeerJoined { id } => EventView::PeerJoined { id },
            RelayEvent::PeerLeft { id } => EventView::PeerLeft { id },
            RelayEvent::Data { from, payload } => EventView::Data { from, payload: payload@ },
            RelayEvent::RoomClosed => EventView::RoomClosed,
            RelayEvent::Error { message } => EventView::Error { message: message@ },
        }
    }
}

// ---------------------------------------------------------------------------
// Messages between clients
// ---------------------------------------------------------------------------
/// A ciphertext with the nonce it was made with.
#[derive(Debug)]
pub struct Sealed {
    pub nonce: [u8; 24],
    pub ciphertext: Vec<u8>,
}

/// The ghost counterpart of [`Sealed`].
#[verifier::ext_equal]
pub struct SealedView {
    pub nonce: Seq<u8>,
    pub ciphertext: Seq<u8>,
}

impl View for Sealed {
    type V = SealedView;

    open spec fn view(&self) -> SealedView {
        SealedView { nonce: self.nonce@, ciphertext: self.ciphertext@ }
    }
}

/// What one client hands to another through the relay.
#[derive(Debug)]
pub enum WirePacket {
    /// A message of the key exchange.
    Spake { response: bool, message: Vec<u8> },
    /// Sealed with the key of one host and one guest.
    PairSealed(Sealed),
    /// Sealed with the key of the room.
    GroupSealed(Sealed),
}

/// The ghost counterpart of [`WirePacket`].
#[verifier::ext_equal]
pub enum PacketView {
    Spake { response: bool, message: Seq<u8> },
    PairSealed(SealedView),
    GroupSealed(SealedView),
}

impl View for WirePacket {
    type V = PacketView;

    open spec fn view(&self) -> PacketView {
        match *self {
            WirePacket::Spake { response, message } => PacketView::Spake {
                response,
                message: message@,
            },
            WirePacket::PairSealed(sealed) => PacketView::PairSealed(sealed@),
            WirePacket::GroupSealed(sealed) => PacketView::GroupSealed(sealed@),
        }
    }
}

/// What the host tells a guest once their key exchange is done.
#[derive(Debug)]
pub struct Welcome {
    pub room_key: [u8; 32],
    pub host_alias: String,
    pub peer_count: usize,
}

/// The ghost counterpart of [`Welcome`].
#[verifier::ext_equal]
pub struct WelcomeView {
    pub room_key: Seq<u8>,
    pub host_alias: Seq<char>,
    pub peer_count: usize,
}

impl View for Welcome {
    type V = WelcomeView;

    open spec fn view(&self) -> WelcomeView {
        WelcomeView {
            room_key: self.room_key@,
            host_alias: self.host_alias@,
            peer_count: self.peer_count,
        }
    }
}

/// What members of a room say to each other.
#[derive(Debug, Clone)]
pub enum AppFrame {
    Chat { alias: String, text: String, sent_at_ms: u64 },
    Joined { alias: String },
    Left { alias: String },
    FileOffer { id: [u8; 16], alias: String, name: String, size: u64, mime: String },
    FileChunk { id: [u8; 16], sequence: u32, bytes: Vec<u8> },
    FileComplete { id: [u8; 16], sha256: [u8; 32] },
    VoiceStart { alias: String },
    VoicePcm { sample_rate: u32, samples: Vec<i16> },
    VoiceStop { alias: String },
}

/// The ghost counterpart of [`AppFrame`].
#[verifier::ext_equal]
pub enum FrameView {
    Chat { alias: Seq<char>, text: Seq<char>, sent_at_ms: u64 },
    Joined { alias: Seq<char> },
    Left { alias: Seq<char> },
    FileOffer { id: [u8; 16], alias: Seq<char>, name: Seq<char>, size: u64, mime: Seq<char> },
    FileChunk { id: [u8; 16], sequence: u32, bytes: Seq<u8> },
    FileComplete { id: [u8; 16], sha256: Seq<u8> },
    VoiceStart { alias: Seq<char> },
    VoicePcm { sample_rate: u32, samples: Seq<i16> },
    VoiceStop { alias: Seq<char> },
}

impl View for AppFrame {
    type V = FrameView;

    open spec fn view(&self) -> FrameView {
        match *self {
            AppFrame::Chat { alias, text, sent_at_ms } => FrameView::Chat {
                alias: alias@,
                text: text@,
                sent_at_ms,
            },
            AppFrame::Joined { alias } => FrameView::Joined { alias: alias@ },
            AppFrame::Left { alias } => FrameView::Left { alias: alias@ },
            AppFrame::FileOffer { id, alias, name, size, mime } => FrameView::FileOffer {
                id,
                alias: alias@,
                name: name@,
                size,
                mime: mime@,
            },
            AppFrame::FileChunk { id, sequence, bytes } => FrameView::FileChunk {
                id,
                sequence,
                bytes: bytes@,
            },
            AppFrame::FileComplete { id, sha256 } => FrameView::FileComplete {
                id,
                sha256: sha256@,
            },
            AppFrame::VoiceStart { alias } => FrameView::VoiceStart { alias: alias@ },
            AppFrame::VoicePcm { sample_rate, samples } => FrameView::VoicePcm {
                sample_rate,
                samples: samples@,
            },
            AppFrame::VoiceStop { alias } => FrameView::VoiceStop { alias: alias@ },
        }
    }
}

// ---------------------------------------------------------------------------
// Room codes
// ---------------------------------------------------------------------------
/// `n` ASCII letters or digits, and nothing else.
pub open spec fn alphanumeric_of_length(s: Seq<char>, n: nat) -> bool {
    s.len() == n && forall|i: int| 0 <= i < s.len() ==> text::is_alphanumeric(#[trigger] s[i])
}

/// A room code: six ASCII letters or digits.
pub open spec fn valid_code(s: Seq<char>) -> bool {
    alphanumeric_of_length(s, CODE_LEN as nat)
}

/// A rendezvous: two ASCII letters or digits.
pub open spec fn valid_rendezvous(s: Seq<char>) -> bool {
    alphanumeric_of_length(s, RENDEZVOUS_LEN as nat)
}

/// The part of a room code that the relay sees.
pub open spec fn rendezvous(code: Seq<char>) -> Seq<char> {
    text::head(code, RENDEZVOUS_LEN as nat)
}

/// Whether `s` is `n` ASCII letters or digits.
fn is_alphanumeric_of_length(s: &str, n: usize) -> (r: bool)
    ensures
        r == alphanumeric_of_length(s@, n as nat),
{
    let chars = chars_of(s);
    if chars.len() != n {
        return false;
    }
    let mut i: usize = 0;
    while i < chars.len()
        invariant
            i <= chars@.len(),
            chars@ == s@,
            forall|j: int| 0 <= j < i ==> text::is_alphanumeric(#[trigger] chars@[j]),
        decreases chars@.len() - i,
    {
        if !alphanumeric_char(chars[i]) {
            return false;
        }
        i += 1;
    }
    true
}

/// A fresh random room code. Which one is left open; it is always valid.
pub fn generate_code() -> (r: String)
    ensures
        valid_code(r@),
{
    let mut out = String::new();
    let mut drawn: usize = 0;
    while drawn < CODE_LEN
        invariant
            drawn <= CODE_LEN,
            alphanumeric_of_length(out@, drawn as nat),
        decreases CODE_LEN - drawn,
    {
        out.push(random_alphanumeric());
        drawn += 1;
    }
    out
}

/// Whether `code` is a room code.
pub fn validate_code(code: &str) -> (r: bool)
    ensures
        r == valid_code(code@),
{
    is_alphanumeric_of_length(code, CODE_LEN)
}

/// The part of a room code that the relay sees: its first two characters.
pub fn rendezvous_id(code: &str) -> (r: String)
    ensures
        r@ == rendezvous(code@),
{
    first_chars(code, RENDEZVOUS_LEN)
}

/// Whether `value` is a rendezvous.
pub fn validate_rendezvous(value: &str) -> (r: bool)
    ensures
        r == valid_rendezvous(value@),
{
    is_alphanumeric_of_length(value, RENDEZVOUS_LEN)
}

/// The relay accepts the rendezvous of every valid room code.
pub proof fn law_rendezvous_of_valid_code_is_valid(code: Seq<char>)
    requires
        valid_code(code),
    ensures
        valid_rendezvous(rendezvous(code)),
{
}

/// The rendezvous tells nothing about the last four characters of a code: two
/// codes that share their first two characters share their rendezvous.
pub proof fn law_rendezvous_hides_the_rest(a: Seq<char>, b: Seq<char>)
    requires
        valid_code(a),
        valid_code(b),
        a[0] == b[0],
        a[1] == b[1],
    ensures
        rendezvous(a) == rendezvous(b),
{
    assert(rendezvous(a) =~= rendezvous(b));
}

/// A room code is six letters or digits and a rendezvous is two, and nothing else
/// is one.
pub proof fn law_codes_have_six_characters(s: Seq<char>)
    ensures
        valid_code(s) <==> s.len() == 6 && (forall|i: int|
            0 <= i < 6 ==> text::is_alphanumeric(#[trigger] s[i])),
        valid_rendezvous(s) <==> s.len() == 2 && text::is_alphanumeric(s[0])
            && text::is_alphanumeric(s[1]),
{
}

/// The rendezvous of a code is its first two characters, in order; codes that
/// begin differently have different ones.
pub proof fn law_the_rendezvous_begins_the_code(code: Seq<char>, other: Seq<char>)
    requires
        code.len() >= 2,
        other.len() >= 2,
    ensures
        rendezvous(code) == seq![code[0], code[1]],
        rendezvous(code) == rendezvous(other) ==> code[0] == other[0] && code[1] == other[1],
{
    assert(rendezvous(code) =~= seq![code[0], code[1]]);
    assert(rendezvous(other) =~= seq![other[0], other[1]]);
    if rendezvous(code) == rendezvous(other) {
        assert(rendezvous(code)[0] == rendezvous(other)[0]);
        assert(rendezvous(code)[1] == rendezvous(other)[1]);
    }
}

/// The value of a hexadecimal digit.
pub open spec fn nibble(c: char) -> int {
    if '0' <= c <= '9' {
        c as int - '0' as int
    } else {
        c as int - 'a' as int + 10
    }
}

/// Bytes in hexadecimal can be read back: two digits for each, the higher first.
pub proof fn law_hexadecimal_reads_back(bytes: Seq<u8>, i: int)
    requires
        0 <= i < bytes.len(),
    ensures
        hex(bytes).len() == 2 * bytes.len(),
        nibble(hex(bytes)[2 * i]) * 16 + nibble(hex(bytes)[2 * i + 1]) == bytes[i],
    decreases bytes.len(),
{
    let front = bytes.drop_last();
    lemma_hex_length(bytes);
    lemma_hex_length(front);
    if i < front.len() {
        law_hexadecimal_reads_back(front, i);
        assert(hex(bytes)[2 * i] == hex(front)[2 * i]);
        assert(hex(bytes)[2 * i + 1] == hex(front)[2 * i + 1]);
    } else {
        let high = bytes.last() as int / 16;
        let low = bytes.last() as int % 16;
        assert(hex(bytes)[2 * i] == hex_digit(high));
        assert(hex(bytes)[2 * i + 1] == hex_digit(low));
        assert(nibble(hex_digit(high)) == high);
        assert(nibble(hex_digit(low)) == low);
    }
}

/// Two digits stand for each byte.
proof fn lemma_hex_length(bytes: Seq<u8>)
    ensures
        hex(bytes).len() == 2 * bytes.len(),
    decreases bytes.len(),
{
    if bytes.len() > 0 {
        lemma_hex_length(bytes.drop_last());
    }
}

/// The sizes that everyone in a room relies on: packets of half a mebibyte,
/// files of half a gibibyte, and pieces of files that fit into a packet ten
/// times.
pub proof fn law_sizes_fit_together()
    ensures
        PROTOCOL_VERSION == 1,
        MAX_RELAY_PACKET == 512 * 1024,
        MAX_FILE_SIZE == 512 * 1024 * 1024,
        FILE_CHUNK_SIZE == 48 * 1024,
        FILE_CHUNK_SIZE * 10 < MAX_RELAY_PACKET,
{
}

} // verus!
