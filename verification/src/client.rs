//! What goes into a member of a room and what comes out of it, and how it is
//! registered at a relay.

use vstd::prelude::*;

use crate::paths::{LocalPath, PathView};
use crate::protocol;
use crate::protocol::{
    rendezvous_id, AppFrame, CommandView, EventView, FrameView, PacketView, PeerId, RelayCommand,
    RelayEvent, Welcome, WelcomeView, WirePacket, PROTOCOL_VERSION,
};
use crate::transfer::{Offer, OfferView};

verus! {

broadcast use vstd::seq_lib::group_seq_properties;

// ---------------------------------------------------------------------------
// What goes in and out
// ---------------------------------------------------------------------------
/// What a member is in its room.
#[derive(Debug, Clone, Copy, PartialEq, Eq, Structural)]
pub enum Role {
    Host { max_guests: usize },
    Guest,
}

/// How a member takes part in a room.
#[derive(Debug)]
pub struct ClientConfig {
    pub role: Role,
    pub code: String,
    pub relay_url: String,
    pub tor_proxy: Option<String>,
    pub retry_connect: bool,
    pub alias: String,
    /// Where received files are stored.
    pub downloads: LocalPath,
}

/// What the user asks for.
#[derive(Debug)]
pub enum NetCommand {
    Chat(String),
    SendFile(LocalPath),
    StartCall,
    StopCall,
    VoicePcm { sample_rate: u32, samples: Vec<i16> },
    Shutdown,
}

/// The ghost counterpart of [`NetCommand`].
#[verifier::ext_equal]
pub enum NetView {
    Chat(Seq<char>),
    SendFile(PathView),
    StartCall,
    StopCall,
    VoicePcm { sample_rate: u32, samples: Seq<i16> },
    Shutdown,
}

impl View for NetCommand {
    type V = NetView;

    open spec fn view(&self) -> NetView {
        match *self {
            NetCommand::Chat(text) => NetView::Chat(text@),
            NetCommand::SendFile(path) => NetView::SendFile(path@),
            NetCommand::StartCall => NetView::StartCall,
            NetCommand::StopCall => NetView::StopCall,
            NetCommand::VoicePcm { sample_rate, samples } => NetView::VoicePcm {
                sample_rate,
                samples: samples@,
            },
            NetCommand::Shutdown => NetView::Shutdown,
        }
    }
}

/// What the user is told.
#[derive(Debug)]
pub enum UiEvent {
    Ready { secure: bool, detail: String },
    Chat { alias: String, text: String, mine: bool },
    Status(String),
    Error(String),
    PeerCount(usize),
    FileProgress { label: String, transferred: u64, total: u64 },
    FileReceived { from: String, path: String },
    VoiceStarted(String),
    VoiceStopped(String),
    VoicePcm { sample_rate: u32, samples: Vec<i16> },
    Closed(String),
}

/// The ghost counterpart of [`UiEvent`].
#[verifier::ext_equal]
pub enum UiView {
    Ready { secure: bool, detail: Seq<char> },
    Chat { alias: Seq<char>, text: Seq<char>, mine: bool },
    Status(Seq<char>),
    Error(Seq<char>),
    PeerCount(usize),
    FileProgress { label: Seq<char>, transferred: int, total: int },
    FileReceived { from: Seq<char>, path: Seq<char> },
    VoiceStarted(Seq<char>),
    VoiceStopped(Seq<char>),
    VoicePcm { sample_rate: u32, samples: Seq<i16> },
    Closed(Seq<char>),
}

impl View for UiEvent {
    type V = UiView;

    open spec fn view(&self) -> UiView {
        match *self {
            UiEvent::Ready { secure, detail } => UiView::Ready { secure, detail: detail@ },
            UiEvent::Chat { alias, text, mine } => UiView::Chat {
                alias: alias@,
                text: text@,
                mine,
            },
            UiEvent::Status(message) => UiView::Status(message@),
            UiEvent::Error(message) => UiView::Error(message@),
            UiEvent::PeerCount(count) => UiView::PeerCount(count),
            UiEvent::FileProgress { label, transferred, total } => UiView::FileProgress {
                label: label@,
                transferred: transferred as int,
                total: total as int,
            },
            UiEvent::FileReceived { from, path } => UiView::FileReceived {
                from: from@,
                path: path@,
            },
            UiEvent::VoiceStarted(alias) => UiView::VoiceStarted(alias@),
            UiEvent::VoiceStopped(alias) => UiView::VoiceStopped(alias@),
            UiEvent::VoicePcm { sample_rate, samples } => UiView::VoicePcm {
                sample_rate,
                samples: samples@,
            },
            UiEvent::Closed(reason) => UiView::Closed(reason@),
        }
    }
}

/// What a session wants done.
pub enum Action {
    /// Tell the user.
    Show(UiEvent),
    /// Hand a packet to one member, or to all others, through the relay.
    Send { to: Option<PeerId>, packet: WirePacket },
    /// Seal a welcome with the pair key `key` and send it to `guest`.
    SendWelcome { guest: PeerId, key: [u8; 32], welcome: Welcome },
    /// Seal a frame with the room key and send it to all others.
    Broadcast(AppFrame),
    /// Send the file at this path to the room.
    SendFile(LocalPath),
    /// Read a packet and hand it to the session, unless it is malformed.
    ReadPacket { from: PeerId, payload: Vec<u8> },
    /// Read a welcome and hand it to the session.
    ReadWelcome { plaintext: Vec<u8> },
    /// Read a frame and hand it to the session.
    ReadFrame { from: PeerId, plaintext: Vec<u8> },
    /// Find a name for an offered file and begin to receive it.
    Receive(Offer),
    /// Append to the partial file of a transfer.
    Append { id: [u8; 16], bytes: Vec<u8> },
    /// Write out and close the partial file of a transfer.
    Close { id: [u8; 16] },
    /// Delete a partial file, if it can be deleted.
    Delete { name: String },
    /// Give a partial file its final name.
    Rename { partial: String, name: String },
    /// End the session.
    Stop,
}

/// The ghost counterpart of [`Action`].
#[verifier::ext_equal]
pub enum ActionView {
    Show(UiView),
    Send { to: Option<PeerId>, packet: PacketView },
    SendWelcome { guest: PeerId, key: Seq<u8>, welcome: WelcomeView },
    Broadcast(FrameView),
    SendFile(PathView),
    ReadPacket { from: PeerId, payload: Seq<u8> },
    ReadWelcome { plaintext: Seq<u8> },
    ReadFrame { from: PeerId, plaintext: Seq<u8> },
    Receive(OfferView),
    Append { id: [u8; 16], bytes: Seq<u8> },
    Close { id: [u8; 16] },
    Delete { name: Seq<char> },
    Rename { partial: Seq<char>, name: Seq<char> },
    Stop,
}

impl View for Action {
    type V = ActionView;

    open spec fn view(&self) -> ActionView {
        match *self {
            Action::Show(event) => ActionView::Show(event@),
            Action::Send { to, packet } => ActionView::Send { to, packet: packet@ },
            Action::SendWelcome { guest, key, welcome } => ActionView::SendWelcome {
                guest,
                key: key@,
                welcome: welcome@,
            },
            Action::Broadcast(frame) => ActionView::Broadcast(frame@),
            Action::SendFile(path) => ActionView::SendFile(path@),
            Action::ReadPacket { from, payload } => ActionView::ReadPacket {
                from,
                payload: payload@,
            },
            Action::ReadWelcome { plaintext } => ActionView::ReadWelcome { plaintext: plaintext@ },
            Action::ReadFrame { from, plaintext } => ActionView::ReadFrame {
                from,
                plaintext: plaintext@,
            },
            Action::Receive(offer) => ActionView::Receive(offer@),
            Action::Append { id, bytes } => ActionView::Append { id, bytes: bytes@ },
            Action::Close { id } => ActionView::Close { id },
            Action::Delete { name } => ActionView::Delete { name: name@ },
            Action::Rename { partial, name } => ActionView::Rename {
                partial: partial@,
                name: name@,
            },
            Action::Stop => ActionView::Stop,
        }
    }
}

/// The ghost counterpart of a list of actions.
pub open spec fn actions_view(actions: Seq<Action>) -> Seq<ActionView> {
    actions.map_values(|action: Action| action@)
}

/// No actions.
pub(crate) fn nothing() -> (r: Vec<Action>)
    ensures
        actions_view(r@) == Seq::<ActionView>::empty(),
{
    let r: Vec<Action> = Vec::new();
    assert(actions_view(r@) =~= Seq::<ActionView>::empty());
    r
}

/// One action.
pub(crate) fn single(action: Action) -> (r: Vec<Action>)
    ensures
        actions_view(r@) == seq![action@],
{
    let mut r: Vec<Action> = Vec::new();
    r.push(action);
    assert(actions_view(r@) =~= seq![action@]);
    r
}

/// One action more.
pub(crate) fn append(actions: &mut Vec<Action>, action: Action)
    ensures
        actions_view(final(actions)@) == actions_view(old(actions)@).push(action@),
{
    actions.push(action);
    assert(actions_view(actions@) =~= actions_view(old(actions)@).push(action@));
}

/// Two actions.
pub(crate) fn both(first: Action, second: Action) -> (r: Vec<Action>)
    ensures
        actions_view(r@) == seq![first@, second@],
{
    let mut r: Vec<Action> = Vec::new();
    r.push(first);
    r.push(second);
    assert(actions_view(r@) =~= seq![first@, second@]);
    r
}

// ---------------------------------------------------------------------------
// Registration
// ---------------------------------------------------------------------------
/// What a member first says to the relay.
pub open spec fn registration_view(role: Role, code: Seq<char>) -> CommandView {
    match role {
        Role::Host { max_guests } => CommandView::Host {
            version: PROTOCOL_VERSION,
            rendezvous: protocol::rendezvous(code),
            max_guests,
        },
        Role::Guest => CommandView::Join {
            version: PROTOCOL_VERSION,
            rendezvous: protocol::rendezvous(code),
        },
    }
}

/// What a member first says to the relay.
pub fn registration(role: &Role, code: &str) -> (r: RelayCommand)
    ensures
        r@ == registration_view(*role, code@),
{
    match *role {
        Role::Host { max_guests } => RelayCommand::Host {
            version: PROTOCOL_VERSION,
            rendezvous: rendezvous_id(code),
            max_guests,
        },
        Role::Guest => RelayCommand::Join {
            version: PROTOCOL_VERSION,
            rendezvous: rendezvous_id(code),
        },
    }
}

/// Why a member did not get into its room.
#[derive(Debug)]
pub enum RegistrationError {
    /// The relay refused, for the reason it gives.
    Refused(String),
    /// The relay answered something else.
    Invalid,
    /// The relay registered the member in the other role.
    WrongRole,
}

/// How the answer of the relay to a registration is read: the identifier that
/// the member has, or how the failure is reported.
pub open spec fn registration_result(role: Role, answer: EventView) -> Result<PeerId, Seq<char>> {
    match answer {
        EventView::Registered { id, is_host } => if is_host == (role is Host) {
            Ok(id)
        } else {
            Err("relay returned the wrong room role"@)
        },
        EventView::Error { message } => Err(message),
        _ => Err("relay sent an invalid registration response"@),
    }
}

impl RegistrationError {
    /// How the error is reported.
    pub open spec fn text(self) -> Seq<char> {
        match self {
            RegistrationError::Refused(message) => message@,
            RegistrationError::Invalid => "relay sent an invalid registration response"@,
            RegistrationError::WrongRole => "relay returned the wrong room role"@,
        }
    }

    /// How the error is reported.
    pub fn message(&self) -> (r: String)
        ensures
            r@ == self.text(),
    {
        match self {
            RegistrationError::Refused(message) => message.as_str().to_owned(),
            RegistrationError::Invalid => "relay sent an invalid registration response".to_owned(),
            RegistrationError::WrongRole => "relay returned the wrong room role".to_owned(),
        }
    }
}

/// Reads the answer of the relay to a registration.
pub fn read_registration(role: &Role, answer: RelayEvent) -> (r: Result<PeerId, RegistrationError>)
    ensures
        match r {
            Ok(id) => registration_result(*role, answer@) == Ok::<PeerId, Seq<char>>(id),
            Err(why) => registration_result(*role, answer@) == Err::<PeerId, Seq<char>>(why.text()),
        },
        r matches Err(RegistrationError::Refused(_)) <==> answer@ is Error,
        r matches Err(RegistrationError::Invalid) <==> !(answer@ is Error || answer@ is Registered),
{
    match answer {
        RelayEvent::Registered { id, is_host } => {
            let host = match role {
                Role::Host { .. } => true,
                Role::Guest => false,
            };
            if is_host != host {
                Err(RegistrationError::WrongRole)
            } else {
                Ok(id)
            }
        },
        RelayEvent::Error { message } => Err(RegistrationError::Refused(message)),
        _ => Err(RegistrationError::Invalid),
    }
}

/// The relay learns no more of a room code than its first two characters: codes
/// that begin alike are registered alike.
pub proof fn law_registration_shows_two_characters(role: Role, a: Seq<char>, b: Seq<char>)
    requires
        protocol::valid_code(a),
        protocol::valid_code(b),
        a[0] == b[0],
        a[1] == b[1],
    ensures
        registration_view(role, a) == registration_view(role, b),
{
    protocol::law_rendezvous_hides_the_rest(a, b);
}

/// A host asks the relay to open the room of its code for the guests that it
/// wants, and a guest asks to enter it, both in the first version of the
/// protocol.
pub proof fn law_members_ask_for_their_room(code: Seq<char>, max_guests: usize)
    requires
        code.len() >= 2,
    ensures
        registration_view(Role::Host { max_guests }, code) == (CommandView::Host {
            version: 1,
            rendezvous: seq![code[0], code[1]],
            max_guests,
        }),
        registration_view(Role::Guest, code) == (CommandView::Join {
            version: 1,
            rendezvous: seq![code[0], code[1]],
        }),
{
    protocol::law_the_rendezvous_begins_the_code(code, code);
}

/// A member gets into its room exactly if the relay registers it in the role it
/// asked for, and has the identifier that the relay gives it; what the relay
/// says against it is reported as it is.
pub proof fn law_answers_are_believed(role: Role, id: PeerId, is_host: bool, message: Seq<char>)
    ensures
        registration_result(role, EventView::Registered { id, is_host: role is Host }) == Ok::<
            PeerId,
            Seq<char>,
        >(id),
        is_host != (role is Host) ==> registration_result(
            role,
            EventView::Registered { id, is_host },
        ) == Err::<PeerId, Seq<char>>("relay returned the wrong room role"@),
        registration_result(role, EventView::Error { message }) == Err::<PeerId, Seq<char>>(
            message,
        ),
        forall|answer: EventView|
            !(answer is Registered) && !(answer is Error) ==> #[trigger] registration_result(
                role,
                answer,
            ) == Err::<PeerId, Seq<char>>("relay sent an invalid registration response"@),
{
}

/// What each failed registration says.
pub proof fn law_registration_errors_are_worded(why: RegistrationError)
    ensures
        why.text() == match why {
            RegistrationError::Refused(message) => message@,
            RegistrationError::Invalid => "relay sent an invalid registration response"@,
            RegistrationError::WrongRole => "relay returned the wrong room role"@,
        },
{
}

} // verus!
