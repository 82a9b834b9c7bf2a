//! What a command line asks for.

use vstd::prelude::*;

use crate::client::Role;
use crate::invite;
use crate::invite::{
    compact_invitation_command, parse_compact_invite, InviteError, DEFAULT_RELAY, MANAGED_TOR,
};
use crate::paths;
use crate::paths::{LocalPath, PathView};
use crate::protocol;
use crate::protocol::{generate_code, validate_code};
use crate::text;
use crate::text::same_text;
use crate::tor;
use crate::tor::ManagedTorMode;

verus! {

broadcast use vstd::seq_lib::group_seq_properties;

/// Where the embedded relay listens.
pub const EMBEDDED_ADDRESS: &'static str = "127.0.0.1:8787";

/// What stands on the command line.
#[derive(Debug)]
pub struct Options {
    pub invite: Option<String>,
    pub start: bool,
    pub connect: Option<String>,
    pub max_users: usize,
    pub relay: String,
    pub tor_proxy: Option<String>,
    pub cloudflared: bool,
}

/// How Tor is used.
#[derive(Debug)]
pub enum TorUse {
    No,
    /// Through the proxy at this address.
    Proxy(String),
    /// Through a Tor process that is started for it.
    Managed,
}

/// The ghost counterpart of [`TorUse`].
#[verifier::ext_equal]
pub enum TorView {
    No,
    Proxy(Seq<char>),
    Managed,
}

impl View for TorUse {
    type V = TorView;

    open spec fn view(&self) -> TorView {
        match *self {
            TorUse::No => TorView::No,
            TorUse::Proxy(address) => TorView::Proxy(address@),
            TorUse::Managed => TorView::Managed,
        }
    }
}

/// The room that a command line asks for.
#[derive(Debug)]
pub struct Plan {
    pub role: Role,
    pub code: String,
    pub relay_url: String,
    pub tor: TorUse,
    /// A relay is to be started beside the room.
    pub embedded_relay: bool,
    /// A quick tunnel is to be started to that relay.
    pub tunnel: bool,
}

/// The ghost counterpart of [`Plan`].
#[verifier::ext_equal]
pub struct PlanView {
    pub role: Role,
    pub code: Seq<char>,
    pub relay_url: Seq<char>,
    pub tor: TorView,
    pub embedded_relay: bool,
    pub tunnel: bool,
}

impl View for Plan {
    type V = PlanView;

    open spec fn view(&self) -> PlanView {
        PlanView {
            role: self.role,
            code: self.code@,
            relay_url: self.relay_url@,
            tor: self.tor@,
            embedded_relay: self.embedded_relay,
            tunnel: self.tunnel,
        }
    }
}

/// Why no room can be entered.
#[derive(Debug)]
pub enum LaunchError {
    NoGuests,
    InvalidCode,
    TunnelToOtherRelay,
    Invite(InviteError),
}

impl LaunchError {
    /// How the error is reported.
    pub open spec fn text(self) -> Seq<char> {
        match self {
            LaunchError::NoGuests => "--max-users must be at least 1"@,
            LaunchError::InvalidCode =>
                "room codes must contain exactly six ASCII letters or digits"@,
            LaunchError::TunnelToOtherRelay =>
                "--cloudflared manages the default embedded relay; omit --relay"@,
            LaunchError::Invite(why) => why.text(),
        }
    }

    /// How the error is reported.
    pub fn message(&self) -> (r: String)
        ensures
            r@ == self.text(),
    {
        match self {
            LaunchError::NoGuests => "--max-users must be at least 1".to_owned(),
            LaunchError::InvalidCode => {
                "room codes must contain exactly six ASCII letters or digits".to_owned()
            },
            LaunchError::TunnelToOtherRelay => {
                "--cloudflared manages the default embedded relay; omit --relay".to_owned()
            },
            LaunchError::Invite(why) => why.message(),
        }
    }
}

/// How Tor is used when the command line says `proxy`; `onion` tells whether
/// the relay can only be reached through Tor.
pub open spec fn tor_use(proxy: Option<String>, onion: bool) -> TorView {
    match proxy {
        Some(address) => if address@ == MANAGED_TOR@ {
            TorView::Managed
        } else {
            TorView::Proxy(address@)
        },
        None => if onion {
            TorView::Managed
        } else {
            TorView::No
        },
    }
}

/// How Tor is used when the command line says `proxy`.
fn choose_tor(proxy: Option<String>, onion: bool) -> (r: TorUse)
    ensures
        r@ == tor_use(proxy, onion),
{
    match proxy {
        Some(address) => if same_text(address.as_str(), MANAGED_TOR) {
            TorUse::Managed
        } else {
            TorUse::Proxy(address)
        },
        None => if onion {
            TorUse::Managed
        } else {
            TorUse::No
        },
    }
}

/// The room that a command line asks for, if it asks for one; `drawn` is the
/// code of a new room. Otherwise, how the failure is reported.
pub open spec fn planned(options: Options, drawn: Seq<char>) -> Result<
    Option<PlanView>,
    Seq<char>,
> {
    if options.invite is None && !options.start && options.connect is None {
        Ok(None)
    } else if options.max_users == 0 {
        Err("--max-users must be at least 1"@)
    } else {
        match options.invite {
            Some(value) => match invite::invitation(value@) {
                Err(why) => Err(why),
                Ok(invited) => Ok(
                    Some(
                        PlanView {
                            role: Role::Guest,
                            code: invited.code,
                            relay_url: invited.relay_url,
                            tor: tor_use(options.tor_proxy, invited.managed_tor),
                            embedded_relay: false,
                            tunnel: false,
                        },
                    ),
                ),
            },
            None => if options.connect is Some && !protocol::valid_code(options.connect->0@) {
                Err("room codes must contain exactly six ASCII letters or digits"@)
            } else if options.cloudflared && options.relay@ != DEFAULT_RELAY@ {
                Err("--cloudflared manages the default embedded relay; omit --relay"@)
            } else {
                Ok(
                    Some(
                        PlanView {
                            role: if options.start {
                                Role::Host { max_guests: options.max_users }
                            } else {
                                Role::Guest
                            },
                            code: match options.connect {
                                Some(code) => code@,
                                None => drawn,
                            },
                            relay_url: options.relay@,
                            tor: tor_use(options.tor_proxy, false),
                            embedded_relay: options.start && options.relay@ == DEFAULT_RELAY@,
                            tunnel: options.cloudflared,
                        },
                    ),
                )
            },
        }
    }
}

/// The ghost counterpart of what a command line asks for.
pub open spec fn plan_view(r: Result<Option<Plan>, LaunchError>) -> Result<
    Option<PlanView>,
    Seq<char>,
> {
    match r {
        Ok(Some(plan)) => Ok(Some(plan@)),
        Ok(None) => Ok(None),
        Err(why) => Err(why.text()),
    }
}

/// The room that a command line asks for, if it asks for one; `drawn` is the
/// code of a new room.
pub fn plan_with(options: Options, drawn: String) -> (r: Result<Option<Plan>, LaunchError>)
    ensures
        plan_view(r) == planned(options, drawn@),
{
    if options.invite.is_none() && !options.start && options.connect.is_none() {
        return Ok(None);
    }
    if options.max_users == 0 {
        return Err(LaunchError::NoGuests);
    }
    if let Some(value) = options.invite {
        return match parse_compact_invite(value.as_str()) {
            Err(why) => Err(LaunchError::Invite(why)),
            Ok(invited) => Ok(
                Some(
                    Plan {
                        role: Role::Guest,
                        code: invited.code,
                        relay_url: invited.relay_url,
                        tor: choose_tor(options.tor_proxy, invited.managed_tor),
                        embedded_relay: false,
                        tunnel: false,
                    },
                ),
            ),
        };
    }
    let code = match options.connect {
        Some(code) => {
            if !validate_code(code.as_str()) {
                return Err(LaunchError::InvalidCode);
            }
            code
        },
        None => drawn,
    };
    let default_relay = same_text(options.relay.as_str(), DEFAULT_RELAY);
    if options.cloudflared && !default_relay {
        return Err(LaunchError::TunnelToOtherRelay);
    }
    let role = if options.start {
        Role::Host { max_guests: options.max_users }
    } else {
        Role::Guest
    };
    Ok(
        Some(
            Plan {
                role,
                code,
                relay_url: options.relay,
                tor: choose_tor(options.tor_proxy, false),
                embedded_relay: options.start && default_relay,
                tunnel: options.cloudflared,
            },
        ),
    )
}

/// Whether `r` is what a command line asks for, with some code for a new room.
pub open spec fn is_planned(options: Options, r: Result<Option<Plan>, LaunchError>) -> bool {
    exists|drawn: Seq<char>|
        protocol::valid_code(drawn) && plan_view(r) == #[trigger] planned(options, drawn)
}

/// The room that a command line asks for, if it asks for one. A new room gets a
/// random code; which one is left open.
pub fn plan(options: Options) -> (r: Result<Option<Plan>, LaunchError>)
    ensures
        is_planned(options, r),
        options.invite is None ==> match r {
            Ok(Some(plan)) => plan@.relay_url == options.relay@ && plan@.tunnel
                == options.cloudflared && (if options.start {
                plan@.role == (Role::Host { max_guests: options.max_users })
            } else {
                plan@.role == Role::Guest && options.connect is Some
            }) && (match options.connect {
                Some(code) => plan@.code == code@,
                None => protocol::valid_code(plan@.code),
            }),
            Ok(None) => !options.start && options.connect is None,
            Err(_) => options.start || options.connect is Some,
        },
        options.invite is Some ==> match r {
            Ok(Some(plan)) => plan@.role == Role::Guest && !plan@.embedded_relay && !plan@.tunnel,
            Ok(None) => false,
            Err(_) => true,
        },
{
    let drawn = generate_code();
    let ghost code = drawn@;
    let r = plan_with(options, drawn);
    assert(protocol::valid_code(code) && plan_view(r) == planned(options, code));
    r
}

/// Whether a room is offered as an onion service.
pub open spec fn is_onion_host(plan: PlanView) -> bool {
    plan.tor is Managed && plan.role is Host && plan.embedded_relay
}

impl Plan {
    /// Whether the room is offered as an onion service.
    pub fn onion_host(&self) -> (r: bool)
        ensures
            r == is_onion_host(self@),
    {
        let managed = match self.tor {
            TorUse::Managed => true,
            _ => false,
        };
        let host = match self.role {
            Role::Host { .. } => true,
            Role::Guest => false,
        };
        managed && host && self.embedded_relay
    }

    /// What a managed Tor process is for.
    pub fn tor_mode(&self) -> (r: ManagedTorMode)
        ensures
            match r {
                ManagedTorMode::OnionService { target } => is_onion_host(self@) && target@
                    == EMBEDDED_ADDRESS@,
                ManagedTorMode::Client => !is_onion_host(self@),
            },
    {
        if self.onion_host() {
            ManagedTorMode::OnionService { target: EMBEDDED_ADDRESS.to_owned() }
        } else {
            ManagedTorMode::Client
        }
    }

    /// The proxy through which the relay is reached; `managed` is the address
    /// of a managed Tor process. A host reaches its own relay directly.
    pub fn client_proxy(&self, managed: Option<String>) -> (r: Option<String>)
        ensures
            text::optional(r) == match self@.tor {
                TorView::No => None,
                TorView::Proxy(address) => Some(address),
                TorView::Managed => if is_onion_host(self@) {
                    None
                } else {
                    text::optional(managed)
                },
            },
    {
        match &self.tor {
            TorUse::No => None,
            TorUse::Proxy(address) => Some(address.as_str().to_owned()),
            TorUse::Managed => if self.onion_host() {
                None
            } else {
                managed
            },
        }
    }

    /// Whether attempts to connect are repeated: an onion service takes a while
    /// to be reachable.
    pub fn retries(&self) -> (r: bool)
        ensures
            r == (self@.tor is Managed && !is_onion_host(self@)),
    {
        match self.tor {
            TorUse::Managed => !self.onion_host(),
            _ => false,
        }
    }

    /// What the footer says of the relay; `tunnel` is the relay address of a
    /// tunnel.
    pub fn relay_display(&self, tunnel: Option<&str>) -> (r: String)
        ensures
            r@ == match tunnel {
                Some(url) => "share: AIRWIRE_RELAY="@ + url@ + " airwire --connect "@ + self@.code,
                None => if self@.embedded_relay {
                    "local relay · airwire --connect "@ + self@.code
                } else {
                    self@.relay_url
                },
            },
    {
        match tunnel {
            Some(url) => {
                let mut out = "share: AIRWIRE_RELAY=".to_owned();
                out.append(url);
                out.append(" airwire --connect ");
                out.append(self.code.as_str());
                out
            },
            None => if self.embedded_relay {
                let mut out = "local relay · airwire --connect ".to_owned();
                out.append(self.code.as_str());
                out
            } else {
                self.relay_url.as_str().to_owned()
            },
        }
    }

    /// The invitation that is shown when the relay can be reached at `url` from
    /// elsewhere, if there is one that leads there. There is a short one for quick
    /// tunnels and for onion services.
    pub fn invitation(&self, url: &str) -> (r: Option<String>)
        ensures
            match r {
                Some(command) => invite::printed_invitation(self@.code, url@) == Ok::<
                    Seq<char>,
                    Seq<char>,
                >(command@),
                None => invite::printed_invitation(self@.code, url@) is Err,
            },
            forall|name: Seq<char>|
                invite::is_tunnel_name(name) && url@ == #[trigger] invite::quick_tunnel(name)
                    ==> match r {
                    Some(command) => command@ == "airwire "@ + invite::invite_text(
                        self@.code,
                        name,
                    ),
                    None => false,
                },
            forall|service_id: Seq<char>|
                tor::valid_service_id(service_id) && url@ == #[trigger] invite::onion_relay(
                    service_id,
                ) ==> match r {
                    Some(command) => command@ == "airwire "@ + invite::invite_text(
                        self@.code,
                        service_id,
                    ),
                    None => false,
                },
    {
        match compact_invitation_command(self.code.as_str(), url) {
            Ok(command) => Some(command),
            Err(_) => None,
        }
    }
}

/// Where received files are stored unless a place is named: in `airwire` inside
/// the folder for downloads, or inside the current one where that is not known,
/// or inside `.` where neither is.
pub open spec fn downloads_place(
    download_dir: Option<PathView>,
    current_dir: Option<PathView>,
    windows: bool,
) -> PathView {
    let folder = match (download_dir, current_dir) {
        (Some(folder), _) => folder,
        (None, Some(folder)) => folder,
        (None, None) => paths::text_path("."@),
    };
    paths::inside(folder, "airwire"@, windows)
}

/// Where received files are stored unless a place is named.
pub fn default_downloads(
    download_dir: Option<LocalPath>,
    current_dir: Option<LocalPath>,
    windows: bool,
) -> (r: LocalPath)
    ensures
        r@ == downloads_place(
            paths::optional(download_dir),
            paths::optional(current_dir),
            windows,
        ),
{
    let folder = match (download_dir, current_dir) {
        (Some(folder), _) => folder,
        (None, Some(folder)) => folder,
        (None, None) => LocalPath::of_text(".".to_owned()),
    };
    folder.child("airwire", windows)
}

/// A room that someone hosts always has a valid code, and lets someone in.
pub proof fn law_planned_rooms_are_valid(options: Options, drawn: Seq<char>, plan: PlanView)
    requires
        protocol::valid_code(drawn),
        planned(options, drawn) == Ok::<Option<PlanView>, Seq<char>>(Some(plan)),
    ensures
        protocol::valid_code(plan.code),
        plan.role matches Role::Host { max_guests } ==> max_guests > 0,
        plan.tunnel ==> plan.relay_url == DEFAULT_RELAY@,
{
}

/// A room that is started is hosted for exactly as many guests as the command
/// line says, and one that is connected to is entered as a guest; the code, the
/// relay and the tunnel are those of the command line, and a relay is started
/// beside the room exactly if it is hosted at the default address.
pub proof fn law_the_command_line_is_followed(options: Options, drawn: Seq<char>, plan: PlanView)
    requires
        options.invite is None,
        planned(options, drawn) == Ok::<Option<PlanView>, Seq<char>>(Some(plan)),
    ensures
        options.start ==> plan.role == (Role::Host { max_guests: options.max_users }),
        !options.start ==> plan.role == Role::Guest && options.connect is Some,
        plan.role matches Role::Host { max_guests } ==> max_guests == options.max_users
            && options.start,
        options.connect matches Some(code) ==> plan.code == code@,
        options.connect is None ==> plan.code == drawn,
        plan.relay_url == options.relay@,
        plan.tunnel == options.cloudflared,
        plan.embedded_relay <==> options.start && options.relay@ == "ws://127.0.0.1:8787/ws"@,
        plan.tor == tor_use(options.tor_proxy, false),
{
}

/// An invitation is accepted as a guest, with the code and the relay that it
/// names, through Tor if it says so; nothing is started beside. A bad one is
/// refused for what is wrong with it.
pub proof fn law_invitations_are_accepted(options: Options, drawn: Seq<char>, value: String)
    requires
        options.invite == Some(value),
        options.max_users > 0,
    ensures
        match invite::invitation(value@) {
            Err(why) => planned(options, drawn) == Err::<Option<PlanView>, Seq<char>>(why),
            Ok(invited) => planned(options, drawn) matches Ok(Some(plan)) && plan.role == Role::Guest
                && plan.code == invited.code && plan.relay_url == invited.relay_url
                && !plan.embedded_relay && !plan.tunnel && plan.tor == tor_use(
                options.tor_proxy,
                invited.managed_tor,
            ),
        },
{
}

/// A room is planned exactly if one is asked for and nothing speaks against it:
/// someone can get in, the code is a room code, and a tunnel leads to the relay
/// that is started. What speaks against it is reported, the first first.
pub proof fn law_rooms_are_planned_when_asked_for(options: Options, drawn: Seq<char>)
    requires
        options.invite is None,
    ensures
        ({
            let r = planned(options, drawn);
            let asked = options.start || options.connect is Some;
            let good_code = options.connect matches Some(code) ==> protocol::valid_code(code@);
            let good_tunnel = options.cloudflared ==> options.relay@ == "ws://127.0.0.1:8787/ws"@;
            &&& !asked ==> r == Ok::<Option<PlanView>, Seq<char>>(None)
            &&& asked && options.max_users == 0 ==> r == Err::<Option<PlanView>, Seq<char>>(
                "--max-users must be at least 1"@,
            )
            &&& asked && options.max_users > 0 && !good_code ==> r == Err::<
                Option<PlanView>,
                Seq<char>,
            >("room codes must contain exactly six ASCII letters or digits"@)
            &&& asked && options.max_users > 0 && good_code && !good_tunnel ==> r == Err::<
                Option<PlanView>,
                Seq<char>,
            >("--cloudflared manages the default embedded relay; omit --relay"@)
            &&& asked && options.max_users > 0 && good_code && good_tunnel ==> (r matches Ok(
                Some(_),
            ))
        }),
{
}

/// Tor is used as the command line says: the word `auto` stands for a Tor that is
/// started for it, anything else for a proxy at that address; and if it says
/// nothing, Tor is started exactly for relays that only Tor can reach.
pub proof fn law_tor_is_used_as_asked(address: String, onion: bool)
    ensures
        address@ == "auto"@ ==> tor_use(Some(address), onion) == TorView::Managed,
        address@ != "auto"@ ==> tor_use(Some(address), onion) == TorView::Proxy(address@),
        tor_use(None, true) == TorView::Managed,
        tor_use(None, false) == TorView::No,
{
}

/// A room that is started with a Tor of its own is an onion service; one that is
/// entered, or whose relay is elsewhere, never is.
pub proof fn law_tor_rooms_are_onion_services(options: Options, drawn: Seq<char>, plan: PlanView)
    requires
        planned(options, drawn) == Ok::<Option<PlanView>, Seq<char>>(Some(plan)),
    ensures
        is_onion_host(plan) <==> options.invite is None && options.start && options.relay@
            == "ws://127.0.0.1:8787/ws"@ && (options.tor_proxy matches Some(address) && address@
            == "auto"@),
{
}

/// Received files go into the folder `airwire` inside the folder for downloads
/// if that is known, else inside the current folder, else right here.
pub proof fn law_downloads_go_to_the_first_known_folder(a: PathView, b: PathView, windows: bool)
    ensures
        downloads_place(Some(a), Some(b), windows) == paths::inside(a, "airwire"@, windows),
        downloads_place(Some(a), None, windows) == paths::inside(a, "airwire"@, windows),
        downloads_place(None, Some(b), windows) == paths::inside(b, "airwire"@, windows),
        downloads_place(None, None, windows) == paths::inside(
            paths::text_path("."@),
            "airwire"@,
            windows,
        ),
{
}

/// What each failure to start says.
pub proof fn law_launch_errors_are_worded(why: LaunchError)
    ensures
        why is NoGuests ==> why.text() == "--max-users must be at least 1"@,
        why is InvalidCode ==> why.text()
            == "room codes must contain exactly six ASCII letters or digits"@,
        why is TunnelToOtherRelay ==> why.text()
            == "--cloudflared manages the default embedded relay; omit --relay"@,
        why matches LaunchError::Invite(inner) ==> why.text() == inner.text(),
        EMBEDDED_ADDRESS@ == "127.0.0.1:8787"@,
{
}

} // verus!
