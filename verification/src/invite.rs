//! Relay addresses, and invitations that hold one in short form.

use vstd::prelude::*;

use crate::protocol;
use crate::protocol::validate_code;
use crate::text;
use crate::text::{
    begins_with, chars_of, contains_char, decimal_text, finishes_with, same_text, split_at_first,
    trimmed, whitespace_char, without_suffix,
};
use crate::tor;
use crate::tor::is_valid_v3_onion_hostname;

verus! {

broadcast use vstd::seq_lib::group_seq_properties;

/// The relay that is used unless another is named.
pub const DEFAULT_RELAY: &'static str = "ws://127.0.0.1:8787/ws";

/// What stands in place of a proxy address when Tor is to be managed.
pub const MANAGED_TOR: &'static str = "auto";

// ---------------------------------------------------------------------------
// Outside functions
// ---------------------------------------------------------------------------
/// The parts of a URL.
#[derive(Debug)]
pub struct RelayUrl {
    pub scheme: String,
    pub host: Option<String>,
    pub username: String,
    pub has_password: bool,
    /// The port that is written, unless it is the usual one of the scheme.
    pub port: Option<u16>,
    /// The port to connect to.
    pub known_port: Option<u16>,
    pub path: String,
    pub has_query: bool,
    pub has_fragment: bool,
    /// The whole URL in normal form.
    pub text: String,
}

/// The ghost counterpart of [`RelayUrl`].
#[verifier::ext_equal]
pub struct UrlView {
    pub scheme: Seq<char>,
    pub host: Option<Seq<char>>,
    pub username: Seq<char>,
    pub has_password: bool,
    pub port: Option<u16>,
    pub known_port: Option<u16>,
    pub path: Seq<char>,
    pub has_query: bool,
    pub has_fragment: bool,
    pub text: Seq<char>,
}

impl View for RelayUrl {
    type V = UrlView;

    open spec fn view(&self) -> UrlView {
        UrlView {
            scheme: self.scheme@,
            host: text::optional(self.host),
            username: self.username@,
            has_password: self.has_password,
            port: self.port,
            known_port: self.known_port,
            path: self.path@,
            has_query: self.has_query,
            has_fragment: self.has_fragment,
            text: self.text@,
        }
    }
}

/// What `url::Url::parse` returns for `text`: the parts of the URL, or what is
/// wrong with it.
pub uninterp spec fn url_parse(text: Seq<char>) -> Result<UrlView, Seq<char>>;

/// One part of a hostname that is written in the plainest way: lower-case
/// letters, digits and single hyphens between them, and no more than
/// sixty-three of these.
pub open spec fn is_label(s: Seq<char>) -> bool {
    &&& 0 < s.len() <= 63
    &&& s.first() != '-' && s.last() != '-'
    &&& forall|i: int|
        0 <= i < s.len() ==> {
            let c = #[trigger] s[i];
            'a' <= c <= 'z' || '0' <= c <= '9' || (c == '-' && s[i + 1] != '-')
        }
}

/// The address of the relay behind the quick tunnel `name`.
pub open spec fn quick_tunnel(name: Seq<char>) -> Seq<char> {
    "wss://"@ + name + ".trycloudflare.com/ws"@
}

/// The address of the relay at the onion service `service_id`.
pub open spec fn onion_relay(service_id: Seq<char>) -> Seq<char> {
    "ws://"@ + service_id + ".onion/ws"@
}

/// The parts of the address `text`, of a relay at `host`.
pub open spec fn relay_parts(
    scheme: Seq<char>,
    host: Seq<char>,
    known_port: u16,
    text: Seq<char>,
) -> UrlView {
    UrlView {
        scheme,
        host: Some(host),
        username: Seq::empty(),
        has_password: false,
        port: None,
        known_port: Some(known_port),
        path: "/ws"@,
        has_query: false,
        has_fragment: false,
        text,
    }
}

/// A port as it stands behind a host.
pub open spec fn port_text(port: Option<u16>) -> Seq<char> {
    match port {
        Some(port) => ":"@ + text::decimal(port as nat),
        None => Seq::empty(),
    }
}

/// The address that has the scheme, the host, the port and the path of `url`,
/// and nothing else.
pub open spec fn plain_address(url: UrlView) -> Seq<char> {
    url.scheme + "://"@ + url.host->0 + port_text(url.port) + url.path
}

/// `url::Url::parse`, with the parts of the URL as its methods return them and
/// the error as it is shown. The text of a WebSocket URL is made of the parts
/// that it has. The plain addresses of quick tunnels and of onion services are
/// in normal form, so that they are taken apart as they stand.
#[verifier::external_body]
pub(crate) fn parse_url(text: &str) -> (r: Result<RelayUrl, String>)
    ensures
        match r {
            Ok(url) => url_parse(text@) == Ok::<UrlView, Seq<char>>(url@),
            Err(why) => url_parse(text@) == Err::<UrlView, Seq<char>>(why@),
        },
        match r {
            Ok(url) => is_plain_relay(url@) ==> url@.text == plain_address(url@),
            Err(_) => true,
        },
        forall|name: Seq<char>|
            is_label(name) && text@ == #[trigger] quick_tunnel(name) ==> match r {
                Ok(url) => url@ == relay_parts("wss"@, name + ".trycloudflare.com"@, 443, text@),
                Err(_) => false,
            },
        forall|name: Seq<char>|
            is_label(name) && text@ == #[trigger] onion_relay(name) ==> match r {
                Ok(url) => url@ == relay_parts("ws"@, name + ".onion"@, 80, text@),
                Err(_) => false,
            },
{
    let url = url::Url::parse(text).map_err(|error| error.to_string())?;
    Ok(RelayUrl {
        scheme: url.scheme().to_owned(),
        host: url.host_str().map(str::to_owned),
        username: url.username().to_owned(),
        has_password: url.password().is_some(),
        port: url.port(),
        known_port: url.port_or_known_default(),
        path: url.path().to_owned(),
        has_query: url.query().is_some(),
        has_fragment: url.fragment().is_some(),
        text: url.to_string(),
    })
}

/// A path of one part that is written in the plainest way: lower-case letters.
pub open spec fn is_plain_path(path: Seq<char>) -> bool {
    path.len() > 1 && path[0] == '/' && forall|i: int|
        0 < i < path.len() ==> 'a' <= #[trigger] path[i] <= 'z'
}

/// `url::Url::set_path` on the URL that `text` is parsed to: a WebSocket URL
/// without a path gets the path behind its host. The crate keeps positions in 32
/// bits, so a URL that would grow beyond that is left out.
#[verifier::external_body]
fn set_url_path(text: &str, path: &str) -> (r: Option<String>)
    requires
        is_plain_path(path@),
        url_parse(text@) matches Ok(url) && is_plain_relay(url) && url.path == "/"@
            && vstd::utf8::encode_utf8(url.text).len() + path@.len() <= u32::MAX,
    ensures
        match r {
            Some(longer) => url_parse(text@) matches Ok(url) && longer@ == url.text + path@.skip(1),
            None => false,
        },
{
    let mut url = url::Url::parse(text).ok()?;
    url.set_path(path);
    Some(url.to_string())
}

// ---------------------------------------------------------------------------
// Reading an invitation
// ---------------------------------------------------------------------------
/// An invitation into a room.
#[derive(Debug, Clone, PartialEq, Eq)]
pub struct CompactInvite {
    pub code: String,
    pub relay_url: String,
    /// The relay is an onion service, which Tor has to reach.
    pub managed_tor: bool,
}

/// The ghost counterpart of [`CompactInvite`].
#[verifier::ext_equal]
pub struct InviteView {
    pub code: Seq<char>,
    pub relay_url: Seq<char>,
    pub managed_tor: bool,
}

impl View for CompactInvite {
    type V = InviteView;

    open spec fn view(&self) -> InviteView {
        InviteView {
            code: self.code@,
            relay_url: self.relay_url@,
            managed_tor: self.managed_tor,
        }
    }
}

/// What is wrong with an invitation.
#[derive(Debug)]
pub enum InviteError {
    NotCodeAtHost,
    InvalidCode,
    MissingHost,
    /// The host does not make a URL, for the reason given.
    InvalidHost(String),
    NotPlain,
    WrongPath,
    /// The relay address is longer than a URL can be.
    TooLong,
    InvalidOnion,
}

impl InviteError {
    /// How the error is reported.
    pub open spec fn text(self) -> Seq<char> {
        match self {
            InviteError::NotCodeAtHost => "compact invitations must use CODE@HOST"@,
            InviteError::InvalidCode =>
                "room codes must contain exactly six ASCII letters or digits"@,
            InviteError::MissingHost => "compact invitation host is missing or invalid"@,
            InviteError::InvalidHost(why) => "invalid compact invitation host: "@ + why@,
            InviteError::NotPlain => "compact invitations require a plain WebSocket relay host"@,
            InviteError::WrongPath => "compact invitation relay paths must be /ws"@,
            InviteError::TooLong => "compact invitation relay address is too long"@,
            InviteError::InvalidOnion =>
                "compact Tor invitations require a valid v3 onion hostname"@,
        }
    }

    /// How the error is reported.
    pub fn message(&self) -> (r: String)
        ensures
            r@ == self.text(),
    {
        match self {
            InviteError::NotCodeAtHost => "compact invitations must use CODE@HOST".to_owned(),
            InviteError::InvalidCode => {
                "room codes must contain exactly six ASCII letters or digits".to_owned()
            },
            InviteError::MissingHost => "compact invitation host is missing or invalid".to_owned(),
            InviteError::InvalidHost(why) => {
                let mut out = "invalid compact invitation host: ".to_owned();
                out.append(why.as_str());
                out
            },
            InviteError::NotPlain => {
                "compact invitations require a plain WebSocket relay host".to_owned()
            },
            InviteError::WrongPath => "compact invitation relay paths must be /ws".to_owned(),
            InviteError::TooLong => "compact invitation relay address is too long".to_owned(),
            InviteError::InvalidOnion => {
                "compact Tor invitations require a valid v3 onion hostname".to_owned()
            },
        }
    }
}

/// The error that is reported as `text`.
pub open spec fn reported<T>(text: Seq<char>) -> Result<T, Seq<char>> {
    Err(text)
}

/// Whether white space stands anywhere in `s`.
pub open spec fn has_whitespace(s: Seq<char>) -> bool {
    exists|i: int| 0 <= i < s.len() && text::is_whitespace(#[trigger] s[i])
}

/// Whether white space stands anywhere in `s`.
fn holds_whitespace(s: &str) -> (r: bool)
    ensures
        r == has_whitespace(s@),
{
    let chars = chars_of(s);
    let mut i: usize = 0;
    while i < chars.len()
        invariant
            i <= chars@.len(),
            chars@ == s@,
            forall|j: int| 0 <= j < i ==> !text::is_whitespace(#[trigger] chars@[j]),
        decreases chars@.len() - i,
    {
        if whitespace_char(chars[i]) {
            assert(text::is_whitespace(s@[i as int]));
            return true;
        }
        i += 1;
    }
    false
}

/// The relay address that the short form `endpoint` stands for.
pub open spec fn endpoint_url(endpoint: Seq<char>) -> Seq<char> {
    if text::starts_with(endpoint, "ws://"@) || text::starts_with(endpoint, "wss://"@) {
        endpoint
    } else if text::ends_with(endpoint, ".onion"@) {
        "ws://"@ + endpoint + "/ws"@
    } else if tor::valid_onion_hostname(endpoint + ".onion"@) {
        "ws://"@ + endpoint + ".onion/ws"@
    } else if !endpoint.contains('.') && !endpoint.contains(':') {
        "wss://"@ + endpoint + ".trycloudflare.com/ws"@
    } else {
        "wss://"@ + endpoint + "/ws"@
    }
}

/// The relay address that the short form `endpoint` stands for.
pub fn expand_endpoint(endpoint: &str) -> (r: String)
    ensures
        r@ == endpoint_url(endpoint@),
{
    if begins_with(endpoint, "ws://") || begins_with(endpoint, "wss://") {
        return endpoint.to_owned();
    }
    let mut service = endpoint.to_owned();
    service.append(".onion");
    let (scheme, tail) = if finishes_with(endpoint, ".onion") {
        ("ws://", "/ws")
    } else if is_valid_v3_onion_hostname(service.as_str()) {
        ("ws://", ".onion/ws")
    } else if !contains_char(endpoint, '.') && !contains_char(endpoint, ':') {
        ("wss://", ".trycloudflare.com/ws")
    } else {
        ("wss://", "/ws")
    };
    let mut out = scheme.to_owned();
    out.append(endpoint);
    out.append(tail);
    out
}

/// The invitation into the room `code` at the relay `endpoint`.
pub open spec fn invite_text(code: Seq<char>, endpoint: Seq<char>) -> Seq<char> {
    code + "@"@ + endpoint
}

/// The name of a quick tunnel.
pub open spec fn is_tunnel_name(name: Seq<char>) -> bool {
    is_label(name) && !tor::valid_service_id(name)
}

/// The code and the relay address in an invitation, or how the failure is
/// reported.
pub open spec fn invite_parts(value: Seq<char>) -> Result<(Seq<char>, Seq<char>), Seq<char>> {
    match text::split_once(text::trim(value), "@"@) {
        None => reported(InviteError::NotCodeAtHost.text()),
        Some((code, endpoint)) => if !protocol::valid_code(code) {
            reported(InviteError::InvalidCode.text())
        } else if endpoint.len() == 0 || has_whitespace(endpoint) {
            reported(InviteError::MissingHost.text())
        } else {
            Ok((code, endpoint_url(endpoint)))
        },
    }
}

/// The code and the relay address in an invitation.
fn read_invite_parts(value: &str) -> (r: Result<(String, String), InviteError>)
    ensures
        match r {
            Ok((code, url)) => invite_parts(value@) == Ok::<(Seq<char>, Seq<char>), Seq<char>>(
                (code@, url@),
            ),
            Err(why) => invite_parts(value@) == reported::<(Seq<char>, Seq<char>)>(why.text()),
        },
{
    let value = trimmed(value);
    match split_at_first(value.as_str(), "@") {
        None => Err(InviteError::NotCodeAtHost),
        Some((code, endpoint)) => if !validate_code(code.as_str()) {
            Err(InviteError::InvalidCode)
        } else if endpoint.as_str().is_empty() || holds_whitespace(endpoint.as_str()) {
            Err(InviteError::MissingHost)
        } else {
            let url = expand_endpoint(endpoint.as_str());
            Ok((code, url))
        },
    }
}

/// Whether a URL is the address of a relay, and of nothing inside one.
pub open spec fn is_plain_relay(url: UrlView) -> bool {
    &&& url.scheme == "ws"@ || url.scheme == "wss"@
    &&& url.host is Some
    &&& url.username.len() == 0
    &&& !url.has_password
    &&& !url.has_query
    &&& !url.has_fragment
}

/// Whether a URL names an onion service.
pub open spec fn is_onion(url: UrlView) -> bool {
    match url.host {
        Some(host) => text::ends_with(host, ".onion"@),
        None => false,
    }
}

/// Whether a URL is too long to be given the path of a relay.
pub open spec fn is_too_long(url: UrlView) -> bool {
    vstd::utf8::encode_utf8(url.text).len() + 3 > u32::MAX
}

/// Whether a URL may be the relay of an invitation, and if so whether it still
/// needs the path of a relay.
pub open spec fn invited_relay(url: UrlView) -> Result<bool, Seq<char>> {
    if !is_plain_relay(url) {
        reported(InviteError::NotPlain.text())
    } else if url.path != "/"@ && url.path != "/ws"@ {
        reported(InviteError::WrongPath.text())
    } else if url.path == "/"@ && is_too_long(url) {
        reported(InviteError::TooLong.text())
    } else if is_onion(url) && (url.scheme != "ws"@ || !tor::valid_onion_hostname(url.host->0)) {
        reported(InviteError::InvalidOnion.text())
    } else {
        Ok(url.path == "/"@)
    }
}

/// Whether a URL may be the relay of an invitation, and if so whether it still
/// needs the path of a relay.
pub fn check_invited_relay(url: &RelayUrl) -> (r: Result<bool, InviteError>)
    ensures
        match r {
            Ok(needs_path) => invited_relay(url@) == Ok::<bool, Seq<char>>(needs_path),
            Err(why) => invited_relay(url@) == reported::<bool>(why.text()),
        },
{
    let host = match &url.host {
        Some(host) => host.as_str(),
        None => {
            return Err(InviteError::NotPlain);
        },
    };
    let plain_ws = same_text(url.scheme.as_str(), "ws");
    if !(plain_ws || same_text(url.scheme.as_str(), "wss")) || !url.username.as_str().is_empty()
        || url.has_password || url.has_query || url.has_fragment {
        return Err(InviteError::NotPlain);
    }
    let needs_path = same_text(url.path.as_str(), "/");
    if !needs_path && !same_text(url.path.as_str(), "/ws") {
        return Err(InviteError::WrongPath);
    }
    if needs_path && url.text.as_str().as_bytes().len() as u128 + 3 > u32::MAX as u128 {
        return Err(InviteError::TooLong);
    }
    if finishes_with(host, ".onion") && (!plain_ws || !is_valid_v3_onion_hostname(host)) {
        return Err(InviteError::InvalidOnion);
    }
    Ok(needs_path)
}

/// What an invitation says, or how the failure is reported.
pub open spec fn invitation(value: Seq<char>) -> Result<InviteView, Seq<char>> {
    match invite_parts(value) {
        Err(why) => reported(why),
        Ok((code, text)) => match url_parse(text) {
            Err(why) => reported("invalid compact invitation host: "@ + why),
            Ok(url) => match invited_relay(url) {
                Err(why) => reported(why),
                Ok(needs_path) => Ok(
                    InviteView {
                        code,
                        relay_url: if needs_path {
                            url.text + "ws"@
                        } else {
                            url.text
                        },
                        managed_tor: is_onion(url),
                    },
                ),
            },
        },
    }
}

/// Reads an invitation of the form `CODE@HOST`.
pub fn parse_compact_invite(value: &str) -> (r: Result<CompactInvite, InviteError>)
    ensures
        match r {
            Ok(invite) => invitation(value@) == Ok::<InviteView, Seq<char>>(invite@),
            Err(why) => invitation(value@) == reported::<InviteView>(why.text()),
        },
        match r {
            Ok(invite) => text::ends_with(invite@.relay_url, "/ws"@),
            Err(_) => true,
        },
        forall|code: Seq<char>, name: Seq<char>|
            protocol::valid_code(code) && is_tunnel_name(name) && value@ == #[trigger] invite_text(
                code,
                name,
            ) ==> match r {
                Ok(invite) => invite@ == (InviteView {
                    code,
                    relay_url: quick_tunnel(name),
                    managed_tor: false,
                }),
                Err(_) => false,
            },
        forall|code: Seq<char>, service_id: Seq<char>|
            protocol::valid_code(code) && tor::valid_service_id(service_id) && value@
                == #[trigger] invite_text(code, service_id) ==> match r {
                Ok(invite) => invite@ == (InviteView {
                    code,
                    relay_url: onion_relay(service_id),
                    managed_tor: true,
                }),
                Err(_) => false,
            },
{
    proof {
        lemma_plain_invitations(value@);
    }
    let (code, text) = match read_invite_parts(value) {
        Ok(parts) => parts,
        Err(why) => {
            return Err(why);
        },
    };
    let url = match parse_url(text.as_str()) {
        Ok(url) => url,
        Err(why) => {
            return Err(InviteError::InvalidHost(why));
        },
    };
    let needs_path = match check_invited_relay(&url) {
        Ok(needs_path) => needs_path,
        Err(why) => {
            return Err(why);
        },
    };
    let managed_tor = names_onion(&url);
    proof {
        lemma_relay_path(url@);
    }
    let relay_url = if needs_path {
        match set_url_path(text.as_str(), "/ws") {
            Some(longer) => longer,
            None => {
                return Err(InviteError::NotPlain);
            },
        }
    } else {
        url.text
    };
    Ok(CompactInvite { code, relay_url, managed_tor })
}

// ---------------------------------------------------------------------------
// Writing an invitation
// ---------------------------------------------------------------------------
/// Why there is no invitation to a relay address.
#[derive(Debug)]
pub enum ShortenError {
    /// It is not a URL, for the reason given.
    InvalidUrl(String),
    NoHostname,
    NotCompact,
}

impl ShortenError {
    /// How the error is reported.
    pub open spec fn text(self) -> Seq<char> {
        match self {
            ShortenError::InvalidUrl(why) => "cannot shorten relay URL: "@ + why@,
            ShortenError::NoHostname => "cannot shorten a relay URL without a hostname"@,
            ShortenError::NotCompact =>
                "relay URL cannot be represented as a compact invitation"@,
        }
    }

    /// How the error is reported.
    pub fn message(&self) -> (r: String)
        ensures
            r@ == self.text(),
    {
        match self {
            ShortenError::InvalidUrl(why) => {
                let mut out = "cannot shorten relay URL: ".to_owned();
                out.append(why.as_str());
                out
            },
            ShortenError::NoHostname => "cannot shorten a relay URL without a hostname".to_owned(),
            ShortenError::NotCompact => {
                "relay URL cannot be represented as a compact invitation".to_owned()
            },
        }
    }
}

/// The short form of a hostname.
pub open spec fn short_host(host: Seq<char>) -> Seq<char> {
    match text::strip_suffix(host, ".onion"@) {
        Some(rest) => rest,
        None => match text::strip_suffix(host, ".trycloudflare.com"@) {
            Some(rest) => rest,
            None => host,
        },
    }
}

/// The short form of the host and the port of a relay address.
pub open spec fn short_endpoint(host: Seq<char>, port: Option<u16>) -> Seq<char> {
    short_host(host) + port_text(port)
}

/// Whether the short form `endpoint`, in an invitation, stands for `address`.
pub open spec fn stands_for(endpoint: Seq<char>, address: Seq<char>) -> bool {
    endpoint.len() > 0 && !has_whitespace(endpoint) && endpoint_url(endpoint) == address
}

/// Whether the short form `endpoint`, in an invitation, stands for `address`.
fn does_stand_for(endpoint: &str, address: &str) -> (r: bool)
    ensures
        r == stands_for(endpoint@, address@),
{
    !endpoint.is_empty() && !holds_whitespace(endpoint) && same_text(
        expand_endpoint(endpoint).as_str(),
        address,
    )
}

/// What an invitation to the relay `url` at `host` names: the short form of the
/// address if that stands for it, and otherwise the whole address. A user name
/// and a password are not handed on.
pub open spec fn invited_endpoint(host: Seq<char>, url: UrlView) -> Seq<char> {
    let short = short_endpoint(host, url.port);
    if stands_for(short, plain_address(url)) {
        short
    } else {
        plain_address(url)
    }
}

/// Whether the plain address of the relay `url`, which is read as `again` in an
/// invitation, leads there.
pub open spec fn reads_back(url: UrlView, again: Option<UrlView>) -> bool {
    again matches Some(again) && again.text == plain_address(url) && again.scheme == url.scheme
        && again.host == url.host && again.known_port == url.known_port && invited_relay(again)
        == Ok::<bool, Seq<char>>(false)
}

/// The command that a guest runs to get into the room `code` at the relay
/// `url`, or how the failure is reported. The guest reads the plain address of
/// the relay as `again`.
pub open spec fn invitation_command(
    code: Seq<char>,
    url: UrlView,
    again: Option<UrlView>,
) -> Result<Seq<char>, Seq<char>> {
    match url.host {
        None => reported(ShortenError::NoHostname.text()),
        Some(host) => if (is_onion(url) && url.scheme != "ws"@) || (!is_onion(url) && url.scheme
            != "wss"@) || url.path != "/ws"@ || url.has_query || url.has_fragment || !reads_back(
            url,
            again,
        ) || !stands_for(invited_endpoint(host, url), plain_address(url)) {
            reported(ShortenError::NotCompact.text())
        } else {
            Ok("airwire "@ + invite_text(code, invited_endpoint(host, url)))
        },
    }
}

/// The command that a guest runs to get into the room `code` at the relay
/// `url`, whose plain address the guest reads as `again`.
pub fn invitation_command_for(code: &str, url: &RelayUrl, again: Option<&RelayUrl>) -> (r: Result<
    String,
    ShortenError,
>)
    ensures
        match r {
            Ok(command) => invitation_command(code@, url@, url_view(again)) == Ok::<
                Seq<char>,
                Seq<char>,
            >(command@),
            Err(why) => invitation_command(code@, url@, url_view(again)) == reported::<Seq<char>>(
                why.text(),
            ),
        },
{
    let host = match &url.host {
        Some(host) => host.as_str(),
        None => {
            return Err(ShortenError::NoHostname);
        },
    };
    let onion = finishes_with(host, ".onion");
    if (onion && !same_text(url.scheme.as_str(), "ws")) || (!onion && !same_text(
        url.scheme.as_str(),
        "wss",
    )) || !same_text(url.path.as_str(), "/ws") || url.has_query || url.has_fragment
        || !does_read_back(url, again) {
        return Err(ShortenError::NotCompact);
    }
    let short = match without_suffix(host, ".onion") {
        Some(rest) => rest,
        None => match without_suffix(host, ".trycloudflare.com") {
            Some(rest) => rest,
            None => host.to_owned(),
        },
    };
    let short = with_port(short, url.port);
    let address = plain_address_of(url, host);
    let endpoint = if does_stand_for(short.as_str(), address.as_str()) {
        short
    } else {
        address.as_str().to_owned()
    };
    if !does_stand_for(endpoint.as_str(), address.as_str()) {
        return Err(ShortenError::NotCompact);
    }
    let mut out = "airwire ".to_owned();
    out.append(code);
    out.append("@");
    out.append(endpoint.as_str());
    assert(out@ =~= "airwire "@ + invite_text(code@, endpoint@));
    Ok(out)
}

/// `host` with a port behind it.
fn with_port(host: String, port: Option<u16>) -> (r: String)
    ensures
        r@ == host@ + port_text(port),
{
    let mut out = host;
    match port {
        Some(port) => {
            out.append(":");
            out.append(decimal_text(port as u64).as_str());
        },
        None => {},
    }
    assert(out@ =~= host@ + port_text(port));
    out
}

/// The address that has the scheme, the host, the port and the path of `url`,
/// and nothing else.
fn plain_address_of(url: &RelayUrl, host: &str) -> (r: String)
    requires
        url@.host == Some(host@),
    ensures
        r@ == plain_address(url@),
{
    let mut out = url.scheme.as_str().to_owned();
    out.append("://");
    out.append(host);
    let mut out = with_port(out, url.port);
    out.append(url.path.as_str());
    out
}

/// The ghost counterpart of an optional URL.
pub open spec fn url_view(url: Option<&RelayUrl>) -> Option<UrlView> {
    match url {
        Some(url) => Some(url@),
        None => None,
    }
}

/// Whether the plain address of the relay `url`, which is read as `again` in an
/// invitation, leads there.
fn does_read_back(url: &RelayUrl, again: Option<&RelayUrl>) -> (r: bool)
    ensures
        r == reads_back(url@, url_view(again)),
{
    match again {
        None => false,
        Some(again) => {
            let ready = match check_invited_relay(again) {
                Ok(needs_path) => !needs_path,
                Err(_) => false,
            };
            match (&url.host, &again.host) {
                (Some(host), Some(same)) => ready && same_text(
                    again.text.as_str(),
                    plain_address_of(url, host.as_str()).as_str(),
                ) && same_text(again.scheme.as_str(), url.scheme.as_str()) && same_text(
                    same.as_str(),
                    host.as_str(),
                ) && again.known_port == url.known_port,
                _ => false,
            }
        },
    }
}

/// Whether a URL names an onion service.
fn names_onion(url: &RelayUrl) -> (r: bool)
    ensures
        r == is_onion(url@),
{
    match &url.host {
        Some(host) => finishes_with(host.as_str(), ".onion"),
        None => false,
    }
}

/// How the address `text` is read, if it can be.
pub open spec fn read_address(text: Seq<char>) -> Option<UrlView> {
    match url_parse(text) {
        Ok(url) => Some(url),
        Err(_) => None,
    }
}

/// The command that a guest runs to get into the room `code` at the relay
/// `relay_url`, or how the failure is reported.
pub open spec fn printed_invitation(code: Seq<char>, relay_url: Seq<char>) -> Result<
    Seq<char>,
    Seq<char>,
> {
    match url_parse(relay_url) {
        Err(why) => reported("cannot shorten relay URL: "@ + why),
        Ok(url) => invitation_command(code, url, read_address(plain_address(url))),
    }
}

/// The command that a guest runs to get into the room `code` at the relay
/// `relay_url`. Quick tunnels and onion services have a short one.
pub fn compact_invitation_command(code: &str, relay_url: &str) -> (r: Result<String, ShortenError>)
    ensures
        match r {
            Ok(command) => printed_invitation(code@, relay_url@) == Ok::<Seq<char>, Seq<char>>(
                command@,
            ),
            Err(why) => printed_invitation(code@, relay_url@) == reported::<Seq<char>>(why.text()),
        },
        forall|name: Seq<char>|
            is_tunnel_name(name) && relay_url@ == #[trigger] quick_tunnel(name) ==> match r {
                Ok(command) => command@ == "airwire "@ + invite_text(code@, name),
                Err(_) => false,
            },
        forall|service_id: Seq<char>|
            tor::valid_service_id(service_id) && relay_url@ == #[trigger] onion_relay(service_id)
                ==> match r {
                Ok(command) => command@ == "airwire "@ + invite_text(code@, service_id),
                Err(_) => false,
            },
{
    let url = match parse_url(relay_url) {
        Ok(url) => url,
        Err(why) => {
            return Err(ShortenError::InvalidUrl(why));
        },
    };
    proof {
        lemma_plain_addresses(code@, relay_url@);
    }
    let address = match &url.host {
        Some(host) => plain_address_of(&url, host.as_str()),
        None => {
            return Err(ShortenError::NoHostname);
        },
    };
    match parse_url(address.as_str()) {
        Ok(again) => invitation_command_for(code, &url, Some(&again)),
        Err(_) => invitation_command_for(code, &url, None),
    }
}

// ---------------------------------------------------------------------------
// Laws
// ---------------------------------------------------------------------------
/// A text that neither begins nor ends with white space is not changed by
/// trimming.
proof fn lemma_trim_keeps(s: Seq<char>)
    requires
        s.len() > 0,
        !text::is_whitespace(s.first()),
        !text::is_whitespace(s.last()),
    ensures
        text::trim(s) == s,
{
}

/// A code, an at sign and an endpoint come apart where they were put together.
proof fn lemma_invite_splits(code: Seq<char>, endpoint: Seq<char>)
    requires
        protocol::valid_code(code),
        endpoint.len() > 0,
        !has_whitespace(endpoint),
    ensures
        invite_parts(invite_text(code, endpoint)) == Ok::<(Seq<char>, Seq<char>), Seq<char>>(
            (code, endpoint_url(endpoint)),
        ),
{
    reveal_strlit("@");
    let value = invite_text(code, endpoint);
    assert(value.first() == code[0]);
    assert(value.last() == endpoint[endpoint.len() - 1]);
    assert(!text::is_whitespace(endpoint[endpoint.len() - 1]));
    assert(text::is_alphanumeric(code[0]));
    lemma_trim_keeps(value);
    assert(value.subrange(6, 7) =~= "@"@);
    assert(text::occurs_at(value, "@"@, 6));
    assert forall|j: int| 0 <= j < 6 implies !text::occurs_at(value, "@"@, j) by {
        assert(text::is_alphanumeric(code[j]));
        if text::occurs_at(value, "@"@, j) {
            assert(value.subrange(j, j + 1)[0] == '@');
        }
    }
    text::lemma_find_from(value, "@"@, 0);
    assert(text::find(value, "@"@) == Some(6int));
    assert(value.take(6) =~= code);
    assert(value.skip(7) =~= endpoint);
}

/// The invitation that a host prints, read by its guests exactly as it is
/// shown, leads them to the host's relay, with the same scheme, host and port,
/// and through Tor if that is where the relay is.
pub proof fn law_invitations_lead_back(code: Seq<char>, relay_url: Seq<char>, command: Seq<char>)
    requires
        protocol::valid_code(code),
        printed_invitation(code, relay_url) == Ok::<Seq<char>, Seq<char>>(command),
    ensures
        ({
            let value = command.skip("airwire "@.len() as int);
            &&& command == "airwire "@ + value
            &&& url_parse(relay_url) matches Ok(url) && invitation(value) == Ok::<
                InviteView,
                Seq<char>,
            >(InviteView { code, relay_url: plain_address(url), managed_tor: is_onion(url) })
                && (url_parse(plain_address(url)) matches Ok(again) && again.scheme == url.scheme
                && again.host == url.host && again.known_port == url.known_port && again.path
                == "/ws"@)
        }),
{
    let url = url_parse(relay_url)->Ok_0;
    let endpoint = invited_endpoint(url.host->0, url);
    let value = invite_text(code, endpoint);
    assert(("airwire "@ + value).skip("airwire "@.len() as int) =~= value);
    lemma_invite_splits(code, endpoint);
    lemma_paths_differ();
}

/// The address of a relay that may be in an invitation ends with its path, to
/// which the path of a relay can be added.
proof fn lemma_relay_path(url: UrlView)
    ensures
        is_plain_path("/ws"@),
        "/ws"@.skip(1) == "ws"@,
        "/ws"@.len() == 3,
        url.text == plain_address(url) && url.path == "/ws"@ ==> text::ends_with(url.text, "/ws"@),
        url.text == plain_address(url) && url.path == "/"@ ==> text::ends_with(
            url.text + "ws"@,
            "/ws"@,
        ),
{
    reveal_strlit("/ws");
    reveal_strlit("ws");
    reveal_strlit("/");
    assert("/ws"@.skip(1) =~= "ws"@);
    let whole = url.scheme + "://"@ + url.host->0 + port_text(url.port);
    if url.text == plain_address(url) && url.path == "/ws"@ {
        assert(url.text.skip(url.text.len() - 3) =~= "/ws"@);
    }
    if url.text == plain_address(url) && url.path == "/"@ {
        let longer = url.text + "ws"@;
        assert(longer.skip(longer.len() - 3) =~= "/ws"@);
    }
}

/// The address of a quick tunnel or of an onion service has nothing but its
/// parts.
proof fn lemma_plain_parts(name: Seq<char>)
    ensures
        plain_address(
            relay_parts("wss"@, name + ".trycloudflare.com"@, 443, quick_tunnel(name)),
        ) == quick_tunnel(name),
        plain_address(relay_parts("ws"@, name + ".onion"@, 80, onion_relay(name))) == onion_relay(
            name,
        ),
{
    reveal_strlit("wss");
    reveal_strlit("ws");
    reveal_strlit("://");
    reveal_strlit("wss://");
    reveal_strlit("ws://");
    reveal_strlit("/ws");
    reveal_strlit(".onion");
    reveal_strlit(".onion/ws");
    reveal_strlit(".trycloudflare.com");
    reveal_strlit(".trycloudflare.com/ws");
    assert("wss"@ + "://"@ =~= "wss://"@);
    assert("ws"@ + "://"@ =~= "ws://"@);
    assert(".onion"@ + "/ws"@ =~= ".onion/ws"@);
    assert(".trycloudflare.com"@ + "/ws"@ =~= ".trycloudflare.com/ws"@);
    assert(plain_address(
        relay_parts("wss"@, name + ".trycloudflare.com"@, 443, quick_tunnel(name)),
    ) =~= ("wss"@ + "://"@) + name + (".trycloudflare.com"@ + "/ws"@));
    assert(plain_address(relay_parts("ws"@, name + ".onion"@, 80, onion_relay(name))) =~= ("ws"@
        + "://"@) + name + (".onion"@ + "/ws"@));
}

/// What is printed for the plain address of a quick tunnel or of an onion
/// service, once that address is taken apart as it stands.
proof fn lemma_plain_addresses(code: Seq<char>, relay_url: Seq<char>)
    ensures
        forall|name: Seq<char>|
            is_tunnel_name(name) && relay_url == #[trigger] quick_tunnel(name) && url_parse(
                relay_url,
            ) == Ok::<UrlView, Seq<char>>(
                relay_parts("wss"@, name + ".trycloudflare.com"@, 443, relay_url),
            ) ==> printed_invitation(code, relay_url) == Ok::<Seq<char>, Seq<char>>(
                "airwire "@ + invite_text(code, name),
            ),
        forall|service_id: Seq<char>|
            tor::valid_service_id(service_id) && relay_url == #[trigger] onion_relay(service_id)
                && url_parse(relay_url) == Ok::<UrlView, Seq<char>>(
                relay_parts("ws"@, service_id + ".onion"@, 80, relay_url),
            ) ==> printed_invitation(code, relay_url) == Ok::<Seq<char>, Seq<char>>(
                "airwire "@ + invite_text(code, service_id),
            ),
        forall|service_id: Seq<char>| #[trigger]
            tor::valid_service_id(service_id) ==> is_label(service_id),
{
    lemma_paths_differ();
    assert forall|name: Seq<char>|
        is_tunnel_name(name) && relay_url == #[trigger] quick_tunnel(name) && url_parse(relay_url)
            == Ok::<UrlView, Seq<char>>(
            relay_parts("wss"@, name + ".trycloudflare.com"@, 443, relay_url),
        ) implies printed_invitation(code, relay_url) == Ok::<Seq<char>, Seq<char>>(
        "airwire "@ + invite_text(code, name),
    ) by {
        lemma_labels(name);
        law_quick_tunnels_have_a_short_form(name);
        lemma_tunnel_is_no_onion(name);
        lemma_plain_parts(name);
    }
    assert forall|service_id: Seq<char>|
        tor::valid_service_id(service_id) && relay_url == #[trigger] onion_relay(service_id)
            && url_parse(relay_url) == Ok::<UrlView, Seq<char>>(
            relay_parts("ws"@, service_id + ".onion"@, 80, relay_url),
        ) implies printed_invitation(code, relay_url) == Ok::<Seq<char>, Seq<char>>(
        "airwire "@ + invite_text(code, service_id),
    ) by {
        lemma_service_ids(service_id);
        lemma_labels(service_id);
        law_onion_services_have_a_short_form(service_id);
        lemma_onion_host(service_id);
        lemma_plain_parts(service_id);
    }
    assert forall|service_id: Seq<char>| #[trigger]
        tor::valid_service_id(service_id) implies is_label(service_id) by {
        lemma_service_ids(service_id);
    }
}

/// What the short invitations to quick tunnels and onion services say, once the
/// addresses they stand for are taken apart as they stand.
proof fn lemma_plain_invitations(value: Seq<char>)
    ensures
        forall|code: Seq<char>, name: Seq<char>|
            protocol::valid_code(code) && is_tunnel_name(name) && value == #[trigger] invite_text(
                code,
                name,
            ) ==> invite_parts(value) == Ok::<(Seq<char>, Seq<char>), Seq<char>>(
                (code, quick_tunnel(name)),
            ) && invited_relay(
                relay_parts("wss"@, name + ".trycloudflare.com"@, 443, quick_tunnel(name)),
            ) == Ok::<bool, Seq<char>>(false) && !is_onion(
                relay_parts("wss"@, name + ".trycloudflare.com"@, 443, quick_tunnel(name)),
            ),
        forall|code: Seq<char>, service_id: Seq<char>|
            protocol::valid_code(code) && tor::valid_service_id(service_id) && value
                == #[trigger] invite_text(code, service_id) ==> invite_parts(value) == Ok::<
                (Seq<char>, Seq<char>),
                Seq<char>,
            >((code, onion_relay(service_id))) && is_label(service_id) && invited_relay(
                relay_parts("ws"@, service_id + ".onion"@, 80, onion_relay(service_id)),
            ) == Ok::<bool, Seq<char>>(false) && is_onion(
                relay_parts("ws"@, service_id + ".onion"@, 80, onion_relay(service_id)),
            ),
{
    lemma_paths_differ();
    assert forall|code: Seq<char>, name: Seq<char>|
        protocol::valid_code(code) && is_tunnel_name(name) && value == #[trigger] invite_text(
            code,
            name,
        ) implies invite_parts(value) == Ok::<(Seq<char>, Seq<char>), Seq<char>>(
        (code, quick_tunnel(name)),
    ) && invited_relay(
        relay_parts("wss"@, name + ".trycloudflare.com"@, 443, quick_tunnel(name)),
    ) == Ok::<bool, Seq<char>>(false) && !is_onion(
        relay_parts("wss"@, name + ".trycloudflare.com"@, 443, quick_tunnel(name)),
    ) by {
        lemma_labels(name);
        law_quick_tunnels_have_a_short_form(name);
        lemma_tunnel_is_no_onion(name);
        lemma_invite_splits(code, name);
    }
    assert forall|code: Seq<char>, service_id: Seq<char>|
        protocol::valid_code(code) && tor::valid_service_id(service_id) && value
            == #[trigger] invite_text(code, service_id) implies invite_parts(value) == Ok::<
        (Seq<char>, Seq<char>),
        Seq<char>,
    >((code, onion_relay(service_id))) && is_label(service_id) && invited_relay(
        relay_parts("ws"@, service_id + ".onion"@, 80, onion_relay(service_id)),
    ) == Ok::<bool, Seq<char>>(false) && is_onion(
        relay_parts("ws"@, service_id + ".onion"@, 80, onion_relay(service_id)),
    ) by {
        lemma_service_ids(service_id);
        lemma_labels(service_id);
        law_onion_services_have_a_short_form(service_id);
        lemma_onion_host(service_id);
        lemma_invite_splits(code, service_id);
    }
}

/// The path of a relay is not that of a bare host.
proof fn lemma_paths_differ()
    ensures
        "/"@ != "/ws"@,
{
    reveal_strlit("/");
    reveal_strlit("/ws");
    assert("/"@.len() == 1 && "/ws"@.len() == 3);
}

/// No dot, colon or white space stands in a label.
proof fn lemma_labels(s: Seq<char>)
    requires
        is_label(s),
    ensures
        !s.contains('.'),
        !s.contains(':'),
        !has_whitespace(s),
{
}

/// The identifier of an onion service is a label.
proof fn lemma_service_ids(s: Seq<char>)
    requires
        tor::valid_service_id(s),
    ensures
        is_label(s),
{
    assert(tor::is_base32(s[0]));
    assert(tor::is_base32(s[s.len() - 1]));
    assert forall|i: int| 0 <= i < s.len() implies ({
        let c = #[trigger] s[i];
        'a' <= c <= 'z' || '0' <= c <= '9' || (c == '-' && s[i + 1] != '-')
    }) by {
        assert(tor::is_base32(s[i]));
    }
}

/// The host of a quick tunnel is no onion service.
proof fn lemma_tunnel_is_no_onion(name: Seq<char>)
    ensures
        !text::ends_with(name + ".trycloudflare.com"@, ".onion"@),
{
    let host = name + ".trycloudflare.com"@;
    reveal_strlit(".trycloudflare.com");
    reveal_strlit(".onion");
    assert(host.last() == 'm');
    if text::ends_with(host, ".onion"@) {
        assert(host.skip(host.len() - 6).last() == 'n');
        assert(host.skip(host.len() - 6).last() == host.last());
    }
}

/// The host of an onion service is one.
proof fn lemma_onion_host(service_id: Seq<char>)
    requires
        tor::valid_service_id(service_id),
    ensures
        text::ends_with(service_id + ".onion"@, ".onion"@),
        tor::valid_onion_hostname(service_id + ".onion"@),
{
    let host = service_id + ".onion"@;
    reveal_strlit(".onion");
    assert(host.skip(host.len() - 6) =~= ".onion"@);
    assert(host.take(host.len() - 6) =~= service_id);
}

/// The short form of a quick tunnel with a one-part name stands for it.
pub proof fn law_quick_tunnels_have_a_short_form(name: Seq<char>)
    requires
        name.len() > 0,
        !name.contains('.'),
        !name.contains(':'),
        !tor::valid_service_id(name),
    ensures
        short_endpoint(name + ".trycloudflare.com"@, None) == name,
        endpoint_url(name) == quick_tunnel(name),
{
    let host = name + ".trycloudflare.com"@;
    lemma_tunnel_is_no_onion(name);
    reveal_strlit(".trycloudflare.com");
    reveal_strlit(".onion");
    reveal_strlit("ws://");
    reveal_strlit("wss://");
    assert(host.skip(host.len() - 18) =~= ".trycloudflare.com"@);
    assert(host.take(host.len() - 18) =~= name);
    lemma_plain_names(name);
    assert((name + ".onion"@).skip(name.len() as int) =~= ".onion"@);
    assert((name + ".onion"@).take(name.len() as int) =~= name);
}

/// The short form of an onion service stands for it.
pub proof fn law_onion_services_have_a_short_form(service_id: Seq<char>)
    requires
        tor::valid_service_id(service_id),
    ensures
        short_endpoint(service_id + ".onion"@, None) == service_id,
        endpoint_url(service_id) == onion_relay(service_id),
{
    let host = service_id + ".onion"@;
    reveal_strlit(".onion");
    reveal_strlit("ws://");
    reveal_strlit("wss://");
    assert(host.skip(host.len() - 6) =~= ".onion"@);
    assert(host.take(host.len() - 6) =~= service_id);
    assert forall|c: char| service_id.contains(c) implies tor::is_base32(c) by {}
    assert(!service_id.contains('.'));
    assert(!service_id.contains(':'));
    lemma_plain_names(service_id);
}

/// A name without a dot and a colon is neither a URL nor an onion hostname.
proof fn lemma_plain_names(name: Seq<char>)
    requires
        !name.contains('.'),
        !name.contains(':'),
    ensures
        !text::starts_with(name, "ws://"@),
        !text::starts_with(name, "wss://"@),
        !text::ends_with(name, ".onion"@),
{
    reveal_strlit("ws://");
    reveal_strlit("wss://");
    reveal_strlit(".onion");
    if text::starts_with(name, "ws://"@) {
        assert(name.take(5)[2] == ':');
        assert(name[2] == ':');
    }
    if text::starts_with(name, "wss://"@) {
        assert(name.take(6)[3] == ':');
        assert(name[3] == ':');
    }
    if text::ends_with(name, ".onion"@) {
        assert(name.skip(name.len() - 6)[0] == '.');
        assert(name[name.len() - 6] == '.');
    }
}

/// What an invitation names is a WebSocket address as it stands, an onion service
/// by its hostname or its identifier, a quick tunnel by its name, or another host
/// by its hostname, which is reached over an encrypted connection.
pub proof fn law_endpoints_stand_for_relays(endpoint: Seq<char>)
    ensures
        text::starts_with(endpoint, "ws://"@) || text::starts_with(endpoint, "wss://"@)
            ==> endpoint_url(endpoint) == endpoint,
        tor::valid_onion_hostname(endpoint) ==> endpoint_url(endpoint) == "ws://"@ + endpoint
            + "/ws"@,
        tor::valid_service_id(endpoint) ==> endpoint_url(endpoint) == "ws://"@ + endpoint
            + ".onion/ws"@,
        is_tunnel_name(endpoint) ==> endpoint_url(endpoint) == "wss://"@ + endpoint
            + ".trycloudflare.com/ws"@,
        (endpoint.contains('.') || endpoint.contains(':')) && !text::starts_with(
            endpoint,
            "ws://"@,
        ) && !text::starts_with(endpoint, "wss://"@) && !text::ends_with(endpoint, ".onion"@)
            ==> endpoint_url(endpoint) == "wss://"@ + endpoint + "/ws"@,
{
    if tor::valid_service_id(endpoint) {
        law_onion_services_have_a_short_form(endpoint);
    }
    if is_tunnel_name(endpoint) {
        lemma_labels(endpoint);
        law_quick_tunnels_have_a_short_form(endpoint);
    }
    if tor::valid_onion_hostname(endpoint) {
        tor::law_onion_hostnames_have_one_form(endpoint, endpoint);
        let id = text::strip_suffix(endpoint, ".onion"@)->0;
        text::law_ends_come_off(endpoint, ".onion"@, id);
        lemma_service_ids(id);
        lemma_labels(id);
        reveal_strlit("ws://");
        reveal_strlit("wss://");
        reveal_strlit(".onion");
        if text::starts_with(endpoint, "ws://"@) {
            assert(endpoint.take(5)[2] == ':');
            assert(endpoint[2] == id[2]);
            assert(id.contains(id[2]));
        }
        if text::starts_with(endpoint, "wss://"@) {
            assert(endpoint.take(6)[3] == ':');
            assert(endpoint[3] == id[3]);
            assert(id.contains(id[3]));
        }
    }
    if (endpoint.contains('.') || endpoint.contains(':')) && tor::valid_onion_hostname(
        endpoint + ".onion"@,
    ) {
        text::law_ends_come_off(endpoint + ".onion"@, ".onion"@, endpoint);
        lemma_service_ids(endpoint);
        lemma_labels(endpoint);
    }
}

/// An invitation is a room code, an at sign and the name of a relay without blanks
/// in it. Anything else is refused for the first of these that is missing.
pub proof fn law_invitations_come_apart(code: Seq<char>, endpoint: Seq<char>, value: Seq<char>)
    ensures
        protocol::valid_code(code) && endpoint.len() > 0 && !has_whitespace(endpoint)
            ==> invite_parts(code + "@"@ + endpoint) == Ok::<(Seq<char>, Seq<char>), Seq<char>>(
            (code, endpoint_url(endpoint)),
        ),
        !text::contains(text::trim(value), "@"@) ==> invite_parts(value) == Err::<
            (Seq<char>, Seq<char>),
            Seq<char>,
        >("compact invitations must use CODE@HOST"@),
        text::split_once(text::trim(value), "@"@) == Some((code, endpoint)) ==> {
            &&& !protocol::valid_code(code) ==> invite_parts(value) == Err::<
                (Seq<char>, Seq<char>),
                Seq<char>,
            >("room codes must contain exactly six ASCII letters or digits"@)
            &&& protocol::valid_code(code) && (endpoint.len() == 0 || has_whitespace(endpoint))
                ==> invite_parts(value) == Err::<(Seq<char>, Seq<char>), Seq<char>>(
                "compact invitation host is missing or invalid"@,
            )
        },
{
    if protocol::valid_code(code) && endpoint.len() > 0 && !has_whitespace(endpoint) {
        lemma_invite_splits(code, endpoint);
    }
}

/// An address may be that of an invited relay exactly if it is a WebSocket address
/// of a host and nothing more, with the path of a relay or none, and if it is that
/// of an onion service, a sound one that is reached without encryption of its own.
/// Only one without a path still needs it.
pub proof fn law_invited_relays_are_plain(url: UrlView)
    ensures
        ({
            let plain = (url.scheme == "ws"@ || url.scheme == "wss"@) && url.host is Some
                && url.username.len() == 0 && !url.has_password && !url.has_query
                && !url.has_fragment;
            let path = url.path == "/"@ || url.path == "/ws"@;
            let fits = url.path == "/"@ ==> vstd::utf8::encode_utf8(url.text).len() + 3
                <= 0xffff_ffff;
            let onion = url.host matches Some(host) && text::ends_with(host, ".onion"@);
            let sound = onion ==> url.scheme == "ws"@ && tor::valid_onion_hostname(url.host->0);
            &&& plain && path && fits && sound ==> invited_relay(url) == Ok::<bool, Seq<char>>(
                url.path == "/"@,
            )
            &&& !plain ==> invited_relay(url) == Err::<bool, Seq<char>>(
                "compact invitations require a plain WebSocket relay host"@,
            )
            &&& plain && !path ==> invited_relay(url) == Err::<bool, Seq<char>>(
                "compact invitation relay paths must be /ws"@,
            )
            &&& plain && path && !fits ==> invited_relay(url) == Err::<bool, Seq<char>>(
                "compact invitation relay address is too long"@,
            )
            &&& plain && path && fits && !sound ==> invited_relay(url) == Err::<bool, Seq<char>>(
                "compact Tor invitations require a valid v3 onion hostname"@,
            )
        }),
{
}

/// An invitation leads to the room of its code, at the address that it stands for
/// with the path of a relay, and through Tor exactly if that is where it is.
pub proof fn law_invitations_say_where_to_go(
    value: Seq<char>,
    code: Seq<char>,
    address: Seq<char>,
    url: UrlView,
    needs_path: bool,
)
    requires
        invite_parts(value) == Ok::<(Seq<char>, Seq<char>), Seq<char>>((code, address)),
        url_parse(address) == Ok::<UrlView, Seq<char>>(url),
        invited_relay(url) == Ok::<bool, Seq<char>>(needs_path),
    ensures
        invitation(value) matches Ok(invited) && invited.code == code && invited.relay_url == (
        if needs_path {
            url.text + "ws"@
        } else {
            url.text
        }) && (invited.managed_tor <==> (url.host matches Some(host) && text::ends_with(
            host,
            ".onion"@,
        ))),
{
}

/// What is wrong with an invitation is reported: first what is wrong with its
/// form, then with its address, then with the relay.
pub proof fn law_bad_invitations_are_refused(value: Seq<char>, why: Seq<char>)
    ensures
        invite_parts(value) == Err::<(Seq<char>, Seq<char>), Seq<char>>(why) ==> invitation(value)
            == Err::<InviteView, Seq<char>>(why),
        invite_parts(value) matches Ok(parts) ==> url_parse(parts.1) == Err::<UrlView, Seq<char>>(
            why,
        ) ==> invitation(value) == Err::<InviteView, Seq<char>>(
            "invalid compact invitation host: "@ + why,
        ),
        invite_parts(value) matches Ok(parts) ==> url_parse(parts.1) matches Ok(url)
            ==> invited_relay(url) == Err::<bool, Seq<char>>(why) ==> invitation(value) == Err::<
            InviteView,
            Seq<char>,
        >(why),
{
}

/// The command that a host prints names the room and a relay that leads back to
/// the host's own; it is printed for every encrypted relay and every onion service
/// at the usual path whose plain address leads there, and for no other.
pub proof fn law_commands_name_the_room_and_its_relay(
    code: Seq<char>,
    url: UrlView,
    again: Option<UrlView>,
)
    ensures
        ({
            let r = invitation_command(code, url, again);
            let onion = url.host matches Some(host) && text::ends_with(host, ".onion"@);
            let fit = url.scheme == (if onion {
                "ws"@
            } else {
                "wss"@
            }) && url.path == "/ws"@ && !url.has_query && !url.has_fragment;
            &&& r matches Ok(command) ==> exists|endpoint: Seq<char>|
                command == "airwire "@ + (code + "@"@ + endpoint) && endpoint.len() > 0
                    && !has_whitespace(endpoint) && #[trigger] endpoint_url(endpoint)
                    == plain_address(url)
            &&& url.host is None ==> r == Err::<Seq<char>, Seq<char>>(
                "cannot shorten a relay URL without a hostname"@,
            )
            &&& url.host is Some && !fit ==> r == Err::<Seq<char>, Seq<char>>(
                "relay URL cannot be represented as a compact invitation"@,
            )
            &&& url.host is Some && fit && reads_back(url, again) && !has_whitespace(
                plain_address(url),
            ) ==> r is Ok
        }),
{
    let r = invitation_command(code, url, again);
    if r is Ok {
        let endpoint = invited_endpoint(url.host->0, url);
        assert(endpoint_url(endpoint) == plain_address(url));
    }
    if url.host is Some && !has_whitespace(plain_address(url)) && (url.scheme == "ws"@
        || url.scheme == "wss"@) {
        reveal_strlit("ws");
        reveal_strlit("wss");
        reveal_strlit("://");
        reveal_strlit("ws://");
        reveal_strlit("wss://");
        let address = plain_address(url);
        if url.scheme == "ws"@ {
            assert(address.take(5) =~= "ws://"@);
        } else {
            assert(address.take(6) =~= "wss://"@);
        }
        assert(stands_for(address, address));
    }
}

/// The plain address of a relay leads there if it is read as the same scheme, host
/// and port, and may be the relay of an invitation as it stands.
pub proof fn law_addresses_lead_to_their_relay(url: UrlView, again: UrlView)
    ensures
        reads_back(url, Some(again)) <==> again.text == plain_address(url) && again.scheme
            == url.scheme && again.host == url.host && again.known_port == url.known_port
            && invited_relay(again) == Ok::<bool, Seq<char>>(false),
        !reads_back(url, None),
{
}

/// An address without a user name and anything behind the path is its scheme, its
/// host, its port if it is not the usual one, and its path.
pub proof fn law_plain_addresses_have_four_parts(url: UrlView, host: Seq<char>, port: u16)
    requires
        url.host == Some(host),
    ensures
        url.port is None ==> plain_address(url) == url.scheme + "://"@ + host + url.path,
        url.port == Some(port) ==> plain_address(url) == url.scheme + "://"@ + host + (":"@
            + text::decimal(port as nat)) + url.path,
        invite_text(url.scheme, host) == url.scheme + "@"@ + host,
{
    assert(url.scheme + "://"@ + host + Seq::<char>::empty() =~= url.scheme + "://"@ + host);
}

/// The short form of a host leaves out what all hosts of its kind end with.
pub proof fn law_short_hosts_can_be_completed(host: Seq<char>)
    ensures
        short_host(host) == host || short_host(host) + ".onion"@ == host || short_host(host)
            + ".trycloudflare.com"@ == host,
        text::ends_with(host, ".onion"@) ==> short_host(host) + ".onion"@ == host,
        !text::ends_with(host, ".onion"@) && text::ends_with(host, ".trycloudflare.com"@)
            ==> short_host(host) + ".trycloudflare.com"@ == host,
{
    text::law_ends_come_off(host, ".onion"@, short_host(host));
    text::law_ends_come_off(host, ".trycloudflare.com"@, short_host(host));
}

/// The name of a quick tunnel is one to sixty-three lower-case letters, digits and
/// single hyphens between them.
pub proof fn law_labels_are_plain(s: Seq<char>, i: int)
    requires
        is_label(s),
        0 <= i < s.len(),
    ensures
        1 <= s.len() <= 63,
        97 <= s[i] as int <= 122 || 48 <= s[i] as int <= 57 || (s[i] == '-' && 0 < i < s.len() - 1
            && s[i + 1] != '-'),
{
    let c = s[i];
    assert('a' <= c <= 'z' || '0' <= c <= '9' || (c == '-' && s[i + 1] != '-'));
}

/// The addresses that stand for a relay when nothing else is said, and for a Tor
/// that is started when it is needed.
pub proof fn law_defaults_are_known()
    ensures
        DEFAULT_RELAY@ == "ws://127.0.0.1:8787/ws"@,
        MANAGED_TOR@ == "auto"@,
{
}

/// What each failure to read or to write an invitation says.
pub proof fn law_invite_errors_are_worded(why: InviteError, short: ShortenError)
    ensures
        why.text() == match why {
            InviteError::NotCodeAtHost => "compact invitations must use CODE@HOST"@,
            InviteError::InvalidCode =>
                "room codes must contain exactly six ASCII letters or digits"@,
            InviteError::MissingHost => "compact invitation host is missing or invalid"@,
            InviteError::InvalidHost(cause) => "invalid compact invitation host: "@ + cause@,
            InviteError::NotPlain => "compact invitations require a plain WebSocket relay host"@,
            InviteError::WrongPath => "compact invitation relay paths must be /ws"@,
            InviteError::TooLong => "compact invitation relay address is too long"@,
            InviteError::InvalidOnion =>
                "compact Tor invitations require a valid v3 onion hostname"@,
        },
        short.text() == match short {
            ShortenError::InvalidUrl(cause) => "cannot shorten relay URL: "@ + cause@,
            ShortenError::NoHostname => "cannot shorten a relay URL without a hostname"@,
            ShortenError::NotCompact => "relay URL cannot be represented as a compact invitation"@,
        },
{
}

/// What is no URL cannot be put into an invitation, and the user is told why; any
/// other address is put into one as it is read, if its plain form leads there.
pub proof fn law_addresses_are_read_before_they_are_printed(code: Seq<char>, relay_url: Seq<char>)
    ensures
        match url_parse(relay_url) {
            Err(why) => printed_invitation(code, relay_url) == Err::<Seq<char>, Seq<char>>(
                "cannot shorten relay URL: "@ + why,
            ),
            Ok(url) => match url_parse(plain_address(url)) {
                Ok(again) => printed_invitation(code, relay_url) == invitation_command(
                    code,
                    url,
                    Some(again),
                ),
                Err(_) => printed_invitation(code, relay_url) == invitation_command(
                    code,
                    url,
                    None,
                ),
            },
        },
{
}

} // verus!
