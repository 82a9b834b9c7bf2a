//! How a relay is reached.

use vstd::prelude::*;

use crate::invite;
use crate::invite::{parse_url, RelayUrl};
use crate::text;
use crate::text::without_prefix;

verus! {

/// How long one attempt to connect through a managed Tor may take, in seconds.
pub const ATTEMPT_TIMEOUT_SECS: u64 = 20;

/// How long attempts are repeated, in seconds.
pub const RETRY_WINDOW_SECS: u64 = 90;

// ---------------------------------------------------------------------------
// Connecting through a proxy
// ---------------------------------------------------------------------------
/// Why a relay cannot be reached through a proxy.
#[derive(Debug, PartialEq, Eq)]
pub enum TargetError {
    /// The address is not a URL, for the reason given.
    InvalidUrl(String),
    NoHost,
    NoPort,
}

impl TargetError {
    /// How the error is reported.
    pub open spec fn text(self) -> Seq<char> {
        match self {
            TargetError::InvalidUrl(why) => "invalid relay URL: "@ + why@,
            TargetError::NoHost => "relay URL has no host"@,
            TargetError::NoPort => "relay URL has no port"@,
        }
    }

    /// How the error is reported.
    pub fn message(&self) -> (r: String)
        ensures
            r@ == self.text(),
    {
        match self {
            TargetError::InvalidUrl(why) => {
                let mut out = "invalid relay URL: ".to_owned();
                out.append(why.as_str());
                out
            },
            TargetError::NoHost => "relay URL has no host".to_owned(),
            TargetError::NoPort => "relay URL has no port".to_owned(),
        }
    }
}

/// The host and the port to ask a proxy for, or how the failure is reported.
pub open spec fn url_target(url: invite::UrlView) -> Result<(Seq<char>, u16), Seq<char>> {
    match url.host {
        None => Err(TargetError::NoHost.text()),
        Some(host) => match url.known_port {
            None => Err(TargetError::NoPort.text()),
            Some(port) => Ok((host, port)),
        },
    }
}

/// The host and the port to ask a proxy for, of the relay at `relay_url`, or how
/// the failure is reported.
pub open spec fn address_target(relay_url: Seq<char>) -> Result<(Seq<char>, u16), Seq<char>> {
    match invite::url_parse(relay_url) {
        Ok(url) => url_target(url),
        Err(why) => Err("invalid relay URL: "@ + why),
    }
}

/// A target or the report of a failure, in ghost form.
pub open spec fn target_view(r: Result<(String, u16), TargetError>) -> Result<
    (Seq<char>, u16),
    Seq<char>,
> {
    match r {
        Ok((host, port)) => Ok((host@, port)),
        Err(why) => Err(why.text()),
    }
}

/// The host and the port to ask a proxy for, of a URL that has been read.
pub fn target_of(url: RelayUrl) -> (r: Result<(String, u16), TargetError>)
    ensures
        target_view(r) == url_target(url@),
        r matches Err(why) ==> !(why is InvalidUrl),
{
    match url.host {
        None => Err(TargetError::NoHost),
        Some(host) => match url.known_port {
            None => Err(TargetError::NoPort),
            Some(port) => Ok((host, port)),
        },
    }
}

/// The host and the port to ask a proxy for, of the relay at `relay_url`.
pub fn relay_target(relay_url: &str) -> (r: Result<(String, u16), TargetError>)
    ensures
        target_view(r) == address_target(relay_url@),
        (r matches Err(why) && why is InvalidUrl) == invite::url_parse(relay_url@) is Err,
{
    match parse_url(relay_url) {
        Ok(url) => target_of(url),
        Err(why) => Err(TargetError::InvalidUrl(why)),
    }
}

/// The address of a proxy, without the scheme that may stand in front of it.
pub open spec fn bare_proxy(proxy: Seq<char>) -> Seq<char> {
    match text::strip_prefix(proxy, "socks5://"@) {
        Some(rest) => rest,
        None => proxy,
    }
}

/// The address of a proxy, without the scheme that may stand in front of it.
pub fn proxy_endpoint(proxy: &str) -> (r: String)
    ensures
        r@ == bare_proxy(proxy@),
{
    match without_prefix(proxy, "socks5://") {
        Some(rest) => rest,
        None => proxy.to_owned(),
    }
}

// ---------------------------------------------------------------------------
// Trying again
// ---------------------------------------------------------------------------
/// What follows a failed attempt to connect.
#[derive(Clone, Copy, Debug, PartialEq, Eq, Structural)]
pub enum RetryStep {
    /// Report the failure.
    GiveUp,
    /// Try again after this many seconds; tell the user if `announce` is set.
    Wait { seconds: u64, announce: bool },
}

/// What follows the failure of the attempt with the number `attempt`, counted
/// from one; `late` tells whether the time for attempts is over.
pub open spec fn after_failure(attempt: nat, retry: bool, late: bool) -> RetryStep {
    if !retry || late {
        RetryStep::GiveUp
    } else {
        RetryStep::Wait {
            seconds: if attempt < 5 {
                attempt as u64
            } else {
                5
            },
            announce: attempt == 1,
        }
    }
}

/// What follows the failure of the attempt with the number `attempt`, counted
/// from one.
pub fn retry_step(attempt: u32, retry: bool, late: bool) -> (r: RetryStep)
    ensures
        r == after_failure(attempt as nat, retry, late),
{
    if !retry || late {
        RetryStep::GiveUp
    } else {
        let seconds = if attempt < 5 {
            attempt as u64
        } else {
            5
        };
        RetryStep::Wait { seconds, announce: attempt == 1 }
    }
}

/// A relay is reached at the host of its address and at the port that its address
/// or its scheme gives; an address without one of them is refused for that.
pub proof fn law_relays_are_reached_at_their_address(
    url: invite::UrlView,
    host: Seq<char>,
    port: u16,
)
    ensures
        url.host == Some(host) && url.known_port == Some(port) ==> url_target(url) == Ok::<
            (Seq<char>, u16),
            Seq<char>,
        >((host, port)),
        url.host is None ==> url_target(url) == Err::<(Seq<char>, u16), Seq<char>>(
            "relay URL has no host"@,
        ),
        url.host is Some && url.known_port is None ==> url_target(url) == Err::<
            (Seq<char>, u16),
            Seq<char>,
        >("relay URL has no port"@),
{
}

/// The address that a relay is reached at is that of its URL, and what is no URL
/// is refused with the reason.
pub proof fn law_addresses_are_parsed(relay_url: Seq<char>)
    ensures
        match invite::url_parse(relay_url) {
            Ok(url) => address_target(relay_url) == url_target(url),
            Err(why) => address_target(relay_url) == Err::<(Seq<char>, u16), Seq<char>>(
                "invalid relay URL: "@ + why,
            ),
        },
{
}

/// A proxy is reached at its address, with or without its scheme in front.
pub proof fn law_proxies_may_have_a_scheme(address: Seq<char>)
    ensures
        bare_proxy("socks5://"@ + address) == address,
        !text::starts_with(address, "socks5://"@) ==> bare_proxy(address) == address,
{
    text::law_ends_come_off("socks5://"@ + address, "socks5://"@, address);
}

/// A failed attempt is repeated exactly while that is wanted and the time is not
/// over, after a wait that grows by a second with every attempt up to five; the
/// user is told of it once.
pub proof fn law_attempts_are_repeated(attempt: nat, retry: bool, late: bool)
    requires
        attempt >= 1,
    ensures
        after_failure(attempt, retry, late) == RetryStep::GiveUp <==> !retry || late,
        after_failure(attempt, retry, late) matches RetryStep::Wait { seconds, announce }
            ==> 1 <= seconds <= 5 && (attempt <= 5 ==> seconds == attempt) && (attempt >= 5
            ==> seconds == 5) && (announce <==> attempt == 1),
        ATTEMPT_TIMEOUT_SECS == 20,
        RETRY_WINDOW_SECS == 90,
{
}

} // verus!
