use airwire::client::Role;
use airwire::invite::{DEFAULT_RELAY, MANAGED_TOR};
use airwire::launch::{default_downloads, plan, plan_with, LaunchError, Options, TorUse};
use airwire::paths::LocalPath;
use airwire::protocol::validate_code;
use airwire::tor::ManagedTorMode;

fn options() -> Options {
    Options {
        invite: None,
        start: false,
        connect: None,
        max_users: 16,
        relay: DEFAULT_RELAY.to_owned(),
        tor_proxy: None,
        cloudflared: false,
    }
}

#[test]
fn nothing_asked_for_is_no_room() {
    assert!(plan(options()).unwrap().is_none());
}

#[test]
fn a_new_room_gets_a_code() {
    let room = plan(Options { start: true, ..options() }).unwrap().unwrap();
    assert!(validate_code(&room.code));
    assert_eq!(room.role, Role::Host { max_guests: 16 });
    assert!(room.embedded_relay);
    assert!(!room.tunnel);
    assert_eq!(
        room.relay_display(None),
        format!("local relay · airwire --connect {}", room.code)
    );
    let room = plan_with(Options { start: true, ..options() }, "aB3xY9".to_owned())
        .unwrap()
        .unwrap();
    assert_eq!(room.code, "aB3xY9");
}

#[test]
fn a_room_is_entered_with_its_code() {
    let asked = Options { connect: Some("aB3xY9".to_owned()), relay: "wss://relay/ws".to_owned(), ..options() };
    let room = plan(asked).unwrap().unwrap();
    assert_eq!(room.role, Role::Guest);
    assert_eq!(room.code, "aB3xY9");
    assert!(!room.embedded_relay);
    assert_eq!(room.relay_display(None), "wss://relay/ws");
}

#[test]
fn a_room_is_entered_with_an_invitation() {
    let service = "c".repeat(56);
    let asked = Options { invite: Some(format!("aB3xY9@{service}")), ..options() };
    let room = plan(asked).unwrap().unwrap();
    assert_eq!(room.role, Role::Guest);
    assert_eq!(room.code, "aB3xY9");
    assert_eq!(room.relay_url, format!("ws://{service}.onion/ws"));
    assert!(matches!(room.tor, TorUse::Managed));
    assert!(room.retries());
    assert!(matches!(room.tor_mode(), ManagedTorMode::Client));
    assert_eq!(room.client_proxy(Some("127.0.0.1:1".to_owned())).unwrap(), "127.0.0.1:1");
}

#[test]
fn a_managed_host_is_an_onion_service() {
    let asked = Options { start: true, tor_proxy: Some(MANAGED_TOR.to_owned()), ..options() };
    let room = plan(asked).unwrap().unwrap();
    assert!(room.onion_host());
    assert!(!room.retries());
    assert!(room.client_proxy(Some("127.0.0.1:1".to_owned())).is_none());
    match room.tor_mode() {
        ManagedTorMode::OnionService { target } => assert_eq!(target, "127.0.0.1:8787"),
        ManagedTorMode::Client => panic!("not a client"),
    }
    let service = "d".repeat(56);
    assert_eq!(
        room.invitation(&format!("ws://{service}.onion/ws")).unwrap(),
        format!("airwire {}@{service}", room.code)
    );
    assert!(room.invitation("ws://127.0.0.1:8787/ws").is_none());
}

#[test]
fn an_explicit_proxy_is_used() {
    let asked = Options {
        connect: Some("aB3xY9".to_owned()),
        tor_proxy: Some("127.0.0.1:9050".to_owned()),
        ..options()
    };
    let room = plan(asked).unwrap().unwrap();
    assert_eq!(room.client_proxy(None).unwrap(), "127.0.0.1:9050");
    assert!(!room.retries());
}

#[test]
fn a_tunnel_is_shared() {
    let asked = Options { start: true, cloudflared: true, ..options() };
    let room = plan_with(asked, "aB3xY9".to_owned()).unwrap().unwrap();
    assert!(room.tunnel);
    assert_eq!(
        room.relay_display(Some("wss://x.trycloudflare.com/ws")),
        "share: AIRWIRE_RELAY=wss://x.trycloudflare.com/ws airwire --connect aB3xY9"
    );
}

#[test]
fn launch_errors_are_reported() {
    let why = |asked: Options| plan(asked).unwrap_err().message();
    assert_eq!(
        why(Options { start: true, max_users: 0, ..options() }),
        "--max-users must be at least 1"
    );
    assert_eq!(
        why(Options { connect: Some("bad".to_owned()), ..options() }),
        "room codes must contain exactly six ASCII letters or digits"
    );
    assert_eq!(
        why(Options { start: true, cloudflared: true, relay: "wss://relay/ws".to_owned(), ..options() }),
        "--cloudflared manages the default embedded relay; omit --relay"
    );
    assert_eq!(
        why(Options { invite: Some("nothing".to_owned()), ..options() }),
        "compact invitations must use CODE@HOST"
    );
    assert_eq!(LaunchError::NoGuests.message(), "--max-users must be at least 1");
}

#[test]
fn downloads_have_a_place() {
    let path = |text: &str| LocalPath::of_text(text.to_owned());
    let place = |downloads: Option<&str>, current: Option<&str>, windows: bool| {
        default_downloads(downloads.map(path), current.map(path), windows)
    };
    assert_eq!(place(Some("/home/me/Downloads"), Some("/tmp"), false), path("/home/me/Downloads/airwire"));
    assert_eq!(place(None, Some("/tmp/"), false), path("/tmp/airwire"));
    assert_eq!(place(None, None, false), path("./airwire"));
    assert_eq!(place(None, None, true), path(".\\airwire"));
    assert_eq!(place(Some("C:\\Users\\me\\Downloads"), None, true), path("C:\\Users\\me\\Downloads\\airwire"));
    assert_eq!(place(Some("D:"), None, true), path("D:airwire"));
    assert_eq!(place(Some("D:"), None, false), path("D:/airwire"));
    let odd = LocalPath { shown: "/\u{fffd}".to_owned(), bytes: vec![b'/', 0xff] };
    assert_eq!(
        default_downloads(Some(odd), None, false),
        LocalPath { shown: "/\u{fffd}/airwire".to_owned(), bytes: b"/\xff/airwire".to_vec() }
    );
}
