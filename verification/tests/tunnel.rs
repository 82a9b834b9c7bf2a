use airwire::tunnel::{find_quick_tunnel_url, public_relay_url};

#[test]
fn extracts_cloudflare_url_from_log_line() {
    let line = "INF | https://paper-river.trycloudflare.com |";
    assert_eq!(
        find_quick_tunnel_url(line),
        Some("https://paper-river.trycloudflare.com".to_owned())
    );
}

#[test]
fn addresses_are_found_in_decoration() {
    assert_eq!(
        find_quick_tunnel_url("\u{a0}url=[\"x\"] (\"https://a-b.trycloudflare.com/\"),"),
        Some("https://a-b.trycloudflare.com/".to_owned())
    );
    assert_eq!(
        find_quick_tunnel_url("https://example.com https://b.trycloudflare.com"),
        Some("https://b.trycloudflare.com".to_owned())
    );
    assert_eq!(find_quick_tunnel_url("http://a.trycloudflare.com"), None);
    assert_eq!(find_quick_tunnel_url("   "), None);
    assert_eq!(find_quick_tunnel_url(""), None);
}

#[test]
fn tunnels_have_relay_addresses() {
    assert_eq!(
        public_relay_url("https://paper-river.trycloudflare.com"),
        "wss://paper-river.trycloudflare.com/ws"
    );
    assert_eq!(
        public_relay_url("https://paper-river.trycloudflare.com//"),
        "wss://paper-river.trycloudflare.com/ws"
    );
    assert_eq!(public_relay_url("other"), "other/ws");
}
