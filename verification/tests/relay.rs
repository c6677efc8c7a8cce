use codex_plus_core::mobile::MobileRelayHostConfig;
use codex_plus_core::relay::{
    http_response_head, looks_like_websocket, parse_registration, percent_decodable,
    percent_decode, percent_decode_bytes, query_raw_value, query_value, registration_from_uri,
    registration_uri_decodable, relay_page, RegisterMessage, RegistrationError, RelayPage, Role,
};

fn message(kind: &str, role: &str, room: &str, token: &str) -> RegisterMessage {
    RegisterMessage {
        message_type: kind.to_string(),
        role: role.to_string(),
        room: room.to_string(),
        token: token.to_string(),
    }
}

#[test]
fn roles_are_named_host_and_client() {
    assert_eq!(Role::from_str("host"), Some(Role::Host));
    assert_eq!(Role::from_str("client"), Some(Role::Client));
    assert_eq!(Role::from_str("Host"), None);
    assert_eq!(Role::Host.as_str(), "host");
    assert_eq!(Role::Client.as_str(), "client");
}

#[test]
fn registration_message_is_checked_in_order() {
    let ok = parse_registration(message("register", "client", " room ", "t")).unwrap();
    assert_eq!(ok.role, Role::Client);
    assert_eq!(ok.room, " room ");
    assert_eq!(ok.token, "t");
    assert_eq!(
        parse_registration(message("hello", "host", "r", "t")).unwrap_err(),
        RegistrationError::NotRegister
    );
    assert_eq!(
        parse_registration(message("register", "host", "  ", "t")).unwrap_err(),
        RegistrationError::RoomRequired
    );
    assert_eq!(
        parse_registration(message("register", "host", "r", "")).unwrap_err(),
        RegistrationError::TokenRequired
    );
    assert_eq!(
        parse_registration(message("register", "guest", "r", "t")).unwrap_err(),
        RegistrationError::InvalidRole
    );
}

#[test]
fn percent_decoding_reads_plus_and_hex_escapes() {
    assert_eq!(percent_decode("a+b%20c%2bd%zz%4"), "a b c+d%zz%4");
    assert_eq!(percent_decode("%E9%A1%B9"), "项");
    assert_eq!(percent_decode("%ff"), "\u{fffd}");
    assert_eq!(percent_decode_bytes(b"%+5"), vec![5u8]);
}

#[test]
fn percent_decoding_needs_whole_characters_after_each_escape() {
    assert!(percent_decodable("%41é".as_bytes()));
    assert!(percent_decodable("%é1".as_bytes()));
    assert!(!percent_decodable("%1é".as_bytes()));
    assert!(!percent_decodable("%%é".as_bytes()));
}

#[test]
fn query_values_come_from_the_first_matching_pair() {
    assert_eq!(query_value("room=a%20b&room=c&token", "room"), Some("a b".to_string()));
    assert_eq!(query_value("token&room", "room"), None);
    assert_eq!(query_value("x=1&token=t=2", "token"), Some("t=2".to_string()));
    assert_eq!(query_raw_value("a=1&b=%41", "b"), Some(b"%41".to_vec()));
}

#[test]
fn registration_from_uri_uses_path_or_role_parameter() {
    let host = registration_from_uri("/host", Some("room=r1&token=t1")).unwrap();
    assert_eq!(host.role, Role::Host);
    assert_eq!(host.room, "r1");
    assert_eq!(host.token, "t1");
    let client = registration_from_uri("/ws", Some("role=client&room=r&token=t")).unwrap();
    assert_eq!(client.role, Role::Client);
    assert!(registration_from_uri("/ws", Some("role=other&room=r&token=t")).is_none());
    assert!(registration_from_uri("/client", Some("room=%20&token=t")).is_none());
    assert!(registration_from_uri("/client", None).is_none());
    assert!(registration_from_uri("/other", Some("room=r&token=t")).is_none());
    assert!(registration_uri_decodable("/host", Some("room=r&token=t")));
    assert!(registration_uri_decodable("/host", None));
}

#[test]
fn websocket_handshakes_are_recognised_by_their_headers() {
    assert!(looks_like_websocket(b"GET / HTTP/1.1\r\nUpgrade: WebSocket\r\n\r\n"));
    assert!(looks_like_websocket(b"GET / HTTP/1.1\r\nSec-WebSocket-Key: abc\r\n\r\n"));
    assert!(!looks_like_websocket(b"GET /status HTTP/1.1\r\nHost: x\r\n\r\n"));
}

#[test]
fn relay_pages_are_chosen_by_path() {
    assert_eq!(relay_page("GET / HTTP/1.1\r\n\r\n"), RelayPage::TestPage);
    assert_eq!(relay_page("GET /index.html?x HTTP/1.1\r\n\r\n"), RelayPage::TestPage);
    assert_eq!(relay_page("GET /mobile HTTP/1.1\r\n\r\n"), RelayPage::MobilePage);
    assert_eq!(relay_page("GET /health HTTP/1.1\r\n\r\n"), RelayPage::Health);
    assert_eq!(relay_page("GET /status?x=1 HTTP/1.1\r\n\r\n"), RelayPage::Status);
    assert_eq!(relay_page("GET /nope HTTP/1.1\r\n\r\n"), RelayPage::NotFound);
    assert_eq!(relay_page(""), RelayPage::TestPage);
}

#[test]
fn relay_response_head_is_not_cached() {
    assert_eq!(
        http_response_head("200 OK", "text/html; charset=utf-8", 12),
        "HTTP/1.1 200 OK\r\nContent-Type: text/html; charset=utf-8\r\nCache-Control: no-store, no-cache, must-revalidate, max-age=0\r\nPragma: no-cache\r\nExpires: 0\r\nContent-Length: 12\r\nConnection: close\r\n\r\n"
    );
}

#[test]
fn host_url_query_registers_the_configured_room_and_token() {
    let config = MobileRelayHostConfig {
        relay_url: "ws://example.test:57323".to_string(),
        room: "项目 A".to_string(),
        token: "a+b&c=d%".to_string(),
        encryption_key: "k".to_string(),
    };
    let url = config.host_url();
    let (_, query) = url.split_once('?').unwrap();
    assert!(registration_uri_decodable("/host", Some(query)));
    let reg = registration_from_uri("/host", Some(query)).unwrap();
    assert_eq!(reg.role, Role::Host);
    assert_eq!(reg.room, "项目 A");
    assert_eq!(reg.token, "a+b&c=d%");

    let blank = MobileRelayHostConfig {
        relay_url: "ws://example.test".to_string(),
        room: "  ".to_string(),
        token: "t".to_string(),
        encryption_key: "k".to_string(),
    };
    let url = blank.host_url();
    let (_, query) = url.split_once('?').unwrap();
    assert!(registration_from_uri("/host", Some(query)).is_none());
}
