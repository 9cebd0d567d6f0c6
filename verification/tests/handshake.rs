use filler_server::base64::to_base64;
use filler_server::handshake::{accept_key, handle_deelio};
use filler_server::error::ServerError;
use filler_server::http::{parse_request, HttpRequest};

fn request(resource: &str, headers: &[(&str, &str)]) -> HttpRequest {
    HttpRequest {
        resource: resource.to_string(),
        headers: headers.iter().map(|&(name, value)| (name.to_string(), value.to_string())).collect(),
    }
}

#[test]
fn base64_of_the_standard_examples() {
    assert_eq!(to_base64(b""), "");
    assert_eq!(to_base64(b"f"), "Zg==");
    assert_eq!(to_base64(b"fo"), "Zm8=");
    assert_eq!(to_base64(b"foo"), "Zm9v");
    assert_eq!(to_base64(b"foob"), "Zm9vYg==");
    assert_eq!(to_base64(b"fooba"), "Zm9vYmE=");
    assert_eq!(to_base64(b"foobar"), "Zm9vYmFy");
}

#[test]
fn base64_uses_the_whole_alphabet() {
    let bytes: Vec<u8> = vec![
        0x00, 0x10, 0x83, 0x10, 0x51, 0x87, 0x20, 0x92, 0x8b, 0x30, 0xd3, 0x8f, 0x41, 0x14, 0x93,
        0x51, 0x55, 0x97, 0x61, 0x96, 0x9b, 0x71, 0xd7, 0x9f, 0x82, 0x18, 0xa3, 0x92, 0x59, 0xa7,
        0xa2, 0x9a, 0xab, 0xb2, 0xdb, 0xaf, 0xc3, 0x1c, 0xb3, 0xd3, 0x5d, 0xb7, 0xe3, 0x9e, 0xbb,
        0xf3, 0xdf, 0xbf,
    ];
    assert_eq!(
        to_base64(&bytes),
        "ABCDEFGHIJKLMNOPQRSTUVWXYZabcdefghijklmnopqrstuvwxyz0123456789+/"
    );
    assert_eq!(to_base64(&[0xff, 0xff, 0xff]), "////");
    assert_eq!(to_base64(&[0xfb, 0xff]), "+/8=");
}

#[test]
fn accept_key_of_the_protocol_example() {
    assert_eq!(accept_key("dGhlIHNhbXBsZSBub25jZQ=="), "s3pPLMBiTxaQ9kYGzzhZRbK+xOo=");
}

#[test]
fn accept_key_depends_on_the_key() {
    assert_ne!(accept_key("dGhlIHNhbXBsZSBub25jZQ="), accept_key("dGhlIHNhbXBsZSBub25jZQ=="));
    assert_eq!(accept_key("").len(), 28);
}

#[test]
fn header_lookup_is_by_the_letter() {
    let r = request("/filler", &[("Upgrade", "websocket"), ("Host", "a"), ("Host", "b")]);
    assert_eq!(r.resource_location(), "/filler");
    assert_eq!(r.get_header_value("Upgrade"), Some("websocket"));
    assert_eq!(r.get_header_value("Host"), Some("a"));
    assert_eq!(r.get_header_value("upgrade"), None);
    assert_eq!(r.get_header_value("Upgrad"), None);
    assert_eq!(r.get_header_value(""), None);
}

#[test]
fn handshake_answers_an_upgrade() {
    let r = request(
        "/filler",
        &[
            ("Host", "example.com"),
            ("Upgrade", "websocket"),
            ("Connection", "Upgrade"),
            ("Sec-WebSocket-Key", "dGhlIHNhbXBsZSBub25jZQ=="),
            ("Sec-WebSocket-Version", "13"),
        ],
    );
    assert_eq!(
        handle_deelio(&r),
        Some(
            "HTTP/1.1 101 Switching Protocols\r\nUpgrade: websocket\r\nConnection: Upgrade\r\nSec-WebSocket-Accept: s3pPLMBiTxaQ9kYGzzhZRbK+xOo=\r\n\r\n"
                .to_string()
        )
    );
}

#[test]
fn handshake_needs_the_upgrade_header() {
    let key = ("Sec-WebSocket-Key", "dGhlIHNhbXBsZSBub25jZQ==");
    assert_eq!(handle_deelio(&request("/", &[key])), None);
    assert_eq!(handle_deelio(&request("/", &[("Upgrade", "h2c"), key])), None);
    assert_eq!(handle_deelio(&request("/", &[("Upgrade", "WebSocket"), key])), None);
    assert_eq!(handle_deelio(&request("/", &[("upgrade", "websocket"), key])), None);
    assert_eq!(handle_deelio(&request("/index.html", &[])), None);
}

#[test]
fn handshake_needs_a_key_in_ascii() {
    assert_eq!(handle_deelio(&request("/", &[("Upgrade", "websocket")])), None);
    assert_eq!(
        handle_deelio(&request("/", &[("Upgrade", "websocket"), ("Sec-WebSocket-Key", "schlüssel")])),
        None
    );
    assert!(handle_deelio(&request("/", &[("Upgrade", "websocket"), ("Sec-WebSocket-Key", "")]))
        .is_some());
}

#[test]
fn parse_request_reads_the_path_and_the_headers() {
    let text = "GET /filler HTTP/1.1\r\nHost: example.com\r\nUpgrade: websocket\r\nSec-WebSocket-Key: dGhlIHNhbXBsZSBub25jZQ==\r\n\r\n";
    let r = parse_request(text).unwrap();
    assert_eq!(r.resource, "/filler");
    assert_eq!(
        r.headers,
        vec![
            ("Host".to_string(), "example.com".to_string()),
            ("Upgrade".to_string(), "websocket".to_string()),
            ("Sec-WebSocket-Key".to_string(), "dGhlIHNhbXBsZSBub25jZQ==".to_string()),
        ]
    );
    assert!(handle_deelio(&r).unwrap().contains("s3pPLMBiTxaQ9kYGzzhZRbK+xOo="));
    let r = parse_request("GET /a/b.css?x=1 HTTP/1.0\r\n\r\nbody").unwrap();
    assert_eq!(r.resource_location(), "/a/b.css?x=1");
    assert_eq!(r.headers, vec![]);
}

#[test]
fn parse_request_has_room_for_sixty_four_headers() {
    let with = |n: usize| {
        let mut text = String::from("GET / HTTP/1.1\r\n");
        for i in 0..n {
            text.push_str(&format!("X-{}: {}\r\n", i, i));
        }
        text.push_str("\r\n");
        text
    };
    assert_eq!(parse_request(&with(64)).unwrap().headers.len(), 64);
    assert!(matches!(parse_request(&with(65)), Err(ServerError::MalformedRequest)));
}

#[test]
fn parse_request_refuses_what_is_no_request() {
    for text in [
        "",
        "GET",
        "GET /filler HTTP/1.1\r\nHost: example.com\r\n",
        "GET /filler\r\n\r\n",
        "\u{1}GET / HTTP/1.1\r\n\r\n",
        "GET / HTTP/1.1\r\nNo colon\r\n\r\n",
    ] {
        assert!(matches!(parse_request(text), Err(ServerError::MalformedRequest)), "{:?}", text);
    }
}
