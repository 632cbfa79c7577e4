use restrictions_server::http::get_body_and_headers;
use restrictions_server::http::HttpTypes;
use restrictions_server::routes::listener_advice;
use restrictions_server::routes::reply_header;
use restrictions_server::routes::restrictions_page;
use restrictions_server::routes::wants_websocket;
use restrictions_server::routes::website_route;
use restrictions_server::routes::websocket_route;
use restrictions_server::routes::ListenerAdvice;
use restrictions_server::routes::WebRoute;
use restrictions_server::settings::SettingsStruct;

fn file_of(route: WebRoute) -> Option<String> {
    match route {
        WebRoute::File(f) => Some(f),
        _ => None,
    }
}

#[test]
fn websocket_requests_are_recognised() {
    let req = get_body_and_headers(b"GET /restrictions HTTP/1.1\r\nUpgrade: websocket\r\n\r\n").unwrap();
    assert!(wants_websocket(&req));
    let req = get_body_and_headers(b"GET /restrictions HTTP/1.1\r\nUpgrade: h2c\r\n\r\n").unwrap();
    assert!(!wants_websocket(&req));
    let req = get_body_and_headers(b"GET /restrictions HTTP/1.1\r\n\r\n").unwrap();
    assert!(!wants_websocket(&req));
}

#[test]
fn websocket_routes() {
    assert!(websocket_route(&"/restrictions".to_string()));
    assert!(!websocket_route(&"/".to_string()));
}

#[test]
fn website_routes() {
    assert_eq!(file_of(website_route(&"/style.css".to_string())), Some("style.css".to_string()));
    assert_eq!(file_of(website_route(&"/favicon.png".to_string())), Some("favicon.png".to_string()));
    assert_eq!(file_of(website_route(&"\t/favicon.png\u{3000}".to_string())), Some("favicon.png".to_string()));
    assert!(matches!(website_route(&"/restrictions".to_string()), WebRoute::Restrictions));
    assert!(matches!(website_route(&"/".to_string()), WebRoute::Base));
    assert!(matches!(website_route(&"/base".to_string()), WebRoute::Base));
    assert!(matches!(website_route(&" /style.css".to_string()), WebRoute::Unknown));
    assert!(matches!(website_route(&"/nothing".to_string()), WebRoute::Unknown));
}

#[test]
fn restrictions_page_only_for_get() {
    assert_eq!(restrictions_page(HttpTypes::Get), Some("restrictionswebsite.html".to_string()));
    assert_eq!(restrictions_page(HttpTypes::Post), None);
}

#[test]
fn reply_headers() {
    assert_eq!(
        reply_header("favicon.png", 1234),
        "HTTP/1 200 OK\r\nContent-Length: 1234\r\nContent-Type: image/png\r\n\r\n"
    );
    assert_eq!(reply_header("style.css", 0), "HTTP/1 200 OK\r\nContent-Length: 0\r\n\r\n");
    assert_eq!(reply_header("png", 7), "HTTP/1 200 OK\r\nContent-Length: 7\r\nContent-Type: image/png\r\n\r\n");
    assert_eq!(reply_header("a.png.html", 10), "HTTP/1 200 OK\r\nContent-Length: 10\r\n\r\n");
}

#[test]
fn listener_advices() {
    assert_eq!(listener_advice(true, false, 8000), ListenerAdvice::LocalOnly);
    assert_eq!(listener_advice(true, true, 8080), ListenerAdvice::NotOnPort80);
    assert_eq!(listener_advice(true, true, 80), ListenerAdvice::Nothing);
    assert_eq!(listener_advice(false, false, 8000), ListenerAdvice::Nothing);
}

#[test]
fn settings_start_with_one_connection_per_address() {
    assert!(SettingsStruct::default().ignore_multiple_connections_per_ip);
}
