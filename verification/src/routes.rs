//! Where the server sends a request, and the header of a file reply.
use vstd::prelude::*;
use vstd::string::StringExecFns;

use crate::http::HttpTypes;
use crate::http::Request;
use crate::text::chars_of;
use crate::text::decimal;
use crate::text::split_chars;
use crate::text::split_on;
use crate::text::string_from_chars;
use crate::text::trim;
use crate::text::trim_chars;
use crate::text::usize_decimal;

verus! {

/// Whether a request asks to open a WebSocket: its `Upgrade` field is `websocket`.
pub open spec fn is_websocket_upgrade(headers: Map<Seq<char>, Seq<char>>) -> bool {
    headers.contains_key("Upgrade"@) && headers["Upgrade"@] == "websocket"@
}

/// Whether the request asks to open a WebSocket.
pub fn wants_websocket(request: &Request) -> (res: bool)
    ensures
        res == is_websocket_upgrade(request.headers@),
{
    match request.headers.get("Upgrade") {
        Some(value) => *value == "websocket".to_owned(),
        None => false,
    }
}

/// Whether a WebSocket request on path `link` joins the chat: the path is `/restrictions`.
pub fn websocket_route(link: &String) -> (res: bool)
    ensures
        res == (link@ == "/restrictions"@),
{
    *link == "/restrictions".to_owned()
}

/// What the server answers to a page request.
#[derive(Debug)]
pub enum WebRoute {
    /// The named file.
    File(String),
    /// The chat's page.
    Restrictions,
    /// The base page.
    Base,
    /// Nothing.
    Unknown,
}

/// What the server answers to a page request for `link`.
pub open spec fn route_of(link: Seq<char>, route: WebRoute) -> bool {
    if link == "/style.css"@ {
        route matches WebRoute::File(f) && f@ == "style.css"@
    } else if trim(link) == "/favicon.png"@ {
        route matches WebRoute::File(f) && f@ == "favicon.png"@
    } else if link == "/restrictions"@ {
        route is Restrictions
    } else if link == "/"@ || link == "/base"@ {
        route is Base
    } else {
        route is Unknown
    }
}

/// Where a page request for `link` goes.
pub fn website_route(link: &String) -> (route: WebRoute)
    ensures
        route_of(link@, route),
{
    if *link == "/style.css".to_owned() {
        return WebRoute::File("style.css".to_owned());
    }
    let trimmed = string_from_chars(trim_chars(&chars_of(link.as_str())).as_slice());
    if trimmed == "/favicon.png".to_owned() {
        WebRoute::File("favicon.png".to_owned())
    } else if *link == "/restrictions".to_owned() {
        WebRoute::Restrictions
    } else if *link == "/".to_owned() || *link == "/base".to_owned() {
        WebRoute::Base
    } else {
        WebRoute::Unknown
    }
}

/// The file that the chat's page request gets: the page itself for a `GET`, nothing
/// for a `POST`.
pub fn restrictions_page(http_type: HttpTypes) -> (file: Option<String>)
    ensures
        http_type == HttpTypes::Get ==> (file matches Some(f) && f@ == "restrictionswebsite.html"@),
        http_type == HttpTypes::Post ==> file is None,
{
    match http_type {
        HttpTypes::Get => Some("restrictionswebsite.html".to_owned()),
        _ => None,
    }
}

/// Whether a file is a PNG image: the part of its name after the last dot is `png`.
pub open spec fn is_png_name(name: Seq<char>) -> bool {
    split_on(name, '.').last() == "png"@
}

/// The header of the reply that sends a file of `length` bytes named `name`.
pub open spec fn reply_header_text(name: Seq<char>, length: nat) -> Seq<char> {
    "HTTP/1 200 OK\r\nContent-Length: "@ + decimal(length) + if is_png_name(name) {
        "\r\nContent-Type: image/png\r\n\r\n"@
    } else {
        "\r\n\r\n"@
    }
}

/// The header of the reply that sends a file of `length` bytes named `name`.
pub fn reply_header(name: &str, length: usize) -> (res: String)
    ensures
        res@ == reply_header_text(name@, length as nat),
{
    let pieces = split_chars(&chars_of(name), '.');
    let last = string_from_chars(pieces[pieces.len() - 1].as_slice());
    let png = last == "png".to_owned();
    let head = "HTTP/1 200 OK\r\nContent-Length: ".to_owned().concat(usize_decimal(length).as_str());
    if png {
        head.concat("\r\nContent-Type: image/png\r\n\r\n")
    } else {
        head.concat("\r\n\r\n")
    }
}

/// Advice that the server prints about where it listens.
#[derive(Debug, PartialEq, Eq, Structural, Clone, Copy)]
pub enum ListenerAdvice {
    /// Nothing to say.
    Nothing,
    /// The server listens on a local address only.
    LocalOnly,
    /// The server is reachable but not on port 80.
    NotOnPort80,
}

/// The advice for a listener on an address (IPv4 or not, unspecified or not) and port:
/// an IPv4 listener off port 80 is local-only where its address is specified, and
/// reachable off the standard port otherwise.
pub fn listener_advice(is_ipv4: bool, is_unspecified: bool, port: u16) -> (res: ListenerAdvice)
    ensures
        res == (if is_ipv4 && port != 80 {
            if !is_unspecified {
                ListenerAdvice::LocalOnly
            } else {
                ListenerAdvice::NotOnPort80
            }
        } else {
            ListenerAdvice::Nothing
        }),
{
    if is_ipv4 && port != 80 {
        if !is_unspecified {
            ListenerAdvice::LocalOnly
        } else {
            ListenerAdvice::NotOnPort80
        }
    } else {
        ListenerAdvice::Nothing
    }
}

} // verus!
