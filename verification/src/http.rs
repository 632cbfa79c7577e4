//! HTTP requests as the server reads them: the request line, the headers and the body.
use vstd::prelude::*;
use vstd::utf8::decode_utf8;
use vstd::utf8::encode_utf8;
use vstd::utf8::valid_utf8;

use crate::text::chars_of;
use crate::text::concat;
use crate::text::concat_from;
use crate::text::decode_utf8_bytes;
use crate::text::lines_chars;
use crate::text::lines_of;
use crate::text::split_chars;
use crate::text::utf8_len_at_most;
use crate::text::split_on;
use crate::text::string_from_chars;
use crate::text::views;

verus! {

/// The request methods the server answers.
#[derive(Debug, PartialEq, Eq, Structural, Clone, Copy)]
pub enum HttpTypes {
    Post,
    Get,
}

/// The request line: its method and the requested path.
#[derive(Debug)]
pub struct RequestType {
    pub http_type: HttpTypes,
    pub request: String,
}

/// The header fields of a request, where a later field of the same name
/// replaces an earlier one.
#[derive(Debug)]
pub struct Headers {
    fields: Vec<(String, String)>,
}

/// The map that inserting `fields` in order into an empty map gives.
pub open spec fn fields_map(fields: Seq<(String, String)>) -> Map<Seq<char>, Seq<char>>
    decreases fields.len(),
{
    if fields.len() == 0 {
        Map::empty()
    } else {
        fields_map(fields.drop_last()).insert(fields.last().0@, fields.last().1@)
    }
}

impl View for Headers {
    type V = Map<Seq<char>, Seq<char>>;

    closed spec fn view(&self) -> Map<Seq<char>, Seq<char>> {
        fields_map(self.fields@)
    }
}

impl Headers {
    /// No header fields.
    pub fn new() -> (h: Headers)
        ensures
            h@ == Map::<Seq<char>, Seq<char>>::empty(),
    {
        Headers { fields: Vec::new() }
    }

    /// Sets the field `name` to `value`, replacing an earlier value.
    pub fn insert(&mut self, name: String, value: String)
        ensures
            final(self)@ == old(self)@.insert(name@, value@),
    {
        let ghost before = self.fields@;
        self.fields.push((name, value));
        assert(self.fields@.drop_last() =~= before);
    }

    /// The value of the field `name`, if the request has one.
    pub fn get(&self, name: &str) -> (res: Option<&String>)
        ensures
            res is Some <==> self@.contains_key(name@),
            res matches Some(v) ==> v@ == self@[name@],
    {
        let key = name.to_owned();
        let mut found: Option<usize> = None;
        let mut i: usize = 0;
        assert(self.fields@.take(0) =~= Seq::<(String, String)>::empty());
        while i < self.fields.len()
            invariant
                i <= self.fields@.len(),
                key@ == name@,
                found is Some <==> fields_map(self.fields@.take(i as int)).contains_key(key@),
                found matches Some(j) ==> j < i && fields_map(self.fields@.take(i as int))[key@]
                    == self.fields@[j as int].1@,
            decreases self.fields@.len() - i,
        {
            assert(self.fields@.take(i + 1).drop_last() =~= self.fields@.take(i as int));
            if self.fields[i].0 == key {
                found = Some(i);
            }
            i = i + 1;
        }
        assert(self.fields@.take(i as int) =~= self.fields@);
        match found {
            Some(j) => Some(&self.fields[j].1),
            None => None,
        }
    }

    /// The fields in the order they were set; inserting them in that order into an
    /// empty map gives this map.
    pub fn fields(&self) -> (res: &Vec<(String, String)>)
        ensures
            fields_map(res@) == self@,
    {
        &self.fields
    }
}

/// A request: its request line, its body and its header fields.
#[derive(Debug)]
pub struct Request {
    pub request: RequestType,
    pub body: String,
    pub headers: Headers,
}

/// What a request holds, as mathematical values.
pub struct RequestView {
    pub http_type: HttpTypes,
    pub request: Seq<char>,
    pub body: Seq<char>,
    pub headers: Map<Seq<char>, Seq<char>>,
}

impl View for Request {
    type V = RequestView;

    open spec fn view(&self) -> RequestView {
        RequestView {
            http_type: self.request.http_type,
            request: self.request.request@,
            body: self.body@,
            headers: self.headers@,
        }
    }
}

/// A line that ends the header block: shorter than three bytes in UTF-8.
pub open spec fn is_short_line(line: Seq<char>) -> bool {
    encode_utf8(line).len() < 3
}

/// The index of the first short line at or after `i`.
pub open spec fn first_short_from(lines: Seq<Seq<char>>, i: nat) -> Option<nat>
    decreases lines.len() - i,
{
    if i >= lines.len() {
        None
    } else if is_short_line(lines[i as int]) {
        Some(i)
    } else {
        first_short_from(lines, i + 1)
    }
}

/// The method that the first word of the request line names.
pub open spec fn method_of(word: Seq<char>) -> Option<HttpTypes> {
    if word == seq!['G', 'E', 'T'] {
        Some(HttpTypes::Get)
    } else if word == seq!['P', 'O', 'S', 'T'] {
        Some(HttpTypes::Post)
    } else {
        None
    }
}

/// A header line read into `map`: its first space-separated word, without its last
/// character (the colon), names the field, and its second word is the value; a line
/// where either word is empty changes nothing.
pub open spec fn apply_header(map: Map<Seq<char>, Seq<char>>, line: Seq<char>) -> Map<
    Seq<char>,
    Seq<char>,
> {
    let words = split_on(line, ' ');
    let name = words[0];
    let value = if words.len() > 1 {
        words[1]
    } else {
        seq![]
    };
    if name.len() > 0 && value.len() > 0 {
        map.insert(name.drop_last(), value)
    } else {
        map
    }
}

/// The header map that the header lines give, read in order.
pub open spec fn header_fold(lines: Seq<Seq<char>>) -> Map<Seq<char>, Seq<char>>
    decreases lines.len(),
{
    if lines.len() == 0 {
        Map::empty()
    } else {
        apply_header(header_fold(lines.drop_last()), lines.last())
    }
}

/// The method, path and headers that the header block's lines give: the request line
/// must start with `GET` or `POST` and name a path; with no lines at all the request
/// is a `GET` of the empty path.
pub open spec fn request_of_header_lines(lines: Seq<Seq<char>>) -> Option<
    (HttpTypes, Seq<char>, Map<Seq<char>, Seq<char>>),
> {
    if lines.len() == 0 {
        Some((HttpTypes::Get, seq![], Map::empty()))
    } else {
        let words = split_on(lines[0], ' ');
        match method_of(words[0]) {
            None => None,
            Some(method) => if words.len() < 2 {
                None
            } else {
                Some((method, words[1], header_fold(lines.drop_first())))
            },
        }
    }
}

/// The header block as the server gathers it: each header line followed by a newline.
pub open spec fn header_text(lines: Seq<Seq<char>>) -> Seq<char> {
    concat(lines.map_values(|l: Seq<char>| l.push('\n')))
}

/// The request that a text gives: the lines up to the first short one form the header
/// block (with no short line there is no request), and the lines after it, joined
/// without separators, form the body.
pub open spec fn parse_request(text: Seq<char>) -> Option<RequestView> {
    let lines = lines_of(text);
    match first_short_from(lines, 0) {
        None => None,
        Some(k) => match request_of_header_lines(lines_of(header_text(lines.take(k as int)))) {
            None => None,
            Some(r) => Some(
                RequestView {
                    http_type: r.0,
                    request: r.1,
                    body: concat(lines.skip(k + 1 as int)),
                    headers: r.2,
                },
            ),
        },
    }
}


/// The index of the first short line.
fn find_short_line(lines: &Vec<Vec<char>>) -> (res: Option<usize>)
    ensures
        res matches Some(k) ==> first_short_from(views(lines@), 0) == Some(k as nat) && k
            < lines@.len(),
        res is None ==> first_short_from(views(lines@), 0) is None,
{
    let mut i: usize = 0;
    while i < lines.len()
        invariant
            i <= lines@.len(),
            first_short_from(views(lines@), 0) == first_short_from(views(lines@), i as nat),
        decreases lines@.len() - i,
    {
        assert(lines@[i as int]@ == views(lines@)[i as int]);
        if utf8_len_at_most(&lines[i], 2) {
            return Some(i);
        }
        i = i + 1;
    }
    None
}

/// The header block gathered from the first `k` lines, each followed by a newline.
fn gather_header_text(lines: &Vec<Vec<char>>, k: usize) -> (res: Vec<char>)
    requires
        k <= lines@.len(),
    ensures
        res@ == header_text(views(lines@).take(k as int)),
{
    let mut res: Vec<char> = Vec::new();
    let mut j: usize = 0;
    assert(views(lines@).take(0).map_values(|l: Seq<char>| l.push('\n')) =~= Seq::<
        Seq<char>,
    >::empty());
    while j < k
        invariant
            j <= k <= lines@.len(),
            res@ == header_text(views(lines@).take(j as int)),
        decreases k - j,
    {
        let ghost before = res@;
        let line = &lines[j];
        let mut c: usize = 0;
        while c < line.len()
            invariant
                c <= line@.len(),
                res@ == before + line@.take(c as int),
            decreases line@.len() - c,
        {
            res.push(line[c]);
            assert(line@.take(c + 1) =~= line@.take(c as int).push(line@[c as int]));
            c = c + 1;
        }
        res.push('\n');
        let ghost f = |l: Seq<char>| l.push('\n');
        assert(line@.take(c as int) =~= line@);
        assert(views(lines@).take(j + 1).map_values(f).drop_last() =~= views(lines@).take(
            j as int,
        ).map_values(f));
        assert(views(lines@).take(j + 1).map_values(f).last() == line@.push('\n'));
        assert(res@ =~= before + line@.push('\n'));
        j = j + 1;
    }
    res
}

/// The method that a word names.
fn method_of_word(word: &Vec<char>) -> (res: Option<HttpTypes>)
    ensures
        res == method_of(word@),
{
    if word.len() == 3 && word[0] == 'G' && word[1] == 'E' && word[2] == 'T' {
        assert(word@ =~= seq!['G', 'E', 'T']);
        Some(HttpTypes::Get)
    } else if word.len() == 4 && word[0] == 'P' && word[1] == 'O' && word[2] == 'S' && word[3]
        == 'T' {
        assert(word@ =~= seq!['P', 'O', 'S', 'T']);
        assert(word@ != seq!['G', 'E', 'T']);
        Some(HttpTypes::Post)
    } else {
        assert(word@ != seq!['G', 'E', 'T'] ==> word@.len() != 3 || word@[0] != 'G' || word@[1]
            != 'E' || word@[2] != 'T');
        None
    }
}

/// Reads one header line into `headers`.
fn read_header_line(headers: &mut Headers, line: &Vec<char>)
    ensures
        final(headers)@ == apply_header(old(headers)@, line@),
{
    let words = split_chars(line, ' ');
    let mut name = words[0].clone();
    let value = if words.len() > 1 {
        words[1].clone()
    } else {
        Vec::new()
    };
    assert(name@ == split_on(line@, ' ')[0]);
    if name.len() > 0 && value.len() > 0 {
        name.pop();
        assert(name@ =~= split_on(line@, ' ')[0].drop_last());
        headers.insert(string_from_chars(name.as_slice()), string_from_chars(value.as_slice()));
    }
}

/// The method, path and headers that the header block's lines give.
fn request_from_header_lines(lines: &Vec<Vec<char>>) -> (res: Option<(HttpTypes, String, Headers)>)
    ensures
        match request_of_header_lines(views(lines@)) {
            None => res is None,
            Some(r) => res matches Some(t) && t.0 == r.0 && t.1@ == r.1 && t.2@ == r.2,
        },
{
    if lines.len() == 0 {
        return Some((HttpTypes::Get, String::new(), Headers::new()));
    }
    let words = split_chars(&lines[0], ' ');
    let method = match method_of_word(&words[0]) {
        Some(m) => m,
        None => {
            return None;
        },
    };
    if words.len() < 2 {
        return None;
    }
    let path = string_from_chars(words[1].as_slice());
    let mut headers = Headers::new();
    let ghost rest = views(lines@).drop_first();
    let mut j: usize = 1;
    assert(rest.take(0) =~= Seq::<Seq<char>>::empty());
    while j < lines.len()
        invariant
            1 <= j <= lines@.len(),
            rest == views(lines@).drop_first(),
            headers@ == header_fold(rest.take(j - 1)),
        decreases lines@.len() - j,
    {
        read_header_line(&mut headers, &lines[j]);
        assert(rest.take(j as int).drop_last() =~= rest.take(j - 1));
        j = j + 1;
    }
    assert(rest.take(j - 1) =~= rest);
    Some((method, path, headers))
}

/// The request that a text gives (see `parse_request`).
pub fn parse_request_text(text: &Vec<char>) -> (res: Option<Request>)
    ensures
        match parse_request(text@) {
            None => res is None,
            Some(r) => res matches Some(q) && q@ == r,
        },
{
    let lines = lines_chars(text);
    let k = match find_short_line(&lines) {
        Some(k) => k,
        None => {
            return None;
        },
    };
    let header = gather_header_text(&lines, k);
    let header_lines = lines_chars(&header);
    match request_from_header_lines(&header_lines) {
        None => None,
        Some((http_type, path, headers)) => {
            let body = concat_from(&lines, k + 1);
            Some(
                Request {
                    request: RequestType { http_type: http_type, request: path },
                    body: string_from_chars(body.as_slice()),
                    headers: headers,
                },
            )
        },
    }
}

/// The request that the bytes read from a connection hold: `None` where they are not
/// UTF-8, and otherwise as `parse_request` reads their text.
pub fn get_body_and_headers(data: &[u8]) -> (res: Option<Request>)
    ensures
        !valid_utf8(data@) ==> res is None,
        valid_utf8(data@) ==> match parse_request(decode_utf8(data@)) {
            None => res is None,
            Some(r) => res matches Some(q) && q@ == r,
        },
{
    match decode_utf8_bytes(data) {
        None => None,
        Some(text) => {
            let chars = chars_of(text.as_str());
            parse_request_text(&chars)
        },
    }
}

} // verus!
