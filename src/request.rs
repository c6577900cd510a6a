//! Requests: the request line, headers and cookies, the body, and the binding
//! of the query string against a route's schema.
use vstd::prelude::*;
use vstd::string::StringExecFns;
use vstd::utf8::{decode_utf8, valid_utf8};
use crate::error::RequestError;
use crate::number::{parse_usize, unsigned_text, word_matches, word_matches_exec};
use crate::query::{QueryParams, QuerySchema, same_chars};
use crate::route::RouteMethod;
use crate::table::StrMap;
use crate::text::{
    chars_of, slice_chars, split, split_once, split_once_text, split_text,
    string_of, trim, trim_chars, views,
};
use crate::url_encoding::{decode, UrlEncoding};
use crate::table::{distinct_keys, lookup};
use crate::validation::{
    bind, bind_query_string, empty_message, errors_for, lemma_missing_required, lemma_unbound_name,
    no_value_for, required_message, validate, validation_error_name,
};

verus! {

/// The methods a request may carry.
#[derive(Clone, Copy, Debug, PartialEq, Eq, Structural)]
pub enum HttpMethod {
    GET,
    POST,
}

#[verifier::external_type_specification]
#[verifier::external_body]
pub struct ExJsonValue(serde_json::Value);

/// A file sent with a form.
#[derive(Debug)]
pub struct File {
    name: String,
    field_name: String,
    original_name: String,
    mime_type: String,
    destination: String,
    path: String,
    encoding: String,
    size: usize,
}

/// The fields and files of a form.
#[derive(Debug)]
pub struct FormData {
    data: serde_json::Value,
    files: Vec<File>,
}

/// The decoded body of a request.
#[derive(Debug)]
pub enum RequestData {
    Json(serde_json::Value),
    Form(FormData),
    Text(String),
}

/// The parts of a request line: method, path, HTTP version, and the query
/// string that followed the path.
pub struct HttpRequestFirstLine {
    pub method: HttpMethod,
    pub path: String,
    pub http_version: String,
    pub query_string: String,
}

/// The address of the peer that sent a request.
#[derive(Debug)]
pub struct IpAddress {
    value: String,
    is_ipv6: bool,
}

/// A request as the worker handles it.
pub struct Request {
    pub path: String,
    pub method: HttpMethod,
    pub headers: StrMap,
    pub cookies: StrMap,
    pub queries_map: QueryParams,
    pub user_agent: String,
    pub ip: IpAddress,
    pub data: RequestData,
    pub http_version: String,
    pub query_string: String,
}

/// Whether a JSON parser accepts the text `s`.
pub uninterp spec fn json_accepts(s: Seq<char>) -> bool;

/// Relies on `serde_json::from_str`: the text parses as a JSON value or it
/// does not, depending on the text alone.
#[verifier::external_body]
fn parse_json(s: &str) -> (r: Option<serde_json::Value>)
    ensures
        r is Some == json_accepts(s@),
{
    serde_json::from_str(s).ok()
}

/// Relies on `String::from_utf8`: the bytes are decoded when they are
/// UTF-8, and refused when they are not.
#[verifier::external_body]
fn utf8_text(bytes: Vec<u8>) -> (r: Option<String>)
    ensures
        match r {
            Some(s) => valid_utf8(bytes@) && s@ == decode_utf8(bytes@),
            None => !valid_utf8(bytes@),
        },
{
    String::from_utf8(bytes).ok()
}

/// The views of a sequence of strings.
pub open spec fn line_views(v: Seq<String>) -> Seq<Seq<char>> {
    v.map_values(|l: String| l@)
}

/// The method that a method word names.
pub open spec fn method_of(w: Seq<char>) -> Option<HttpMethod> {
    if w == seq!['G', 'E', 'T'] {
        Some(HttpMethod::GET)
    } else if w == seq!['P', 'O', 'S', 'T'] {
        Some(HttpMethod::POST)
    } else {
        None
    }
}

/// The versions a request line may carry.
pub open spec fn is_known_version(v: Seq<char>) -> bool {
    v == seq!['H', 'T', 'T', 'P', '/', '1', '.', '1'] || v == seq!['H', 'T', 'T', 'P', '/', '2']
}

/// The message for a request that cannot be read.
pub open spec fn invalid_request_message() -> Seq<char> {
    "Invalid Http Request"@
}

/// What a request line says: three space-separated words, a known method,
/// a percent-encoded path whose query string starts at the first `?` after
/// decoding, and a known version. Otherwise the error, checked in that order.
pub open spec fn request_line(line: Seq<char>) -> Result<
    (HttpMethod, Seq<char>, Seq<char>, Seq<char>),
    Seq<char>,
> {
    let parts = split(line, seq![' ']);
    if parts.len() != 3 {
        Err(invalid_request_message())
    } else if method_of(parts[0]) is None {
        Err("Unknown Method"@)
    } else {
        match decode(parts[1]) {
            Err(e) => Err(e),
            Ok(decoded) => if !is_known_version(parts[2]) {
                Err("Invalid Http Version"@)
            } else {
                match split_once(decoded, seq!['?']) {
                    Some(pq) => Ok((method_of(parts[0])->0, pq.0, parts[2], pq.1)),
                    None => Ok((method_of(parts[0])->0, decoded, parts[2], Seq::empty())),
                }
            },
        }
    }
}

/// The cookies that the `; `-separated pieces of a `Cookie` header add to `m`.
pub open spec fn cookies_from(pieces: Seq<Seq<char>>, m: Map<Seq<char>, Seq<char>>) -> Map<
    Seq<char>,
    Seq<char>,
>
    decreases pieces.len(),
{
    if pieces.len() == 0 {
        m
    } else {
        let before = cookies_from(pieces.drop_last(), m);
        match split_once(pieces.last(), seq!['=']) {
            Some(kv) => before.insert(kv.0, kv.1),
            None => before,
        }
    }
}

/// The name of the header that carries cookies.
pub open spec fn cookie_header() -> Seq<char> {
    seq!['C', 'o', 'o', 'k', 'i', 'e']
}

/// The headers and cookies after one more header line `Name: value`; a line
/// without `: ` is skipped, and the `Cookie` header goes to the cookies.
pub open spec fn header_step(
    acc: (Map<Seq<char>, Seq<char>>, Map<Seq<char>, Seq<char>>),
    line: Seq<char>,
) -> (Map<Seq<char>, Seq<char>>, Map<Seq<char>, Seq<char>>) {
    match split_once(line, seq![':', ' ']) {
        None => acc,
        Some(nv) => if nv.0 == cookie_header() {
            (acc.0, cookies_from(split(nv.1, seq![';', ' ']), acc.1))
        } else {
            (acc.0.insert(nv.0, nv.1), acc.1)
        },
    }
}

/// The headers and cookies of the lines of a request head after its first
/// line.
pub open spec fn header_maps(lines: Seq<Seq<char>>) -> (
    Map<Seq<char>, Seq<char>>,
    Map<Seq<char>, Seq<char>>,
)
    decreases lines.len(),
{
    if lines.len() <= 1 {
        (Map::empty(), Map::empty())
    } else {
        header_step(header_maps(lines.drop_last()), lines.last())
    }
}

/// The header name `Content-Length:` in lower case.
pub open spec fn content_length_prefix() -> Seq<char> {
    seq![
        'c', 'o', 'n', 't', 'e', 'n', 't', '-', 'l', 'e', 'n', 'g', 't', 'h', ':',
    ]
}

/// The body length after one more head line: a line that starts with
/// `content-length:` in any case and goes on with an unsigned number that
/// fits sets it; any other line leaves it.
pub open spec fn length_step(acc: nat, line: Seq<char>) -> nat {
    if line.len() >= 15 && word_matches(line.take(15), content_length_prefix()) {
        match unsigned_text(trim(line.skip(15))) {
            Some(v) => if v <= usize::MAX {
                v
            } else {
                acc
            },
            None => acc,
        }
    } else {
        acc
    }
}

/// The body length that the lines of a request head announce; zero when
/// none does.
pub open spec fn body_length_of(lines: Seq<Seq<char>>) -> nat
    decreases lines.len(),
{
    if lines.len() == 0 {
        0
    } else {
        length_step(body_length_of(lines.drop_last()), lines.last())
    }
}

/// The content type that announces a JSON body.
pub open spec fn json_content_type() -> Seq<char> {
    seq![
        'a', 'p', 'p', 'l', 'i', 'c', 'a', 't', 'i', 'o', 'n', '/', 'j', 's', 'o', 'n',
    ]
}

/// Whether a body is read: only for `POST` with the JSON content type, in
/// any case.
pub open spec fn body_wanted(method: HttpMethod, content_type: Seq<char>) -> bool {
    method == HttpMethod::POST && word_matches(content_type, json_content_type())
}

/// Whether the body bytes decode to a JSON value.
pub open spec fn body_is_json(body: Seq<u8>) -> bool {
    valid_utf8(body) && json_accepts(decode_utf8(body))
}

impl HttpMethod {
    /// The route method under which a request with this method is looked up
    /// first.
    pub fn get_route_method(&self) -> (r: RouteMethod)
        ensures
            *self == HttpMethod::GET ==> r == RouteMethod::RouteGet,
            *self == HttpMethod::POST ==> r == RouteMethod::RoutePost,
    {
        match self {
            HttpMethod::GET => RouteMethod::RouteGet,
            HttpMethod::POST => RouteMethod::RoutePost,
        }
    }
}

impl IpAddress {
    /// An address with the text `value`.
    pub fn from(value: String, is_ipv6: bool) -> (r: IpAddress)
        ensures
            r.value() == value@,
            r.is_ipv6() == is_ipv6,
    {
        IpAddress { value, is_ipv6 }
    }

    /// The text of the address.
    pub closed spec fn value(&self) -> Seq<char> {
        self.value@
    }

    /// Whether the address is an IPv6 one.
    pub closed spec fn is_ipv6(&self) -> bool {
        self.is_ipv6
    }
}

/// The view of a request line.
pub open spec fn first_line_view(l: HttpRequestFirstLine) -> (
    HttpMethod,
    Seq<char>,
    Seq<char>,
    Seq<char>,
) {
    (l.method, l.path@, l.http_version@, l.query_string@)
}

impl Request {
    /// A request from its parts, with no parameters bound yet.
    pub fn from(
        request_line: HttpRequestFirstLine,
        headers: StrMap,
        cookies: StrMap,
        ip: IpAddress,
        data: RequestData,
    ) -> (r: Request)
        ensures
            r.path@ == request_line.path@,
            r.method == request_line.method,
            r.http_version@ == request_line.http_version@,
            r.query_string@ == request_line.query_string@,
            r.headers@ == headers@,
            r.cookies@ == cookies@,
            r.ip == ip,
            r.data == data,
            r.queries_map@.len() == 0,
            headers@.contains_key("User-Agent"@) ==> r.user_agent@ == headers@["User-Agent"@],
            !headers@.contains_key("User-Agent"@) ==> r.user_agent@.len() == 0,
    {
        let user_agent = match headers.get(&String::from_str("User-Agent")) {
            Some(v) => v.clone(),
            None => String::new(),
        };
        Request {
            path: request_line.path,
            method: request_line.method,
            user_agent,
            http_version: request_line.http_version,
            query_string: request_line.query_string,
            queries_map: QueryParams::new(),
            data,
            headers,
            cookies,
            ip,
        }
    }

    /// Binds the query string against `schema`, replacing the parameters
    /// bound before, and checks the schema against them: an error with a
    /// message for each declared parameter that is wrong, when there is one.
    pub fn map_queries(&mut self, schema: &QuerySchema) -> (r: Result<(), RequestError>)
        ensures
            map_queries_post(*old(self), *final(self), schema@, r),
    {
        schema.distinct_names();
        let params = bind_query_string(&self.query_string, schema);
        let request_error = validate(&params, schema);
        self.queries_map = params;
        if request_error.has_error() {
            Err(request_error)
        } else {
            Ok(())
        }
    }

    /// The request that a request head makes: its first line, then header
    /// lines, read from a peer at `ip`. The body is left empty.
    pub fn read_request_data(lines: &Vec<String>, ip: Option<IpAddress>) -> (r: Result<
        Request,
        String,
    >)
        ensures
            ip is None ==> (r matches Err(e) && e@ == "No Ip Address Specified"@),
            ip is Some && lines.len() == 0 ==> (r matches Err(e) && e@ == invalid_request_message()),
            ip is Some && lines.len() > 0 ==> match request_line(lines@[0]@) {
                Err(m) => r matches Err(e) && e@ == m,
                Ok(l) => r matches Ok(q) && (q.method, q.path@, q.http_version@, q.query_string@)
                    == l && q.headers@ == header_maps(line_views(lines@)).0 && q.cookies@
                    == header_maps(line_views(lines@)).1 && q.ip == ip->0 && (q.data matches RequestData::Text(
                    t,
                ) && t@.len() == 0) && q.queries_map@.len() == 0 && q.user_agent@ == (if q.headers@.contains_key(
                    "User-Agent"@,
                ) {
                    q.headers@["User-Agent"@]
                } else {
                    Seq::<char>::empty()
                }),
            },
    {
        let ip = match ip {
            Some(ip) => ip,
            None => {
                return Err(String::from_str("No Ip Address Specified"));
            },
        };
        if lines.len() == 0 {
            return Err(String::from_str("Invalid Http Request"));
        }
        let request_line = match Self::extract_request_line(&lines[0]) {
            Ok(l) => l,
            Err(e) => {
                return Err(e);
            },
        };
        let (headers, cookies) = Self::extract_headers_and_cookies(lines);
        Ok(Self::from(request_line, headers, cookies, ip, RequestData::Text(String::new())))
    }

    /// The parts of a request line.
    pub fn extract_request_line(request: &String) -> (r: Result<HttpRequestFirstLine, String>)
        ensures
            match request_line(request@) {
                Ok(l) => r matches Ok(x) && first_line_view(x) == l,
                Err(m) => r matches Err(e) && e@ == m,
            },
    {
        let chars = chars_of(request.as_str());
        let space = vec![' '];
        assert(space@ =~= seq![' ']);
        let request_split = split_text(&chars, &space);
        if request_split.len() != 3 {
            return Err(String::from_str("Invalid Http Request"));
        }
        assert(views(request_split@)[0] == request_split@[0]@);
        assert(views(request_split@)[1] == request_split@[1]@);
        assert(views(request_split@)[2] == request_split@[2]@);
        let w_get = vec!['G', 'E', 'T'];
        let w_post = vec!['P', 'O', 'S', 'T'];
        assert(w_get@ =~= seq!['G', 'E', 'T']);
        assert(w_post@ =~= seq!['P', 'O', 'S', 'T']);
        let method = if same_chars(&request_split[0], &w_get) {
            HttpMethod::GET
        } else if same_chars(&request_split[0], &w_post) {
            HttpMethod::POST
        } else {
            return Err(String::from_str("Unknown Method"));
        };
        let decoded = match UrlEncoding::url_decode(string_of(&request_split[1])) {
            Ok(d) => d,
            Err(e) => {
                return Err(e);
            },
        };
        let v11 = vec!['H', 'T', 'T', 'P', '/', '1', '.', '1'];
        let v2 = vec!['H', 'T', 'T', 'P', '/', '2'];
        assert(v11@ =~= seq!['H', 'T', 'T', 'P', '/', '1', '.', '1']);
        assert(v2@ =~= seq!['H', 'T', 'T', 'P', '/', '2']);
        if !(same_chars(&request_split[2], &v11) || same_chars(&request_split[2], &v2)) {
            return Err(String::from_str("Invalid Http Version"));
        }
        let question = vec!['?'];
        assert(question@ =~= seq!['?']);
        let decoded_chars = chars_of(decoded.as_str());
        let (path, query_string) = match split_once_text(&decoded_chars, &question) {
            Some((endpoint, queries)) => (string_of(&endpoint), string_of(&queries)),
            None => (decoded, String::new()),
        };
        Ok(
            HttpRequestFirstLine {
                method,
                path,
                http_version: string_of(&request_split[2]),
                query_string,
            },
        )
    }

    /// The headers and cookies of the lines after the first: each line
    /// `Name: value` sets a header, except `Cookie`, whose `; `-separated
    /// `name=value` pieces set cookies.
    pub fn extract_headers_and_cookies(request: &Vec<String>) -> (r: (StrMap, StrMap))
        ensures
            (r.0@, r.1@) == header_maps(line_views(request@)),
    {
        let mut headers = StrMap::new();
        let mut cookies = StrMap::new();
        let sep = vec![':', ' '];
        let cookie_sep = vec![';', ' '];
        let eq = vec!['='];
        let cookie_name = vec!['C', 'o', 'o', 'k', 'i', 'e'];
        assert(sep@ =~= seq![':', ' ']);
        assert(cookie_sep@ =~= seq![';', ' ']);
        assert(eq@ =~= seq!['=']);
        assert(cookie_name@ =~= cookie_header());
        let ghost lv = line_views(request@);
        let mut i: usize = 1;
        if request.len() == 0 {
            return (headers, cookies);
        }
        assert(lv.take(1).len() == 1);
        while i < request.len()
            invariant
                1 <= i <= request.len(),
                lv == line_views(request@),
                sep@ == seq![':', ' '],
                cookie_sep@ == seq![';', ' '],
                eq@ == seq!['='],
                cookie_name@ == cookie_header(),
                (headers@, cookies@) == header_maps(lv.take(i as int)),
            decreases request.len() - i,
        {
            assert(lv.take(i + 1).drop_last() =~= lv.take(i as int));
            assert(lv[i as int] == request@[i as int]@);
            let line = chars_of(request[i].as_str());
            match split_once_text(&line, &sep) {
                Some((header_name, header_value)) => {
                    if same_chars(&header_name, &cookie_name) {
                        let pieces = split_text(&header_value, &cookie_sep);
                        let ghost ps = views(pieces@);
                        let ghost start = cookies@;
                        let mut j: usize = 0;
                        while j < pieces.len()
                            invariant
                                j <= pieces.len(),
                                ps == views(pieces@),
                                eq@ == seq!['='],
                                cookies@ == cookies_from(ps.take(j as int), start),
                            decreases pieces.len() - j,
                        {
                            assert(ps.take(j + 1).drop_last() =~= ps.take(j as int));
                            assert(ps[j as int] == pieces@[j as int]@);
                            match split_once_text(&pieces[j], &eq) {
                                Some((cookie_name_part, cookie_value)) => {
                                    cookies.set(string_of(&cookie_name_part), string_of(&cookie_value));
                                },
                                None => {},
                            }
                            j += 1;
                        }
                        assert(ps.take(pieces.len() as int) =~= ps);
                    } else {
                        headers.set(string_of(&header_name), string_of(&header_value));
                    }
                },
                None => {},
            }
            i += 1;
        }
        assert(lv.take(request.len() as int) =~= lv);
        (headers, cookies)
    }

    /// The body length that the lines of a request head announce with a
    /// `Content-Length` header, in any case; zero when none does.
    pub fn body_length(lines: &Vec<String>) -> (r: usize)
        ensures
            r == body_length_of(line_views(lines@)),
    {
        let prefix = vec![
            'c', 'o', 'n', 't', 'e', 'n', 't', '-', 'l', 'e', 'n', 'g', 't', 'h', ':',
        ];
        assert(prefix@ =~= content_length_prefix());
        let ghost lv = line_views(lines@);
        let mut content_length: usize = 0;
        let mut i: usize = 0;
        while i < lines.len()
            invariant
                i <= lines.len(),
                lv == line_views(lines@),
                prefix@ == content_length_prefix(),
                content_length == body_length_of(lv.take(i as int)),
            decreases lines.len() - i,
        {
            assert(lv.take(i + 1).drop_last() =~= lv.take(i as int));
            assert(lv[i as int] == lines@[i as int]@);
            let line = chars_of(lines[i].as_str());
            if line.len() >= 15 {
                let head = slice_chars(&line, 0, 15);
                assert(head@ =~= line@.take(15));
                if word_matches_exec(&head, &prefix) {
                    let rest = slice_chars(&line, 15, line.len());
                    assert(rest@ =~= line@.skip(15));
                    match parse_usize(&trim_chars(&rest)) {
                        Some(value) => {
                            content_length = value;
                        },
                        None => {},
                    }
                }
            }
            i += 1;
        }
        assert(lv.take(lines.len() as int) =~= lv);
        content_length
    }

    /// The content type that the headers announce, `text/plain` when none.
    pub fn content_type(&self) -> (r: String)
        ensures
            self.headers@.contains_key("Content-Type"@) ==> r@ == self.headers@["Content-Type"@],
            !self.headers@.contains_key("Content-Type"@) ==> r@ == "text/plain"@,
    {
        match self.headers.get(&String::from_str("Content-Type")) {
            Some(v) => v.clone(),
            None => String::from_str("text/plain"),
        }
    }

    /// Whether a body with the method `method` and the content type
    /// `content_type` is read and decoded.
    pub fn wants_body(method: HttpMethod, content_type: &String) -> (r: bool)
        ensures
            r == body_wanted(method, content_type@),
    {
        let json = vec![
            'a', 'p', 'p', 'l', 'i', 'c', 'a', 't', 'i', 'o', 'n', '/', 'j', 's', 'o', 'n',
        ];
        assert(json@ =~= json_content_type());
        method == HttpMethod::POST && word_matches_exec(&chars_of(content_type.as_str()), &json)
    }

    /// The decoded body: a JSON value when a body is wanted and its bytes
    /// are UTF-8 text that parses as JSON, and empty text otherwise.
    pub fn extract_request_data(method: HttpMethod, content_type: &String, body: Vec<u8>) -> (r:
        RequestData)
        ensures
            body_wanted(method, content_type@) && body_is_json(body@) <==> r is Json,
            !(r is Json) ==> (r matches RequestData::Text(t) && t@.len() == 0),
    {
        if Self::wants_body(method, content_type) {
            match utf8_text(body) {
                Some(body_string) => match parse_json(body_string.as_str()) {
                    Some(value) => {
                        return RequestData::Json(value);
                    },
                    None => {},
                },
                None => {},
            }
        }
        RequestData::Text(String::new())
    }
}

/// What binding a request's query string against `schema`, whose names are
/// distinct as in every schema, does: the bound
/// parameters replace the earlier ones, the rest of the request stays, and
/// the result is an error exactly when some declared parameter is wrong.
pub open spec fn map_queries_post(
    before: Request,
    after: Request,
    schema: Seq<(Seq<char>, (crate::query::TypedValue, crate::query::Flags))>,
    r: Result<(), RequestError>,
) -> bool {
    let errors = errors_for(schema, after.queries_map@);
    &&& distinct_keys(schema)
    &&& after.queries_map@ == bind(before.query_string@, schema)
    &&& after.query_string == before.query_string
    &&& after.path == before.path
    &&& after.method == before.method
    &&& after.headers == before.headers
    &&& after.cookies == before.cookies
    &&& after.user_agent == before.user_agent
    &&& after.ip == before.ip
    &&& after.data == before.data
    &&& after.http_version == before.http_version
    &&& (errors.dom() =~= Set::<Seq<char>>::empty() <==> r is Ok)
    &&& (r matches Err(e) ==> e@ == (validation_error_name(), errors))
}

/// Binding a request whose query string gives a required parameter no value
/// of its type fails, and the error reports that parameter under its name:
/// "is required" for a single value, "can not be empty" for a collection that
/// must not be empty.
pub proof fn lemma_map_queries_missing(
    before: Request,
    after: Request,
    schema: Seq<(Seq<char>, (crate::query::TypedValue, crate::query::Flags))>,
    r: Result<(), RequestError>,
    name: Seq<char>,
)
    requires
        map_queries_post(before, after, schema, r),
        lookup(schema, name) matches Some(t) && !t.1.is_optional,
        no_value_for(split(before.query_string@, seq!['&']), schema, name),
    ensures
        r matches Err(e) && e@.1.contains_key(name) && match lookup(schema, name) {
            Some(t) => e@.1[name] == if t.1.is_array && !t.1.allow_empty {
                empty_message(name)
            } else {
                required_message(name)
            },
            None => false,
        },
{
    lemma_unbound_name(split(before.query_string@, seq!['&']), schema, name);
    lemma_missing_required(schema, after.queries_map@, name);
    let errors = errors_for(schema, after.queries_map@);
    assert(errors.dom().contains(name));
    assert(!(errors.dom() =~= Set::<Seq<char>>::empty()));
}

/// Binding is idempotent: binding the same request twice against the same
/// schema gives the same parameters and the same result.
pub proof fn lemma_binding_idempotent(
    r0: Request,
    r1: Request,
    r2: Request,
    schema: Seq<(Seq<char>, (crate::query::TypedValue, crate::query::Flags))>,
    res1: Result<(), RequestError>,
    res2: Result<(), RequestError>,
)
    requires
        map_queries_post(r0, r1, schema, res1),
        map_queries_post(r1, r2, schema, res2),
    ensures
        r2.queries_map@ == r1.queries_map@,
        res1 is Ok <==> res2 is Ok,
        res1 matches Err(e1) ==> res2 matches Err(e2) && e1@ == e2@,
{
}

} // verus!
