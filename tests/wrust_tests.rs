use wrust::binding::{bind_fields, FieldSpec, InjectStructTrait};
use wrust::error::RequestError;
use wrust::number::{is_float_text, parse_isize, parse_usize};
use wrust::person::{IdCounter, Person};
use wrust::query::{QueryParam, QueryParamValue, QueryParamValueType, QueryParams, QuerySchema};
use wrust::request::{HttpMethod, IpAddress, Request, RequestData};
use wrust::response::{get_status_code_description, Response, ViewFailure};
use wrust::route::{Route, RouteMethod};
use wrust::router::Router;
use wrust::server::{route_request, JobQueue, Outcome, PortRegistry, FIRST_PORT, LAST_PORT};
use wrust::table::StrMap;
use wrust::url_encoding::UrlEncoding;
use wrust::validation::{bind_query_string, validate};

fn s(text: &str) -> String {
    text.to_string()
}

fn chars(text: &str) -> Vec<char> {
    text.chars().collect()
}

fn schema_for(path: &str) -> QuerySchema {
    Route::<()>::generate_queries(s(path)).0
}

fn request_for(line: &str) -> Request {
    let lines = vec![s(line), s("Host: localhost")];
    Request::read_request_data(&lines, Some(IpAddress::from(s("127.0.0.1"), false))).unwrap()
}

fn error_message(e: &RequestError, name: &str) -> Option<String> {
    e.errors().get(&s(name)).cloned()
}

#[test]
fn route_query_parser_should_match_result() {
    let path = "/hello?age:int&name?&amount:float&is_subscribed:bool&address:string?*".to_string();
    let keys = ["age", "name", "amount", "is_subscribed", "address"];

    let (result, _) = Route::<()>::generate_queries(path);

    for key in keys {
        assert!(result.contains_key(&s(key)));
    }

    let name = result.get(&s("name")).unwrap();
    assert_eq!(name._type, QueryParamValueType::Str(String::from("")));
    assert!(name.flags.is_optional);

    let address = result.get(&s("address")).unwrap();
    assert_eq!(address._type, QueryParamValueType::Str(String::from("")));
    assert!(address.flags.is_array);
    assert!(address.flags.allow_empty);
}

#[test]
fn schema_segments_declare_types_and_flags() {
    let (schema, clean) = Route::<()>::generate_queries(s("/p?a?&b:int&c:int+&d:string?*&e:uint&f:bool&g:float"));
    assert_eq!(clean, "/p");
    assert_eq!(schema.len(), 7);
    let a = schema.get(&s("a")).unwrap();
    assert_eq!(a._type, QueryParamValueType::Str(s("")));
    assert!(a.flags.is_optional && !a.flags.is_array && !a.flags.allow_empty);
    let b = schema.get(&s("b")).unwrap();
    assert_eq!(b._type, QueryParamValueType::Int(0));
    assert!(!b.flags.is_optional && !b.flags.is_array && !b.flags.allow_empty);
    let c = schema.get(&s("c")).unwrap();
    assert_eq!(c._type, QueryParamValueType::Int(0));
    assert!(!c.flags.is_optional && c.flags.is_array && !c.flags.allow_empty);
    let d = schema.get(&s("d")).unwrap();
    assert_eq!(d._type, QueryParamValueType::Str(s("")));
    assert!(d.flags.is_optional && d.flags.is_array && d.flags.allow_empty);
    assert_eq!(schema.get(&s("e")).unwrap()._type, QueryParamValueType::UInt(0));
    assert_eq!(schema.get(&s("f")).unwrap()._type, QueryParamValueType::Boolean(false));
    assert_eq!(schema.get(&s("g")).unwrap()._type, QueryParamValueType::Float(s("")));
}

#[test]
fn schema_names_keep_their_case_and_types_ignore_case() {
    let schema = schema_for("/p?userId&Count:INT&Tags*");
    assert!(schema.contains_key(&s("userId")));
    assert!(!schema.contains_key(&s("userid")));
    assert_eq!(schema.get(&s("userId")).unwrap()._type, QueryParamValueType::Str(s("")));
    assert_eq!(schema.get(&s("Count")).unwrap()._type, QueryParamValueType::Int(0));
    assert!(schema.get(&s("Tags")).unwrap().flags.allow_empty);
}

#[test]
fn schema_skips_blank_segments_and_later_declarations_win() {
    let schema = schema_for("/p?a:int&& &a:bool");
    assert_eq!(schema.len(), 1);
    assert_eq!(schema.get(&s("a")).unwrap()._type, QueryParamValueType::Boolean(false));
}

#[test]
fn path_without_schema_is_kept() {
    let (schema, clean) = Route::<()>::generate_queries(s("/plain"));
    assert_eq!(clean, "/plain");
    assert_eq!(schema.len(), 0);
}

#[test]
fn url_encode_writes_reserved_characters_in_hex() {
    assert_eq!(UrlEncoding::url_encode(s("a b&c")), "a%20b%26c");
    assert_eq!(UrlEncoding::url_encode(s("Az09-_.~")), "Az09-_.~");
    assert_eq!(UrlEncoding::url_encode(s("é")), "%E9");
    assert_eq!(UrlEncoding::url_encode(s("")), "");
}

#[test]
fn url_round_trip_for_byte_characters() {
    let mut all = String::new();
    for code in 0u32..256 {
        all.push(char::from_u32(code).unwrap());
    }
    let encoded = UrlEncoding::url_encode(all.clone());
    assert_eq!(UrlEncoding::url_decode(encoded), Ok(all));
    let text = s("hello world / ünïcödé?&=");
    assert_eq!(UrlEncoding::url_decode(UrlEncoding::url_encode(text.clone())), Ok(text));
}

#[test]
fn url_decode_reads_percent_sequences() {
    assert_eq!(UrlEncoding::url_decode(s("a%20b")), Ok(s("a b")));
    assert_eq!(UrlEncoding::url_decode(s("%e9")), Ok(s("é")));
    assert_eq!(UrlEncoding::url_decode(s("%+F")), Ok(s("\u{f}")));
    assert_eq!(UrlEncoding::url_decode(s("plain")), Ok(s("plain")));
}

#[test]
fn url_decode_reports_bad_sequences() {
    assert_eq!(UrlEncoding::url_decode(s("%4")), Err(s("Incomplete percent-encoded sequence")));
    assert_eq!(UrlEncoding::url_decode(s("abc%")), Err(s("Incomplete percent-encoded sequence")));
    assert_eq!(UrlEncoding::url_decode(s("%zz")), Err(s("Invalid percent-encoded sequence")));
    assert_eq!(UrlEncoding::url_decode(s("%-1")), Err(s("Invalid percent-encoded sequence")));
    assert_eq!(UrlEncoding::url_decode(s("%é")), Err(s("Invalid percent-encoded sequence")));
    assert_eq!(UrlEncoding::url_decode(s("%é1")), Err(s("Incomplete percent-encoded sequence")));
}

#[test]
fn integers_parse_strictly() {
    assert_eq!(parse_usize(&chars("30")), Some(30));
    assert_eq!(parse_usize(&chars("+7")), Some(7));
    assert_eq!(parse_usize(&chars("-0")), None);
    assert_eq!(parse_usize(&chars("")), None);
    assert_eq!(parse_usize(&chars("12a")), None);
    assert_eq!(parse_usize(&chars(" 1")), None);
    assert_eq!(parse_usize(&chars("18446744073709551616")), None);
    assert_eq!(parse_usize(&chars("18446744073709551615")), Some(usize::MAX));
    assert_eq!(parse_isize(&chars("-42")), Some(-42));
    assert_eq!(parse_isize(&chars("+42")), Some(42));
    assert_eq!(parse_isize(&chars("-")), None);
    assert_eq!(parse_isize(&chars("-9223372036854775808")), Some(isize::MIN));
    assert_eq!(parse_isize(&chars("9223372036854775808")), None);
    assert_eq!(parse_isize(&chars("9223372036854775807")), Some(isize::MAX));
}

#[test]
fn float_syntax_matches_the_standard_parser() {
    for text in ["1.5", "1e5", ".5", "5.", "-2.5E-3", "+1", "inf", "-Infinity", "NaN", "007"] {
        assert!(is_float_text(&chars(text)), "{}", text);
        assert!(text.parse::<f64>().is_ok());
    }
    for text in ["", ".", "e5", "1e", "1.2.3", "1e+", " 1", "abc", "--1", "in"] {
        assert!(!is_float_text(&chars(text)), "{}", text);
        assert!(text.parse::<f64>().is_err());
    }
}

#[test]
fn boolean_coercion_never_fails() {
    for text in ["true", "t", "1"] {
        assert_eq!(
            QueryParam::generate_data(&s(text), QueryParamValueType::Boolean(false)),
            Some(QueryParamValueType::Boolean(true))
        );
    }
    for text in ["0", "", "yes", "TRUE", "false"] {
        assert_eq!(
            QueryParam::generate_data(&s(text), QueryParamValueType::Boolean(true)),
            Some(QueryParamValueType::Boolean(false))
        );
    }
}

#[test]
fn coercion_by_type() {
    assert_eq!(
        QueryParam::generate_data(&s("x y"), QueryParamValueType::Str(s(""))),
        Some(QueryParamValueType::Str(s("x y")))
    );
    assert_eq!(QueryParam::generate_data(&s("-3"), QueryParamValueType::Int(0)), Some(QueryParamValueType::Int(-3)));
    assert_eq!(QueryParam::generate_data(&s("-3"), QueryParamValueType::UInt(0)), None);
    assert_eq!(QueryParam::generate_data(&s("2.5"), QueryParamValueType::Float(s(""))), Some(QueryParamValueType::Float(s("2.5"))));
    assert_eq!(QueryParam::generate_data(&s("2,5"), QueryParamValueType::Float(s(""))), None);
}

#[test]
fn query_param_from_and_add_value() {
    let single = QueryParam::from(s("5"), QueryParamValueType::Int(0), false).unwrap();
    assert_eq!(single.value, QueryParamValue::Single(QueryParamValueType::Int(5)));
    let mut many = QueryParam::from(s("5"), QueryParamValueType::Int(0), true).unwrap();
    assert_eq!(many.value, QueryParamValue::Multiple(vec![QueryParamValueType::Int(5)]));
    let grown = many.add_value(s("6"), QueryParamValueType::Int(0)).unwrap();
    assert_eq!(
        grown.value,
        QueryParamValue::Multiple(vec![QueryParamValueType::Int(5), QueryParamValueType::Int(6)])
    );
    assert!(many.add_value(s("x"), QueryParamValueType::Int(0)).is_none());
    let mut one = single;
    let kept = one.add_value(s("9"), QueryParamValueType::Int(0)).unwrap();
    assert_eq!(kept.value, QueryParamValue::Single(QueryParamValueType::Int(5)));
    assert!(QueryParam::from(s("x"), QueryParamValueType::UInt(0), false).is_none());
}

#[test]
fn end_to_end_get_binds_typed_values() {
    let mut router: Router<u8> = Router::new();
    router.get(s("/get?name?&age:uint"), 1);
    let request = request_for("GET /get?age=30&name=Anna HTTP/1.1");
    match route_request(&router, Ok(request)) {
        Outcome::Handle(bound, handler) => {
            assert_eq!(*handler, 1);
            assert_eq!(
                bound.queries_map.get(&s("age")).unwrap().value,
                QueryParamValue::Single(QueryParamValueType::UInt(30))
            );
            assert_eq!(
                bound.queries_map.get(&s("name")).unwrap().value,
                QueryParamValue::Single(QueryParamValueType::Str(s("Anna")))
            );
        }
        _ => panic!("expected the handler"),
    }
}

#[test]
fn end_to_end_bad_value_is_dropped_and_required_fails() {
    let schema = schema_for("/get?name?&age:uint");
    let params = bind_query_string(&s("age=abc"), &schema);
    assert!(!params.contains_key(&s("age")));
    let mut router: Router<u8> = Router::new();
    router.get(s("/get?name?&age:uint"), 1);
    match route_request(&router, Ok(request_for("GET /get?age=abc HTTP/1.1"))) {
        Outcome::Reject(err) => {
            assert_eq!(err.name(), "query string");
            assert_eq!(error_message(&err, "age"), Some(s("age is required")));
            assert_eq!(err.errors().entries().len(), 1);
        }
        _ => panic!("expected a validation error"),
    }
}

#[test]
fn missing_required_keys_are_reported() {
    let schema = schema_for("/p?scalar:int&list:int+&maybe?&opt_list?+&free:string*");
    let params = bind_query_string(&s(""), &schema);
    let err = validate(&params, &schema);
    assert!(err.has_error());
    assert_eq!(error_message(&err, "scalar"), Some(s("scalar is required")));
    assert_eq!(error_message(&err, "list"), Some(s("list can not be empty")));
    assert_eq!(error_message(&err, "opt_list"), Some(s("opt_list can not be empty")));
    assert_eq!(error_message(&err, "maybe"), None);
    assert_eq!(error_message(&err, "free"), Some(s("free is required")));
}

#[test]
fn repeated_keys_collect_and_undeclared_keys_are_text_lists() {
    let schema = schema_for("/p?ids:int+&one:int");
    let params = bind_query_string(&s("ids=1&ids=x&ids=2&one=1&one=2&tag=a&tag=b&flag&=v"), &schema);
    assert_eq!(
        params.get(&s("ids")).unwrap().value,
        QueryParamValue::Multiple(vec![QueryParamValueType::Int(1), QueryParamValueType::Int(2)])
    );
    assert_eq!(params.get(&s("one")).unwrap().value, QueryParamValue::Single(QueryParamValueType::Int(1)));
    assert_eq!(
        params.get(&s("tag")).unwrap().value,
        QueryParamValue::Multiple(vec![QueryParamValueType::Str(s("a")), QueryParamValueType::Str(s("b"))])
    );
    assert_eq!(
        params.get(&s("flag")).unwrap().value,
        QueryParamValue::Multiple(vec![QueryParamValueType::Str(s(""))])
    );
    assert_eq!(
        params.get(&s("")).unwrap().value,
        QueryParamValue::Multiple(vec![QueryParamValueType::Str(s("v"))])
    );
    let empty = bind_query_string(&s(""), &schema);
    assert_eq!(empty.len(), 1);
    assert_eq!(
        empty.get(&s("")).unwrap().value,
        QueryParamValue::Multiple(vec![QueryParamValueType::Str(s(""))])
    );
}

#[test]
fn pair_value_stops_at_second_equals_sign() {
    let schema = QuerySchema::new();
    let params = bind_query_string(&s(" k=a=b "), &schema);
    assert_eq!(
        params.get(&s("k")).unwrap().value,
        QueryParamValue::Multiple(vec![QueryParamValueType::Str(s("a"))])
    );
}

#[test]
fn binding_twice_gives_the_same_result() {
    let schema = schema_for("/p?ids:int+&name&x:int");
    let mut request = request_for("GET /p?ids=1&ids=2&name=z HTTP/1.1");
    let first = request.map_queries(&schema);
    let first_ids = request.queries_map.get(&s("ids")).unwrap().value.copied();
    let second = request.map_queries(&schema);
    let second_ids = request.queries_map.get(&s("ids")).unwrap().value.copied();
    assert_eq!(first_ids, second_ids);
    let (a, b) = (first.unwrap_err(), second.unwrap_err());
    assert_eq!(error_message(&a, "x"), error_message(&b, "x"));
    assert_eq!(a.errors().entries(), b.errors().entries());
    assert_eq!(error_message(&a, "x"), Some(s("x is required")));
}

#[test]
fn request_line_is_parsed() {
    let line = Request::extract_request_line(&s("GET /a%20b?x=1&y=2 HTTP/1.1")).ok().unwrap();
    assert_eq!(line.method, HttpMethod::GET);
    assert_eq!(line.path, "/a b");
    assert_eq!(line.query_string, "x=1&y=2");
    assert_eq!(line.http_version, "HTTP/1.1");
    let post = Request::extract_request_line(&s("POST /p HTTP/2")).ok().unwrap();
    assert_eq!(post.method, HttpMethod::POST);
    assert_eq!(post.query_string, "");
}

#[test]
fn request_line_errors() {
    let err = |l: &str| Request::extract_request_line(&s(l)).err().unwrap();
    assert_eq!(err("GET /"), "Invalid Http Request");
    assert_eq!(err("GET  / HTTP/1.1"), "Invalid Http Request");
    assert_eq!(err("PUT / HTTP/1.1"), "Unknown Method");
    assert_eq!(err("GET / HTTP/1.0"), "Invalid Http Version");
    assert_eq!(err("GET /%zz HTTP/1.1"), "Invalid percent-encoded sequence");
}

#[test]
fn request_head_errors() {
    let lines = vec![s("GET / HTTP/1.1")];
    assert_eq!(Request::read_request_data(&lines, None).err().unwrap(), "No Ip Address Specified");
    let none: Vec<String> = Vec::new();
    let ip = IpAddress::from(s("::1"), true);
    assert_eq!(Request::read_request_data(&none, Some(ip)).err().unwrap(), "Invalid Http Request");
}

#[test]
fn headers_and_cookies_are_split() {
    let lines = vec![
        s("GET / HTTP/1.1"),
        s("User-Agent: tester"),
        s("Cookie: a=1; b=2=3; junk"),
        s("Content-Type: application/json"),
        s("broken header"),
    ];
    let (headers, cookies) = Request::extract_headers_and_cookies(&lines);
    assert_eq!(headers.get(&s("User-Agent")), Some(&s("tester")));
    assert_eq!(headers.get(&s("Content-Type")), Some(&s("application/json")));
    assert_eq!(headers.get(&s("Cookie")), None);
    assert_eq!(headers.entries().len(), 2);
    assert_eq!(cookies.get(&s("a")), Some(&s("1")));
    assert_eq!(cookies.get(&s("b")), Some(&s("2=3")));
    assert_eq!(cookies.entries().len(), 2);
    let request = Request::read_request_data(&lines, Some(IpAddress::from(s("10.0.0.1"), false))).ok().unwrap();
    assert_eq!(request.user_agent, "tester");
    assert_eq!(request.content_type(), "application/json");
}

#[test]
fn body_length_comes_from_content_length() {
    let lines = vec![s("POST / HTTP/1.1"), s("content-LENGTH: 12 "), s("X: y")];
    assert_eq!(Request::body_length(&lines), 12);
    let lines = vec![s("POST / HTTP/1.1"), s("Content-Length: 5"), s("Content-Length: nope")];
    assert_eq!(Request::body_length(&lines), 5);
    let lines = vec![s("POST / HTTP/1.1")];
    assert_eq!(Request::body_length(&lines), 0);
}

#[test]
fn body_is_decoded_only_for_json_posts() {
    let ct = s("Application/JSON");
    assert!(Request::wants_body(HttpMethod::POST, &ct));
    assert!(!Request::wants_body(HttpMethod::GET, &ct));
    assert!(!Request::wants_body(HttpMethod::POST, &s("text/plain")));
    match Request::extract_request_data(HttpMethod::POST, &ct, b"{\"age\": 20}".to_vec()) {
        RequestData::Json(v) => assert_eq!(v["age"], 20),
        _ => panic!("expected JSON"),
    }
    match Request::extract_request_data(HttpMethod::POST, &ct, b"{oops".to_vec()) {
        RequestData::Text(t) => assert_eq!(t, ""),
        _ => panic!("expected empty text"),
    }
    match Request::extract_request_data(HttpMethod::POST, &ct, vec![0xff, 0xfe]) {
        RequestData::Text(t) => assert_eq!(t, ""),
        _ => panic!("expected empty text"),
    }
    match Request::extract_request_data(HttpMethod::GET, &ct, b"{}".to_vec()) {
        RequestData::Text(t) => assert_eq!(t, ""),
        _ => panic!("expected empty text"),
    }
}

#[test]
fn response_defaults_and_setters() {
    let mut response = Response::new();
    assert_eq!(response.get_status(), 200);
    assert_eq!(response.get_data(), "");
    assert_eq!(response.get_content_type(), "text/plain");
    response.status(201);
    response.set_header(s("X-A"), s("1"));
    response.set_cookie(s("c"), s("2"));
    response.text(s("hi"));
    assert_eq!(response.get_status(), 201);
    assert_eq!(response.get_data(), "hi");
    assert_eq!(response.get_content_type(), "text/plain");
    response.set_header(s("Content-Type"), s("text/css"));
    assert_eq!(response.get_content_type(), "text/css");
}

#[test]
fn response_json_and_views() {
    let mut response = Response::new();
    response.json_text(Ok(s("{\"a\":1}")), "Thing");
    assert_eq!(response.get_data(), "{\"a\":1}");
    assert_eq!(response.get_content_type(), "application/json");
    assert_eq!(response.get_status(), 200);
    let mut failed = Response::new();
    failed.json_text(Err(s("boom")), "Option<Thing>");
    assert_eq!(failed.get_status(), 500);
    assert_eq!(failed.get_data(), "Serialization of \"Option<Thing>\" Failed: \"boom\"");
    let mut view = Response::new();
    view.view_outcome(Ok(s("<p>x</p>")));
    assert_eq!(view.get_content_type(), "text/html");
    assert_eq!(view.get_data(), "<p>x</p>");
    let mut denied = Response::new();
    denied.view_outcome(Err(ViewFailure::AccessDenied));
    assert_eq!((denied.get_status(), denied.get_data().as_str()), (500, "Access Denied"));
    let mut missing = Response::new();
    missing.view_outcome(Err(ViewFailure::Missing));
    assert_eq!((missing.get_status(), missing.get_data().as_str()), (404, "Not Found"));
}

#[test]
fn status_descriptions_fall_back_to_the_hundred() {
    assert_eq!(get_status_code_description(200), "OK");
    assert_eq!(get_status_code_description(404), "Not Found");
    assert_eq!(get_status_code_description(499), "Bad Request");
    assert_eq!(get_status_code_description(599), "Internal Server Error");
    assert_eq!(get_status_code_description(302), "OK");
    assert_eq!(get_status_code_description(600), "OK");
    assert_eq!(get_status_code_description(199), "OK");
    assert_eq!(get_status_code_description(250), "OK");
}

#[test]
fn response_is_serialized_for_the_wire() {
    let mut response = Response::new();
    response.status(404);
    response.text(s("héllo"));
    assert_eq!(
        response.serialize(),
        "HTTP/1.1 404 Not Found\r\nContent-Length: 6\r\nContent-Type: text/plain\r\n\r\nhéllo"
    );
    let empty = Response::new();
    assert_eq!(empty.serialize(), "HTTP/1.1 200 OK\r\nContent-Length: 0\r\nContent-Type: text/plain\r\n\r\n");
}

#[test]
fn router_resolves_exact_then_any() {
    let mut router: Router<&str> = Router::new();
    router.get(s("/a"), "get-a");
    router.all(s("a"), "any-a");
    router.post(s("/b?x:int"), "post-b");
    let r = router.get_request_endpoint(HttpMethod::GET, &s("/a")).ok().unwrap();
    assert_eq!(r.controller, "get-a");
    let r = router.get_request_endpoint(HttpMethod::POST, &s("/a")).ok().unwrap();
    assert_eq!(r.controller, "any-a");
    let r = router.get_request_endpoint(HttpMethod::POST, &s("/b")).ok().unwrap();
    assert_eq!(r.controller, "post-b");
    assert!(r.queries.contains_key(&s("x")));
    assert_eq!(
        router.get_request_endpoint(HttpMethod::GET, &s("/b")).err().unwrap(),
        "No corresponding endpoint: \"/b\""
    );
    assert!(router.get_method_endpoint(&RouteMethod::RouteAny, &s("/a")).is_some());
}

#[test]
fn router_overwrites_and_freezes() {
    let mut router: Router<u8> = Router::new();
    router.get(s("/a"), 1);
    router.get(s("/a"), 2);
    assert_eq!(router.get_request_endpoint(HttpMethod::GET, &s("/a")).ok().unwrap().controller, 2);
    router.start_listening();
    router.get(s("/a"), 3);
    router.get(s("/c"), 4);
    assert_eq!(router.get_request_endpoint(HttpMethod::GET, &s("/a")).ok().unwrap().controller, 2);
    assert!(router.get_request_endpoint(HttpMethod::GET, &s("/c")).is_err());
}

#[test]
fn route_request_outcomes() {
    let router: Router<u8> = Router::new();
    match route_request(&router, Err(s("Invalid Http Request"))) {
        Outcome::Reply(r) => {
            assert_eq!(r.get_status(), 400);
            assert_eq!(r.get_data(), "Invalid Http Request");
            assert_eq!(r.get_content_type(), "text/plain");
        }
        _ => panic!("expected a reply"),
    }
    match route_request(&router, Ok(request_for("GET /nowhere HTTP/1.1"))) {
        Outcome::Reply(r) => {
            assert_eq!(r.get_status(), 404);
            assert_eq!(r.get_data(), "No corresponding endpoint: \"/nowhere\"");
            assert_eq!(r.get_content_type(), "text/plain");
        }
        _ => panic!("expected a reply"),
    }
}

#[test]
fn request_error_collects_messages() {
    let mut err = RequestError::new(s("query string"));
    assert!(!err.has_error());
    err.set_error(s("a"), s("first"));
    err.set_error(s("a"), s("second"));
    assert!(err.has_error());
    assert_eq!(error_message(&err, "a"), Some(s("second")));
    assert_eq!(err.errors().entries().len(), 1);
}

#[test]
fn str_map_replaces_values() {
    let mut map = StrMap::new();
    assert!(map.is_empty());
    map.set(s("k"), s("1"));
    map.set(s("j"), s("2"));
    map.set(s("k"), s("3"));
    assert_eq!(map.get(&s("k")), Some(&s("3")));
    assert_eq!(map.entries().len(), 2);
}

#[test]
fn port_selection_skips_used_ports() {
    let mut ports = PortRegistry::new();
    assert_eq!(ports.next_free_port(FIRST_PORT), Some(8080));
    ports.mark_used(8080);
    ports.mark_used(8081);
    assert_eq!(ports.next_free_port(FIRST_PORT), Some(8082));
    assert_eq!(ports.next_free_port(8085), Some(8085));
    assert_eq!(ports.next_free_port(0), Some(8082));
    assert_eq!(ports.next_free_port(9000), None);
}

#[test]
fn no_port_when_all_are_used() {
    let mut ports = PortRegistry::new();
    for p in FIRST_PORT..=LAST_PORT {
        ports.mark_used(p);
    }
    assert_eq!(ports.next_free_port(FIRST_PORT), None);
    assert!(ports.is_used(8090));
    assert_eq!(wrust::server::no_port_error(), "No port is available in this range [8080, 8091]");
}

#[test]
fn job_queue_hands_out_each_job_once() {
    let mut queue = JobQueue::new();
    let workers = 3;
    let jobs = 10;
    let mut taken: Vec<(usize, u64)> = Vec::new();
    assert_eq!(queue.take(0), None);
    for k in 0..jobs {
        assert_eq!(queue.submit(), k as u64);
        if k % 2 == 0 {
            if let Some(j) = queue.take(k % workers) {
                taken.push((k % workers, j));
            }
        }
    }
    let mut w = 0;
    while let Some(j) = queue.take(w % workers) {
        taken.push((w % workers, j));
        w += 1;
    }
    let numbers: Vec<u64> = taken.iter().map(|t| t.1).collect();
    assert_eq!(numbers, (0..jobs as u64).collect::<Vec<u64>>());
    assert_eq!(queue.take(1), None);
}

#[test]
fn fields_bind_by_name_and_type() {
    let schema = schema_for("/p?id:uint&name&tags:string*&nums:int+");
    let params = bind_query_string(&s("id=4&name=Ann&tags=a&tags=b&nums=1"), &schema);
    let fields = vec![
        FieldSpec { name: s("id"), kind: QueryParamValueType::UInt(0), is_sequence: false },
        FieldSpec { name: s("tags"), kind: QueryParamValueType::Str(s("")), is_sequence: true },
    ];
    let values = bind_fields(&params, &fields).unwrap();
    assert_eq!(values[0], QueryParamValue::Single(QueryParamValueType::UInt(4)));
    assert_eq!(
        values[1],
        QueryParamValue::Multiple(vec![QueryParamValueType::Str(s("a")), QueryParamValueType::Str(s("b"))])
    );
    let wrong = vec![FieldSpec { name: s("name"), kind: QueryParamValueType::Int(0), is_sequence: false }];
    assert_eq!(bind_fields(&params, &wrong), Err(s("Missing or invalid type for field: name")));
    let mixed = bind_query_string(&s("vals=1&vals=x"), &QuerySchema::new());
    let unsigned = vec![FieldSpec { name: s("vals"), kind: QueryParamValueType::UInt(0), is_sequence: true }];
    assert_eq!(bind_fields(&mixed, &unsigned), Err(s("Missing or invalid type for field: vals")));
    let texts = vec![FieldSpec { name: s("vals"), kind: QueryParamValueType::Str(s("")), is_sequence: true }];
    assert_eq!(
        bind_fields(&mixed, &texts).unwrap()[0],
        QueryParamValue::Multiple(vec![QueryParamValueType::Str(s("1")), QueryParamValueType::Str(s("x"))])
    );
    let missing = vec![FieldSpec { name: s("zzz"), kind: QueryParamValueType::Int(0), is_sequence: true }];
    assert_eq!(bind_fields(&params, &missing), Err(s("Missing or invalid type for field: zzz")));
    let person = Person::from_hashmap(&bind_query_string(&s("id=7&name=Bo&age=40"), &schema_for("/p?id:uint&name&age:uint"))).unwrap();
    assert_eq!((person.id, person.name.as_str(), person.age), (7, "Bo", 40));
    assert!(Person::from_hashmap(&QueryParams::new()).is_err());
    let copy = QueryParams::from_hashmap(&params).unwrap();
    assert_eq!(copy.len(), params.len());
}

#[test]
fn people_are_numbered_in_order() {
    let mut ids = IdCounter::new();
    let a = Person::new(74, s("Miguel L. Hake"), &mut ids);
    let b = Person::new(45, s("Annette J. Johnson"), &mut ids);
    assert_eq!((a.id, b.id), (1, 2));
    assert_eq!(b.age, 45);
    assert_eq!(Person::init().id, 0);
}

#[test]
fn methods_map_to_route_methods() {
    assert_eq!(HttpMethod::GET.get_route_method(), RouteMethod::RouteGet);
    assert_eq!(HttpMethod::POST.get_route_method(), RouteMethod::RoutePost);
}

#[test]
fn route_builder_adds_leading_slash() {
    let b = wrust::router::RouteBuilder::new(RouteMethod::RoutePost, s("items"), 5u8);
    assert_eq!(b.path, "/items");
    assert_eq!(b.method, RouteMethod::RoutePost);
    assert_eq!(b.handler, 5);
    let kept = wrust::router::RouteBuilder::new(RouteMethod::RouteGet, s("/x"), 0u8);
    assert_eq!(kept.path, "/x");
}

#[test]
fn person_from_params_reports_first_bad_field() {
    let schema = schema_for("/p?id:uint&name&age:int");
    let params = bind_query_string(&s("id=3&name=Al&age=5"), &schema);
    assert_eq!(Person::from_params(&params).err(), Some(s("Missing or invalid type for field: age")));
    let params = bind_query_string(&s("name=Al"), &schema_for("/p?name"));
    assert_eq!(Person::from_params(&params).err(), Some(s("Missing or invalid type for field: id")));
}

#[test]
fn request_from_parts_keeps_them() {
    let line = Request::extract_request_line(&s("POST /submit?a=1 HTTP/2")).ok().unwrap();
    let request = Request::from(
        line,
        StrMap::new(),
        StrMap::new(),
        IpAddress::from(s("1.2.3.4"), false),
        RequestData::Text(s("")),
    );
    assert_eq!(request.path, "/submit");
    assert_eq!(request.query_string, "a=1");
    assert_eq!(request.http_version, "HTTP/2");
    assert_eq!(request.user_agent, "");
    assert_eq!(request.content_type(), "text/plain");
    assert_eq!(request.queries_map.len(), 0);
}

#[test]
fn blank_pairs_bind_under_the_empty_name() {
    let schema = schema_for("/x?:string");
    assert!(schema.contains_key(&s("")));
    let mut request = request_for("GET /x HTTP/1.1");
    assert!(request.map_queries(&schema).is_ok());
    assert_eq!(
        request.queries_map.get(&s("")).unwrap().value,
        QueryParamValue::Single(QueryParamValueType::Str(s("")))
    );
    let params = bind_query_string(&s("a=1& &b=2"), &QuerySchema::new());
    assert_eq!(
        params.get(&s("")).unwrap().value,
        QueryParamValue::Multiple(vec![QueryParamValueType::Str(s(""))])
    );
    assert_eq!(params.len(), 3);
}

#[test]
fn ports_are_tried_in_order_after_failures() {
    let mut ports = PortRegistry::new();
    ports.mark_used(8081);
    assert_eq!(ports.next_port_to_try(None), Some(8080));
    assert_eq!(ports.next_port_to_try(Some(8080)), Some(8082));
    assert_eq!(ports.next_port_to_try(Some(8089)), Some(8090));
    assert_eq!(ports.next_port_to_try(Some(8090)), None);
    ports.mark_used(8090);
    assert_eq!(ports.next_port_to_try(Some(8089)), None);
}
