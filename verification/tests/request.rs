use chat::request::{
    decode_escapes, form_value, passed_over_parts, header_value, parse_content_type, parse_field, parse_form_url_encoded_params,
    parse_method, parse_path, read_raw_request, split_text, ContentType, HttpMethod, HttpRequest,
    RequestError,
};
use chat::state::{State, StaticFiles, ThreadSafeChatRoom};
use chat::text_map::TextMap;

fn text_of(s: &str) -> Vec<char> {
    s.chars().collect()
}

fn read_buffer(request: &[u8]) -> Vec<u8> {
    let mut buffer = vec![0u8; 4096];
    buffer[..request.len()].copy_from_slice(request);
    buffer
}

fn pages() -> StaticFiles {
    let mut files = TextMap::new();
    files.insert(String::from("login.html"), String::from("<login>"));
    files.insert(String::from("chat.html"), String::from("<chat>"));
    files.insert(String::from("404.html"), String::from("<missing>"));
    match StaticFiles::new(files) {
        Ok(files) => files,
        Err(page) => panic!("missing {:?}", page),
    }
}

fn request_of(request: &[u8]) -> HttpRequest<ThreadSafeChatRoom> {
    match HttpRequest::new(
        &read_buffer(request),
        request.len(),
        pages(),
        ThreadSafeChatRoom::new(),
    ) {
        Ok(request) => request,
        Err(error) => panic!("not read: {:?}", error),
    }
}

#[test]
fn get_messages_request_line_round_trip() {
    let request = request_of(b"GET /messages HTTP/1.1\r\n\r\n");
    assert_eq!(request.method, HttpMethod::Get);
    assert_eq!(request.path, Some(String::from("/messages")));
    assert_eq!(request.content_type, None);
    assert!(!request.form_data.contains_key("sender"));
    assert!(!request.form_data.contains_key(""));
    assert_eq!(request.route(), "GET /messages");
}

#[test]
fn form_body_is_decoded() {
    let form = match parse_form_url_encoded_params(&text_of(
        "POST /messages HTTP/1.1\r\n\r\nsender=alice&content=hi+there",
    )) {
        Ok(form) => form,
        Err(error) => panic!("not decoded: {:?}", error),
    };
    assert_eq!(form.get("sender"), Some(&String::from("alice")));
    assert_eq!(form.get("content"), Some(&String::from("hi there")));
    assert_eq!(form.get("other"), None);
}

#[test]
fn form_values_are_percent_decoded() {
    let form = match parse_form_url_encoded_params(&text_of(
        "POST / HTTP/1.1\r\n\r\na=%41%20b&b=caf%C3%A9&c=1%2B1&d=100%25&e=%zz%4",
    )) {
        Ok(form) => form,
        Err(error) => panic!("not decoded: {:?}", error),
    };
    assert_eq!(form.get("a"), Some(&String::from("A b")));
    assert_eq!(form.get("b"), Some(&String::from("caf\u{e9}")));
    assert_eq!(form.get("c"), Some(&String::from("1 1")));
    assert_eq!(form.get("d"), Some(&String::from("100%")));
    assert_eq!(form.get("e"), Some(&String::from("%zz%4")));
}

#[test]
fn form_keys_are_kept_as_they_are() {
    let form = match parse_form_url_encoded_params(&text_of("\r\n\r\na%20b=1&c+d=2")) {
        Ok(form) => form,
        Err(error) => panic!("not decoded: {:?}", error),
    };
    assert_eq!(form.get("a%20b"), Some(&String::from("1")));
    assert_eq!(form.get("c+d"), Some(&String::from("2")));
    assert_eq!(form.get("a b"), None);
}

#[test]
fn malformed_pairs_are_passed_over() {
    let form = match parse_form_url_encoded_params(&text_of(
        "\r\n\r\nnovalue&a=1&b=2=3&&=empty&c=",
    )) {
        Ok(form) => form,
        Err(error) => panic!("not decoded: {:?}", error),
    };
    assert_eq!(form.get("a"), Some(&String::from("1")));
    assert_eq!(form.get("b"), None);
    assert_eq!(form.get("novalue"), None);
    assert_eq!(form.get(""), Some(&String::from("empty")));
    assert_eq!(form.get("c"), Some(&String::from("")));
}

#[test]
fn later_field_replaces_earlier_one() {
    let form = match parse_form_url_encoded_params(&text_of("\r\n\r\na=1&b=2&a=3")) {
        Ok(form) => form,
        Err(error) => panic!("not decoded: {:?}", error),
    };
    assert_eq!(form.get("a"), Some(&String::from("3")));
    assert_eq!(form.get("b"), Some(&String::from("2")));
}

#[test]
fn undecodable_value_fails_the_form() {
    assert_eq!(
        parse_form_url_encoded_params(&text_of("\r\n\r\na=1&b=%FF&c=3")).err(),
        Some(RequestError::UndecodableBody)
    );
    assert_eq!(
        parse_form_url_encoded_params(&text_of("\r\n\r\nname=%C3")).err(),
        Some(RequestError::UndecodableBody)
    );
}

#[test]
fn undecodable_value_in_a_malformed_pair_is_passed_over() {
    let form = match parse_form_url_encoded_params(&text_of("\r\n\r\n%FF&a=1&b=%FF=2")) {
        Ok(form) => form,
        Err(error) => panic!("not decoded: {:?}", error),
    };
    assert_eq!(form.get("a"), Some(&String::from("1")));
}

#[test]
fn body_starts_behind_the_first_empty_line() {
    let form = match parse_form_url_encoded_params(&text_of(
        "POST / HTTP/1.1\r\nA: b\r\n\r\nx=1\r\n\r\ny=2",
    )) {
        Ok(form) => form,
        Err(error) => panic!("not decoded: {:?}", error),
    };
    assert_eq!(form.get("x"), None);
    assert_eq!(form.get("y"), None);
    let single = match parse_form_url_encoded_params(&text_of(
        "POST / HTTP/1.1\r\nA: b\r\n\r\nx=1\r\n\r\ny",
    )) {
        Ok(form) => form,
        Err(error) => panic!("not decoded: {:?}", error),
    };
    assert_eq!(single.get("x"), Some(&String::from("1\r\n\r\ny")));
}

#[test]
fn request_without_empty_line_has_no_body() {
    let form = match parse_form_url_encoded_params(&text_of("POST /a=b HTTP/1.1\r\nA: b\r\n")) {
        Ok(form) => form,
        Err(error) => panic!("not decoded: {:?}", error),
    };
    assert_eq!(form.get("POST /a"), None);
}

#[test]
fn method_is_the_first_token() {
    assert_eq!(parse_method(&text_of("GET / HTTP/1.1\r\n\r\n")), HttpMethod::Get);
    assert_eq!(parse_method(&text_of("POST /chat HTTP/1.1\r\n\r\n")), HttpMethod::Post);
    assert_eq!(parse_method(&text_of("GET")), HttpMethod::Get);
    assert_eq!(parse_method(&text_of("GET\r\nPOST /")), HttpMethod::Get);
    assert_eq!(parse_method(&text_of("GET\nHost: x")), HttpMethod::Get);
}

#[test]
fn other_methods_are_unrecognized() {
    assert_eq!(parse_method(&text_of("PUT / HTTP/1.1\r\n\r\n")), HttpMethod::Unrecognized);
    assert_eq!(parse_method(&text_of("get / HTTP/1.1\r\n\r\n")), HttpMethod::Unrecognized);
    assert_eq!(parse_method(&text_of("GETS / HTTP/1.1")), HttpMethod::Unrecognized);
    assert_eq!(parse_method(&text_of(" GET / HTTP/1.1")), HttpMethod::Unrecognized);
    assert_eq!(parse_method(&text_of("")), HttpMethod::Unrecognized);
    assert_eq!(parse_method(&text_of("\r\nGET /")), HttpMethod::Unrecognized);
    assert_eq!(parse_method(&text_of("GET\r")), HttpMethod::Unrecognized);
}

#[test]
fn path_is_the_second_token() {
    assert_eq!(
        parse_path(&text_of("GET /messages HTTP/1.1\r\n\r\n")),
        Some(String::from("/messages"))
    );
    assert_eq!(parse_path(&text_of("GET /")), Some(String::from("/")));
    assert_eq!(parse_path(&text_of("GET /a\r\nHost: x y")), Some(String::from("/a")));
    assert_eq!(parse_path(&text_of("GET /a\nHost: x y")), Some(String::from("/a")));
    assert_eq!(parse_path(&text_of("GET  /a")), Some(String::from("")));
    assert_eq!(parse_path(&text_of("GET ")), Some(String::from("")));
    assert_eq!(
        parse_path(&text_of("GET /caf\u{e9}?q=1 HTTP/1.1")),
        Some(String::from("/caf\u{e9}?q=1"))
    );
}

#[test]
fn request_line_without_a_second_token_has_no_path() {
    assert_eq!(parse_path(&text_of("GET")), None);
    assert_eq!(parse_path(&text_of("GET\r\nHost: x")), None);
    assert_eq!(parse_path(&text_of("")), None);
    assert_eq!(parse_path(&text_of("\r\n\r\n")), None);
    let request = request_of(b"GARBAGE\r\n\r\n");
    assert_eq!(request.method, HttpMethod::Unrecognized);
    assert_eq!(request.path, None);
    assert_eq!(request.route(), "NONE -");
}

#[test]
fn header_is_found_whatever_its_case() {
    let headers = text_of("GET / HTTP/1.1\r\nHost: a\r\ncOnTeNt-TyPe: text/Plain\r\nX: y");
    assert_eq!(
        header_value(&headers, "Content-Type"),
        Some(String::from("text/Plain"))
    );
    assert_eq!(
        header_value(&headers, "CONTENT-TYPE"),
        Some(String::from("text/Plain"))
    );
    assert_eq!(header_value(&headers, "host"), Some(String::from("a")));
    assert_eq!(header_value(&headers, "X"), Some(String::from("y")));
    assert_eq!(header_value(&headers, "Content-Length"), None);
    assert_eq!(header_value(&headers, "Content"), None);
}

#[test]
fn header_needs_its_own_line_and_a_space() {
    assert_eq!(header_value(&text_of("Content-Type: a\r\n"), "Content-Type"), None);
    assert_eq!(
        header_value(&text_of("GET /\r\nContent-Type:a\r\n"), "Content-Type"),
        None
    );
    assert_eq!(
        header_value(&text_of("GET /\nContent-Type: a\r\n"), "Content-Type"),
        None
    );
    assert_eq!(
        header_value(&text_of("GET /\r\nContent-Type: \r\n"), "Content-Type"),
        Some(String::from(""))
    );
    assert_eq!(
        header_value(
            &text_of("GET /\r\nContent-Type: first\r\nContent-Type: second\r\n"),
            "Content-Type"
        ),
        Some(String::from("first"))
    );
}

#[test]
fn header_search_keeps_its_place_behind_other_letters() {
    let headers = text_of("GET /\u{130}\u{212a} HTTP/1.1\r\nContent-Type: a b\r\nX: y");
    assert_eq!(header_value(&headers, "Content-Type"), Some(String::from("a b")));
}

#[test]
fn content_type_is_read_from_the_headers_only() {
    assert_eq!(
        parse_content_type(&text_of(
            "POST / HTTP/1.1\r\nContent-Type: application/x-www-form-urlencoded\r\n\r\na=1"
        )),
        Some(ContentType::ApplicationFormUrlEncoded)
    );
    assert_eq!(
        parse_content_type(&text_of(
            "POST / HTTP/1.1\r\ncontent-type: application/x-www-form-urlencoded\r\nA: b\r\n\r\n"
        )),
        Some(ContentType::ApplicationFormUrlEncoded)
    );
    assert_eq!(parse_content_type(&text_of("GET / HTTP/1.1\r\nHost: x\r\n\r\n")), None);
    assert_eq!(
        parse_content_type(&text_of(
            "POST / HTTP/1.1\r\n\r\nx\r\nContent-Type: application/x-www-form-urlencoded\r\n"
        )),
        None
    );
}

#[test]
fn other_content_types_are_unsupported() {
    assert_eq!(
        parse_content_type(&text_of("POST / HTTP/1.1\r\nContent-Type: text/plain\r\n\r\n")),
        Some(ContentType::Unsupported)
    );
    assert_eq!(
        parse_content_type(&text_of(
            "POST / HTTP/1.1\r\nContent-Type: Application/X-WWW-Form-Urlencoded\r\n\r\n"
        )),
        Some(ContentType::Unsupported)
    );
    assert_eq!(
        ContentType::from(String::from("application/json")),
        ContentType::Unsupported
    );
    assert_eq!(
        ContentType::from(String::from("application/x-www-form-urlencoded")),
        ContentType::ApplicationFormUrlEncoded
    );
    let request = request_of(b"POST /chat HTTP/1.1\r\nContent-Type: text/plain\r\n\r\nusername=bob");
    assert_eq!(request.content_type, Some(ContentType::Unsupported));
    assert!(!request.form_data.contains_key("username"));
}

#[test]
fn content_types_have_their_media_types() {
    assert_eq!(
        ContentType::ApplicationFormUrlEncoded.as_str(),
        "application/x-www-form-urlencoded"
    );
    assert_eq!(ContentType::Html.as_str(), "text/html");
    assert_eq!(ContentType::Json.as_str(), "application/json");
    assert_eq!(ContentType::TextPlain.as_str(), "text/plain");
    assert_eq!(ContentType::Unsupported.as_str(), "");
}

#[test]
fn methods_from_strings_and_back() {
    assert_eq!(HttpMethod::from(String::from("GET")), HttpMethod::Get);
    assert_eq!(HttpMethod::from(String::from("POST")), HttpMethod::Post);
    assert_eq!(HttpMethod::from(String::from("DELETE")), HttpMethod::Unrecognized);
    assert_eq!(HttpMethod::from(String::from("")), HttpMethod::Unrecognized);
    assert_eq!(HttpMethod::Get.to_string(), "GET");
    assert_eq!(HttpMethod::Post.to_string(), "POST");
    assert_eq!(HttpMethod::Unrecognized.to_string(), "NONE");
}

#[test]
fn form_is_read_only_where_it_is_declared() {
    let request = request_of(
        b"POST /chat HTTP/1.1\r\nContent-Type: application/x-www-form-urlencoded\r\n\r\nusername=bob",
    );
    assert_eq!(request.method, HttpMethod::Post);
    assert_eq!(request.path, Some(String::from("/chat")));
    assert_eq!(
        request.content_type,
        Some(ContentType::ApplicationFormUrlEncoded)
    );
    assert_eq!(request.form_data.get("username"), Some(&String::from("bob")));
    assert_eq!(request.route(), "POST /chat");

    let undeclared = request_of(b"POST /chat HTTP/1.1\r\n\r\nusername=bob");
    assert_eq!(undeclared.content_type, None);
    assert_eq!(undeclared.form_data.get("username"), None);
}

#[test]
fn request_keeps_its_state_and_files() {
    let state = ThreadSafeChatRoom::new();
    state.add_user("bob");
    let request = match HttpRequest::new(
        &read_buffer(b"GET / HTTP/1.1\r\n\r\n"),
        18,
        pages(),
        state.clone(),
    ) {
        Ok(request) => request,
        Err(error) => panic!("not read: {:?}", error),
    };
    assert_eq!(request.state.online_users(), vec![String::from("bob")]);
    assert_eq!(
        request.static_files.get("chat.html"),
        Some(&String::from("<chat>"))
    );
}

#[test]
fn request_that_fills_the_buffer_is_too_large() {
    let buffer = vec![b'a'; 4096];
    assert_eq!(
        read_raw_request(&buffer, 4096).err(),
        Some(RequestError::TooLarge)
    );
    assert_eq!(
        read_raw_request(&buffer, 5000).err(),
        Some(RequestError::TooLarge)
    );
    assert!(read_raw_request(&buffer, 4095).is_ok());
    assert_eq!(read_raw_request(&[], 0).err(), Some(RequestError::TooLarge));
    assert_eq!(
        HttpRequest::new(&buffer, 4096, pages(), ThreadSafeChatRoom::new())
            .err(),
        Some(RequestError::TooLarge)
    );
}

#[test]
fn undecodable_form_fails_the_request() {
    let request = b"POST /chat HTTP/1.1\r\nContent-Type: application/x-www-form-urlencoded\r\n\r\nusername=%FF";
    assert_eq!(
        HttpRequest::new(
            &read_buffer(request),
            request.len(),
            pages(),
            ThreadSafeChatRoom::new()
        )
        .err(),
        Some(RequestError::UndecodableBody)
    );
}

#[test]
fn padding_of_the_buffer_is_stripped() {
    assert_eq!(
        read_raw_request(&read_buffer(b"GET / HTTP/1.1\r\n\r\n"), 18),
        Ok(text_of("GET / HTTP/1.1\r\n\r\n"))
    );
    assert_eq!(
        read_raw_request(&[0, 0, b'a', 0, b'b', 0, 0, 0], 5),
        Ok(text_of("a\0b"))
    );
    assert_eq!(read_raw_request(&[0, 0, 0], 0), Ok(text_of("")));
}

#[test]
fn bytes_that_are_not_utf8_are_replaced() {
    assert_eq!(
        read_raw_request(&[b'a', 0xff, b'b', 0xc3, 0xa9, 0xc3, 0], 6),
        Ok(text_of("a\u{fffd}b\u{e9}\u{fffd}"))
    );
}

#[test]
fn text_is_split_at_each_separator() {
    let text = text_of("a&&bc&");
    let parts: Vec<String> = split_text(&text, '&')
        .iter()
        .map(|part| part.iter().collect())
        .collect();
    assert_eq!(parts, vec!["a", "", "bc", ""]);
    let empty = text_of("");
    assert_eq!(split_text(&empty, '&'), vec![&[] as &[char]]);
    let whole = text_of("abc");
    assert_eq!(split_text(&whole, '&'), vec![&whole[..]]);
}

#[test]
fn field_has_exactly_one_equals_sign() {
    assert_eq!(
        parse_field(&text_of("a=b")),
        Some((String::from("a"), String::from("b")))
    );
    assert_eq!(
        parse_field(&text_of("=")),
        Some((String::from(""), String::from("")))
    );
    assert_eq!(
        parse_field(&text_of("key=a%20b+c")),
        Some((String::from("key"), String::from("a%20b+c")))
    );
    assert_eq!(parse_field(&text_of("")), None);
    assert_eq!(parse_field(&text_of("ab")), None);
    assert_eq!(parse_field(&text_of("a=b=c")), None);
    assert_eq!(parse_field(&text_of("a==")), None);
}

#[test]
fn plus_becomes_space_in_a_value() {
    assert_eq!(form_value("hi+there"), "hi there");
    assert_eq!(form_value("++a+"), "  a ");
    assert_eq!(form_value(""), "");
    assert_eq!(form_value("caf\u{e9} +"), "caf\u{e9}  ");
}

#[test]
fn escapes_are_decoded() {
    assert_eq!(decode_escapes("alice"), Some(String::from("alice")));
    assert_eq!(decode_escapes("hi+there"), Some(String::from("hi+there")));
    assert_eq!(decode_escapes(""), Some(String::from("")));
    assert_eq!(decode_escapes("caf\u{e9}"), Some(String::from("caf\u{e9}")));
    assert_eq!(decode_escapes("a%20b"), Some(String::from("a b")));
    assert_eq!(decode_escapes("%F0%9F%91%BE"), Some(String::from("\u{1f47e}")));
    assert_eq!(decode_escapes("%2B%25"), Some(String::from("+%")));
    assert_eq!(decode_escapes("%4"), Some(String::from("%4")));
    assert_eq!(decode_escapes("%zz"), Some(String::from("%zz")));
    assert_eq!(decode_escapes("%4z"), Some(String::from("%4z")));
    assert_eq!(decode_escapes("%"), Some(String::from("%")));
    assert_eq!(decode_escapes("%FF"), None);
    assert_eq!(decode_escapes("a%C3"), None);
}

#[test]
fn parts_that_are_no_fields_are_reported() {
    assert_eq!(
        passed_over_parts(&text_of("POST / HTTP/1.1\r\n\r\nnovalue&a=1&b=2=3&&=empty&c=&%FF")),
        vec!["novalue", "b=2=3", "", "%FF"]
    );
    assert_eq!(
        passed_over_parts(&text_of("\r\n\r\na=1&b=2")),
        Vec::<String>::new()
    );
    assert_eq!(passed_over_parts(&text_of("\r\n\r\n")), vec![""]);
    assert_eq!(passed_over_parts(&text_of("POST /a=b HTTP/1.1\r\n")), vec![""]);
}

#[test]
fn request_tells_what_its_form_passed_over() {
    let request = request_of(
        b"POST /chat HTTP/1.1\r\nContent-Type: application/x-www-form-urlencoded\r\n\r\nusername=bob&oops&x=1=2",
    );
    assert_eq!(request.form_data.get("username"), Some(&String::from("bob")));
    assert_eq!(request.passed_over, vec!["oops", "x=1=2"]);

    let undeclared = request_of(b"POST /chat HTTP/1.1\r\n\r\nusername=bob&oops");
    assert!(undeclared.passed_over.is_empty());

    let plain = request_of(b"GET /messages HTTP/1.1\r\n\r\n");
    assert!(plain.passed_over.is_empty());
}
