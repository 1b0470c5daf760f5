//! From the bytes of a connection to a request: method, path, content type
//! and form fields.

use vstd::prelude::*;
use vstd::slice::{slice_subrange, slice_to_vec};
use vstd::string::*;
use vstd::utf8::*;
use crate::room::texts;
use crate::state::{State, StaticFiles};
use crate::text::{
    ascii_lowercase, chars_of, find_char, find_text, lemma_find_char, lemma_find_char_bounds,
    lemma_find_text_bounds, lowercase_of, option_text, position_of, position_of_text, same_text,
    string_of, strip, strip_bounds, Padding,
};
use crate::text_map::TextMap;
use crate::trusted::{decode_lossy, percent_decode, percent_decoded, utf8_lossy};

verus! {

/// The method of a request.
#[derive(Debug, Clone, Copy, PartialEq, Eq, Structural)]
pub enum HttpMethod {
    Get,
    Post,
    /// Any other method, or none.
    Unrecognized,
}

/// The method that a token names: `GET`, `POST`, or none.
pub open spec fn method_of(token: Seq<char>) -> HttpMethod {
    if token == "GET"@ {
        HttpMethod::Get
    } else if token == "POST"@ {
        HttpMethod::Post
    } else {
        HttpMethod::Unrecognized
    }
}

impl From<String> for HttpMethod {
    fn from(value: String) -> (method: HttpMethod) {
        if same_text(value.as_str(), "GET") {
            HttpMethod::Get
        } else if same_text(value.as_str(), "POST") {
            HttpMethod::Post
        } else {
            HttpMethod::Unrecognized
        }
    }
}

impl vstd::std_specs::convert::FromSpecImpl<String> for HttpMethod {
    open spec fn obeys_from_spec() -> bool {
        true
    }

    open spec fn from_spec(value: String) -> HttpMethod {
        method_of(value@)
    }
}

impl HttpMethod {
    /// The method in capital letters.
    pub open spec fn name(self) -> Seq<char> {
        match self {
            HttpMethod::Get => "GET"@,
            HttpMethod::Post => "POST"@,
            HttpMethod::Unrecognized => "NONE"@,
        }
    }

    /// The method in capital letters.
    pub fn to_string(&self) -> (name: String)
        ensures
            name@ == self.name(),
    {
        match self {
            HttpMethod::Get => String::from_str("GET"),
            HttpMethod::Post => String::from_str("POST"),
            HttpMethod::Unrecognized => String::from_str("NONE"),
        }
    }
}

/// The type of a request's body, or of a response's.
#[derive(Debug, Clone, Copy, PartialEq, Eq, Structural)]
pub enum ContentType {
    ApplicationFormUrlEncoded,
    Html,
    Json,
    TextPlain,
    /// A type that a request declares and this server does not read.
    Unsupported,
}

/// The content type that a header value declares.
pub open spec fn content_type_named(value: Seq<char>) -> ContentType {
    if value == "application/x-www-form-urlencoded"@ {
        ContentType::ApplicationFormUrlEncoded
    } else {
        ContentType::Unsupported
    }
}

impl From<String> for ContentType {
    fn from(value: String) -> (content_type: ContentType) {
        if same_text(value.as_str(), "application/x-www-form-urlencoded") {
            ContentType::ApplicationFormUrlEncoded
        } else {
            ContentType::Unsupported
        }
    }
}

impl vstd::std_specs::convert::FromSpecImpl<String> for ContentType {
    open spec fn obeys_from_spec() -> bool {
        true
    }

    open spec fn from_spec(value: String) -> ContentType {
        content_type_named(value@)
    }
}

impl ContentType {
    /// The media type as a response declares it; empty for a type that is
    /// not declared.
    pub open spec fn media_type(self) -> Seq<char> {
        match self {
            ContentType::ApplicationFormUrlEncoded => "application/x-www-form-urlencoded"@,
            ContentType::Html => "text/html"@,
            ContentType::Json => "application/json"@,
            ContentType::TextPlain => "text/plain"@,
            ContentType::Unsupported => ""@,
        }
    }

    /// The media type as a response declares it.
    pub fn as_str(&self) -> (media_type: &'static str)
        ensures
            media_type@ == self.media_type(),
    {
        match self {
            ContentType::ApplicationFormUrlEncoded => "application/x-www-form-urlencoded",
            ContentType::Html => "text/html",
            ContentType::Json => "application/json",
            ContentType::TextPlain => "text/plain",
            ContentType::Unsupported => "",
        }
    }
}

/// Why a request cannot be read.
#[derive(Debug, Clone, Copy, PartialEq, Eq, Structural)]
pub enum RequestError {
    /// The request filled the read buffer, so part of it may be missing.
    TooLarge,
    /// A form value is not UTF-8 once its escapes are decoded.
    UndecodableBody,
}

/// The text of a request: what the buffer holds, read as UTF-8, without
/// the NUL characters at its two ends.
pub open spec fn request_text(buffer: Seq<u8>) -> Seq<char> {
    strip(utf8_lossy(buffer), Padding::Nul)
}

/// The request line: the text up to the first line feed, without the
/// carriage return before that line feed.
pub open spec fn request_line(text: Seq<char>) -> Seq<char> {
    let end = find_char(text, '\n');
    if 0 < end < text.len() && text[end - 1] == '\r' {
        text.take(end - 1)
    } else {
        text.take(end)
    }
}

/// The first token of the request line: what stands before its first space.
pub open spec fn method_token(text: Seq<char>) -> Seq<char> {
    let line = request_line(text);
    line.take(find_char(line, ' '))
}

/// The second token of the request line: what stands between its first
/// space and its second. There is none where the line has no space.
pub open spec fn path_token(text: Seq<char>) -> Option<Seq<char>> {
    let line = request_line(text);
    let space = find_char(line, ' ');
    if space < line.len() {
        let rest = line.skip(space + 1);
        Some(rest.take(find_char(rest, ' ')))
    } else {
        None
    }
}

/// Whether `token` holds neither a space nor a line feed.
pub open spec fn is_token(token: Seq<char>) -> bool {
    forall|i: int| 0 <= i < token.len() ==> #[trigger] token[i] != ' ' && token[i] != '\n'
}

/// The request line that names a method, a path and a version, followed by
/// whatever comes after its line break, is read back as that method and
/// that path.
pub proof fn lemma_request_line_is_read_back(
    method: Seq<char>,
    path: Seq<char>,
    version: Seq<char>,
    rest: Seq<char>,
)
    requires
        is_token(method),
        is_token(path),
        is_token(version),
    ensures
        method_token(method + seq![' '] + path + seq![' '] + version + seq!['\r', '\n'] + rest)
            == method,
        path_token(method + seq![' '] + path + seq![' '] + version + seq!['\r', '\n'] + rest)
            == Some(path),
{
    let line = method + seq![' '] + path + seq![' '] + version;
    let text = line + seq!['\r', '\n'] + rest;
    lemma_find_char(text, '\n', (line.len() + 1) as int);
    assert(request_line(text) =~= line);
    lemma_find_char(line, ' ', method.len() as int);
    assert(line.take(method.len() as int) =~= method);
    let tail = line.skip((method.len() + 1) as int);
    assert(tail =~= path + seq![' '] + version);
    lemma_find_char(tail, ' ', path.len() as int);
    assert(tail.take(path.len() as int) =~= path);
}

/// The empty line that ends the headers.
pub open spec fn blank_line() -> Seq<char> {
    seq!['\r', '\n', '\r', '\n']
}

/// The header block: the text before the first empty line, or all of it
/// where there is no empty line.
pub open spec fn header_block(text: Seq<char>) -> Seq<char> {
    text.take(find_text(text, blank_line()))
}

/// The body: the text behind the first empty line, or nothing where there
/// is no empty line.
pub open spec fn body_of(text: Seq<char>) -> Seq<char> {
    let end = find_text(text, blank_line());
    if end < text.len() {
        text.skip(end + 4)
    } else {
        Seq::empty()
    }
}

/// What a header line starts with, in lower case: a line break, the name,
/// a colon and a space.
pub open spec fn header_start(name: Seq<char>) -> Seq<char> {
    seq!['\r', '\n'] + ascii_lowercase(name) + seq![':', ' ']
}

/// The value of the first header `name` among `headers`, whatever the case
/// of its letters: what stands behind the start of that header line, up to
/// the next carriage return or to the end.
pub open spec fn header_value_of(headers: Seq<char>, name: Seq<char>) -> Option<Seq<char>> {
    let start = header_start(name);
    let at = find_text(ascii_lowercase(headers), start);
    if at < headers.len() {
        let rest = headers.skip(at + start.len());
        Some(rest.take(find_char(rest, '\r')))
    } else {
        None
    }
}

/// The content type that the headers of `text` declare, if any.
pub open spec fn content_type_of(text: Seq<char>) -> Option<ContentType> {
    match header_value_of(header_block(text), "Content-Type"@) {
        Some(value) => Some(content_type_named(value)),
        None => None,
    }
}

/// The parts of `s` between the occurrences of `separator`.
pub open spec fn split(s: Seq<char>, separator: char) -> Seq<Seq<char>>
    decreases s.len(),
    via split_decreases
{
    let at = find_char(s, separator);
    if at < s.len() {
        seq![s.take(at)] + split(s.skip(at + 1), separator)
    } else {
        seq![s]
    }
}

#[via_fn]
proof fn split_decreases(s: Seq<char>, separator: char) {
    lemma_find_char_bounds(s, separator);
}

/// The key and the raw value of a form field: what stands before and
/// behind its `=`. A part with no `=`, or with more than one, is no field.
pub open spec fn field_of(part: Seq<char>) -> Option<(Seq<char>, Seq<char>)> {
    let at = find_char(part, '=');
    if at < part.len() && find_char(part.skip(at + 1), '=') == part.len() - at - 1 {
        Some((part.take(at), part.skip(at + 1)))
    } else {
        None
    }
}

/// `s` with a space in place of each `+`.
pub open spec fn plus_to_space(s: Seq<char>) -> Seq<char> {
    s.map_values(|c: char| if c == '+' { ' ' } else { c })
}

/// The form fields that `parts` give, each key with its decoded value, a
/// later field in place of an earlier one of the same key. Parts that are
/// no fields are passed over. There is no form where a value cannot be
/// decoded.
pub open spec fn form_of(parts: Seq<Seq<char>>) -> Option<Map<Seq<char>, Seq<char>>>
    decreases parts.len(),
{
    if parts.len() == 0 {
        Some(Map::empty())
    } else {
        match form_of(parts.drop_last()) {
            None => None,
            Some(form) => match field_of(parts.last()) {
                None => Some(form),
                Some((key, raw)) => match percent_decoded(raw) {
                    None => None,
                    Some(decoded) => Some(form.insert(key, plus_to_space(decoded))),
                },
            },
        }
    }
}

/// The parts among `parts` that are no fields, in their order: those that
/// the form passes over.
pub open spec fn passed_over(parts: Seq<Seq<char>>) -> Seq<Seq<char>>
    decreases parts.len(),
{
    if parts.len() == 0 {
        Seq::empty()
    } else if field_of(parts.last()) is None {
        passed_over(parts.drop_last()).push(parts.last())
    } else {
        passed_over(parts.drop_last())
    }
}

/// The form fields of a body.
pub open spec fn form_fields(body: Seq<char>) -> Option<Map<Seq<char>, Seq<char>>> {
    form_of(split(body, '&'))
}

/// The form data of a request: the fields of its body where it declares a
/// URL-encoded form, and none otherwise.
pub open spec fn form_data_of(text: Seq<char>) -> Option<Map<Seq<char>, Seq<char>>> {
    if content_type_of(text) == Some(ContentType::ApplicationFormUrlEncoded) {
        form_fields(body_of(text))
    } else {
        Some(Map::empty())
    }
}

/// The parts of the body that the form data of a request passes over:
/// those that are no fields where the request declares a URL-encoded form,
/// and none otherwise.
pub open spec fn passed_over_of(text: Seq<char>) -> Seq<Seq<char>> {
    if content_type_of(text) == Some(ContentType::ApplicationFormUrlEncoded) {
        passed_over(split(body_of(text), '&'))
    } else {
        Seq::empty()
    }
}

/// The text of the request in `buffer`, of which `bytes_read` bytes were
/// filled. A request that fills the buffer is refused.
pub fn read_raw_request(buffer: &[u8], bytes_read: usize) -> (text: Result<
    Vec<char>,
    RequestError,
>)
    ensures
        match text {
            Ok(text) => bytes_read < buffer.len() && text@ == request_text(buffer@),
            Err(error) => bytes_read >= buffer.len() && error == RequestError::TooLarge,
        },
        bytes_read < buffer.len() && valid_utf8(buffer@) ==> request_text(buffer@) == strip(
            decode_utf8(buffer@),
            Padding::Nul,
        ),
{
    if bytes_read >= buffer.len() {
        return Err(RequestError::TooLarge);
    }
    let decoded = decode_lossy(buffer);
    let chars = chars_of(decoded.as_str());
    let bounds = strip_bounds(chars.as_slice(), Padding::Nul);
    let stripped = slice_subrange(chars.as_slice(), bounds.0, bounds.1);
    Ok(slice_to_vec(stripped))
}

/// The request line of `text`.
fn request_line_of(text: &[char]) -> (line: &[char])
    ensures
        line@ == request_line(text@),
{
    let end = position_of(text, '\n');
    if 0 < end && end < text.len() && text[end - 1] == '\r' {
        slice_subrange(text, 0, end - 1)
    } else {
        slice_subrange(text, 0, end)
    }
}

/// The method of the request `text`: that of the first token of its
/// request line.
pub fn parse_method(text: &[char]) -> (method: HttpMethod)
    ensures
        method == method_of(method_token(text@)),
{
    let line = request_line_of(text);
    let end = position_of(line, ' ');
    HttpMethod::from(string_of(slice_subrange(line, 0, end)))
}

/// The path of the request `text`: the second token of its request line,
/// if it has one.
pub fn parse_path(text: &[char]) -> (path: Option<String>)
    ensures
        option_text(path) == path_token(text@),
{
    let line = request_line_of(text);
    let space = position_of(line, ' ');
    if space < line.len() {
        let rest = slice_subrange(line, space + 1, line.len());
        let end = position_of(rest, ' ');
        Some(string_of(slice_subrange(rest, 0, end)))
    } else {
        None
    }
}

/// The value of the header `key` among `headers`, if it is there.
pub fn header_value(headers: &[char], key: &str) -> (value: Option<String>)
    ensures
        option_text(value) == header_value_of(headers@, key@),
{
    let mut start: Vec<char> = Vec::new();
    start.push('\r');
    start.push('\n');
    let key_chars = chars_of(key);
    let mut name = lowercase_of(key_chars.as_slice());
    start.append(&mut name);
    start.push(':');
    start.push(' ');
    assert(start@ =~= header_start(key@));
    let lower = lowercase_of(headers);
    let at = position_of_text(lower.as_slice(), start.as_slice());
    if at < headers.len() {
        proof {
            lemma_find_text_bounds(lower@, start@);
        }
        let rest = slice_subrange(headers, at + start.len(), headers.len());
        let end = position_of(rest, '\r');
        Some(string_of(slice_subrange(rest, 0, end)))
    } else {
        None
    }
}

/// The content type that the headers of the request `text` declare.
pub fn parse_content_type(text: &[char]) -> (content_type: Option<ContentType>)
    ensures
        content_type == content_type_of(text@),
{
    let blank: [char; 4] = ['\r', '\n', '\r', '\n'];
    let end = position_of_text(text, blank.as_slice());
    match header_value(slice_subrange(text, 0, end), "Content-Type") {
        Some(value) => Some(ContentType::from(value)),
        None => None,
    }
}

/// What each of the slices holds.
pub open spec fn slices(parts: Seq<&[char]>) -> Seq<Seq<char>> {
    parts.map_values(|part: &[char]| part@)
}

/// The parts of `text` between the occurrences of `separator`.
pub fn split_text<'a>(text: &'a [char], separator: char) -> (parts: Vec<&'a [char]>)
    ensures
        slices(parts@) == split(text@, separator),
{
    let mut parts: Vec<&'a [char]> = Vec::new();
    let mut rest: &'a [char] = text;
    let mut at = position_of(rest, separator);
    assert(slices(parts@) + split(rest@, separator) =~= split(text@, separator));
    while at < rest.len()
        invariant
            at == find_char(rest@, separator),
            slices(parts@) + split(rest@, separator) == split(text@, separator),
        decreases rest.len(),
    {
        let ghost before = slices(parts@);
        let ghost tail = rest@;
        parts.push(slice_subrange(rest, 0, at));
        rest = slice_subrange(rest, at + 1, rest.len());
        proof {
            assert(slices(parts@) =~= before.push(tail.take(at as int)));
            assert(rest@ == tail.skip(at + 1));
            assert(slices(parts@) + split(rest@, separator) =~= before + split(tail, separator));
        }
        at = position_of(rest, separator);
    }
    let ghost before = slices(parts@);
    parts.push(rest);
    assert(slices(parts@) =~= before + split(rest@, separator));
    parts
}

/// The key and the raw value of the form field `part`, where it is one.
pub fn parse_field(part: &[char]) -> (field: Option<(String, String)>)
    ensures
        match field {
            Some(field) => field_of(part@) == Some((field.0@, field.1@)),
            None => field_of(part@) is None,
        },
{
    let at = position_of(part, '=');
    if at < part.len() {
        let raw = slice_subrange(part, at + 1, part.len());
        if position_of(raw, '=') == raw.len() {
            return Some((string_of(slice_subrange(part, 0, at)), string_of(raw)));
        }
    }
    None
}

/// `data` with each escape of a percent sign and two hexadecimal digits
/// decoded; nothing where what results is not UTF-8. A text without a
/// percent sign is decoded to itself.
pub fn decode_escapes(data: &str) -> (decoded: Option<String>)
    ensures
        option_text(decoded) == percent_decoded(data@),
        !data@.contains('%') ==> option_text(decoded) == Some(data@),
{
    percent_decode(data)
}

/// The value of a form field, given the text that its escapes decode to:
/// that text with a space in place of each `+`.
pub fn form_value(decoded: &str) -> (value: String)
    ensures
        value@ == plus_to_space(decoded@),
{
    let chars = chars_of(decoded);
    let mut value = String::new();
    let mut i: usize = 0;
    while i < chars.len()
        invariant
            i <= chars.len(),
            chars@ == decoded@,
            value@ == plus_to_space(chars@.take(i as int)),
        decreases chars.len() - i,
    {
        let c = chars[i];
        value.push(if c == '+' { ' ' } else { c });
        i += 1;
        assert(value@ =~= plus_to_space(chars@.take(i as int)));
    }
    assert(chars@.take(chars.len() as int) == chars@);
    value
}

/// Once a value cannot be decoded, no later part mends the form.
proof fn lemma_form_of_stays_none(parts: Seq<Seq<char>>, upto: int)
    requires
        0 <= upto <= parts.len(),
        form_of(parts.take(upto)) is None,
    ensures
        form_of(parts) is None,
    decreases parts.len() - upto,
{
    if upto == parts.len() {
        assert(parts.take(upto) == parts);
    } else {
        assert(parts.take(upto + 1).drop_last() == parts.take(upto));
        lemma_form_of_stays_none(parts, upto + 1);
    }
}

/// The body of the request `text`.
fn body_in(text: &[char]) -> (body: &[char])
    ensures
        body@ == body_of(text@),
{
    let blank: [char; 4] = ['\r', '\n', '\r', '\n'];
    let end = position_of_text(text, blank.as_slice());
    proof {
        lemma_find_text_bounds(text@, blank@);
    }
    let body = if end < text.len() {
        slice_subrange(text, end + 4, text.len())
    } else {
        slice_subrange(text, 0, 0)
    };
    assert(body@ =~= body_of(text@));
    body
}

/// The parts of the body of the request `text` that are no form fields, as
/// they stand and in their order: what the form passes over.
pub fn passed_over_parts(text: &[char]) -> (passed: Vec<String>)
    ensures
        texts(passed@) == passed_over(split(body_of(text@), '&')),
{
    let parts = split_text(body_in(text), '&');
    let mut passed: Vec<String> = Vec::new();
    let mut i: usize = 0;
    assert(slices(parts@).take(0) =~= Seq::empty());
    assert(texts(passed@) =~= Seq::empty());
    while i < parts.len()
        invariant
            i <= parts.len(),
            texts(passed@) == passed_over(slices(parts@).take(i as int)),
        decreases parts.len() - i,
    {
        let ghost all = slices(parts@);
        let ghost before = texts(passed@);
        assert(all.take(i + 1).drop_last() == all.take(i as int));
        assert(all.take(i + 1).last() == parts@[i as int]@);
        if parse_field(parts[i]).is_none() {
            passed.push(string_of(parts[i]));
            assert(texts(passed@) =~= before.push(parts@[i as int]@));
        }
        i += 1;
    }
    assert(slices(parts@).take(i as int) == slices(parts@));
    passed
}

/// The form fields in the body of the request `text`, each key with its
/// decoded value. A part of the body that is no field is passed over; a
/// value that cannot be decoded fails the whole form.
pub fn parse_form_url_encoded_params(text: &[char]) -> (form: Result<TextMap, RequestError>)
    ensures
        match form {
            Ok(form) => form_fields(body_of(text@)) == Some(form@),
            Err(error) => form_fields(body_of(text@)) is None && error
                == RequestError::UndecodableBody,
        },
{
    let parts = split_text(body_in(text), '&');
    let mut form = TextMap::new();
    let mut i: usize = 0;
    assert(slices(parts@).take(0) =~= Seq::empty());
    while i < parts.len()
        invariant
            i <= parts.len(),
            form_fields(body_of(text@)) == form_of(slices(parts@)),
            form_of(slices(parts@).take(i as int)) == Some(form@),
        decreases parts.len() - i,
    {
        let ghost all = slices(parts@);
        assert(all.take(i + 1).drop_last() == all.take(i as int));
        assert(all.take(i + 1).last() == parts@[i as int]@);
        match parse_field(parts[i]) {
            Some((key, raw)) => match decode_escapes(raw.as_str()) {
                Some(decoded) => {
                    form.insert(key, form_value(decoded.as_str()));
                },
                None => {
                    proof {
                        lemma_form_of_stays_none(all, i + 1);
                    }
                    return Err(RequestError::UndecodableBody);
                },
            },
            None => {},
        }
        i += 1;
    }
    assert(slices(parts@).take(i as int) == slices(parts@));
    Ok(form)
}

/// A request, with the state and the static files that answer it.
pub struct HttpRequest<T: State> {
    pub method: HttpMethod,
    pub path: Option<String>,
    pub content_type: Option<ContentType>,
    pub form_data: TextMap,
    /// The parts of the body that the form data passes over.
    pub passed_over: Vec<String>,
    pub static_files: StaticFiles,
    pub state: T,
}

/// What a request holds, and the static files that it is answered from.
pub struct RequestView {
    pub method: HttpMethod,
    pub path: Option<Seq<char>>,
    pub content_type: Option<ContentType>,
    pub form_data: Map<Seq<char>, Seq<char>>,
    pub passed_over: Seq<Seq<char>>,
    pub static_files: Map<Seq<char>, Seq<char>>,
}

impl RequestView {
    /// The route: the method, a space, and the path, or `-` for no path.
    pub open spec fn route(self) -> Seq<char> {
        self.method.name() + " "@ + match self.path {
            Some(path) => path,
            None => "-"@,
        }
    }
}

/// The request that `text` holds, to be answered from `files`; none where
/// its form cannot be decoded.
pub open spec fn parsed(text: Seq<char>, files: Map<Seq<char>, Seq<char>>) -> Option<RequestView> {
    match form_data_of(text) {
        Some(form) => Some(
            RequestView {
                method: method_of(method_token(text)),
                path: path_token(text),
                content_type: content_type_of(text),
                form_data: form,
                passed_over: passed_over_of(text),
                static_files: files,
            },
        ),
        None => None,
    }
}

impl<T: State> View for HttpRequest<T> {
    type V = RequestView;

    open spec fn view(&self) -> RequestView {
        RequestView {
            method: self.method,
            path: option_text(self.path),
            content_type: self.content_type,
            form_data: self.form_data@,
            passed_over: texts(self.passed_over@),
            static_files: self.static_files@,
        }
    }
}

impl<T: State> HttpRequest<T> {
    /// The request in `buffer`, of which `bytes_read` bytes were filled.
    ///
    /// A request that fills the buffer is refused as too large, and so is
    /// one whose form cannot be decoded. A request line without a path is
    /// a request without a path, no error.
    pub fn new(buffer: &[u8], bytes_read: usize, static_files: StaticFiles, state: T) -> (request:
        Result<HttpRequest<T>, RequestError>)
        ensures
            bytes_read >= buffer.len() ==> request == Err::<HttpRequest<T>, RequestError>(
                RequestError::TooLarge,
            ),
            bytes_read < buffer.len() ==> match parsed(request_text(buffer@), static_files@) {
                Some(view) => request matches Ok(r) && r@ == view && r.state == state,
                None => request == Err::<HttpRequest<T>, RequestError>(
                    RequestError::UndecodableBody,
                ),
            },
            bytes_read < buffer.len() && valid_utf8(buffer@) ==> request_text(buffer@) == strip(
                decode_utf8(buffer@),
                Padding::Nul,
            ),
    {
        let text = match read_raw_request(buffer, bytes_read) {
            Ok(text) => text,
            Err(error) => {
                return Err(error);
            },
        };
        let method = parse_method(text.as_slice());
        let path = parse_path(text.as_slice());
        let content_type = parse_content_type(text.as_slice());
        let (form_data, passed_over) = match content_type {
            Some(ContentType::ApplicationFormUrlEncoded) => {
                match parse_form_url_encoded_params(text.as_slice()) {
                    Ok(form) => (form, passed_over_parts(text.as_slice())),
                    Err(error) => {
                        return Err(error);
                    },
                }
            },
            _ => {
                let none: Vec<String> = Vec::new();
                assert(texts(none@) =~= Seq::empty());
                (TextMap::new(), none)
            },
        };
        Ok(HttpRequest { method, path, content_type, form_data, passed_over, static_files, state })
    }

    /// The route of the request: its method, a space, and its path, or `-`
    /// where it has no path.
    pub fn route(&self) -> (route: String)
        ensures
            route@ == self@.route(),
    {
        let mut route = self.method.to_string();
        route.append(" ");
        match &self.path {
            Some(path) => route.append(path.as_str()),
            None => route.append("-"),
        }
        route
    }
}

} // verus!
