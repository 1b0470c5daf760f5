//! From a request to its response: the routes, their handlers, and the
//! text of a response.

use vstd::prelude::*;
use std::time::SystemTime;
use vstd::slice::slice_subrange;
use vstd::string::*;
use vstd::utf8::*;
use crate::request::{ContentType, HttpRequest, RequestError, RequestView};
use crate::room::{
    ascending, in_time_order, message_json, texts, views, Message, MessageView,
};
use crate::state::{RequiredPage, State, StaticFiles};
use crate::text::{chars_of, decimal, push_decimal, same_text, string_of, trim, trimmed};
use crate::text_map::TextMap;
use crate::trusted::unix_epoch;

verus! {

/// The text of a response: the status line, the content type where one is
/// declared, the length of the content in bytes, an empty line, and the
/// content as it is.
pub open spec fn http_response(
    status_code: nat,
    message: Seq<char>,
    content: Seq<char>,
    content_type: Seq<char>,
) -> Seq<char> {
    "HTTP/1.1 "@ + decimal(status_code) + " "@ + message + "\r\n"@ + (if content_type.len() > 0 {
        "Content-Type: "@ + content_type + "\r\n"@
    } else {
        Seq::empty()
    }) + "Content-Length: "@ + decimal(encode_utf8(content).len()) + "\r\n\r\n"@ + content
}

/// The response with this status, content and content type; no content
/// type is declared where `content_type` is empty.
pub fn format_http_response(
    status_code: usize,
    message: &str,
    content: &str,
    content_type: &str,
) -> (response: String)
    ensures
        response@ == http_response(status_code as nat, message@, content@, content_type@),
{
    let mut response = String::from_str("HTTP/1.1 ");
    push_decimal(&mut response, status_code as u128);
    response.append(" ");
    response.append(message);
    response.append("\r\n");
    let ghost head = response@;
    if !content_type.is_empty() {
        response.append("Content-Type: ");
        response.append(content_type);
        response.append("\r\n");
        assert(response@ =~= head + ("Content-Type: "@ + content_type@ + "\r\n"@));
    } else {
        assert(response@ =~= head + Seq::<char>::empty());
    }
    let ghost middle = response@;
    response.append("Content-Length: ");
    push_decimal(&mut response, content.as_bytes().len() as u128);
    response.append("\r\n\r\n");
    response.append(content);
    assert(response@ =~= middle + "Content-Length: "@ + decimal(encode_utf8(content@).len())
        + "\r\n\r\n"@ + content@);
    response
}

/// The response to a request that asks for what it may not, or lacks what
/// it must have: status 400, no content.
pub open spec fn bad_request() -> Seq<char> {
    http_response(400, "Bad Request"@, ""@, "text/plain"@)
}

/// The response to a request that was too large to read: status 413, no
/// content.
pub open spec fn too_large() -> Seq<char> {
    http_response(413, "Payload Too Large"@, ""@, "text/plain"@)
}

/// The response that grants a request and has nothing to say: status 200,
/// no content.
pub open spec fn done() -> Seq<char> {
    http_response(200, "OK"@, ""@, "text/plain"@)
}

/// The response that serves a page: status 200, the page as HTML.
pub open spec fn page(content: Seq<char>) -> Seq<char> {
    http_response(200, "OK"@, content, "text/html"@)
}

/// The response that serves the page for what was not found: status 404.
pub open spec fn not_found(files: Map<Seq<char>, Seq<char>>) -> Seq<char> {
    http_response(404, "Not Found"@, files[RequiredPage::NotFound.name()], "text/html"@)
}

/// The response to a request that could not be read.
pub open spec fn rejection(error: RequestError) -> Seq<char> {
    match error {
        RequestError::TooLarge => too_large(),
        RequestError::UndecodableBody => bad_request(),
    }
}

/// The response to a request that could not be read: too large, or a bad
/// request.
pub fn reject(error: RequestError) -> (response: String)
    ensures
        response@ == rejection(error),
{
    match error {
        RequestError::TooLarge => format_http_response(
            413,
            "Payload Too Large",
            "",
            ContentType::TextPlain.as_str(),
        ),
        RequestError::UndecodableBody => format_http_response(
            400,
            "Bad Request",
            "",
            ContentType::TextPlain.as_str(),
        ),
    }
}

/// The value of the form field `name`, without the white space at its two
/// ends; none where the form has no such field.
pub open spec fn field(form: Map<Seq<char>, Seq<char>>, name: Seq<char>) -> Option<Seq<char>> {
    if form.contains_key(name) {
        Some(trimmed(form[name]))
    } else {
        None
    }
}

/// The value of the form field `name`, without the white space at its two
/// ends, if the form has such a field.
pub fn required_field(form: &TextMap, name: &str) -> (value: Option<String>)
    ensures
        crate::text::option_text(value) == field(form@, name@),
{
    match form.get(name) {
        Some(value) => Some(trim(value.as_str())),
        None => None,
    }
}

/// `items`, one after the other, with `separator` between each two.
pub open spec fn joined(items: Seq<Seq<char>>, separator: Seq<char>) -> Seq<char>
    decreases items.len(),
{
    if items.len() == 0 {
        Seq::empty()
    } else if items.len() == 1 {
        items[0]
    } else {
        joined(items.drop_last(), separator) + separator + items.last()
    }
}

/// Each name between double quotes, with commas between them.
pub open spec fn quoted_names(names: Seq<Seq<char>>) -> Seq<char> {
    joined(names.map_values(|name: Seq<char>| "\""@ + name + "\""@), ","@)
}

/// The JSON object that lists the users: those online under `users`, those
/// who have left under `offline`, each name as it is.
pub open spec fn users_json(online: Seq<Seq<char>>, offline: Seq<Seq<char>>) -> Seq<char> {
    "{\"users\": ["@ + quoted_names(online) + "], \"offline\": ["@ + quoted_names(offline) + "]}"@
}

/// The JSON array of the messages, each as its object, in their order.
pub open spec fn messages_json(messages: Seq<MessageView>) -> Seq<char> {
    "["@ + joined(messages.map_values(|m: MessageView| message_json(m)), ","@) + "]"@
}

/// Appends each of `names` between double quotes, with commas between them.
fn push_quoted_names(json: &mut String, names: &Vec<String>)
    ensures
        final(json)@ == old(json)@ + quoted_names(texts(names@)),
{
    let ghost quoted = texts(names@).map_values(|name: Seq<char>| "\""@ + name + "\""@);
    let mut i: usize = 0;
    assert(json@ =~= old(json)@ + joined(quoted.take(0), ","@));
    while i < names.len()
        invariant
            i <= names.len(),
            quoted == texts(names@).map_values(|name: Seq<char>| "\""@ + name + "\""@),
            json@ == old(json)@ + joined(quoted.take(i as int), ","@),
        decreases names.len() - i,
    {
        let ghost before = json@;
        if i > 0 {
            json.append(",");
        }
        json.append("\"");
        json.append(names[i].as_str());
        json.append("\"");
        proof {
            assert(quoted.take(i + 1).drop_last() == quoted.take(i as int));
            assert(quoted.take(i + 1).last() == "\""@ + names@[i as int]@ + "\""@);
            assert(json@ =~= old(json)@ + joined(quoted.take(i + 1), ","@));
        }
        i += 1;
    }
    assert(quoted.take(i as int) == quoted);
}

/// The JSON object that lists the users.
pub fn users_body(online: &Vec<String>, offline: &Vec<String>) -> (json: String)
    ensures
        json@ == users_json(texts(online@), texts(offline@)),
{
    let mut json = String::from_str("{\"users\": [");
    push_quoted_names(&mut json, online);
    json.append("], \"offline\": [");
    push_quoted_names(&mut json, offline);
    json.append("]}");
    json
}

/// The JSON array of the messages.
pub fn messages_body(messages: &Vec<Message>) -> (json: String)
    ensures
        json@ == messages_json(views(messages@)),
{
    let mut json = String::from_str("[");
    let ghost head = json@;
    let ghost items = views(messages@).map_values(|m: MessageView| message_json(m));
    let mut i: usize = 0;
    assert(json@ =~= head + joined(items.take(0), ","@));
    while i < messages.len()
        invariant
            i <= messages.len(),
            items == views(messages@).map_values(|m: MessageView| message_json(m)),
            json@ == head + joined(items.take(i as int), ","@),
        decreases messages.len() - i,
    {
        if i > 0 {
            json.append(",");
        }
        let item = messages[i].to_string();
        json.append(item.as_str());
        proof {
            assert(items.take(i + 1).drop_last() == items.take(i as int));
            assert(items.take(i + 1).last() == message_json(messages@[i as int]@));
            assert(json@ =~= head + joined(items.take(i + 1), ","@));
        }
        i += 1;
    }
    assert(items.take(i as int) == items);
    json.append("]");
    json
}

/// The name of the file that a path asks for: the path without the slash at
/// its start.
pub open spec fn file_key(path: Seq<char>) -> Seq<char> {
    if path.len() > 0 && path[0] == '/' {
        path.skip(1)
    } else {
        path
    }
}

/// The response that serves the file `name`: the file as it is, with no
/// content type, or the page for what was not found.
pub open spec fn file_response(files: Map<Seq<char>, Seq<char>>, name: Seq<char>) -> Seq<char> {
    if files.contains_key(name) {
        http_response(200, "OK"@, files[name], ""@)
    } else {
        not_found(files)
    }
}

/// The response to a request that matches no route: the file that its path
/// names, or the page for what was not found.
pub open spec fn static_response(request: RequestView) -> Seq<char> {
    match request.path {
        Some(path) => file_response(request.static_files, file_key(path)),
        None => not_found(request.static_files),
    }
}

/// The response to `POST /messages`.
pub open spec fn post_messages_response(request: RequestView) -> Seq<char> {
    if field(request.form_data, "sender"@) is Some && field(request.form_data, "content"@)
        is Some {
        done()
    } else {
        bad_request()
    }
}

/// The response to `POST /chat`.
pub open spec fn enter_chat_response(request: RequestView) -> Seq<char> {
    if field(request.form_data, "username"@) is Some {
        page(request.static_files[RequiredPage::Chat.name()])
    } else {
        bad_request()
    }
}

/// The response to `POST /chat/exit`.
pub open spec fn exit_chat_response(request: RequestView) -> Seq<char> {
    if field(request.form_data, "username"@) is Some {
        done()
    } else {
        bad_request()
    }
}

/// The response that lists these users.
pub open spec fn users_response(online: Seq<Seq<char>>, offline: Seq<Seq<char>>) -> Seq<char> {
    http_response(200, "OK"@, users_json(online, offline), "application/json"@)
}

/// The response that lists these messages.
pub open spec fn messages_response(messages: Seq<MessageView>) -> Seq<char> {
    http_response(200, "OK"@, messages_json(messages), "application/json"@)
}

/// Whether `response` lists the users that `state` gave when it was asked
/// for those online and for those who have left, each list sorted.
pub open spec fn lists_users<T: State>(state: &T, response: Seq<char>) -> bool {
    exists|online: Vec<String>, offline: Vec<String>|
        call_ensures(T::online_users, (state,), online) && call_ensures(
            T::offline_users,
            (state,),
            offline,
        ) && ascending(texts(online@)) && ascending(texts(offline@)) && response
            == #[trigger] users_response(texts(online@), texts(offline@))
}

/// Whether `response` lists the messages that `state` gave when it was
/// asked for them, by ascending timestamp.
pub open spec fn lists_messages<T: State>(state: &T, response: Seq<char>) -> bool {
    exists|messages: Vec<Message>|
        call_ensures(T::messages, (state,), messages) && in_time_order(views(messages@))
            && response == #[trigger] messages_response(views(messages@))
}

/// Whether `state` was asked to mark the user `name` as online.
pub open spec fn user_added<T: State>(state: &T, name: Seq<char>) -> bool {
    exists|username: &str|
        username@ == name && #[trigger] call_ensures(T::add_user, (state, username), ())
}

/// Whether `state` was asked to mark the user `name` as having left.
pub open spec fn user_removed<T: State>(state: &T, name: Seq<char>) -> bool {
    exists|username: &str|
        username@ == name && #[trigger] call_ensures(T::remove_user, (state, username), ())
}

/// Whether `state` was asked to append a message of `sender` with
/// `content`.
pub open spec fn message_added<T: State>(state: &T, sender: Seq<char>, content: Seq<char>) -> bool {
    exists|message: Message|
        message@.sender == sender && message@.content == content && #[trigger] call_ensures(
            T::add_message,
            (state, message),
            (),
        )
}

/// Whether `state` was asked for what the form of `POST /messages` posts.
pub open spec fn posts_message<T: State>(state: &T, request: RequestView) -> bool {
    field(request.form_data, "sender"@) matches Some(sender) ==> (field(
        request.form_data,
        "content"@,
    ) matches Some(content) ==> message_added(state, sender, content))
}

/// Whether `state` was asked to mark the user of the form as online.
pub open spec fn enters_user<T: State>(state: &T, request: RequestView) -> bool {
    field(request.form_data, "username"@) matches Some(name) ==> user_added(state, name)
}

/// Whether `state` was asked to mark the user of the form as having left.
pub open spec fn exits_user<T: State>(state: &T, request: RequestView) -> bool {
    field(request.form_data, "username"@) matches Some(name) ==> user_removed(state, name)
}

/// Whether `response` answers `request`, and `state` was asked for what the
/// request asks of it.
///
/// The two routes that read the state answer with what the state gave; the
/// three that change it hand it the user or the message of the form; every
/// other response is fixed by the request.
pub open spec fn answers<T: State>(state: &T, request: RequestView, response: Seq<char>) -> bool {
    let route = request.route();
    if route == "GET /"@ {
        response == page(request.static_files[RequiredPage::Login.name()])
    } else if route == "GET /users"@ {
        lists_users(state, response)
    } else if route == "GET /messages"@ {
        lists_messages(state, response)
    } else if route == "POST /messages"@ {
        response == post_messages_response(request) && posts_message(state, request)
    } else if route == "POST /chat"@ {
        response == enter_chat_response(request) && enters_user(state, request)
    } else if route == "POST /chat/exit"@ {
        response == exit_chat_response(request) && exits_user(state, request)
    } else {
        response == static_response(request)
    }
}

/// Whether `route` is one of the six routes that have a handler.
pub open spec fn is_routed(route: Seq<char>) -> bool {
    ||| route == "GET /"@
    ||| route == "GET /users"@
    ||| route == "GET /messages"@
    ||| route == "POST /messages"@
    ||| route == "POST /chat"@
    ||| route == "POST /chat/exit"@
}

/// A request that matches no route and names no static file is answered
/// with status 404 and the page for what was not found.
pub proof fn lemma_unknown_path_is_not_found<T: State>(
    state: &T,
    request: RequestView,
    response: Seq<char>,
)
    requires
        answers(state, request, response),
        !is_routed(request.route()),
        request.path matches Some(path) ==> !request.static_files.contains_key(file_key(path)),
    ensures
        response == http_response(
            404,
            "Not Found"@,
            request.static_files[RequiredPage::NotFound.name()],
            "text/html"@,
        ),
{
}

/// A request to enter the chat that names its user has the state asked to
/// mark that user as online, and is answered with status 200 and the chat
/// page.
pub proof fn lemma_entering_serves_the_chat_page<T: State>(
    state: &T,
    request: RequestView,
    response: Seq<char>,
)
    requires
        answers(state, request, response),
        request.route() == "POST /chat"@,
        request.form_data.contains_key("username"@),
    ensures
        user_added(state, trimmed(request.form_data["username"@])),
        response == http_response(
            200,
            "OK"@,
            request.static_files[RequiredPage::Chat.name()],
            "text/html"@,
        ),
{
    reveal_strlit("POST /chat");
    reveal_strlit("GET /");
    reveal_strlit("GET /users");
    reveal_strlit("GET /messages");
    reveal_strlit("POST /messages");
    assert("POST /chat"@.len() == 10);
    assert("GET /"@.len() == 5);
    assert("GET /users"@.len() == 10);
    assert("GET /users"@[0] == 'G');
    assert("POST /chat"@[0] == 'P');
    assert("GET /messages"@.len() == 13);
    assert("POST /messages"@.len() == 14);
}

/// Serves the login page.
pub fn handle_get_root<T: State>(request: &HttpRequest<T>) -> (response: String)
    ensures
        response@ == page(request@.static_files[RequiredPage::Login.name()]),
{
    let content = request.static_files.page(RequiredPage::Login);
    format_http_response(200, "OK", content.as_str(), ContentType::Html.as_str())
}

/// Lists the users who are online and those who have left.
pub fn handle_get_users<T: State>(request: &HttpRequest<T>) -> (response: String)
    ensures
        lists_users(&request.state, response@),
{
    let online = request.state.online_users();
    let offline = request.state.offline_users();
    let content = users_body(&online, &offline);
    let response = format_http_response(
        200,
        "OK",
        content.as_str(),
        ContentType::Json.as_str(),
    );
    assert(response@ == users_response(texts(online@), texts(offline@)));
    response
}

/// Lists the messages, by ascending timestamp.
pub fn handle_get_messages<T: State>(request: &HttpRequest<T>) -> (response: String)
    ensures
        lists_messages(&request.state, response@),
{
    let messages = request.state.messages();
    let content = messages_body(&messages);
    let response = format_http_response(
        200,
        "OK",
        content.as_str(),
        ContentType::Json.as_str(),
    );
    assert(response@ == messages_response(views(messages@)));
    response
}

/// The time of the call in milliseconds since the Unix epoch; 0 where the
/// clock stands before the epoch.
fn now_millis() -> u128 {
    match SystemTime::now().duration_since(unix_epoch()) {
        Ok(elapsed) => elapsed.as_millis(),
        Err(_) => 0,
    }
}

/// The message that a form posts: its fields `sender` and `content`,
/// stamped with `timestamp`. There is none where one of the fields is
/// missing.
pub fn posted_message(form: &TextMap, timestamp: u128) -> (message: Option<Message>)
    ensures
        match message {
            Some(message) => field(form@, "sender"@) == Some(message@.sender) && field(
                form@,
                "content"@,
            ) == Some(message@.content) && message@.timestamp == timestamp,
            None => field(form@, "sender"@) is None || field(form@, "content"@) is None,
        },
{
    match required_field(form, "sender") {
        Some(sender) => match required_field(form, "content") {
            Some(content) => Some(Message { timestamp, sender, content }),
            None => None,
        },
        None => None,
    }
}

/// Appends the posted message to the log, stamped with the time of the
/// call. A form without `sender` or `content` is a bad request.
pub fn handle_post_messages<T: State>(request: &HttpRequest<T>) -> (response: String)
    ensures
        response@ == post_messages_response(request@),
        posts_message(&request.state, request@),
{
    let timestamp = now_millis();
    match posted_message(&request.form_data, timestamp) {
        Some(message) => {
            request.state.add_message(message);
            format_http_response(200, "OK", "", ContentType::TextPlain.as_str())
        },
        None => format_http_response(400, "Bad Request", "", ContentType::TextPlain.as_str()),
    }
}

/// Marks the user of the form field `username` as online and serves the
/// chat page. A form without `username` is a bad request.
pub fn handle_enter_chat<T: State>(request: &HttpRequest<T>) -> (response: String)
    ensures
        response@ == enter_chat_response(request@),
        enters_user(&request.state, request@),
{
    match required_field(&request.form_data, "username") {
        Some(username) => {
            request.state.add_user(username.as_str());
            let content = request.static_files.page(RequiredPage::Chat);
            format_http_response(200, "OK", content.as_str(), ContentType::Html.as_str())
        },
        None => format_http_response(400, "Bad Request", "", ContentType::TextPlain.as_str()),
    }
}

/// Marks the user of the form field `username` as having left. A form
/// without `username` is a bad request.
pub fn handle_exit_chat<T: State>(request: &HttpRequest<T>) -> (response: String)
    ensures
        response@ == exit_chat_response(request@),
        exits_user(&request.state, request@),
{
    match required_field(&request.form_data, "username") {
        Some(username) => {
            request.state.remove_user(username.as_str());
            format_http_response(200, "OK", "", ContentType::TextPlain.as_str())
        },
        None => format_http_response(400, "Bad Request", "", ContentType::TextPlain.as_str()),
    }
}

/// Serves the page for what was not found, with status 404.
pub fn handle_not_found(static_files: &StaticFiles) -> (response: String)
    ensures
        response@ == not_found(static_files@),
{
    let content = static_files.page(RequiredPage::NotFound);
    format_http_response(404, "Not Found", content.as_str(), ContentType::Html.as_str())
}

/// Serves the file `file` as it is, with no content type; the page for what
/// was not found where there is no such file.
pub fn handle_static_file(static_files: &StaticFiles, file: &str) -> (response: String)
    ensures
        response@ == file_response(static_files@, file@),
{
    match static_files.get(file) {
        Some(content) => format_http_response(200, "OK", content.as_str(), ""),
        None => handle_not_found(static_files),
    }
}

/// Serves the file that the path of the request names, without the slash
/// at its start; the page for what was not found where there is no such
/// file, or no path.
pub fn handle_static_files<T: State>(request: &HttpRequest<T>) -> (response: String)
    ensures
        response@ == static_response(request@),
{
    match &request.path {
        Some(path) => {
            let chars = chars_of(path.as_str());
            let from: usize = if chars.len() > 0 && chars[0] == '/' {
                1
            } else {
                0
            };
            let key = string_of(slice_subrange(chars.as_slice(), from, chars.len()));
            assert(key@ =~= file_key(path@));
            handle_static_file(&request.static_files, key.as_str())
        },
        None => handle_not_found(&request.static_files),
    }
}

/// Whether `route` is one that clients ask again and again: the list of
/// users or that of messages.
pub open spec fn is_polling(route: Seq<char>) -> bool {
    route == "GET /users"@ || route == "GET /messages"@
}

/// Whether `route` is one that clients ask again and again, so that the log
/// can leave it out.
pub fn polls(route: &str) -> (r: bool)
    ensures
        r == is_polling(route@),
{
    same_text(route, "GET /users") || same_text(route, "GET /messages")
}

/// What a request brought about that is worth a line in the log.
#[derive(Debug)]
pub enum Event {
    /// The user of this name entered the chat.
    UserEntered(String),
    /// The user of this name left the chat.
    UserExited(String),
    /// A message was posted.
    MessagePosted { sender: String, content: String },
    /// Nothing of the kind.
    Nothing,
}

/// What an event holds.
pub enum EventView {
    UserEntered(Seq<char>),
    UserExited(Seq<char>),
    MessagePosted { sender: Seq<char>, content: Seq<char> },
    Nothing,
}

impl View for Event {
    type V = EventView;

    open spec fn view(&self) -> EventView {
        match self {
            Event::UserEntered(name) => EventView::UserEntered(name@),
            Event::UserExited(name) => EventView::UserExited(name@),
            Event::MessagePosted { sender, content } => EventView::MessagePosted {
                sender: sender@,
                content: content@,
            },
            Event::Nothing => EventView::Nothing,
        }
    }
}

/// The event that `request` brings about: a message posted, a user who
/// entered or one who left, where the route is the one for it and the form
/// has the fields; nothing otherwise.
pub open spec fn event_of(request: RequestView) -> EventView {
    let route = request.route();
    if route == "POST /messages"@ {
        match (field(request.form_data, "sender"@), field(request.form_data, "content"@)) {
            (Some(sender), Some(content)) => EventView::MessagePosted { sender, content },
            _ => EventView::Nothing,
        }
    } else if route == "POST /chat"@ {
        match field(request.form_data, "username"@) {
            Some(name) => EventView::UserEntered(name),
            None => EventView::Nothing,
        }
    } else if route == "POST /chat/exit"@ {
        match field(request.form_data, "username"@) {
            Some(name) => EventView::UserExited(name),
            None => EventView::Nothing,
        }
    } else {
        EventView::Nothing
    }
}

/// The event that `request` brings about, for the log.
pub fn event<T: State>(request: &HttpRequest<T>) -> (event: Event)
    ensures
        event@ == event_of(request@),
{
    let route = request.route();
    if same_text(route.as_str(), "POST /messages") {
        match required_field(&request.form_data, "sender") {
            Some(sender) => match required_field(&request.form_data, "content") {
                Some(content) => Event::MessagePosted { sender, content },
                None => Event::Nothing,
            },
            None => Event::Nothing,
        }
    } else if same_text(route.as_str(), "POST /chat") {
        match required_field(&request.form_data, "username") {
            Some(name) => Event::UserEntered(name),
            None => Event::Nothing,
        }
    } else if same_text(route.as_str(), "POST /chat/exit") {
        match required_field(&request.form_data, "username") {
            Some(name) => Event::UserExited(name),
            None => Event::Nothing,
        }
    } else {
        Event::Nothing
    }
}

/// The response to `request`: that of the handler of its route, or of the
/// static files where no route matches.
pub fn handle_request<T: State>(request: &HttpRequest<T>) -> (response: String)
    ensures
        answers(&request.state, request@, response@),
{
    let route = request.route();
    if same_text(route.as_str(), "GET /") {
        handle_get_root(request)
    } else if same_text(route.as_str(), "GET /users") {
        handle_get_users(request)
    } else if same_text(route.as_str(), "GET /messages") {
        handle_get_messages(request)
    } else if same_text(route.as_str(), "POST /messages") {
        handle_post_messages(request)
    } else if same_text(route.as_str(), "POST /chat") {
        handle_enter_chat(request)
    } else if same_text(route.as_str(), "POST /chat/exit") {
        handle_exit_chat(request)
    } else {
        handle_static_files(request)
    }
}

} // verus!
