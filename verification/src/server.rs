//! The server between its sockets: what it answers to the bytes of one
//! connection.

use vstd::prelude::*;
use vstd::utf8::*;
use crate::handler::{
    answers, event, event_of, handle_request, reject, rejection, Event, EventView,
};
use crate::request::{parsed, request_text, HttpRequest, RequestError};
use crate::room::texts;
use crate::state::{StaticFiles, ThreadSafeChatRoom};
use crate::text::{option_text, strip, Padding};

verus! {

/// The size of the buffer that a request is read into. A request that
/// fills it is refused.
pub const BUFFER_SIZE: usize = 4096;

/// What the server made of one connection: the response to send, and for
/// the log the route of the request and the event that it brought about.
#[derive(Debug)]
pub struct Handled {
    pub response: String,
    pub route: Option<String>,
    pub event: Event,
    /// The parts of the body that the form data passed over.
    pub passed_over: Vec<String>,
}

/// What a `Handled` holds.
pub struct HandledView {
    pub response: Seq<char>,
    pub route: Option<Seq<char>>,
    pub event: EventView,
    pub passed_over: Seq<Seq<char>>,
}

impl View for Handled {
    type V = HandledView;

    open spec fn view(&self) -> HandledView {
        HandledView {
            response: self.response@,
            route: option_text(self.route),
            event: self.event@,
            passed_over: texts(self.passed_over@),
        }
    }
}

/// The server: the static files and the chat room that all its connections
/// share.
pub struct HttpServer {
    static_files: StaticFiles,
    state: ThreadSafeChatRoom,
}

impl HttpServer {
    /// The static files that the server answers from.
    pub closed spec fn files(&self) -> Map<Seq<char>, Seq<char>> {
        self.static_files@
    }

    /// The chat room that the server's connections share.
    pub closed spec fn room(&self) -> ThreadSafeChatRoom {
        self.state
    }

    /// A server with these static files and an empty chat room.
    pub fn new(static_files: StaticFiles) -> (server: HttpServer)
        ensures
            server.files() == static_files@,
    {
        HttpServer { static_files, state: ThreadSafeChatRoom::new() }
    }

    /// The response to the request in `buffer`, of which `bytes_read` bytes
    /// were filled, with the route and the event for the log.
    ///
    /// A request that fills the buffer is answered as too large, one whose
    /// form cannot be decoded as a bad request, and any other by the
    /// handler of its route. Only a request that was read has a route, and
    /// only such a request brings about an event.
    pub fn handle(&self, buffer: &[u8], bytes_read: usize) -> (handled: Handled)
        ensures
            bytes_read >= buffer.len() ==> handled@ == (HandledView {
                response: rejection(RequestError::TooLarge),
                route: None,
                event: EventView::Nothing,
                passed_over: Seq::empty(),
            }),
            bytes_read < buffer.len() ==> match parsed(request_text(buffer@), self.files()) {
                Some(request) => answers(&self.room(), request, handled@.response) && handled@.route
                    == Some(request.route()) && handled@.event == event_of(request)
                    && handled@.passed_over == request.passed_over,
                None => handled@ == (HandledView {
                    response: rejection(RequestError::UndecodableBody),
                    route: None,
                    event: EventView::Nothing,
                    passed_over: Seq::empty(),
                }),
            },
            bytes_read < buffer.len() && valid_utf8(buffer@) ==> request_text(buffer@) == strip(
                decode_utf8(buffer@),
                Padding::Nul,
            ),
    {
        match HttpRequest::new(buffer, bytes_read, self.static_files.clone(), self.state.clone()) {
            Ok(request) => {
                let response = handle_request(&request);
                let route = Some(request.route());
                let event = event(&request);
                Handled { response, route, event, passed_over: request.passed_over }
            },
            Err(error) => {
                let none: Vec<String> = Vec::new();
                assert(texts(none@) =~= Seq::empty());
                Handled { response: reject(error), route: None, event: Event::Nothing, passed_over: none }
            },
        }
    }
}

impl Clone for HttpServer {
    /// A second handle to the same server.
    fn clone(&self) -> (other: HttpServer)
        ensures
            other == *self,
    {
        HttpServer { static_files: self.static_files.clone(), state: self.state.clone() }
    }
}

} // verus!
