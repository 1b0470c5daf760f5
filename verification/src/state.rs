//! The state that the worker threads share: the chat room behind its lock,
//! and the table of static files.

use vstd::prelude::*;
use std::ops::Deref;
use std::ops::DerefMut;
use std::sync::Arc;
use std::sync::Mutex;
use std::sync::MutexGuard;
use crate::room::{ascending, in_time_order, texts, views, ChatRoom};
use crate::text_map::TextMap;
use crate::trusted::share;

pub use crate::room::Message;

verus! {

/// The operations of the shared chat state. Each one is complete when it
/// returns, and none sees another half done.
///
/// The state is shared, so between two calls another thread may have
/// changed it: a contract here says what holds of every answer.
pub trait State {
    /// Marks `username` as online, and no longer as having left.
    fn add_user(&self, username: &str);

    /// Marks `username` as having left, and no longer as online.
    fn remove_user(&self, username: &str);

    /// The users who are online at the moment of the call, sorted.
    fn online_users(&self) -> (users: Vec<String>)
        ensures
            ascending(texts(users@)),
    ;

    /// The users who have left, at the moment of the call, sorted.
    fn offline_users(&self) -> (users: Vec<String>)
        ensures
            ascending(texts(users@)),
    ;

    /// Appends `message` to the log.
    fn add_message(&self, message: Message);

    /// The messages at the moment of the call, by ascending timestamp.
    fn messages(&self) -> (messages: Vec<Message>)
        ensures
            in_time_order(views(messages@)),
    ;
}

/// A chat room behind one lock, shared by all who hold a clone of the
/// handle.
pub struct ThreadSafeChatRoom(Arc<Mutex<ChatRoom>>);

/// Takes the lock. A lock that a panicking thread has left poisoned is
/// taken all the same: the room behind it is well formed whatever happened.
fn lock<'a>(room: &'a Mutex<ChatRoom>) -> MutexGuard<'a, ChatRoom> {
    match room.lock() {
        Ok(guard) => guard,
        Err(poisoned) => poisoned.into_inner(),
    }
}

impl ThreadSafeChatRoom {
    /// A handle to a new, empty room.
    pub fn new() -> ThreadSafeChatRoom {
        ThreadSafeChatRoom(Arc::new(Mutex::new(ChatRoom::new())))
    }
}

impl Clone for ThreadSafeChatRoom {
    /// A second handle to the same room.
    fn clone(&self) -> (other: ThreadSafeChatRoom)
        ensures
            other == *self,
    {
        ThreadSafeChatRoom(share(&self.0))
    }
}

impl State for ThreadSafeChatRoom {
    fn add_user(&self, username: &str) {
        let mut guard = lock(&self.0);
        guard.deref_mut().add_user(username);
    }

    fn remove_user(&self, username: &str) {
        let mut guard = lock(&self.0);
        guard.deref_mut().remove_user(username);
    }

    fn online_users(&self) -> (users: Vec<String>) {
        let guard = lock(&self.0);
        guard.deref().get_active_users()
    }

    fn offline_users(&self) -> (users: Vec<String>) {
        let guard = lock(&self.0);
        guard.deref().get_offline_users()
    }

    fn add_message(&self, message: Message) {
        let mut guard = lock(&self.0);
        guard.deref_mut().add_message(message);
    }

    fn messages(&self) -> (messages: Vec<Message>) {
        let guard = lock(&self.0);
        guard.deref().get_messages()
    }
}

/// A page that the server cannot do without.
#[derive(Clone, Copy, Debug, PartialEq, Eq, Structural)]
pub enum RequiredPage {
    /// `login.html`, served at the root.
    Login,
    /// `chat.html`, served to a user who enters.
    Chat,
    /// `404.html`, served where nothing else is found.
    NotFound,
}

impl RequiredPage {
    /// The name of the page's file.
    pub open spec fn name(self) -> Seq<char> {
        match self {
            RequiredPage::Login => "login.html"@,
            RequiredPage::Chat => "chat.html"@,
            RequiredPage::NotFound => "404.html"@,
        }
    }

    /// The name of the page's file.
    pub fn file_name(&self) -> (name: &'static str)
        ensures
            name@ == self.name(),
    {
        match self {
            RequiredPage::Login => "login.html",
            RequiredPage::Chat => "chat.html",
            RequiredPage::NotFound => "404.html",
        }
    }
}

/// Whether the three required pages are among `files`.
pub open spec fn complete(files: Map<Seq<char>, Seq<char>>) -> bool {
    &&& files.contains_key(RequiredPage::Login.name())
    &&& files.contains_key(RequiredPage::Chat.name())
    &&& files.contains_key(RequiredPage::NotFound.name())
}

/// The static files by name: built once, never changed, shared by all who
/// hold a clone. The three required pages are always among them.
pub struct StaticFiles(Arc<TextMap>);

impl View for StaticFiles {
    type V = Map<Seq<char>, Seq<char>>;

    closed spec fn view(&self) -> Map<Seq<char>, Seq<char>> {
        self.0@
    }
}

impl StaticFiles {
    #[verifier::type_invariant]
    spec fn well_formed(self) -> bool {
        complete(self.0@)
    }

    /// The table of `files`, or the first required page that is not among
    /// them.
    pub fn new(files: TextMap) -> (table: Result<StaticFiles, RequiredPage>)
        ensures
            match table {
                Ok(table) => complete(files@) && table@ == files@,
                Err(RequiredPage::Login) => !files@.contains_key(RequiredPage::Login.name()),
                Err(RequiredPage::Chat) => files@.contains_key(RequiredPage::Login.name())
                    && !files@.contains_key(RequiredPage::Chat.name()),
                Err(RequiredPage::NotFound) => files@.contains_key(RequiredPage::Login.name())
                    && files@.contains_key(RequiredPage::Chat.name()) && !files@.contains_key(
                    RequiredPage::NotFound.name(),
                ),
            },
    {
        if !files.contains_key(RequiredPage::Login.file_name()) {
            Err(RequiredPage::Login)
        } else if !files.contains_key(RequiredPage::Chat.file_name()) {
            Err(RequiredPage::Chat)
        } else if !files.contains_key(RequiredPage::NotFound.file_name()) {
            Err(RequiredPage::NotFound)
        } else {
            Ok(StaticFiles(Arc::new(files)))
        }
    }

    /// The content of the file `name`, if there is such a file.
    pub fn get(&self, name: &str) -> (content: Option<&String>)
        ensures
            content is Some == self@.contains_key(name@),
            content matches Some(c) ==> c@ == self@[name@],
    {
        self.0.get(name)
    }

    /// Whether there is a file `name`.
    pub fn contains_key(&self, name: &str) -> (r: bool)
        ensures
            r == self@.contains_key(name@),
    {
        self.0.contains_key(name)
    }

    /// The content of a required page, which is always there.
    pub fn page(&self, page: RequiredPage) -> (content: &String)
        ensures
            self@.contains_key(page.name()),
            content@ == self@[page.name()],
    {
        proof {
            use_type_invariant(self);
        }
        match self.0.get(page.file_name()) {
            Some(content) => content,
            None => {
                proof {
                    assert(false);
                }
                unreached()
            },
        }
    }
}

impl Clone for StaticFiles {
    /// A second handle to the same table.
    fn clone(&self) -> (other: StaticFiles)
        ensures
            other == *self,
    {
        proof {
            use_type_invariant(self);
        }
        StaticFiles(share(&self.0))
    }
}

} // verus!
