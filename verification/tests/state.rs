use chat::state::{Message, RequiredPage, State, StaticFiles, ThreadSafeChatRoom};
use chat::text_map::TextMap;

fn table(names: &[&str]) -> TextMap {
    let mut files = TextMap::new();
    for name in names {
        files.insert(String::from(*name), format!("content of {}", name));
    }
    files
}

#[test]
fn state_it_sorts_messages_by_timestamp() {
    let room = ThreadSafeChatRoom::new();
    room.add_message(Message {
        timestamp: 2,
        sender: String::from("user"),
        content: String::from("test"),
    });
    room.add_message(Message {
        timestamp: 1,
        sender: String::from("user"),
        content: String::from("test"),
    });

    let actual = room.messages();
    let expected = vec![
        Message {
            timestamp: 1,
            sender: String::from("user"),
            content: String::from("test"),
        },
        Message {
            timestamp: 2,
            sender: String::from("user"),
            content: String::from("test"),
        },
    ];

    assert_eq!(actual, expected);
}

#[test]
fn shared_room_moves_users_between_the_lists() {
    let room = ThreadSafeChatRoom::new();
    assert!(room.online_users().is_empty());
    assert!(room.offline_users().is_empty());
    room.add_user("bob");
    room.add_user("alice");
    assert_eq!(
        room.online_users(),
        vec![String::from("alice"), String::from("bob")]
    );
    room.remove_user("bob");
    assert_eq!(room.online_users(), vec![String::from("alice")]);
    assert_eq!(room.offline_users(), vec![String::from("bob")]);
    room.add_user("bob");
    assert!(room.offline_users().is_empty());
}

#[test]
fn clones_of_the_handle_share_one_room() {
    let room = ThreadSafeChatRoom::new();
    let other = room.clone();
    other.add_user("bob");
    other.add_message(Message {
        timestamp: 1,
        sender: String::from("bob"),
        content: String::from("hi"),
    });
    assert_eq!(room.online_users(), vec![String::from("bob")]);
    assert_eq!(room.messages().len(), 1);
}

#[test]
fn shared_room_sorts_what_many_handles_add() {
    let room = ThreadSafeChatRoom::new();
    let handles: Vec<ThreadSafeChatRoom> = (0..8).map(|_| room.clone()).collect();
    for i in 0..50u128 {
        for (worker, handle) in handles.iter().enumerate() {
            handle.add_user(&format!("user{}", worker));
            handle.add_message(Message {
                timestamp: 1000 - (i * 8 + worker as u128),
                sender: format!("user{}", worker),
                content: String::from("test"),
            });
        }
    }
    for (worker, handle) in handles.iter().enumerate() {
        handle.remove_user(&format!("user{}", worker));
    }
    assert!(room.online_users().is_empty());
    assert_eq!(room.offline_users().len(), 8);
    let messages = room.messages();
    assert_eq!(messages.len(), 400);
    for pair in messages.windows(2) {
        assert!(pair[0].timestamp <= pair[1].timestamp);
    }
}

#[test]
fn static_files_need_the_three_pages() {
    assert!(StaticFiles::new(table(&["login.html", "chat.html", "404.html"])).is_ok());
    assert_eq!(
        StaticFiles::new(table(&["chat.html", "404.html"])).err(),
        Some(RequiredPage::Login)
    );
    assert_eq!(
        StaticFiles::new(table(&["login.html", "404.html"])).err(),
        Some(RequiredPage::Chat)
    );
    assert_eq!(
        StaticFiles::new(table(&["login.html", "chat.html"])).err(),
        Some(RequiredPage::NotFound)
    );
    assert_eq!(
        StaticFiles::new(TextMap::new()).err(),
        Some(RequiredPage::Login)
    );
}

#[test]
fn required_pages_have_their_file_names() {
    assert_eq!(RequiredPage::Login.file_name(), "login.html");
    assert_eq!(RequiredPage::Chat.file_name(), "chat.html");
    assert_eq!(RequiredPage::NotFound.file_name(), "404.html");
}

#[test]
fn static_files_are_found_by_name() {
    let files = match StaticFiles::new(table(&["login.html", "chat.html", "404.html", "app.js"])) {
        Ok(files) => files,
        Err(page) => panic!("missing {:?}", page),
    };
    assert_eq!(
        files.get("app.js"),
        Some(&String::from("content of app.js"))
    );
    assert_eq!(files.get("other.js"), None);
    assert!(files.contains_key("chat.html"));
    assert!(!files.contains_key("/chat.html"));
    assert_eq!(files.page(RequiredPage::Login), "content of login.html");
    assert_eq!(files.page(RequiredPage::Chat), "content of chat.html");
    assert_eq!(files.page(RequiredPage::NotFound), "content of 404.html");
    let other = files.clone();
    assert_eq!(
        other.get("app.js"),
        Some(&String::from("content of app.js"))
    );
}

#[test]
fn text_map_has_each_key_once() {
    let mut map = TextMap::new();
    assert_eq!(map.len(), 0);
    for round in 0..3 {
        for key in ["a", "b", "", "caf\u{e9}"] {
            map.insert(String::from(key), format!("{}{}", key, round));
        }
        assert_eq!(map.len(), 4);
    }
    assert_eq!(map.get("a"), Some(&String::from("a2")));
    assert_eq!(map.get(""), Some(&String::from("2")));
    assert_eq!(map.get("caf\u{e9}"), Some(&String::from("caf\u{e9}2")));
    map.insert(String::from("c"), String::from("x"));
    assert_eq!(map.len(), 5);
}

#[test]
fn text_map_keeps_the_last_value_of_a_key() {
    let mut map = TextMap::new();
    assert_eq!(map.get("a"), None);
    assert!(!map.contains_key("a"));
    map.insert(String::from("a"), String::from("1"));
    map.insert(String::from("b"), String::from("2"));
    map.insert(String::from("a"), String::from("3"));
    assert_eq!(map.get("a"), Some(&String::from("3")));
    assert_eq!(map.get("b"), Some(&String::from("2")));
    assert_eq!(map.get(""), None);
    assert!(map.contains_key("b"));
}
