use messenger_server::models::IncomingWsMessage;
use messenger_server::socket::accepts_socket_user;
use messenger_server::store::Store;
use messenger_server::tables::{ChatRow, MemberRow, UserRow};

const NOW: &str = "2024-05-01 10:00:00";

fn user(id: i64, login: &str) -> UserRow {
    UserRow {
        id,
        login: login.to_string(),
        password_hash: String::new(),
        created_at: NOW.to_string(),
        deleted_at: None,
    }
}

fn store() -> Store {
    let users = vec![user(1, "ann"), user(2, "ben"), user(3, "cid")];
    let chats = vec![ChatRow {
        id: 1,
        chat_type: "group".to_string(),
        title: "club".to_string(),
        created_by: 1,
        created_at: NOW.to_string(),
        deleted_at: None,
    }];
    let members = vec![
        MemberRow { chat_id: 1, user_id: 1, joined_at: NOW.to_string(), left_at: None },
        MemberRow { chat_id: 1, user_id: 3, joined_at: NOW.to_string(), left_at: None },
        MemberRow { chat_id: 1, user_id: 2, joined_at: NOW.to_string(), left_at: None },
    ];
    Store::restore(users, vec![], vec![], vec![], vec![], chats, members, vec![], 3, 0, 1).unwrap()
}

fn incoming(receiver_id: Option<i64>, chat_id: Option<i64>, text: &str) -> IncomingWsMessage {
    IncomingWsMessage { receiver_id, chat_id, text: text.to_string() }
}

#[test]
fn sockets_are_only_for_positive_user_ids() {
    assert!(accepts_socket_user(1));
    assert!(!accepts_socket_user(0));
    assert!(!accepts_socket_user(-5));
}

#[test]
fn group_message_goes_to_the_current_members() {
    let mut s = store();
    let (m, targets) = s.handle_incoming(3, &incoming(None, Some(1), " hi all "), NOW).unwrap().unwrap();
    assert_eq!((m.id, m.sender_id, m.chat_id, m.receiver_id), (1, 3, Some(1), None));
    assert_eq!(m.text, "hi all");
    assert_eq!(m.sender_login.as_deref(), Some("cid"));
    assert_eq!(targets, vec![1, 3, 2]);
}

#[test]
fn direct_message_goes_to_both_users() {
    let mut s = store();
    let (m, targets) = s.handle_incoming(2, &incoming(Some(1), None, "psst"), NOW).unwrap().unwrap();
    assert_eq!((m.sender_id, m.receiver_id), (2, Some(1)));
    assert_eq!(targets, vec![2, 1]);
}

#[test]
fn a_chat_id_wins_over_a_receiver() {
    let mut s = store();
    let (m, _) = s.handle_incoming(1, &incoming(Some(2), Some(1), "both"), NOW).unwrap().unwrap();
    assert_eq!((m.chat_id, m.receiver_id), (Some(1), None));
}

#[test]
fn a_message_with_no_address_is_ignored() {
    let mut s = store();
    assert!(s.handle_incoming(1, &incoming(None, None, "lost"), NOW).is_none());
    assert!(s.messages.is_empty());
}

#[test]
fn refused_messages_are_reported_and_not_stored() {
    let mut s = store();
    let e = s.handle_incoming(1, &incoming(None, Some(7), "hi"), NOW).unwrap().unwrap_err();
    assert_eq!((e.status, e.message.as_str()), (403, "Нет доступа к группе"));
    let e = s.handle_incoming(1, &incoming(Some(2), None, "   "), NOW).unwrap().unwrap_err();
    assert_eq!((e.status, e.message.as_str()), (400, "Пустое сообщение"));
    s.block_user(2, 1, NOW).unwrap();
    let e = s.handle_incoming(1, &incoming(Some(2), None, "hi"), NOW).unwrap().unwrap_err();
    assert_eq!((e.status, e.message.as_str()), (403, "Переписка заблокирована"));
    assert!(s.messages.is_empty());
}
