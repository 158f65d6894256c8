use messenger_server::models::ChatListItem;
use messenger_server::store::Store;
use messenger_server::tables::UserRow;

const T1: &str = "2024-05-01 10:00:01";
const T2: &str = "2024-05-01 10:00:02";
const T3: &str = "2024-05-01 10:00:03";
const T4: &str = "2024-05-01 10:00:04";

fn user(id: i64, login: &str) -> UserRow {
    UserRow {
        id,
        login: login.to_string(),
        password_hash: String::new(),
        created_at: T1.to_string(),
        deleted_at: None,
    }
}

fn row(i: &ChatListItem) -> (String, Option<i64>, Option<i64>, String, i64, Option<String>) {
    (i.chat_type.clone(), i.chat_id, i.user_id, i.title.clone(), i.unread_count, i.last_message_at.clone())
}

fn d(user_id: i64, title: &str, unread: i64, at: &str) -> (String, Option<i64>, Option<i64>, String, i64, Option<String>) {
    ("direct".to_string(), None, Some(user_id), title.to_string(), unread, Some(at.to_string()))
}

fn g(chat_id: i64, title: &str, unread: i64, at: Option<&str>) -> (String, Option<i64>, Option<i64>, String, i64, Option<String>) {
    ("group".to_string(), Some(chat_id), None, title.to_string(), unread, at.map(|s| s.to_string()))
}

/// ann (1), ben (2), cid (3), dan (4); group 1 "club" (ann, ben) with one
/// message, group 2 "quiet" (ann) with none.
fn busy() -> Store {
    let users = vec![user(1, "ann"), user(2, "ben"), user(3, "cid"), user(4, "dan")];
    let mut s = Store::restore(users, vec![], vec![], vec![], vec![], vec![], vec![], vec![], 4, 0, 0).unwrap();
    s.create_group(1, "club", &vec!["ben".to_string()], T1).unwrap();
    s.create_group(1, "quiet", &vec![], T1).unwrap();
    s.save_direct_message(1, 2, "a", T1).unwrap(); // 1
    s.save_direct_message(3, 1, "b", T3).unwrap(); // 2
    s.save_direct_message(2, 1, "c", T2).unwrap(); // 3
    s.save_group_message(2, 1, "d", T4).unwrap(); // 4
    s.save_direct_message(3, 4, "e", T4).unwrap(); // 5
    s
}

#[test]
fn chat_list_is_latest_first_with_unread_counts() {
    let s = busy();
    let rows: Vec<_> = s.active_chats(1).iter().map(row).collect();
    assert_eq!(
        rows,
        vec![g(1, "club", 1, Some(T4)), d(3, "cid", 1, T3), d(2, "ben", 1, T2), g(2, "quiet", 0, None)]
    );
}

#[test]
fn reading_clears_the_unread_counter() {
    let mut s = busy();
    s.conversation(1, 2, T4);
    s.group_conversation(1, 1, T4).unwrap();
    let rows: Vec<_> = s.active_chats(1).iter().map(row).collect();
    assert_eq!(
        rows,
        vec![g(1, "club", 0, Some(T4)), d(3, "cid", 1, T3), d(2, "ben", 0, T2), g(2, "quiet", 0, None)]
    );
}

#[test]
fn own_messages_are_never_unread() {
    let mut s = busy();
    s.save_group_message(1, 1, "mine", T4).unwrap();
    s.save_direct_message(1, 3, "mine too", T4).unwrap();
    let list = s.active_chats(1);
    let club = list.iter().find(|i| i.chat_id == Some(1)).unwrap();
    assert_eq!(club.unread_count, 1);
    let cid = list.iter().find(|i| i.user_id == Some(3)).unwrap();
    assert_eq!(cid.unread_count, 1);
}

#[test]
fn no_read_receipts_what_others_read_does_not_show() {
    let mut s = busy();
    let before: Vec<_> = s.active_chats(1).iter().map(row).collect();
    s.conversation(2, 1, T4);
    s.group_conversation(2, 1, T4).unwrap();
    s.mark_direct_chat_read(3, 1, 99, T4);
    let after: Vec<_> = s.active_chats(1).iter().map(row).collect();
    assert_eq!(before, after);
}

#[test]
fn blocked_and_deleted_peers_leave_the_chat_list() {
    let mut s = busy();
    s.block_user(3, 1, T4).unwrap();
    let rows: Vec<_> = s.active_chats(1).iter().map(row).collect();
    assert_eq!(rows.len(), 3);
    assert!(rows.iter().all(|r| r.2 != Some(3)));
    s.users[1].deleted_at = Some(T4.to_string());
    let rows: Vec<_> = s.active_chats(1).iter().map(row).collect();
    assert_eq!(rows, vec![g(1, "club", 1, Some(T4)), g(2, "quiet", 0, None)]);
}

#[test]
fn left_and_deleted_groups_leave_the_chat_list() {
    let mut s = busy();
    s.members[0].left_at = Some(T4.to_string());
    s.chats[1].deleted_at = Some(T4.to_string());
    let rows: Vec<_> = s.active_chats(1).iter().map(row).collect();
    assert_eq!(rows, vec![d(3, "cid", 1, T3), d(2, "ben", 1, T2)]);
}

#[test]
fn a_user_without_conversations_has_an_empty_list() {
    let s = busy();
    assert!(s.active_chats(99).is_empty());
    let dan: Vec<_> = s.active_chats(4).iter().map(row).collect();
    assert_eq!(dan, vec![d(3, "cid", 1, T4)]);
}
