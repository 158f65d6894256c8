use messenger_server::error::AppError;
use messenger_server::store::Store;
use messenger_server::tables::{ChatRow, MemberRow, UserRow};

const NOW: &str = "2024-05-01 10:00:00";

fn user(id: i64, login: &str) -> UserRow {
    UserRow {
        id,
        login: login.to_string(),
        password_hash: String::new(),
        created_at: NOW.to_string(),
        deleted_at: None,
    }
}

fn err(e: AppError) -> (u16, String) {
    (e.status, e.message)
}

fn store_of(users: Vec<UserRow>) -> Store {
    let seq = users.iter().map(|u| u.id).max().unwrap_or(0);
    Store::restore(users, vec![], vec![], vec![], vec![], vec![], vec![], vec![], seq, 0, 0).unwrap()
}

fn found(s: &Store, q: &str, me: i64) -> Vec<String> {
    s.search_users(q, me).into_iter().map(|u| u.login).collect()
}

#[test]
fn user_search_finds_logins_containing_the_query_in_login_order() {
    let s = store_of(vec![user(1, "me"), user(2, "zed_bob"), user(3, "Bobby"), user(4, "alice"), user(5, "bob")]);
    assert_eq!(found(&s, " bob ", 1), vec!["Bobby", "bob", "zed_bob"]);
    let r = s.search_users("bob", 1);
    assert_eq!((r[0].user_id, r[1].user_id, r[2].user_id), (3, 5, 2));
}

#[test]
fn user_search_leaves_out_me_deleted_and_blocked_users() {
    let mut s = store_of(vec![user(1, "sam1"), user(2, "sam2"), user(3, "sam3"), user(4, "sam4"), user(5, "sam5")]);
    s.users[2].deleted_at = Some(NOW.to_string());
    s.block_user(1, 4, NOW).unwrap();
    s.block_user(5, 1, NOW).unwrap();
    assert_eq!(found(&s, "sam", 1), vec!["sam2"]);
    assert_eq!(found(&s, "sam", 2), vec!["sam1", "sam4", "sam5"]);
}

#[test]
fn user_search_wildcards_and_case() {
    let s = store_of(vec![user(1, "me"), user(2, "a_b"), user(3, "axb"), user(4, "AXB-9"), user(5, "a%b")]);
    // `_` stands for one character, `%` for any run, ASCII letters match either case
    assert_eq!(found(&s, "a_b", 1), vec!["AXB-9", "a%b", "a_b", "axb"]);
    assert_eq!(found(&s, "a%b", 1), vec!["AXB-9", "a%b", "a_b", "axb"]);
    assert_eq!(found(&s, "xB", 1), vec!["AXB-9", "axb"]);
    // an empty query finds everyone else
    assert_eq!(found(&s, "  ", 1).len(), 4);
    assert!(found(&s, "zz", 1).is_empty());
}

#[test]
fn user_search_answers_at_most_twenty() {
    let users: Vec<UserRow> = (1..=30).map(|i| user(i, &format!("user{:02}", i))).collect();
    let s = store_of(users);
    let r = found(&s, "user", 30);
    assert_eq!(r.len(), 20);
    assert_eq!(r[0], "user01");
    assert_eq!(r[19], "user20");
}

#[test]
fn user_search_with_a_huge_query_finds_nothing() {
    let s = store_of(vec![user(1, "me"), user(2, "aaa")]);
    assert!(found(&s, &"a".repeat(60000), 1).is_empty());
}

/// ann (1), ben (2), cid (3), dan (4); group 1 "club" of ann and ben.
fn chat_store() -> Store {
    let users = vec![user(1, "ann"), user(2, "ben"), user(3, "cid"), user(4, "dan")];
    let chats = vec![ChatRow {
        id: 1,
        chat_type: "group".to_string(),
        title: "club".to_string(),
        created_by: 1,
        created_at: NOW.to_string(),
        deleted_at: None,
    }];
    let members = vec![
        MemberRow { chat_id: 1, user_id: 1, joined_at: NOW.to_string(), left_at: None },
        MemberRow { chat_id: 1, user_id: 2, joined_at: NOW.to_string(), left_at: None },
    ];
    let mut s = Store::restore(users, vec![], vec![], vec![], vec![], chats, members, vec![], 4, 0, 1).unwrap();
    s.save_direct_message(1, 2, "Hello Ben", NOW).unwrap(); // 1
    s.save_group_message(2, 1, "hello club", NOW).unwrap(); // 2
    s.save_direct_message(3, 1, "say hello", NOW).unwrap(); // 3
    s.save_direct_message(3, 4, "hello dan", NOW).unwrap(); // 4
    s.save_direct_message(2, 1, "bye", NOW).unwrap(); // 5
    s
}

#[test]
fn message_search_query_must_be_two_to_128_bytes() {
    let s = chat_store();
    assert_eq!(err(s.search_messages(1, " h ", None, None).unwrap_err()), (400, "Поиск минимум 2 символа".to_string()));
    let long = (400, "Слишком длинный поисковый запрос".to_string());
    assert_eq!(err(s.search_messages(1, &"h".repeat(129), None, None).unwrap_err()), long.clone());
    assert_eq!(err(s.search_messages(1, &"ж".repeat(65), None, None).unwrap_err()), long);
    assert!(s.search_messages(1, "ж", None, None).is_ok());
    assert!(s.search_messages(1, &"h".repeat(128), None, None).is_ok());
}

#[test]
fn message_search_everywhere_is_newest_first() {
    let s = chat_store();
    let r = s.search_messages(1, "HELLO", None, None).unwrap();
    let got: Vec<(i64, &str, Option<i64>, Option<i64>, &str)> = r
        .iter()
        .map(|x| (x.message.id, x.chat_type.as_str(), x.chat_id, x.user_id, x.title.as_str()))
        .collect();
    assert_eq!(
        got,
        vec![
            (3, "direct", None, Some(3), "cid"),
            (2, "group", Some(1), None, "club"),
            (1, "direct", None, Some(2), "ben"),
        ]
    );
    assert_eq!(r[0].message.sender_login.as_deref(), Some("cid"));
}

#[test]
fn message_search_everywhere_leaves_out_blocked_and_deleted_peers() {
    let mut s = chat_store();
    s.block_user(3, 1, NOW).unwrap();
    let ids: Vec<i64> = s.search_messages(1, "hello", None, None).unwrap().iter().map(|x| x.message.id).collect();
    assert_eq!(ids, vec![2, 1]);
    s.users[1].deleted_at = Some(NOW.to_string());
    let ids: Vec<i64> = s.search_messages(1, "hello", None, None).unwrap().iter().map(|x| x.message.id).collect();
    assert_eq!(ids, vec![2]);
}

#[test]
fn message_search_in_a_group() {
    let mut s = chat_store();
    let r = s.search_messages(1, "hello", Some(9), Some(1)).unwrap();
    assert_eq!(r.len(), 1);
    assert_eq!((r[0].message.id, r[0].chat_type.as_str(), r[0].title.as_str()), (2, "group", "club"));
    assert_eq!(err(s.search_messages(3, "hello", None, Some(1)).unwrap_err()), (403, "Нет доступа к группе".to_string()));
    s.chats[0].deleted_at = Some(NOW.to_string());
    assert_eq!(err(s.search_messages(1, "hello", None, Some(1)).unwrap_err()), (404, "Группа не найдена".to_string()));
}

#[test]
fn message_search_with_one_user() {
    let mut s = chat_store();
    let r = s.search_messages(1, "he", Some(3), None).unwrap();
    assert_eq!(r.len(), 1);
    assert_eq!((r[0].message.id, r[0].chat_type.as_str(), r[0].user_id, r[0].title.as_str()), (3, "direct", Some(3), "cid"));
    assert_eq!(err(s.search_messages(1, "he", Some(77), None).unwrap_err()), (404, "Пользователь не найден".to_string()));
    s.block_user(1, 3, NOW).unwrap();
    assert_eq!(err(s.search_messages(1, "he", Some(3), None).unwrap_err()), (403, "Переписка заблокирована".to_string()));
}

#[test]
fn message_search_answers_at_most_a_hundred() {
    let users = vec![user(1, "ann"), user(2, "ben")];
    let mut s = Store::restore(users, vec![], vec![], vec![], vec![], vec![], vec![], vec![], 2, 0, 0).unwrap();
    for i in 0..120 {
        s.save_direct_message(1, 2, &format!("note {}", i), NOW).unwrap();
    }
    let r = s.search_messages(2, "note", None, None).unwrap();
    assert_eq!(r.len(), 100);
    assert_eq!(r[0].message.id, 120);
    assert_eq!(r[99].message.id, 21);
}

#[test]
fn message_search_finds_nothing_from_other_peoples_conversations() {
    let s = chat_store();
    // dan is in no group and only received "hello dan" from cid
    let r = s.search_messages(4, "hello", None, None).unwrap();
    let ids: Vec<i64> = r.iter().map(|x| x.message.id).collect();
    assert_eq!(ids, vec![4]);
    // cid is not in the club, so its group message stays hidden
    let ids: Vec<i64> = s.search_messages(3, "club", None, None).unwrap().iter().map(|x| x.message.id).collect();
    assert!(ids.is_empty());
}
