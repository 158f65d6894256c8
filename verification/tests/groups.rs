use messenger_server::error::AppError;
use messenger_server::store::Store;
use messenger_server::tables::UserRow;

const NOW: &str = "2024-05-01 10:00:00";

fn user(id: i64, login: &str) -> UserRow {
    UserRow {
        id,
        login: login.to_string(),
        password_hash: String::new(),
        created_at: NOW.to_string(),
        deleted_at: None,
    }
}

fn err(e: AppError) -> (u16, String) {
    (e.status, e.message)
}

fn people() -> Store {
    let users = vec![user(1, "ann"), user(2, "ben"), user(3, "cid"), user(4, "dee"), user(5, "eve")];
    Store::restore(users, vec![], vec![], vec![], vec![], vec![], vec![], vec![], 5, 0, 0).unwrap()
}

fn logins(v: &[&str]) -> Vec<String> {
    v.iter().map(|s| s.to_string()).collect()
}

#[test]
fn creator_and_named_users_become_members() {
    let mut s = people();
    let g = s.create_group(1, "  Friends ", &logins(&["ben", " cid ", ""]), NOW).unwrap();
    assert_eq!(g.chat_id, 1);
    assert_eq!(g.title, "Friends");
    assert_eq!(s.chats.len(), 1);
    assert_eq!(s.chats[0].title, "Friends");
    assert_eq!(s.chats[0].chat_type, "group");
    assert_eq!(s.chats[0].created_by, 1);
    assert_eq!(s.group_member_ids(1), vec![1, 2, 3]);
    assert!(s.is_group_member(1, 1));
    assert!(s.is_group_member(2, 1));
    assert!(!s.is_group_member(4, 1));
    let g2 = s.create_group(2, "Second", &logins(&[]), NOW).unwrap();
    assert_eq!(g2.chat_id, 2);
    assert_eq!(s.group_member_ids(2), vec![2]);
}

#[test]
fn unknown_deleted_blocked_and_repeated_logins_are_passed_over() {
    let mut s = people();
    s.users[3].deleted_at = Some(NOW.to_string());
    s.block_user(5, 1, NOW).unwrap();
    let names = logins(&["nobody", "dee", "eve", "ann", "ben", "ben", "BEN"]);
    let g = s.create_group(1, "mixed", &names, NOW).unwrap();
    assert_eq!(s.group_member_ids(g.chat_id), vec![1, 2]);
}

#[test]
fn group_title_must_be_two_to_sixty_four_bytes() {
    let mut s = people();
    let bad = (400, "Название группы: 2-64 символа".to_string());
    assert_eq!(err(s.create_group(1, " a ", &logins(&[]), NOW).unwrap_err()), bad.clone());
    assert_eq!(err(s.create_group(1, &"t".repeat(65), &logins(&[]), NOW).unwrap_err()), bad.clone());
    assert_eq!(err(s.create_group(1, &"ж".repeat(33), &logins(&[]), NOW).unwrap_err()), bad);
    assert!(s.chats.is_empty());
    // one two-byte letter is long enough
    assert!(s.create_group(1, "ж", &logins(&[]), NOW).is_ok());
    assert!(s.create_group(1, &"t".repeat(64), &logins(&[]), NOW).is_ok());
}

#[test]
fn creator_is_member_of_the_new_group() {
    let mut s = people();
    let g = s.create_group(3, "cids", &logins(&["ann"]), NOW).unwrap();
    assert!(s.is_group_member(3, g.chat_id));
    assert_eq!(s.group_member_ids(g.chat_id)[0], 3);
}

#[test]
fn exhausted_chat_ids_are_an_internal_error() {
    let mut s = Store::restore(vec![user(1, "ann")], vec![], vec![], vec![], vec![], vec![], vec![], vec![], 1, 0, i64::MAX)
        .unwrap();
    let e = s.create_group(1, "full", &logins(&[]), NOW).unwrap_err();
    assert_eq!(err(e), (500, "database or disk is full".to_string()));
}

#[test]
fn members_who_left_are_not_listed() {
    let mut s = people();
    let g = s.create_group(1, "club", &logins(&["ben", "cid"]), NOW).unwrap();
    s.members[1].left_at = Some(NOW.to_string());
    assert_eq!(s.group_member_ids(g.chat_id), vec![1, 3]);
    assert!(s.group_member_ids(99).is_empty());
}
