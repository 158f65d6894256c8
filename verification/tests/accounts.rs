use messenger_server::error::AppError;
use messenger_server::store::Store;
use messenger_server::tables::{MemberRow, UserRow};

const NOW: &str = "2024-05-01 10:00:00";

fn user(id: i64, login: &str) -> UserRow {
    UserRow {
        id,
        login: login.to_string(),
        password_hash: "not-a-hash".to_string(),
        created_at: NOW.to_string(),
        deleted_at: None,
    }
}

/// A user whose stored hash is a cheap bcrypt hash of `password`.
fn user_with_password(id: i64, login: &str, password: &str) -> UserRow {
    let mut u = user(id, login);
    u.password_hash = bcrypt::hash(password, 4).unwrap();
    u
}

fn store_with(users: Vec<UserRow>) -> Store {
    let seq = users.iter().map(|u| u.id).max().unwrap_or(0);
    Store::restore(users, vec![], vec![], vec![], vec![], vec![], vec![], vec![], seq, 0, 0)
        .expect("valid tables")
}

fn err(e: AppError) -> (u16, String) {
    (e.status, e.message)
}

#[test]
fn registered_user_logs_in_with_trimmed_credentials() {
    let mut s = Store::new();
    s.create_user("  alice  ", " secret12 ", NOW).unwrap();
    assert_eq!(s.users.len(), 1);
    assert_eq!(s.users[0].login, "alice");
    assert_eq!(s.users[0].id, 1);
    // the stored hash is a bcrypt hash, not the password
    assert_ne!(s.users[0].password_hash, "secret12");
    assert!(s.users[0].password_hash.starts_with("$2b$12$"));
    assert_eq!(s.users[0].password_hash.len(), 60);
    let (id, login) = s.verify_user(" alice ", "secret12").unwrap();
    assert_eq!(id, 1);
    assert_eq!(login, "alice");
}

#[test]
fn login_with_untrimmed_password_is_refused() {
    let s = store_with(vec![user_with_password(1, "bob", "pass")]);
    let e = s.verify_user("bob", " pass ").unwrap_err();
    assert_eq!(err(e), (401, "Неверные данные".to_string()));
}

#[test]
fn wrong_password_and_unknown_login_are_refused() {
    let s = store_with(vec![user_with_password(1, "carol", "password")]);
    assert_eq!(err(s.verify_user("carol", "wrong").unwrap_err()), (401, "Неверные данные".to_string()));
    assert_eq!(err(s.verify_user("nobody", "password").unwrap_err()), (401, "Неверные данные".to_string()));
}

#[test]
fn short_login_is_refused() {
    let mut s = Store::new();
    let e = s.create_user(" ab ", "password", NOW).unwrap_err();
    assert_eq!(err(e), (400, "Логин минимум 3 символа".to_string()));
    assert!(s.users.is_empty());
}

#[test]
fn login_with_bad_characters_or_too_long_is_refused() {
    let mut s = Store::new();
    let msg = "Логин: 3-32 символа, латиница/цифры/_/-".to_string();
    assert_eq!(err(s.create_user("al ice", "password", NOW).unwrap_err()), (400, msg.clone()));
    assert_eq!(err(s.create_user(&"a".repeat(33), "password", NOW).unwrap_err()), (400, msg.clone()));
    // two Cyrillic letters are four bytes: long enough, but not allowed characters
    assert_eq!(err(s.create_user("жж", "password", NOW).unwrap_err()), (400, msg));
    assert!(s.users.is_empty());
}

#[test]
fn short_password_is_refused() {
    let mut s = Store::new();
    let e = s.create_user("dave", " abc ", NOW).unwrap_err();
    assert_eq!(err(e), (400, "Пароль минимум 8 символов".to_string()));
    // seven characters are still too few, surrounding white space does not count
    let e = s.create_user("dave", " abcdefg ", NOW).unwrap_err();
    assert_eq!(err(e), (400, "Пароль минимум 8 символов".to_string()));
    assert!(s.users.is_empty());
}

#[test]
fn taken_login_is_a_conflict() {
    let mut s = store_with(vec![user(1, "erin")]);
    let e = s.insert_user("erin".to_string(), Some("h".to_string()), NOW).unwrap_err();
    assert_eq!(err(e), (409, "Логин занят".to_string()));
    assert_eq!(s.users.len(), 1);
}

#[test]
fn failed_hashing_is_an_internal_error() {
    let mut s = Store::new();
    let e = s.insert_user("frank".to_string(), None, NOW).unwrap_err();
    assert_eq!(err(e), (500, "Ошибка хэширования пароля".to_string()));
    assert!(s.users.is_empty());
}

#[test]
fn new_users_get_increasing_ids() {
    let mut s = store_with(vec![user(7, "gina")]);
    s.insert_user("hank".to_string(), Some("h".to_string()), NOW).unwrap();
    assert_eq!(s.users[1].id, 8);
    assert_eq!(s.user_seq, 8);
}

#[test]
fn exhausted_user_ids_are_an_internal_error() {
    let users = vec![user(i64::MAX, "ivan")];
    let mut s = Store::restore(users, vec![], vec![], vec![], vec![], vec![], vec![], vec![], i64::MAX, 0, 0).unwrap();
    let e = s.insert_user("jane".to_string(), Some("h".to_string()), NOW).unwrap_err();
    assert_eq!(err(e), (500, "database or disk is full".to_string()));
}

#[test]
fn login_opens_a_session_that_authenticates() {
    let mut s = store_with(vec![user_with_password(1, "kate", "password")]);
    let a = s.login("kate", "password", "tok-1".to_string()).unwrap();
    assert_eq!((a.user_id, a.login.as_str(), a.token.as_str()), (1, "kate", "tok-1"));
    assert_eq!(s.authenticated_user_id(Some("Bearer tok-1")).unwrap(), 1);
    assert_eq!(s.authenticated_user_id(Some("Bearer   tok-1  ")).unwrap(), 1);
    assert_eq!(s.websocket_user_id(Some(&"tok-1".to_string())).unwrap(), 1);
}

#[test]
fn missing_or_unknown_tokens_are_unauthorized() {
    let mut s = store_with(vec![user(1, "liam")]);
    s.create_session(1, "abc".to_string()).unwrap();
    let unauthorized = (401, "Нужна авторизация".to_string());
    assert_eq!(err(s.authenticated_user_id(None).unwrap_err()), unauthorized);
    assert_eq!(err(s.authenticated_user_id(Some("bearer abc")).unwrap_err()), unauthorized);
    assert_eq!(err(s.authenticated_user_id(Some("Bearer    ")).unwrap_err()), unauthorized);
    assert_eq!(err(s.authenticated_user_id(Some("Bearer xyz")).unwrap_err()), unauthorized);
    assert_eq!(err(s.websocket_user_id(None).unwrap_err()), unauthorized);
    assert_eq!(err(s.websocket_user_id(Some(&"xyz".to_string())).unwrap_err()), unauthorized);
}

#[test]
fn reused_session_token_is_refused() {
    let mut s = store_with(vec![user(1, "mia"), user(2, "noah")]);
    s.create_session(1, "same".to_string()).unwrap();
    let e = s.create_session(2, "same".to_string()).unwrap_err();
    assert_eq!(err(e), (500, "UNIQUE constraint failed: sessions.token".to_string()));
    assert_eq!(s.authenticate_token(&"same".to_string()).unwrap(), 1);
}

#[test]
fn deleting_an_account_needs_its_password() {
    let mut s = store_with(vec![user_with_password(1, "olga", "password")]);
    assert_eq!(err(s.delete_account(1, "wrong", NOW).unwrap_err()), (401, "Неверный пароль".to_string()));
    assert_eq!(err(s.delete_account(5, "password", NOW).unwrap_err()), (401, "Аккаунт не найден".to_string()));
    assert_eq!(s.users[0].login, "olga");
}

#[test]
fn deleted_account_is_renamed_and_cannot_log_in() {
    let mut s = store_with(vec![user_with_password(1, "pete", "password"), user(2, "quinn")]);
    s.create_session(1, "t1".to_string()).unwrap();
    s.save_direct_message(1, 2, "hello", NOW).unwrap();
    s.save_direct_message(2, 1, "hi pete", NOW).unwrap();
    s.conversation(2, 1, NOW);
    s.block_user(1, 2, NOW).unwrap();
    s.block_user(2, 1, NOW).unwrap();
    s.unblock_user(2, 1);
    let g = s.create_group(1, "team", &vec!["quinn".to_string()], NOW);
    // quinn is blocked by pete, so only pete is in the group
    let g = g.unwrap();
    assert_eq!(s.group_member_ids(g.chat_id), vec![1]);
    s.delete_account(1, " password ", "2024-05-02 00:00:00").unwrap();
    assert_eq!(s.users[0].login, "deleted_1");
    assert_eq!(s.users[0].password_hash, "");
    assert_eq!(s.users[0].deleted_at.as_deref(), Some("2024-05-02 00:00:00"));
    assert!(s.messages.is_empty());
    assert!(s.direct_reads.is_empty());
    assert!(s.blocks.is_empty());
    assert!(s.sessions.is_empty());
    assert_eq!(s.members[0].left_at.as_deref(), Some("2024-05-02 00:00:00"));
    assert!(!s.is_group_member(1, g.chat_id));
    assert!(s.verify_user("pete", "password").is_err());
    assert!(s.authenticated_user_id(Some("Bearer t1")).is_err());
    assert_eq!(err(s.delete_account(1, "password", NOW).unwrap_err()), (401, "Аккаунт не найден".to_string()));
}

#[test]
fn retired_login_clash_is_an_internal_error_after_the_data_is_gone() {
    let users = vec![user(1, "deleted_2"), user(2, "rita")];
    let mut s = store_with(users);
    s.save_direct_message(2, 1, "hi", NOW).unwrap();
    // rita's password check: build a real hash
    s.users[1].password_hash = bcrypt::hash("secret", 4).unwrap();
    let e = s.delete_account(2, "secret", NOW).unwrap_err();
    assert_eq!(err(e), (500, "UNIQUE constraint failed: users.login".to_string()));
    assert!(s.messages.is_empty());
    assert_eq!(s.users[1].login, "rita");
    assert!(s.users[1].deleted_at.is_none());
}

#[test]
fn restore_refuses_broken_tables() {
    let bad_order = vec![user(2, "a_user"), user(1, "b_user")];
    assert!(Store::restore(bad_order, vec![], vec![], vec![], vec![], vec![], vec![], vec![], 2, 0, 0).is_none());
    let same_login = vec![user(1, "same"), user(2, "same")];
    assert!(Store::restore(same_login, vec![], vec![], vec![], vec![], vec![], vec![], vec![], 2, 0, 0).is_none());
    let seq_too_small = vec![user(1, "a_user"), user(5, "b_user")];
    assert!(Store::restore(seq_too_small, vec![], vec![], vec![], vec![], vec![], vec![], vec![], 4, 0, 0).is_none());
    let members = vec![
        MemberRow { chat_id: 1, user_id: 1, joined_at: NOW.to_string(), left_at: None },
        MemberRow { chat_id: 1, user_id: 1, joined_at: NOW.to_string(), left_at: None },
    ];
    assert!(Store::restore(vec![user(1, "x_user")], vec![], vec![], vec![], vec![], vec![], members, vec![], 1, 0, 0).is_none());
    assert!(Store::restore(vec![user(1, "x_user")], vec![], vec![], vec![], vec![], vec![], vec![], vec![], 1, 0, 0).is_some());
}

#[test]
fn password_check_goes_through_bcrypt() {
    let h = bcrypt::hash("right", 4).unwrap();
    assert!(messenger_server::password::check_password("right", &h));
    assert!(!messenger_server::password::check_password("wrong", &h));
    assert!(!messenger_server::password::check_password("right", "not a bcrypt hash"));
}

#[test]
fn a_deleted_users_login_is_free_again_only_by_its_new_name() {
    let mut s = store_with(vec![user_with_password(1, "sam", "password")]);
    s.delete_account(1, "password", NOW).unwrap();
    // the old login is free again: a new account may take it
    s.insert_user("sam".to_string(), Some("h".to_string()), NOW).unwrap();
    assert_eq!(s.users[1].id, 2);
    // the retired name is taken
    let e = s.insert_user("deleted_1".to_string(), Some("h".to_string()), NOW).unwrap_err();
    assert_eq!(err(e), (409, "Логин занят".to_string()));
}

#[test]
fn login_with_a_token_already_in_use_is_an_internal_error() {
    let mut s = store_with(vec![user_with_password(1, "tara", "password"), user(2, "uma")]);
    s.create_session(2, "taken".to_string()).unwrap();
    let e = s.login("tara", "password", "taken".to_string()).unwrap_err();
    assert_eq!(err(e), (500, "UNIQUE constraint failed: sessions.token".to_string()));
    assert_eq!(s.sessions.len(), 1);
    assert_eq!(s.authenticate_token(&"taken".to_string()).unwrap(), 2);
    // a wrong password opens no session
    assert!(s.login("tara", "nope", "fresh".to_string()).is_err());
    assert_eq!(s.sessions.len(), 1);
}

#[test]
fn a_deleted_account_cannot_be_reached_by_any_login_or_search() {
    let mut s = store_with(vec![user_with_password(1, "vera", "password"), user(2, "walt")]);
    s.delete_account(1, "password", NOW).unwrap();
    for l in ["vera", "  vera ", "deleted_1", " deleted_1"] {
        assert_eq!(err(s.verify_user(l, "password").unwrap_err()), (401, "Неверные данные".to_string()));
    }
    assert!(s.search_users("", 2).is_empty());
    assert!(s.search_users("del", 2).is_empty());
    assert_eq!(err(s.delete_account(1, "password", NOW).unwrap_err()), (401, "Аккаунт не найден".to_string()));
}
