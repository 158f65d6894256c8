use messenger_server::error::AppError;
use messenger_server::messaging::validate_message;
use messenger_server::store::Store;
use messenger_server::tables::{ChatRow, MemberRow, UserRow};

const NOW: &str = "2024-05-01 10:00:00";
const LATER: &str = "2024-05-01 11:00:00";

fn user(id: i64, login: &str) -> UserRow {
    UserRow {
        id,
        login: login.to_string(),
        password_hash: String::new(),
        created_at: NOW.to_string(),
        deleted_at: None,
    }
}

fn err(e: AppError) -> (u16, String) {
    (e.status, e.message)
}

/// Users 1 ann, 2 ben, 3 cid; group chat 1 "club" with ann and ben.
fn three_users() -> Store {
    let users = vec![user(1, "ann"), user(2, "ben"), user(3, "cid")];
    let chats = vec![ChatRow {
        id: 1,
        chat_type: "group".to_string(),
        title: "club".to_string(),
        created_by: 1,
        created_at: NOW.to_string(),
        deleted_at: None,
    }];
    let members = vec![
        MemberRow { chat_id: 1, user_id: 1, joined_at: NOW.to_string(), left_at: None },
        MemberRow { chat_id: 1, user_id: 2, joined_at: NOW.to_string(), left_at: None },
    ];
    Store::restore(users, vec![], vec![], vec![], vec![], chats, members, vec![], 3, 0, 1).unwrap()
}

#[test]
fn message_text_is_trimmed_and_bounded() {
    assert_eq!(validate_message("  hi  ").unwrap(), "hi");
    let empty = (400, "Пустое сообщение".to_string());
    assert_eq!(err(validate_message("").unwrap_err()), empty);
    assert_eq!(err(validate_message(" \t\n ").unwrap_err()), empty);
    let long = (400, "Сообщение слишком длинное".to_string());
    assert_eq!(validate_message(&"a".repeat(4000)).unwrap().len(), 4000);
    assert_eq!(err(validate_message(&"a".repeat(4001)).unwrap_err()), long);
    // the bound counts bytes: 2000 two-byte letters fit, 2001 do not
    assert!(validate_message(&"ж".repeat(2000)).is_ok());
    assert_eq!(err(validate_message(&"ж".repeat(2001)).unwrap_err()), long);
    // surrounding white space does not count
    assert!(validate_message(&format!("  {}  ", "a".repeat(4000))).is_ok());
}

#[test]
fn direct_message_is_stored_with_the_senders_login() {
    let mut s = three_users();
    let m = s.save_direct_message(1, 2, "  hello ben ", NOW).unwrap();
    assert_eq!(m.id, 1);
    assert_eq!(m.sender_id, 1);
    assert_eq!(m.receiver_id, Some(2));
    assert_eq!(m.chat_id, None);
    assert_eq!(m.text, "hello ben");
    assert_eq!(m.timestamp, NOW);
    assert_eq!(m.sender_login.as_deref(), Some("ann"));
    assert_eq!(s.messages.len(), 1);
    assert_eq!(s.message_seq, 1);
    let m2 = s.save_direct_message(2, 1, "hi", LATER).unwrap();
    assert_eq!(m2.id, 2);
}

#[test]
fn direct_message_to_a_missing_or_deleted_user_is_refused() {
    let mut s = three_users();
    let missing = (400, "Получатель не найден".to_string());
    assert_eq!(err(s.save_direct_message(1, 9, "hi", NOW).unwrap_err()), missing);
    s.users[2].deleted_at = Some(NOW.to_string());
    assert_eq!(err(s.save_direct_message(1, 3, "hi", NOW).unwrap_err()), missing);
    // an empty text is refused before the receiver is looked at
    assert_eq!(err(s.save_direct_message(1, 9, "  ", NOW).unwrap_err()), (400, "Пустое сообщение".to_string()));
    assert!(s.messages.is_empty());
}

#[test]
fn direct_message_from_an_unknown_sender_breaks_the_foreign_key() {
    let mut s = three_users();
    let e = s.save_direct_message(42, 1, "hi", NOW).unwrap_err();
    assert_eq!(err(e), (500, "FOREIGN KEY constraint failed".to_string()));
    assert!(s.messages.is_empty());
}

#[test]
fn block_is_mutual_and_takes_effect() {
    let mut s = three_users();
    s.block_user(1, 2, NOW).unwrap();
    assert!(s.blocks_user(1, 2));
    assert!(!s.blocks_user(2, 1));
    assert!(s.is_blocked_either_way(1, 2));
    assert!(s.is_blocked_either_way(2, 1));
    let blocked = (403, "Переписка заблокирована".to_string());
    assert_eq!(err(s.save_direct_message(1, 2, "hi", NOW).unwrap_err()), blocked.clone());
    assert_eq!(err(s.save_direct_message(2, 1, "hi", NOW).unwrap_err()), blocked.clone());
    assert_eq!(err(s.history(2, Some(1), None, NOW).unwrap_err()), blocked);
    // a third user is not concerned
    assert!(s.save_direct_message(3, 1, "hi", NOW).is_ok());
}

#[test]
fn blocking_twice_keeps_one_block() {
    let mut s = three_users();
    s.block_user(1, 2, NOW).unwrap();
    s.block_user(1, 2, LATER).unwrap();
    assert_eq!(s.blocks.len(), 1);
    assert_eq!(s.blocks[0].created_at, NOW);
}

#[test]
fn bad_block_targets_are_refused() {
    let mut s = three_users();
    let bad = (400, "Неверная цель блокировки".to_string());
    assert_eq!(err(s.block_user(1, 1, NOW).unwrap_err()), bad.clone());
    assert_eq!(err(s.block_user(0, 1, NOW).unwrap_err()), bad.clone());
    assert_eq!(err(s.block_user(1, -3, NOW).unwrap_err()), bad);
    assert!(s.blocks.is_empty());
}

#[test]
fn unblock_lifts_only_that_block() {
    let mut s = three_users();
    s.block_user(1, 2, NOW).unwrap();
    s.block_user(2, 1, NOW).unwrap();
    s.block_user(1, 3, NOW).unwrap();
    s.unblock_user(1, 2);
    assert!(!s.blocks_user(1, 2));
    assert!(s.blocks_user(2, 1));
    assert!(s.blocks_user(1, 3));
    assert!(s.is_blocked_either_way(1, 2));
    s.unblock_user(2, 1);
    assert!(!s.is_blocked_either_way(1, 2));
    // unblocking what is not blocked changes nothing
    s.unblock_user(3, 1);
    assert_eq!(s.blocks.len(), 1);
}

#[test]
fn unblock_undoes_block() {
    let mut s = three_users();
    s.block_user(2, 3, NOW).unwrap();
    s.block_user(1, 2, NOW).unwrap();
    s.unblock_user(1, 2);
    assert_eq!(s.blocks.len(), 1);
    assert_eq!((s.blocks[0].blocker_id, s.blocks[0].blocked_id), (2, 3));
}

#[test]
fn conversation_lists_both_directions_oldest_first() {
    let mut s = three_users();
    s.save_direct_message(1, 2, "one", NOW).unwrap();
    s.save_direct_message(3, 1, "other pair", NOW).unwrap();
    s.save_group_message(1, 1, "group", NOW).unwrap();
    s.save_direct_message(2, 1, "two", NOW).unwrap();
    s.save_direct_message(1, 2, "three", LATER).unwrap();
    let v = s.conversation(1, 2, LATER);
    let texts: Vec<&str> = v.iter().map(|m| m.text.as_str()).collect();
    assert_eq!(texts, vec!["one", "two", "three"]);
    let ids: Vec<i64> = v.iter().map(|m| m.id).collect();
    assert_eq!(ids, vec![1, 4, 5]);
    assert_eq!(v[1].sender_login.as_deref(), Some("ben"));
    // reading marks the conversation read up to its last message
    assert_eq!(s.direct_reads.len(), 1);
    assert_eq!((s.direct_reads[0].user_id, s.direct_reads[0].peer_id), (1, 2));
    assert_eq!(s.direct_reads[0].last_read_message_id, 5);
    assert_eq!(s.direct_reads[0].updated_at, LATER);
}

#[test]
fn empty_conversation_marks_nothing() {
    let mut s = three_users();
    assert!(s.conversation(1, 3, NOW).is_empty());
    assert!(s.direct_reads.is_empty());
}

#[test]
fn read_mark_only_moves_forward() {
    let mut s = three_users();
    s.mark_direct_chat_read(1, 2, 7, NOW);
    s.mark_direct_chat_read(1, 2, 3, LATER);
    assert_eq!(s.direct_reads.len(), 1);
    assert_eq!(s.direct_reads[0].last_read_message_id, 7);
    assert_eq!(s.direct_reads[0].updated_at, LATER);
    s.mark_direct_chat_read(1, 2, 9, NOW);
    assert_eq!(s.direct_reads[0].last_read_message_id, 9);
    s.mark_direct_chat_read(2, 1, 1, NOW);
    assert_eq!(s.direct_reads.len(), 2);
    assert_eq!(s.direct_reads[0].last_read_message_id, 9);
    s.mark_group_chat_read(1, 1, 4, NOW);
    s.mark_group_chat_read(1, 1, 2, NOW);
    assert_eq!(s.group_reads.len(), 1);
    assert_eq!(s.group_reads[0].last_read_message_id, 4);
}

#[test]
fn group_messages_need_membership() {
    let mut s = three_users();
    let no_access = (403, "Нет доступа к группе".to_string());
    assert_eq!(err(s.save_group_message(3, 1, "let me in", NOW).unwrap_err()), no_access.clone());
    assert_eq!(err(s.save_group_message(1, 2, "no such group", NOW).unwrap_err()), no_access.clone());
    assert_eq!(err(s.group_conversation(3, 1, NOW).unwrap_err()), no_access.clone());
    let m = s.save_group_message(2, 1, " hello club ", NOW).unwrap();
    assert_eq!((m.id, m.sender_id, m.receiver_id, m.chat_id), (1, 2, None, Some(1)));
    assert_eq!(m.text, "hello club");
    // a member who left has no access
    s.members[1].left_at = Some(LATER.to_string());
    assert_eq!(err(s.save_group_message(2, 1, "again", LATER).unwrap_err()), no_access);
}

#[test]
fn group_conversation_lists_the_chat_and_marks_it_read() {
    let mut s = three_users();
    s.save_group_message(1, 1, "a", NOW).unwrap();
    s.save_direct_message(1, 2, "private", NOW).unwrap();
    s.save_group_message(2, 1, "b", NOW).unwrap();
    let v = s.group_conversation(2, 1, LATER).unwrap();
    let ids: Vec<i64> = v.iter().map(|m| m.id).collect();
    assert_eq!(ids, vec![1, 3]);
    assert_eq!(s.group_reads.len(), 1);
    assert_eq!((s.group_reads[0].user_id, s.group_reads[0].peer_id, s.group_reads[0].last_read_message_id), (2, 1, 3));
}

#[test]
fn history_needs_a_target_or_a_chat() {
    let mut s = three_users();
    s.save_direct_message(1, 2, "x", NOW).unwrap();
    let e = s.history(1, None, None, NOW).unwrap_err();
    assert_eq!(err(e), (400, "Нужен target_id или chat_id".to_string()));
    assert_eq!(s.history(1, Some(2), None, NOW).unwrap().len(), 1);
    // a chat id wins over a target id
    assert!(s.history(1, Some(2), Some(1), NOW).unwrap().is_empty());
    assert_eq!(err(s.history(3, Some(2), Some(1), NOW).unwrap_err()), (403, "Нет доступа к группе".to_string()));
}

#[test]
fn exhausted_message_ids_are_an_internal_error() {
    let users = vec![user(1, "ann"), user(2, "ben")];
    let mut s = Store::restore(users, vec![], vec![], vec![], vec![], vec![], vec![], vec![], 2, i64::MAX, 0).unwrap();
    let e = s.save_direct_message(1, 2, "hi", NOW).unwrap_err();
    assert_eq!(err(e), (500, "database or disk is full".to_string()));
}

#[test]
fn a_sent_message_is_what_both_users_read_back() {
    let mut s = three_users();
    s.save_direct_message(2, 1, "earlier", NOW).unwrap();
    let sent = s.save_direct_message(1, 2, "  latest news ", LATER).unwrap();
    for (reader, other) in [(1, 2), (2, 1)] {
        let v = s.conversation(reader, other, LATER);
        let last = v.last().unwrap();
        assert_eq!(v.len(), 2);
        assert_eq!((last.id, last.sender_id, last.receiver_id, last.chat_id), (sent.id, 1, Some(2), None));
        assert_eq!((last.text.as_str(), last.timestamp.as_str()), ("latest news", LATER));
        assert_eq!(last.sender_login.as_deref(), Some("ann"));
    }
    // another conversation is untouched
    assert!(s.conversation(1, 3, LATER).is_empty());
}

#[test]
fn a_group_message_is_what_the_members_read_back() {
    let mut s = three_users();
    let sent = s.save_group_message(1, 1, "meeting at five", NOW).unwrap();
    let v = s.group_conversation(2, 1, LATER).unwrap();
    assert_eq!(v.len(), 1);
    assert_eq!((v[0].id, v[0].text.as_str(), v[0].sender_login.as_deref()), (sent.id, "meeting at five", Some("ann")));
    assert!(s.conversation(1, 2, LATER).is_empty());
}

#[test]
fn a_first_read_mark_is_stored_as_given_even_below_zero() {
    let mut s = three_users();
    s.mark_direct_chat_read(1, 2, -5, NOW);
    assert_eq!(s.direct_reads[0].last_read_message_id, -5);
    s.mark_direct_chat_read(1, 2, -9, NOW);
    assert_eq!(s.direct_reads[0].last_read_message_id, -5);
    s.mark_group_chat_read(1, 1, -2, NOW);
    s.mark_group_chat_read(1, 1, -1, NOW);
    assert_eq!(s.group_reads[0].last_read_message_id, -1);
}
