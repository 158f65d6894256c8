//! Requests and answers exchanged with clients, as plain values.
use vstd::prelude::*;

verus! {

pub open spec fn opt_view(o: Option<String>) -> Option<Seq<char>> {
    match o {
        Some(s) => Some(s@),
        None => None,
    }
}

#[derive(Debug)]
pub struct AuthRequest {
    pub login: String,
    pub password: String,
}

#[derive(Debug)]
pub struct AuthResponse {
    pub user_id: i64,
    pub login: String,
    pub token: String,
}

#[derive(Debug)]
pub struct SearchQuery {
    pub login: String,
    pub user_id: Option<i64>,
}

#[derive(Debug)]
pub struct UserResponse {
    pub user_id: i64,
    pub login: String,
}

pub struct UserResponseView {
    pub user_id: i64,
    pub login: Seq<char>,
}

impl View for UserResponse {
    type V = UserResponseView;

    open spec fn view(&self) -> UserResponseView {
        UserResponseView { user_id: self.user_id, login: self.login@ }
    }
}

#[derive(Debug)]
pub struct HistoryQuery {
    pub user_id: i64,
    pub target_id: Option<i64>,
    pub chat_id: Option<i64>,
}

#[derive(Debug)]
pub struct ChatListItem {
    pub chat_type: String,
    pub chat_id: Option<i64>,
    pub user_id: Option<i64>,
    pub title: String,
    pub unread_count: i64,
    pub last_message_at: Option<String>,
}

pub struct ChatListItemView {
    pub chat_type: Seq<char>,
    pub chat_id: Option<i64>,
    pub user_id: Option<i64>,
    pub title: Seq<char>,
    pub unread_count: i64,
    pub last_message_at: Option<Seq<char>>,
}

impl View for ChatListItem {
    type V = ChatListItemView;

    open spec fn view(&self) -> ChatListItemView {
        ChatListItemView {
            chat_type: self.chat_type@,
            chat_id: self.chat_id,
            user_id: self.user_id,
            title: self.title@,
            unread_count: self.unread_count,
            last_message_at: opt_view(self.last_message_at),
        }
    }
}

#[derive(Debug)]
pub struct ChatMessage {
    pub id: i64,
    pub sender_id: i64,
    pub receiver_id: Option<i64>,
    pub chat_id: Option<i64>,
    pub text: String,
    pub timestamp: String,
    pub sender_login: Option<String>,
}

pub struct ChatMessageView {
    pub id: i64,
    pub sender_id: i64,
    pub receiver_id: Option<i64>,
    pub chat_id: Option<i64>,
    pub text: Seq<char>,
    pub timestamp: Seq<char>,
    pub sender_login: Option<Seq<char>>,
}

impl View for ChatMessage {
    type V = ChatMessageView;

    open spec fn view(&self) -> ChatMessageView {
        ChatMessageView {
            id: self.id,
            sender_id: self.sender_id,
            receiver_id: self.receiver_id,
            chat_id: self.chat_id,
            text: self.text@,
            timestamp: self.timestamp@,
            sender_login: opt_view(self.sender_login),
        }
    }
}

#[derive(Debug)]
pub struct IncomingWsMessage {
    pub receiver_id: Option<i64>,
    pub chat_id: Option<i64>,
    pub text: String,
}

#[derive(Debug)]
pub struct BlockRequest {
    pub user_id: i64,
    pub target_id: i64,
}

#[derive(Debug)]
pub struct DeleteAccountRequest {
    pub user_id: i64,
    pub password: String,
}

#[derive(Debug)]
pub struct CreateGroupRequest {
    pub user_id: i64,
    pub title: String,
    pub member_logins: Vec<String>,
}

#[derive(Debug)]
pub struct CreateGroupResponse {
    pub chat_id: i64,
    pub title: String,
}

#[derive(Debug)]
pub struct MessageSearchQuery {
    pub user_id: i64,
    pub q: String,
    pub target_id: Option<i64>,
    pub chat_id: Option<i64>,
}

#[derive(Debug)]
pub struct MessageSearchResult {
    pub chat_type: String,
    pub chat_id: Option<i64>,
    pub user_id: Option<i64>,
    pub title: String,
    pub message: ChatMessage,
}

pub struct MessageSearchResultView {
    pub chat_type: Seq<char>,
    pub chat_id: Option<i64>,
    pub user_id: Option<i64>,
    pub title: Seq<char>,
    pub message: ChatMessageView,
}

impl View for MessageSearchResult {
    type V = MessageSearchResultView;

    open spec fn view(&self) -> MessageSearchResultView {
        MessageSearchResultView {
            chat_type: self.chat_type@,
            chat_id: self.chat_id,
            user_id: self.user_id,
            title: self.title@,
            message: self.message@,
        }
    }
}

impl ChatListItem {
    pub fn copy(&self) -> (r: ChatListItem)
        ensures
            r@ == self@,
    {
        ChatListItem {
            chat_type: self.chat_type.clone(),
            chat_id: self.chat_id,
            user_id: self.user_id,
            title: self.title.clone(),
            unread_count: self.unread_count,
            last_message_at: copy_opt(&self.last_message_at),
        }
    }
}

/// A copy of an optional string.
pub fn copy_opt(o: &Option<String>) -> (r: Option<String>)
    ensures
        opt_view(r) == opt_view(*o),
{
    match o {
        Some(s) => Some(s.clone()),
        None => None,
    }
}

} // verus!
