//! The messenger's tables (users, messages, read marks, blocks, group chats,
//! memberships and sessions), their abstract view, the invariant that keys
//! and identifiers obey, and the queries that the operations are specified by.
use vstd::prelude::*;

use crate::models::{
    copy_opt, opt_view, ChatListItem, ChatListItemView, ChatMessage, ChatMessageView, MessageSearchResult,
    MessageSearchResultView, UserResponse, UserResponseView,
};

verus! {

// ---------------------------------------------------------------- rows

pub struct UserRow {
    pub id: i64,
    pub login: String,
    pub password_hash: String,
    pub created_at: String,
    pub deleted_at: Option<String>,
}

pub struct UserView {
    pub id: i64,
    pub login: Seq<char>,
    pub password_hash: Seq<char>,
    pub created_at: Seq<char>,
    pub deleted_at: Option<Seq<char>>,
}

impl View for UserRow {
    type V = UserView;

    open spec fn view(&self) -> UserView {
        UserView {
            id: self.id,
            login: self.login@,
            password_hash: self.password_hash@,
            created_at: self.created_at@,
            deleted_at: opt_view(self.deleted_at),
        }
    }
}

/// A stored message: a direct one has a receiver and no chat, a group one a
/// chat and no receiver.
pub struct MessageRow {
    pub id: i64,
    pub sender_id: i64,
    pub receiver_id: Option<i64>,
    pub chat_id: Option<i64>,
    pub text: String,
    pub timestamp: String,
}

pub struct MessageView {
    pub id: i64,
    pub sender_id: i64,
    pub receiver_id: Option<i64>,
    pub chat_id: Option<i64>,
    pub text: Seq<char>,
    pub timestamp: Seq<char>,
}

impl View for MessageRow {
    type V = MessageView;

    open spec fn view(&self) -> MessageView {
        MessageView {
            id: self.id,
            sender_id: self.sender_id,
            receiver_id: self.receiver_id,
            chat_id: self.chat_id,
            text: self.text@,
            timestamp: self.timestamp@,
        }
    }
}

/// How far a user has read a conversation: `peer_id` is the other user of a
/// direct conversation, or the group chat.
pub struct ReadRow {
    pub user_id: i64,
    pub peer_id: i64,
    pub last_read_message_id: i64,
    pub updated_at: String,
}

pub struct ReadView {
    pub user_id: i64,
    pub peer_id: i64,
    pub last_read_message_id: i64,
    pub updated_at: Seq<char>,
}

impl View for ReadRow {
    type V = ReadView;

    open spec fn view(&self) -> ReadView {
        ReadView {
            user_id: self.user_id,
            peer_id: self.peer_id,
            last_read_message_id: self.last_read_message_id,
            updated_at: self.updated_at@,
        }
    }
}

pub struct BlockRow {
    pub blocker_id: i64,
    pub blocked_id: i64,
    pub created_at: String,
}

pub struct BlockView {
    pub blocker_id: i64,
    pub blocked_id: i64,
    pub created_at: Seq<char>,
}

impl View for BlockRow {
    type V = BlockView;

    open spec fn view(&self) -> BlockView {
        BlockView {
            blocker_id: self.blocker_id,
            blocked_id: self.blocked_id,
            created_at: self.created_at@,
        }
    }
}

pub struct ChatRow {
    pub id: i64,
    pub chat_type: String,
    pub title: String,
    pub created_by: i64,
    pub created_at: String,
    pub deleted_at: Option<String>,
}

pub struct ChatView {
    pub id: i64,
    pub chat_type: Seq<char>,
    pub title: Seq<char>,
    pub created_by: i64,
    pub created_at: Seq<char>,
    pub deleted_at: Option<Seq<char>>,
}

impl View for ChatRow {
    type V = ChatView;

    open spec fn view(&self) -> ChatView {
        ChatView {
            id: self.id,
            chat_type: self.chat_type@,
            title: self.title@,
            created_by: self.created_by,
            created_at: self.created_at@,
            deleted_at: opt_view(self.deleted_at),
        }
    }
}

pub struct MemberRow {
    pub chat_id: i64,
    pub user_id: i64,
    pub joined_at: String,
    pub left_at: Option<String>,
}

pub struct MemberView {
    pub chat_id: i64,
    pub user_id: i64,
    pub joined_at: Seq<char>,
    pub left_at: Option<Seq<char>>,
}

impl View for MemberRow {
    type V = MemberView;

    open spec fn view(&self) -> MemberView {
        MemberView {
            chat_id: self.chat_id,
            user_id: self.user_id,
            joined_at: self.joined_at@,
            left_at: opt_view(self.left_at),
        }
    }
}

pub struct SessionRow {
    pub token: String,
    pub user_id: i64,
}

pub struct SessionView {
    pub token: Seq<char>,
    pub user_id: i64,
}

impl View for SessionRow {
    type V = SessionView;

    open spec fn view(&self) -> SessionView {
        SessionView { token: self.token@, user_id: self.user_id }
    }
}

// ---------------------------------------------------------------- the whole

/// The abstract content of the store.
pub struct StoreView {
    pub users: Seq<UserView>,
    pub messages: Seq<MessageView>,
    pub direct_reads: Seq<ReadView>,
    pub group_reads: Seq<ReadView>,
    pub blocks: Seq<BlockView>,
    pub chats: Seq<ChatView>,
    pub members: Seq<MemberView>,
    pub sessions: Seq<SessionView>,
    /// The largest user id ever handed out (0 before the first).
    pub user_seq: i64,
    /// The largest message id ever handed out.
    pub message_seq: i64,
    /// The largest chat id ever handed out.
    pub chat_seq: i64,
}

pub open spec fn user_views(s: Seq<UserRow>) -> Seq<UserView> {
    s.map_values(|r: UserRow| r@)
}

pub open spec fn message_views(s: Seq<MessageRow>) -> Seq<MessageView> {
    s.map_values(|r: MessageRow| r@)
}

pub open spec fn read_views(s: Seq<ReadRow>) -> Seq<ReadView> {
    s.map_values(|r: ReadRow| r@)
}

pub open spec fn block_views(s: Seq<BlockRow>) -> Seq<BlockView> {
    s.map_values(|r: BlockRow| r@)
}

pub open spec fn chat_views(s: Seq<ChatRow>) -> Seq<ChatView> {
    s.map_values(|r: ChatRow| r@)
}

pub open spec fn member_views(s: Seq<MemberRow>) -> Seq<MemberView> {
    s.map_values(|r: MemberRow| r@)
}

pub open spec fn session_views(s: Seq<SessionRow>) -> Seq<SessionView> {
    s.map_values(|r: SessionRow| r@)
}

pub open spec fn message_list_view(s: Seq<ChatMessage>) -> Seq<ChatMessageView> {
    s.map_values(|m: ChatMessage| m@)
}

pub open spec fn item_list_view(s: Seq<ChatListItem>) -> Seq<ChatListItemView> {
    s.map_values(|m: ChatListItem| m@)
}

pub open spec fn user_list_view(s: Seq<UserResponse>) -> Seq<UserResponseView> {
    s.map_values(|m: UserResponse| m@)
}

pub open spec fn result_list_view(s: Seq<MessageSearchResult>) -> Seq<MessageSearchResultView> {
    s.map_values(|m: MessageSearchResult| m@)
}

// ---------------------------------------------------------------- invariant

/// Identifiers strictly increase along the table and stay in `[1, seq]`,
/// `seq` being the largest one ever handed out.
pub open spec fn ids_increasing(ids: Seq<i64>, seq: i64) -> bool {
    &&& 0 <= seq
    &&& forall|i: int, j: int| 0 <= i < j < ids.len() ==> ids[i] < ids[j]
    &&& forall|i: int| 0 <= i < ids.len() ==> 1 <= #[trigger] ids[i] <= seq
}

/// At most one read mark per (user, conversation).
pub open spec fn read_keys_unique(r: Seq<ReadView>) -> bool {
    forall|i: int, j: int|
        #![trigger r[i], r[j]]
        0 <= i < r.len() && 0 <= j < r.len() && i != j ==> !(r[i].user_id == r[j].user_id
            && r[i].peer_id == r[j].peer_id)
}

impl StoreView {
    pub open spec fn user_ids(self) -> Seq<i64> {
        self.users.map_values(|u: UserView| u.id)
    }

    pub open spec fn message_ids(self) -> Seq<i64> {
        self.messages.map_values(|m: MessageView| m.id)
    }

    pub open spec fn chat_ids(self) -> Seq<i64> {
        self.chats.map_values(|c: ChatView| c.id)
    }

    /// What the tables' keys and constraints guarantee.
    pub open spec fn wf(self) -> bool {
        &&& ids_increasing(self.user_ids(), self.user_seq)
        &&& ids_increasing(self.message_ids(), self.message_seq)
        &&& ids_increasing(self.chat_ids(), self.chat_seq)
        &&& forall|i: int, j: int|
            #![trigger self.users[i], self.users[j]]
            0 <= i < self.users.len() && 0 <= j < self.users.len() && i != j
                ==> self.users[i].login != self.users[j].login
        &&& read_keys_unique(self.direct_reads)
        &&& read_keys_unique(self.group_reads)
        &&& forall|i: int, j: int|
            #![trigger self.members[i], self.members[j]]
            0 <= i < self.members.len() && 0 <= j < self.members.len() && i != j
                ==> !(self.members[i].chat_id == self.members[j].chat_id
                && self.members[i].user_id == self.members[j].user_id)
        &&& forall|i: int, j: int|
            #![trigger self.sessions[i], self.sessions[j]]
            0 <= i < self.sessions.len() && 0 <= j < self.sessions.len() && i != j
                ==> self.sessions[i].token != self.sessions[j].token
    }

    // ------------------------------------------------------------ lookups

    /// The user with the given id.
    pub open spec fn find_user(self, id: i64) -> Option<UserView> {
        if exists|i: int| 0 <= i < self.users.len() && self.users[i].id == id {
            Some(self.users[choose|i: int| 0 <= i < self.users.len() && self.users[i].id == id])
        } else {
            None
        }
    }

    /// Whether a user with this id exists and has not deleted the account.
    pub open spec fn is_live(self, id: i64) -> bool {
        self.find_user(id) matches Some(u) && u.deleted_at is None
    }

    /// The user, deleted or not, that holds the given login.
    pub open spec fn user_with_login(self, login: Seq<char>) -> Option<UserView> {
        if exists|i: int| 0 <= i < self.users.len() && self.users[i].login == login {
            Some(
                self.users[choose|i: int|
                    0 <= i < self.users.len() && self.users[i].login == login],
            )
        } else {
            None
        }
    }

    /// The live user that holds the given login.
    pub open spec fn live_user_with_login(self, login: Seq<char>) -> Option<UserView> {
        match self.user_with_login(login) {
            Some(u) => if u.deleted_at is None {
                Some(u)
            } else {
                None
            },
            None => None,
        }
    }

    pub open spec fn blocks_user(self, blocker: i64, blocked: i64) -> bool {
        exists|i: int|
            0 <= i < self.blocks.len() && self.blocks[i].blocker_id == blocker
                && self.blocks[i].blocked_id == blocked
    }

    /// Whether either of the two users has blocked the other.
    pub open spec fn blocked_either_way(self, a: i64, b: i64) -> bool {
        self.blocks_user(a, b) || self.blocks_user(b, a)
    }

    pub open spec fn is_member(self, user_id: i64, chat_id: i64) -> bool {
        exists|i: int|
            0 <= i < self.members.len() && self.members[i].chat_id == chat_id
                && self.members[i].user_id == user_id && self.members[i].left_at is None
    }

    pub open spec fn has_member_row(self, chat_id: i64, user_id: i64) -> bool {
        exists|i: int|
            0 <= i < self.members.len() && self.members[i].chat_id == chat_id
                && self.members[i].user_id == user_id
    }

    pub open spec fn find_chat(self, id: i64) -> Option<ChatView> {
        if exists|i: int| 0 <= i < self.chats.len() && self.chats[i].id == id {
            Some(self.chats[choose|i: int| 0 <= i < self.chats.len() && self.chats[i].id == id])
        } else {
            None
        }
    }

    /// The user that a session token belongs to.
    pub open spec fn session_user(self, token: Seq<char>) -> Option<i64> {
        if exists|i: int| 0 <= i < self.sessions.len() && self.sessions[i].token == token {
            Some(
                self.sessions[choose|i: int|
                    0 <= i < self.sessions.len() && self.sessions[i].token == token].user_id,
            )
        } else {
            None
        }
    }

    // ------------------------------------------------------------ messages

    /// A stored message as answered to a client, with its sender's login;
    /// `None` where the sender is not in the users table.
    pub open spec fn with_sender(self, m: MessageView) -> Option<ChatMessageView> {
        match self.find_user(m.sender_id) {
            Some(u) => Some(
                ChatMessageView {
                    id: m.id,
                    sender_id: m.sender_id,
                    receiver_id: m.receiver_id,
                    chat_id: m.chat_id,
                    text: m.text,
                    timestamp: m.timestamp,
                    sender_login: Some(u.login),
                },
            ),
            None => None,
        }
    }

    /// A message of the direct conversation of `u` and `t`, as answered.
    pub open spec fn direct_entry(self, u: i64, t: i64) -> spec_fn(MessageView) -> Option<ChatMessageView> {
        |m: MessageView|
            if between(m, u, t) {
                self.with_sender(m)
            } else {
                None
            }
    }

    /// A message of a group chat, as answered.
    pub open spec fn group_entry(self, chat_id: i64) -> spec_fn(MessageView) -> Option<ChatMessageView> {
        |m: MessageView|
            if m.chat_id == Some(chat_id) {
                self.with_sender(m)
            } else {
                None
            }
    }

    /// The messages of the direct conversation of `u` and `t`, oldest first.
    pub open spec fn direct_history(self, u: i64, t: i64) -> Seq<ChatMessageView> {
        self.messages.filter_map(self.direct_entry(u, t))
    }

    /// The messages of a group chat, oldest first.
    pub open spec fn group_history(self, chat_id: i64) -> Seq<ChatMessageView> {
        self.messages.filter_map(self.group_entry(chat_id))
    }

    pub open spec fn direct_read_mark(self, u: i64, t: i64) -> i64 {
        read_mark(self.direct_reads, u, t)
    }

    pub open spec fn group_read_mark(self, u: i64, c: i64) -> i64 {
        read_mark(self.group_reads, u, c)
    }
}

/// Whether `m` is a direct message between `u` and `t`, either way.
pub open spec fn between(m: MessageView, u: i64, t: i64) -> bool {
    &&& m.chat_id is None
    &&& ((m.sender_id == u && m.receiver_id == Some(t)) || (m.sender_id == t && m.receiver_id
        == Some(u)))
}

/// The mark stored for (user, conversation), 0 when there is none.
pub open spec fn read_mark(r: Seq<ReadView>, u: i64, p: i64) -> i64 {
    if exists|i: int| 0 <= i < r.len() && r[i].user_id == u && r[i].peer_id == p {
        r[choose|i: int| 0 <= i < r.len() && r[i].user_id == u && r[i].peer_id == p].last_read_message_id
    } else {
        0
    }
}

/// The mark stored for (user, conversation), if a row holds one.
pub open spec fn stored_mark(r: Seq<ReadView>, u: i64, p: i64) -> Option<i64> {
    if exists|i: int| 0 <= i < r.len() && r[i].user_id == u && r[i].peer_id == p {
        Some(r[choose|i: int| 0 <= i < r.len() && r[i].user_id == u && r[i].peer_id == p].last_read_message_id)
    } else {
        None
    }
}

/// Number of elements of `s` that satisfy `p`.
pub open spec fn count_where<T>(s: Seq<T>, p: spec_fn(T) -> bool) -> nat
    decreases s.len(),
{
    if s.len() == 0 {
        0
    } else {
        count_where(s.drop_last(), p) + if p(s.last()) {
            1nat
        } else {
            0nat
        }
    }
}

} // verus!

verus! {

impl StoreView {
    pub proof fn lemma_user_ids_unique(self, i: int, j: int)
        requires
            self.wf(),
            0 <= i < self.users.len(),
            0 <= j < self.users.len(),
            self.users[i].id == self.users[j].id,
        ensures
            i == j,
    {
        assert(self.user_ids()[i] == self.users[i].id);
        assert(self.user_ids()[j] == self.users[j].id);
    }

    pub proof fn lemma_find_user_at(self, i: int)
        requires
            self.wf(),
            0 <= i < self.users.len(),
        ensures
            self.find_user(self.users[i].id) == Some(self.users[i]),
    {
        let id = self.users[i].id;
        let j = choose|j: int| 0 <= j < self.users.len() && self.users[j].id == id;
        self.lemma_user_ids_unique(i, j);
    }

    pub proof fn lemma_user_with_login_at(self, i: int)
        requires
            self.wf(),
            0 <= i < self.users.len(),
        ensures
            self.user_with_login(self.users[i].login) == Some(self.users[i]),
    {
        let l = self.users[i].login;
        let j = choose|j: int| 0 <= j < self.users.len() && self.users[j].login == l;
        assert(i == j);
    }

    pub proof fn lemma_chat_ids_unique(self, i: int, j: int)
        requires
            self.wf(),
            0 <= i < self.chats.len(),
            0 <= j < self.chats.len(),
            self.chats[i].id == self.chats[j].id,
        ensures
            i == j,
    {
        assert(self.chat_ids()[i] == self.chats[i].id);
        assert(self.chat_ids()[j] == self.chats[j].id);
    }

    pub proof fn lemma_find_chat_at(self, i: int)
        requires
            self.wf(),
            0 <= i < self.chats.len(),
        ensures
            self.find_chat(self.chats[i].id) == Some(self.chats[i]),
    {
        let id = self.chats[i].id;
        let j = choose|j: int| 0 <= j < self.chats.len() && self.chats[j].id == id;
        self.lemma_chat_ids_unique(i, j);
    }

    pub proof fn lemma_session_at(self, i: int)
        requires
            self.wf(),
            0 <= i < self.sessions.len(),
        ensures
            self.session_user(self.sessions[i].token) == Some(self.sessions[i].user_id),
    {
        let t = self.sessions[i].token;
        let j = choose|j: int| 0 <= j < self.sessions.len() && self.sessions[j].token == t;
        assert(i == j);
    }
}

pub proof fn lemma_stored_mark_at(r: Seq<ReadView>, i: int)
    requires
        read_keys_unique(r),
        0 <= i < r.len(),
    ensures
        stored_mark(r, r[i].user_id, r[i].peer_id) == Some(r[i].last_read_message_id),
{
    let u = r[i].user_id;
    let p = r[i].peer_id;
    let j = choose|j: int| 0 <= j < r.len() && r[j].user_id == u && r[j].peer_id == p;
    assert(i == j);
}

pub proof fn lemma_read_mark_at(r: Seq<ReadView>, i: int)
    requires
        read_keys_unique(r),
        0 <= i < r.len(),
    ensures
        read_mark(r, r[i].user_id, r[i].peer_id) == r[i].last_read_message_id,
{
    let u = r[i].user_id;
    let p = r[i].peer_id;
    let j = choose|j: int| 0 <= j < r.len() && r[j].user_id == u && r[j].peer_id == p;
    assert(i == j);
}

} // verus!

verus! {

impl UserRow {
    pub fn copy(&self) -> (r: UserRow)
        ensures
            r@ == self@,
    {
        UserRow {
            id: self.id,
            login: self.login.clone(),
            password_hash: self.password_hash.clone(),
            created_at: self.created_at.clone(),
            deleted_at: copy_opt(&self.deleted_at),
        }
    }
}

impl MessageRow {
    pub fn copy(&self) -> (r: MessageRow)
        ensures
            r@ == self@,
    {
        MessageRow {
            id: self.id,
            sender_id: self.sender_id,
            receiver_id: self.receiver_id,
            chat_id: self.chat_id,
            text: self.text.clone(),
            timestamp: self.timestamp.clone(),
        }
    }
}

impl ReadRow {
    pub fn copy(&self) -> (r: ReadRow)
        ensures
            r@ == self@,
    {
        ReadRow {
            user_id: self.user_id,
            peer_id: self.peer_id,
            last_read_message_id: self.last_read_message_id,
            updated_at: self.updated_at.clone(),
        }
    }
}

impl BlockRow {
    pub fn copy(&self) -> (r: BlockRow)
        ensures
            r@ == self@,
    {
        BlockRow {
            blocker_id: self.blocker_id,
            blocked_id: self.blocked_id,
            created_at: self.created_at.clone(),
        }
    }
}

impl MemberRow {
    pub fn copy(&self) -> (r: MemberRow)
        ensures
            r@ == self@,
    {
        MemberRow {
            chat_id: self.chat_id,
            user_id: self.user_id,
            joined_at: self.joined_at.clone(),
            left_at: copy_opt(&self.left_at),
        }
    }
}

impl SessionRow {
    pub fn copy(&self) -> (r: SessionRow)
        ensures
            r@ == self@,
    {
        SessionRow { token: self.token.clone(), user_id: self.user_id }
    }
}

} // verus!
