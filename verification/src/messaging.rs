//! Direct and group messages: blocking, sending, reading a conversation and
//! the read marks that the unread counters go by.
use vstd::prelude::*;

use crate::accounts::full_text;
use crate::error::{
    fails_with, AppError, AppResult, BAD_REQUEST, FORBIDDEN, INTERNAL_SERVER_ERROR,
};
use crate::models::{ChatMessage, ChatMessageView};
use crate::store::{read_index, Store};
use crate::tables::{
    block_views, message_list_view, message_views, read_keys_unique, read_views, BlockRow,
    BlockView, MessageRow, MessageView, ReadRow, ReadView, StoreView,
};
use crate::text::{trimmed, trimmed_string, utf8_len, utf8_len_capped};

verus! {

/// Why a message text is refused, if it is: it is taken without surrounding
/// white space, and must hold 1 to 4000 bytes.
pub open spec fn message_error(text: Seq<char>) -> Option<Seq<char>> {
    let t = trimmed(text);
    if t.len() == 0 {
        Some("Пустое сообщение"@)
    } else if utf8_len(t) > 4000 {
        Some("Сообщение слишком длинное"@)
    } else {
        None
    }
}

/// The read marks after (u, p) is marked read up to `id`: an existing mark
/// only moves forward.
pub open spec fn upsert_read(r: Seq<ReadView>, u: i64, p: i64, id: i64, now: Seq<char>) -> Seq<ReadView> {
    if exists|i: int| 0 <= i < r.len() && r[i].user_id == u && r[i].peer_id == p {
        let i = choose|i: int| 0 <= i < r.len() && r[i].user_id == u && r[i].peer_id == p;
        r.update(
            i,
            ReadView {
                user_id: u,
                peer_id: p,
                last_read_message_id: if r[i].last_read_message_id >= id {
                    r[i].last_read_message_id
                } else {
                    id
                },
                updated_at: now,
            },
        )
    } else {
        r.push(ReadView { user_id: u, peer_id: p, last_read_message_id: id, updated_at: now })
    }
}

/// The predicate that keeps the blocks other than `blocker` → `blocked`.
pub open spec fn block_other_than(blocker: i64, blocked: i64) -> spec_fn(BlockView) -> bool {
    |b: BlockView| !(b.blocker_id == blocker && b.blocked_id == blocked)
}

impl StoreView {
    pub open spec fn add_block(self, blocker: i64, blocked: i64, now: Seq<char>) -> StoreView {
        if self.blocks_user(blocker, blocked) {
            self
        } else {
            StoreView {
                blocks: self.blocks.push(
                    BlockView { blocker_id: blocker, blocked_id: blocked, created_at: now },
                ),
                ..self
            }
        }
    }

    pub open spec fn remove_block(self, blocker: i64, blocked: i64) -> StoreView {
        StoreView { blocks: self.blocks.filter(block_other_than(blocker, blocked)), ..self }
    }

    /// The message row that the next insertion stores.
    pub open spec fn next_message(
        self,
        sender: i64,
        receiver: Option<i64>,
        chat: Option<i64>,
        text: Seq<char>,
        now: Seq<char>,
    ) -> MessageView {
        MessageView {
            id: (self.message_seq + 1) as i64,
            sender_id: sender,
            receiver_id: receiver,
            chat_id: chat,
            text,
            timestamp: now,
        }
    }

    pub open spec fn add_message(
        self,
        sender: i64,
        receiver: Option<i64>,
        chat: Option<i64>,
        text: Seq<char>,
        now: Seq<char>,
    ) -> StoreView {
        StoreView {
            messages: self.messages.push(self.next_message(sender, receiver, chat, text, now)),
            message_seq: (self.message_seq + 1) as i64,
            ..self
        }
    }

    pub open spec fn mark_direct_read(self, u: i64, t: i64, id: i64, now: Seq<char>) -> StoreView {
        StoreView { direct_reads: upsert_read(self.direct_reads, u, t, id, now), ..self }
    }

    pub open spec fn mark_group_read(self, u: i64, c: i64, id: i64, now: Seq<char>) -> StoreView {
        StoreView { group_reads: upsert_read(self.group_reads, u, c, id, now), ..self }
    }

    /// The store after `u` reads the direct conversation with `t`: the mark
    /// moves up to the last message, if there is one.
    pub open spec fn read_direct(self, u: i64, t: i64, now: Seq<char>) -> StoreView {
        let h = self.direct_history(u, t);
        if h.len() > 0 {
            self.mark_direct_read(u, t, h.last().id, now)
        } else {
            self
        }
    }

    /// The store after `u` reads group chat `c`.
    pub open spec fn read_group(self, u: i64, c: i64, now: Seq<char>) -> StoreView {
        let h = self.group_history(c);
        if h.len() > 0 {
            self.mark_group_read(u, c, h.last().id, now)
        } else {
            self
        }
    }
}

proof fn lemma_filter_push<T>(s: Seq<T>, x: T, p: spec_fn(T) -> bool)
    ensures
        s.push(x).filter(p) == (if p(x) {
            s.filter(p).push(x)
        } else {
            s.filter(p)
        }),
{
    reveal_with_fuel(Seq::filter, 1);
    assert(s.push(x).drop_last() =~= s);
}

/// Checks a message text; answers it without surrounding white space.
pub fn validate_message(text: &str) -> (r: AppResult<String>)
    ensures
        match message_error(text@) {
            Some(msg) => fails_with(r, BAD_REQUEST, msg),
            None => r matches Ok(t) && t@ == trimmed(text@),
        },
{
    let t = trimmed_string(text);
    if t.as_str().is_empty() {
        return Err(AppError::new(BAD_REQUEST, "Пустое сообщение"));
    }
    if utf8_len_capped(t.as_str(), 4001) > 4000 {
        return Err(AppError::new(BAD_REQUEST, "Сообщение слишком длинное"));
    }
    Ok(t)
}

/// Upserts the read mark (u, p) in a table of marks.
fn upsert_read_exec(reads: &mut Vec<ReadRow>, u: i64, p: i64, id: i64, now: &str)
    requires
        read_keys_unique(read_views(old(reads)@)),
    ensures
        read_views(final(reads)@) == upsert_read(read_views(old(reads)@), u, p, id, now@),
        read_keys_unique(read_views(final(reads)@)),
{
    let ghost rv = read_views(reads@);
    match read_index(reads, u, p) {
        Some(i) => {
            let cur = reads[i].last_read_message_id;
            let row = ReadRow {
                user_id: u,
                peer_id: p,
                last_read_message_id: if cur >= id {
                    cur
                } else {
                    id
                },
                updated_at: now.to_owned(),
            };
            proof {
                let j = choose|j: int| 0 <= j < rv.len() && rv[j].user_id == u && rv[j].peer_id == p;
                assert(rv[i as int].user_id == u && rv[i as int].peer_id == p);
                assert(i == j);
            }
            reads.set(i, row);
            proof {
                let nv = read_views(reads@);
                assert(nv =~= upsert_read(rv, u, p, id, now@));
                assert forall|a: int, b: int|
                    0 <= a < nv.len() && 0 <= b < nv.len() && a != b implies !(nv[a].user_id
                        == nv[b].user_id && nv[a].peer_id == nv[b].peer_id) by {
                    if a != i && b != i {
                        assert(nv[a] == rv[a] && nv[b] == rv[b]);
                    } else if a == i {
                        assert(nv[b] == rv[b]);
                    } else {
                        assert(nv[a] == rv[a]);
                    }
                }
            }
        },
        None => {
            let row = ReadRow {
                user_id: u,
                peer_id: p,
                last_read_message_id: id,
                updated_at: now.to_owned(),
            };
            reads.push(row);
            proof {
                let nv = read_views(reads@);
                assert(nv =~= rv.push(row@));
                assert(!(exists|i: int| 0 <= i < rv.len() && rv[i].user_id == u && rv[i].peer_id == p))
                    by {
                    assert forall|i: int| 0 <= i < rv.len() implies !(rv[i].user_id == u
                        && rv[i].peer_id == p) by {
                        assert(rv[i] == old(reads)@[i]@);
                    }
                }
                assert(nv == upsert_read(rv, u, p, id, now@));
                assert forall|a: int, b: int|
                    0 <= a < nv.len() && 0 <= b < nv.len() && a != b implies !(nv[a].user_id
                        == nv[b].user_id && nv[a].peer_id == nv[b].peer_id) by {
                    if a != rv.len() && b != rv.len() {
                        assert(nv[a] == rv[a] && nv[b] == rv[b]);
                    } else if a == rv.len() {
                        assert(nv[b] == rv[b]);
                    } else {
                        assert(nv[a] == rv[a]);
                    }
                }
            }
        },
    }
}

impl Store {
    /// Blocks `target_id` for `user_id`; a block that exists stays as it is.
    pub fn block_user(&mut self, user_id: i64, target_id: i64, now: &str) -> (r: AppResult<()>)
        requires
            old(self).wf(),
        ensures
            final(self).wf(),
            if user_id <= 0 || target_id <= 0 || user_id == target_id {
                fails_with(r, BAD_REQUEST, "Неверная цель блокировки"@) && final(self)@ == old(self)@
            } else {
                r is Ok && final(self)@ == old(self)@.add_block(user_id, target_id, now@)
            },
    {
        if user_id <= 0 || target_id <= 0 || user_id == target_id {
            return Err(AppError::new(BAD_REQUEST, "Неверная цель блокировки"));
        }
        if !self.blocks_user(user_id, target_id) {
            let ghost old_view = self@;
            let row = BlockRow { blocker_id: user_id, blocked_id: target_id, created_at: now.to_owned() };
            self.blocks.push(row);
            assert(block_views(self.blocks@) =~= old_view.blocks.push(row@));
            assert(self@.sessions == old_view.sessions);
        }
        Ok(())
    }

    /// Removes the block of `target_id` by `user_id`, if there is one.
    pub fn unblock_user(&mut self, user_id: i64, target_id: i64)
        requires
            old(self).wf(),
        ensures
            final(self).wf(),
            final(self)@ == old(self)@.remove_block(user_id, target_id),
    {
        let ghost sv = self@.blocks;
        let mut out: Vec<BlockRow> = Vec::new();
        let mut k: usize = 0;
        while k < self.blocks.len()
            invariant
                k <= self.blocks.len(),
                sv == block_views(self.blocks@),
                block_views(out@) == sv.take(k as int).filter(block_other_than(user_id, target_id)),
            decreases self.blocks.len() - k,
        {
            let ghost ov = block_views(out@);
            assert(sv.take(k + 1) =~= sv.take(k as int).push(sv[k as int]));
            proof {
                lemma_filter_push(sv.take(k as int), sv[k as int], block_other_than(user_id, target_id));
            }
            let row = &self.blocks[k];
            assert(sv[k as int] == row@);
            if !(row.blocker_id == user_id && row.blocked_id == target_id) {
                let c = row.copy();
                out.push(c);
                assert(block_views(out@) =~= ov.push(row@));
                assert(block_other_than(user_id, target_id)(sv[k as int]));
            } else {
                assert(!block_other_than(user_id, target_id)(sv[k as int]));
            }
            k = k + 1;
        }
        assert(sv.take(sv.len() as int) =~= sv);
        let ghost s0 = self@;
        self.blocks = out;
        assert(self@.sessions == s0.sessions);
    }

    /// A stored message with its sender's login, as answered to clients.
    pub(crate) fn with_sender(&self, row: &MessageRow) -> (r: Option<ChatMessage>)
        requires
            self.wf(),
        ensures
            match r {
                Some(m) => self@.with_sender(row@) == Some(m@),
                None => self@.with_sender(row@) is None,
            },
    {
        match self.user_index(row.sender_id) {
            Some(i) => Some(
                ChatMessage {
                    id: row.id,
                    sender_id: row.sender_id,
                    receiver_id: row.receiver_id,
                    chat_id: row.chat_id,
                    text: row.text.clone(),
                    timestamp: row.timestamp.clone(),
                    sender_login: Some(self.users[i].login.clone()),
                },
            ),
            None => None,
        }
    }

    /// Appends a message row; the sender must be a user (the foreign key of
    /// the messages table).
    fn insert_message(
        &mut self,
        sender: i64,
        receiver: Option<i64>,
        chat: Option<i64>,
        text: String,
        now: &str,
    ) -> (r: AppResult<ChatMessage>)
        requires
            old(self).wf(),
        ensures
            final(self).wf(),
            if old(self)@.message_seq == i64::MAX {
                fails_with(r, INTERNAL_SERVER_ERROR, full_text()) && final(self)@ == old(self)@
            } else if old(self)@.find_user(sender) is None {
                fails_with(r, INTERNAL_SERVER_ERROR, "FOREIGN KEY constraint failed"@)
                    && final(self)@ == old(self)@
            } else {
                let s = old(self)@.add_message(sender, receiver, chat, text@, now@);
                &&& final(self)@ == s
                &&& r matches Ok(m) && Some(m@) == s.with_sender(s.messages.last())
            },
    {
        if self.message_seq == i64::MAX {
            return Err(AppError::internal("database or disk is full"));
        }
        if self.user_index(sender).is_none() {
            return Err(AppError::internal("FOREIGN KEY constraint failed"));
        }
        let ghost old_view = self@;
        let id = self.message_seq + 1;
        let row = MessageRow {
            id,
            sender_id: sender,
            receiver_id: receiver,
            chat_id: chat,
            text,
            timestamp: now.to_owned(),
        };
        self.messages.push(row);
        self.message_seq = id;
        proof {
            assert(message_views(self.messages@) =~= old_view.messages.push(row@));
            assert(self@.message_ids() =~= old_view.message_ids().push(id));
            assert(self@.users == old_view.users);
        }
        let k = self.messages.len() - 1;
        let m = self.with_sender(&self.messages[k]);
        match m {
            Some(m) => Ok(m),
            None => Err(AppError::internal("FOREIGN KEY constraint failed")),
        }
    }

    /// Sends a direct message from `sender_id` to `receiver_id`.
    pub fn save_direct_message(&mut self, sender_id: i64, receiver_id: i64, text: &str, now: &str) -> (r: AppResult<ChatMessage>)
        requires
            old(self).wf(),
        ensures
            final(self).wf(),
            ({
                let s0 = old(self)@;
                match message_error(text@) {
                    Some(msg) => fails_with(r, BAD_REQUEST, msg) && final(self)@ == s0,
                    None => if !s0.is_live(receiver_id) {
                        fails_with(r, BAD_REQUEST, "Получатель не найден"@) && final(self)@ == s0
                    } else if s0.blocked_either_way(sender_id, receiver_id) {
                        fails_with(r, FORBIDDEN, "Переписка заблокирована"@) && final(self)@ == s0
                    } else if s0.message_seq == i64::MAX {
                        fails_with(r, INTERNAL_SERVER_ERROR, full_text()) && final(self)@ == s0
                    } else if s0.find_user(sender_id) is None {
                        fails_with(r, INTERNAL_SERVER_ERROR, "FOREIGN KEY constraint failed"@)
                            && final(self)@ == s0
                    } else {
                        let s = s0.add_message(sender_id, Some(receiver_id), None, trimmed(text@), now@);
                        &&& final(self)@ == s
                        &&& r matches Ok(m) && Some(m@) == s.with_sender(s.messages.last())
                    },
                }
            }),
    {
        let text = validate_message(text)?;
        match self.user_index(receiver_id) {
            Some(i) => {
                if self.users[i].deleted_at.is_some() {
                    return Err(AppError::new(BAD_REQUEST, "Получатель не найден"));
                }
            },
            None => return Err(AppError::new(BAD_REQUEST, "Получатель не найден")),
        }
        if self.is_blocked_either_way(sender_id, receiver_id) {
            return Err(AppError::new(FORBIDDEN, "Переписка заблокирована"));
        }
        self.insert_message(sender_id, Some(receiver_id), None, text, now)
    }

    /// Sends a message from `sender_id` to group chat `chat_id`.
    pub fn save_group_message(&mut self, sender_id: i64, chat_id: i64, text: &str, now: &str) -> (r: AppResult<ChatMessage>)
        requires
            old(self).wf(),
        ensures
            final(self).wf(),
            ({
                let s0 = old(self)@;
                match message_error(text@) {
                    Some(msg) => fails_with(r, BAD_REQUEST, msg) && final(self)@ == s0,
                    None => if !s0.is_member(sender_id, chat_id) {
                        fails_with(r, FORBIDDEN, "Нет доступа к группе"@) && final(self)@ == s0
                    } else if s0.message_seq == i64::MAX {
                        fails_with(r, INTERNAL_SERVER_ERROR, full_text()) && final(self)@ == s0
                    } else if s0.find_user(sender_id) is None {
                        fails_with(r, INTERNAL_SERVER_ERROR, "FOREIGN KEY constraint failed"@)
                            && final(self)@ == s0
                    } else {
                        let s = s0.add_message(sender_id, None, Some(chat_id), trimmed(text@), now@);
                        &&& final(self)@ == s
                        &&& r matches Ok(m) && Some(m@) == s.with_sender(s.messages.last())
                    },
                }
            }),
    {
        let text = validate_message(text)?;
        if !self.is_group_member(sender_id, chat_id) {
            return Err(AppError::new(FORBIDDEN, "Нет доступа к группе"));
        }
        self.insert_message(sender_id, None, Some(chat_id), text, now)
    }

    /// Moves the mark of how far `user_id` has read the conversation with
    /// `target_id` up to `last_read_message_id`; a mark never moves back.
    pub fn mark_direct_chat_read(&mut self, user_id: i64, target_id: i64, last_read_message_id: i64, now: &str)
        requires
            old(self).wf(),
        ensures
            final(self).wf(),
            final(self)@ == old(self)@.mark_direct_read(user_id, target_id, last_read_message_id, now@),
    {
        let ghost s0 = self@;
        upsert_read_exec(&mut self.direct_reads, user_id, target_id, last_read_message_id, now);
        assert(self@.sessions == s0.sessions);
    }

    /// Moves the mark of how far `user_id` has read group chat `chat_id`.
    pub fn mark_group_chat_read(&mut self, user_id: i64, chat_id: i64, last_read_message_id: i64, now: &str)
        requires
            old(self).wf(),
        ensures
            final(self).wf(),
            final(self)@ == old(self)@.mark_group_read(user_id, chat_id, last_read_message_id, now@),
    {
        let ghost s0 = self@;
        upsert_read_exec(&mut self.group_reads, user_id, chat_id, last_read_message_id, now);
        assert(self@.sessions == s0.sessions);
    }
}

/// Whether an optional id holds `v`.
pub fn opt_is(o: Option<i64>, v: i64) -> (r: bool)
    ensures
        r == (o == Some(v)),
{
    match o {
        Some(x) => x == v,
        None => false,
    }
}

impl Store {
    /// The messages of the direct conversation of `user_id` and `target_id`,
    /// oldest first, with the senders' logins; the conversation counts as
    /// read by `user_id` up to its last message.
    pub fn conversation(&mut self, user_id: i64, target_id: i64, now: &str) -> (r: Vec<ChatMessage>)
        requires
            old(self).wf(),
        ensures
            final(self).wf(),
            message_list_view(r@) == old(self)@.direct_history(user_id, target_id),
            final(self)@ == old(self)@.read_direct(user_id, target_id, now@),
    {
        let ghost sv = self@;
        let ghost f = sv.direct_entry(user_id, target_id);
        let mut out: Vec<ChatMessage> = Vec::new();
        let mut i: usize = 0;
        while i < self.messages.len()
            invariant
                self.wf(),
                self@ == sv,
                f == sv.direct_entry(user_id, target_id),
                i <= self.messages.len(),
                message_list_view(out@) == sv.messages.take(i as int).filter_map(f),
            decreases self.messages.len() - i,
        {
            proof {
                sv.messages.lemma_filter_map_take_succ(f, i as int);
            }
            let row = &self.messages[i];
            assert(sv.messages[i as int] == row@);
            let pair = (row.sender_id == user_id && opt_is(row.receiver_id, target_id)) || (
            row.sender_id == target_id && opt_is(row.receiver_id, user_id));
            if row.chat_id.is_none() && pair {
                let ghost ov = message_list_view(out@);
                match self.with_sender(row) {
                    Some(m) => {
                        out.push(m);
                        assert(message_list_view(out@) =~= ov + seq![m@]);
                    },
                    None => {},
                }
            }
            i = i + 1;
        }
        assert(sv.messages.take(sv.messages.len() as int) =~= sv.messages);
        if out.len() > 0 {
            let last = out[out.len() - 1].id;
            assert(message_list_view(out@).last().id == last);
            self.mark_direct_chat_read(user_id, target_id, last, now);
        }
        out
    }

    /// The messages of group chat `chat_id`, oldest first, for a current
    /// member; the chat counts as read by `user_id` up to its last message.
    pub fn group_conversation(&mut self, user_id: i64, chat_id: i64, now: &str) -> (r: AppResult<Vec<ChatMessage>>)
        requires
            old(self).wf(),
        ensures
            final(self).wf(),
            if !old(self)@.is_member(user_id, chat_id) {
                fails_with(r, FORBIDDEN, "Нет доступа к группе"@) && final(self)@ == old(self)@
            } else {
                &&& r matches Ok(v) && message_list_view(v@) == old(self)@.group_history(chat_id)
                &&& final(self)@ == old(self)@.read_group(user_id, chat_id, now@)
            },
    {
        if !self.is_group_member(user_id, chat_id) {
            return Err(AppError::new(FORBIDDEN, "Нет доступа к группе"));
        }
        let ghost sv = self@;
        let ghost f = sv.group_entry(chat_id);
        let mut out: Vec<ChatMessage> = Vec::new();
        let mut i: usize = 0;
        while i < self.messages.len()
            invariant
                self.wf(),
                self@ == sv,
                f == sv.group_entry(chat_id),
                i <= self.messages.len(),
                message_list_view(out@) == sv.messages.take(i as int).filter_map(f),
            decreases self.messages.len() - i,
        {
            proof {
                sv.messages.lemma_filter_map_take_succ(f, i as int);
            }
            let row = &self.messages[i];
            assert(sv.messages[i as int] == row@);
            if opt_is(row.chat_id, chat_id) {
                let ghost ov = message_list_view(out@);
                match self.with_sender(row) {
                    Some(m) => {
                        out.push(m);
                        assert(message_list_view(out@) =~= ov + seq![m@]);
                    },
                    None => {},
                }
            }
            i = i + 1;
        }
        assert(sv.messages.take(sv.messages.len() as int) =~= sv.messages);
        if out.len() > 0 {
            let last = out[out.len() - 1].id;
            assert(message_list_view(out@).last().id == last);
            self.mark_group_chat_read(user_id, chat_id, last, now);
        }
        Ok(out)
    }

    /// A conversation's history as the history request asks for it: a group
    /// chat when `chat_id` is given, else the direct conversation with
    /// `target_id`, which is refused while either user blocks the other.
    pub fn history(&mut self, user_id: i64, target_id: Option<i64>, chat_id: Option<i64>, now: &str) -> (r: AppResult<Vec<ChatMessage>>)
        requires
            old(self).wf(),
        ensures
            final(self).wf(),
            match chat_id {
                Some(c) => if !old(self)@.is_member(user_id, c) {
                    fails_with(r, FORBIDDEN, "Нет доступа к группе"@) && final(self)@ == old(self)@
                } else {
                    &&& r matches Ok(v) && message_list_view(v@) == old(self)@.group_history(c)
                    &&& final(self)@ == old(self)@.read_group(user_id, c, now@)
                },
                None => match target_id {
                    None => fails_with(r, BAD_REQUEST, "Нужен target_id или chat_id"@)
                        && final(self)@ == old(self)@,
                    Some(t) => if old(self)@.blocked_either_way(user_id, t) {
                        fails_with(r, FORBIDDEN, "Переписка заблокирована"@) && final(self)@ == old(self)@
                    } else {
                        &&& r matches Ok(v) && message_list_view(v@) == old(self)@.direct_history(user_id, t)
                        &&& final(self)@ == old(self)@.read_direct(user_id, t, now@)
                    },
                },
            },
    {
        if let Some(c) = chat_id {
            return self.group_conversation(user_id, c, now);
        }
        let t = match target_id {
            Some(t) => t,
            None => return Err(AppError::new(BAD_REQUEST, "Нужен target_id или chat_id")),
        };
        if self.is_blocked_either_way(user_id, t) {
            return Err(AppError::new(FORBIDDEN, "Переписка заблокирована"));
        }
        Ok(self.conversation(user_id, t, now))
    }
}

} // verus!
