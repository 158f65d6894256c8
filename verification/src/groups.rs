//! Group chats: creation and membership.
use vstd::prelude::*;

use crate::accounts::full_text;
use crate::error::{fails_with, AppError, AppResult, BAD_REQUEST, INTERNAL_SERVER_ERROR};
use crate::models::CreateGroupResponse;
use crate::store::Store;
use crate::tables::{chat_views, member_views, ChatRow, ChatView, MemberRow, MemberView, StoreView};
use crate::text::{trimmed, trimmed_string, utf8_len, utf8_len_capped};

verus! {

/// Why a group title is refused, if it is: without surrounding white space
/// it needs 2 to 64 bytes.
pub open spec fn title_error(title: Seq<char>) -> bool {
    let t = trimmed(title);
    utf8_len(t) < 2 || utf8_len(t) > 64
}

pub open spec fn login_views(v: Seq<String>) -> Seq<Seq<char>> {
    v.map_values(|s: String| s@)
}

/// The user of a current membership of chat `c`.
pub open spec fn current_member_of(c: i64) -> spec_fn(MemberView) -> Option<i64> {
    |m: MemberView|
        if m.chat_id == c && m.left_at is None {
            Some(m.user_id)
        } else {
            None
        }
}

impl StoreView {
    /// The store after a new group chat row is appended.
    pub open spec fn add_chat(self, title: Seq<char>, creator: i64, now: Seq<char>) -> StoreView {
        StoreView {
            chats: self.chats.push(
                ChatView {
                    id: (self.chat_seq + 1) as i64,
                    chat_type: "group"@,
                    title,
                    created_by: creator,
                    created_at: now,
                    deleted_at: None,
                },
            ),
            chat_seq: (self.chat_seq + 1) as i64,
            ..self
        }
    }

    /// The store after `u` joins chat `c`, unless a membership row, current
    /// or past, already links them.
    pub open spec fn add_member(self, c: i64, u: i64, now: Seq<char>) -> StoreView {
        if self.has_member_row(c, u) {
            self
        } else {
            StoreView {
                members: self.members.push(
                    MemberView { chat_id: c, user_id: u, joined_at: now, left_at: None },
                ),
                ..self
            }
        }
    }

    /// The store after the users `ids` join chat `c` in turn.
    pub open spec fn add_members(self, c: i64, ids: Seq<i64>, now: Seq<char>) -> StoreView
        decreases ids.len(),
    {
        if ids.len() == 0 {
            self
        } else {
            self.add_members(c, ids.drop_last(), now).add_member(c, ids.last(), now)
        }
    }

    /// The user a login names for the creator of a group: a live user other
    /// than the creator whom the creator does not block and is not blocked by.
    pub open spec fn group_candidate(self, creator: i64) -> spec_fn(Seq<char>) -> Option<i64> {
        |login: Seq<char>|
            {
                let t = trimmed(login);
                if t.len() > 0 && self.live_user_with_login(t) is Some {
                    let u = self.live_user_with_login(t)->0;
                    if u.id != creator && !self.blocked_either_way(creator, u.id) {
                        Some(u.id)
                    } else {
                        None
                    }
                } else {
                    None
                }
            }
    }

    /// The users that the given logins bring into a new group, in order.
    pub open spec fn group_candidates(self, creator: i64, logins: Seq<Seq<char>>) -> Seq<i64> {
        logins.filter_map(self.group_candidate(creator))
    }

    /// The store after `creator` creates the group `title` with the members
    /// that `logins` name.
    pub open spec fn create_group(
        self,
        creator: i64,
        title: Seq<char>,
        logins: Seq<Seq<char>>,
        now: Seq<char>,
    ) -> StoreView {
        self.add_chat(title, creator, now).add_members(
            (self.chat_seq + 1) as i64,
            seq![creator] + self.group_candidates(creator, logins),
            now,
        )
    }

    /// The current members of chat `c`, in table order.
    pub open spec fn member_ids(self, c: i64) -> Seq<i64> {
        self.members.filter_map(current_member_of(c))
    }
}

impl Store {
    /// Adds `user_id` to chat `chat_id` unless a membership row already
    /// links them.
    fn add_member(&mut self, chat_id: i64, user_id: i64, now: &str)
        requires
            old(self).wf(),
        ensures
            final(self).wf(),
            final(self)@ == old(self)@.add_member(chat_id, user_id, now@),
    {
        if !self.has_member_row(chat_id, user_id) {
            let ghost s0 = self@;
            let row = MemberRow {
                chat_id,
                user_id,
                joined_at: now.to_owned(),
                left_at: None,
            };
            self.members.push(row);
            proof {
                assert(member_views(self.members@) =~= s0.members.push(row@));
                assert(self@.sessions == s0.sessions);
                let m = self@.members;
                assert forall|i: int, j: int|
                    0 <= i < m.len() && 0 <= j < m.len() && i != j implies !(m[i].chat_id
                        == m[j].chat_id && m[i].user_id == m[j].user_id) by {
                    let last = m.len() - 1;
                    if i == last {
                        assert(m[j] == s0.members[j]);
                    } else if j == last {
                        assert(m[i] == s0.members[i]);
                    } else {
                        assert(m[i] == s0.members[i] && m[j] == s0.members[j]);
                    }
                }
            }
        }
    }

    /// Creates a group chat titled `title` (without surrounding white space)
    /// with its creator and the users named by `member_logins` as members;
    /// logins that name no live user, the creator, or a user blocked either
    /// way by the creator are passed over.
    pub fn create_group(&mut self, creator_id: i64, title: &str, member_logins: &Vec<String>, now: &str) -> (r: AppResult<CreateGroupResponse>)
        requires
            old(self).wf(),
        ensures
            final(self).wf(),
            if title_error(title@) {
                fails_with(r, BAD_REQUEST, "Название группы: 2-64 символа"@) && final(self)@ == old(self)@
            } else if old(self)@.chat_seq == i64::MAX {
                fails_with(r, INTERNAL_SERVER_ERROR, full_text()) && final(self)@ == old(self)@
            } else {
                &&& r matches Ok(g) && g.chat_id == old(self)@.chat_seq + 1 && g.title@ == trimmed(title@)
                &&& final(self)@ == old(self)@.create_group(
                    creator_id,
                    trimmed(title@),
                    login_views(member_logins@),
                    now@,
                )
            },
    {
        let title = trimmed_string(title);
        if utf8_len_capped(title.as_str(), 2) < 2 || utf8_len_capped(title.as_str(), 65) > 64 {
            return Err(AppError::new(BAD_REQUEST, "Название группы: 2-64 символа"));
        }
        if self.chat_seq == i64::MAX {
            return Err(AppError::internal("database or disk is full"));
        }
        let ghost s0 = self@;
        let chat_id = self.chat_seq + 1;
        let row = ChatRow {
            id: chat_id,
            chat_type: "group".to_owned(),
            title: title.clone(),
            created_by: creator_id,
            created_at: now.to_owned(),
            deleted_at: None,
        };
        self.chats.push(row);
        self.chat_seq = chat_id;
        proof {
            assert(chat_views(self.chats@) =~= s0.chats.push(row@));
            assert(self@.chat_ids() =~= s0.chat_ids().push(chat_id));
            assert(self@.sessions == s0.sessions);
            assert(self@ == s0.add_chat(title@, creator_id, now@));
        }
        let ghost s1 = self@;
        self.add_member(chat_id, creator_id, now);
        proof {
            assert(seq![creator_id].drop_last() =~= Seq::<i64>::empty());
            assert(s1.add_members(chat_id, Seq::<i64>::empty(), now@) == s1);
            assert(self@ == s1.add_members(chat_id, seq![creator_id], now@));
        }
        let ghost logins = login_views(member_logins@);
        let ghost f = s0.group_candidate(creator_id);
        let mut k: usize = 0;
        while k < member_logins.len()
            invariant
                self.wf(),
                k <= member_logins.len(),
                logins == login_views(member_logins@),
                f == s0.group_candidate(creator_id),
                self@.users == s0.users,
                self@.blocks == s0.blocks,
                self@ == s1.add_members(
                    chat_id,
                    seq![creator_id] + logins.take(k as int).filter_map(f),
                    now@,
                ),
            decreases member_logins.len() - k,
        {
            proof {
                logins.lemma_filter_map_take_succ(f, k as int);
            }
            let ghost before = seq![creator_id] + logins.take(k as int).filter_map(f);
            let raw = trimmed_string(member_logins[k].as_str());
            assert(logins[k as int] == member_logins@[k as int]@);
            if !raw.as_str().is_empty() {
                match self.login_index(&raw) {
                    Some(i) => {
                        let member_id = self.users[i].id;
                        if self.users[i].deleted_at.is_none() && member_id != creator_id
                            && !self.is_blocked_either_way(creator_id, member_id) {
                            self.add_member(chat_id, member_id, now);
                            proof {
                                assert((before + seq![member_id]).drop_last() =~= before);
                                assert(before + seq![member_id] =~= seq![creator_id] + (logins.take(
                                    k as int,
                                ).filter_map(f) + seq![member_id]));
                            }
                        }
                    },
                    None => {},
                }
            }
            k = k + 1;
        }
        assert(logins.take(member_logins.len() as int) =~= logins);
        Ok(CreateGroupResponse { chat_id, title })
    }

    /// The current members of chat `chat_id`.
    pub fn group_member_ids(&self, chat_id: i64) -> (r: Vec<i64>)
        ensures
            r@ == self@.member_ids(chat_id),
    {
        let ghost sv = self@;
        let ghost f = current_member_of(chat_id);
        let mut out: Vec<i64> = Vec::new();
        let mut i: usize = 0;
        while i < self.members.len()
            invariant
                self@ == sv,
                f == current_member_of(chat_id),
                i <= self.members.len(),
                out@ == sv.members.take(i as int).filter_map(f),
            decreases self.members.len() - i,
        {
            proof {
                sv.members.lemma_filter_map_take_succ(f, i as int);
            }
            let m = &self.members[i];
            assert(sv.members[i as int] == m@);
            if m.chat_id == chat_id && m.left_at.is_none() {
                out.push(m.user_id);
                assert(out@ =~= sv.members.take(i as int).filter_map(f) + seq![m.user_id]);
            }
            i = i + 1;
        }
        assert(sv.members.take(sv.members.len() as int) =~= sv.members);
        out
    }
}

} // verus!
