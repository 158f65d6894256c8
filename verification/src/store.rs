//! The store that holds the messenger's tables, its invariant, and the lookups
//! that the operations share.
use vstd::prelude::*;

use crate::tables::{
    block_views, chat_views, member_views, message_views, read_views, session_views, user_views,
    ids_increasing, lemma_read_mark_at, read_keys_unique, read_mark, BlockRow, ChatRow, MemberRow, MessageRow,
    ReadRow, SessionRow, StoreView, UserRow,
};

verus! {

/// The messenger's data: one vector per table, plus the largest identifier
/// handed out so far for the tables whose ids are assigned here.
pub struct Store {
    pub users: Vec<UserRow>,
    pub messages: Vec<MessageRow>,
    pub direct_reads: Vec<ReadRow>,
    pub group_reads: Vec<ReadRow>,
    pub blocks: Vec<BlockRow>,
    pub chats: Vec<ChatRow>,
    pub members: Vec<MemberRow>,
    pub sessions: Vec<SessionRow>,
    pub user_seq: i64,
    pub message_seq: i64,
    pub chat_seq: i64,
}

impl View for Store {
    type V = StoreView;

    open spec fn view(&self) -> StoreView {
        StoreView {
            users: user_views(self.users@),
            messages: message_views(self.messages@),
            direct_reads: read_views(self.direct_reads@),
            group_reads: read_views(self.group_reads@),
            blocks: block_views(self.blocks@),
            chats: chat_views(self.chats@),
            members: member_views(self.members@),
            sessions: session_views(self.sessions@),
            user_seq: self.user_seq,
            message_seq: self.message_seq,
            chat_seq: self.chat_seq,
        }
    }
}

impl StoreView {
    pub open spec fn empty() -> StoreView {
        StoreView {
            users: Seq::empty(),
            messages: Seq::empty(),
            direct_reads: Seq::empty(),
            group_reads: Seq::empty(),
            blocks: Seq::empty(),
            chats: Seq::empty(),
            members: Seq::empty(),
            sessions: Seq::empty(),
            user_seq: 0,
            message_seq: 0,
            chat_seq: 0,
        }
    }
}

impl Store {
    pub open spec fn wf(&self) -> bool {
        self@.wf()
    }

    /// A store with empty tables.
    pub fn new() -> (s: Store)
        ensures
            s.wf(),
            s@ == StoreView::empty(),
    {
        let s = Store {
            users: Vec::new(),
            messages: Vec::new(),
            direct_reads: Vec::new(),
            group_reads: Vec::new(),
            blocks: Vec::new(),
            chats: Vec::new(),
            members: Vec::new(),
            sessions: Vec::new(),
            user_seq: 0,
            message_seq: 0,
            chat_seq: 0,
        };
        assert(s@.users =~= Seq::empty());
        assert(s@.messages =~= Seq::empty());
        assert(s@.direct_reads =~= Seq::empty());
        assert(s@.group_reads =~= Seq::empty());
        assert(s@.blocks =~= Seq::empty());
        assert(s@.chats =~= Seq::empty());
        assert(s@.members =~= Seq::empty());
        assert(s@.sessions =~= Seq::empty());
        assert(s@.user_ids() =~= Seq::empty());
        assert(s@.message_ids() =~= Seq::empty());
        assert(s@.chat_ids() =~= Seq::empty());
        s
    }
}

impl Store {
    /// Position of the user with the given id.
    pub(crate) fn user_index(&self, id: i64) -> (r: Option<usize>)
        requires
            self.wf(),
        ensures
            match r {
                Some(i) => i < self@.users.len() && self@.users[i as int].id == id
                    && self@.find_user(id) == Some(self@.users[i as int]),
                None => self@.find_user(id) is None,
            },
    {
        let mut i: usize = 0;
        while i < self.users.len()
            invariant
                self.wf(),
                i <= self.users.len(),
                forall|k: int| 0 <= k < i ==> #[trigger] self@.users[k].id != id,
            decreases self.users.len() - i,
        {
            if self.users[i].id == id {
                proof {
                    self@.lemma_find_user_at(i as int);
                }
                return Some(i);
            }
            i = i + 1;
        }
        None
    }

    /// Position of the user, deleted or not, that holds the login.
    pub(crate) fn login_index(&self, login: &String) -> (r: Option<usize>)
        requires
            self.wf(),
        ensures
            match r {
                Some(i) => i < self@.users.len() && self@.users[i as int].login == login@
                    && self@.user_with_login(login@) == Some(self@.users[i as int]),
                None => self@.user_with_login(login@) is None,
            },
    {
        let mut i: usize = 0;
        while i < self.users.len()
            invariant
                self.wf(),
                i <= self.users.len(),
                forall|k: int| 0 <= k < i ==> #[trigger] self@.users[k].login != login@,
            decreases self.users.len() - i,
        {
            if self.users[i].login == *login {
                proof {
                    self@.lemma_user_with_login_at(i as int);
                }
                return Some(i);
            }
            i = i + 1;
        }
        None
    }

    /// Position of the group chat with the given id.
    pub(crate) fn chat_index(&self, id: i64) -> (r: Option<usize>)
        requires
            self.wf(),
        ensures
            match r {
                Some(i) => i < self@.chats.len() && self@.chats[i as int].id == id
                    && self@.find_chat(id) == Some(self@.chats[i as int]),
                None => self@.find_chat(id) is None,
            },
    {
        let mut i: usize = 0;
        while i < self.chats.len()
            invariant
                self.wf(),
                i <= self.chats.len(),
                forall|k: int| 0 <= k < i ==> #[trigger] self@.chats[k].id != id,
            decreases self.chats.len() - i,
        {
            if self.chats[i].id == id {
                proof {
                    self@.lemma_find_chat_at(i as int);
                }
                return Some(i);
            }
            i = i + 1;
        }
        None
    }

    /// Whether `blocker` has blocked `blocked`.
    pub fn blocks_user(&self, blocker: i64, blocked: i64) -> (r: bool)
        ensures
            r == self@.blocks_user(blocker, blocked),
    {
        let mut i: usize = 0;
        while i < self.blocks.len()
            invariant
                i <= self.blocks.len(),
                forall|k: int|
                    0 <= k < i ==> !(#[trigger] self@.blocks[k].blocker_id == blocker
                        && self@.blocks[k].blocked_id == blocked),
            decreases self.blocks.len() - i,
        {
            if self.blocks[i].blocker_id == blocker && self.blocks[i].blocked_id == blocked {
                assert(self@.blocks[i as int].blocker_id == blocker);
                return true;
            }
            i = i + 1;
        }
        false
    }

    /// Whether either of the two users has blocked the other.
    pub fn is_blocked_either_way(&self, user_id: i64, target_id: i64) -> (r: bool)
        ensures
            r == self@.blocked_either_way(user_id, target_id),
    {
        self.blocks_user(user_id, target_id) || self.blocks_user(target_id, user_id)
    }

    /// Whether the user is a current member of the group chat.
    pub fn is_group_member(&self, user_id: i64, chat_id: i64) -> (r: bool)
        ensures
            r == self@.is_member(user_id, chat_id),
    {
        let mut i: usize = 0;
        while i < self.members.len()
            invariant
                i <= self.members.len(),
                forall|k: int|
                    0 <= k < i ==> !(#[trigger] self@.members[k].chat_id == chat_id
                        && self@.members[k].user_id == user_id && self@.members[k].left_at is None),
            decreases self.members.len() - i,
        {
            let m = &self.members[i];
            if m.chat_id == chat_id && m.user_id == user_id && m.left_at.is_none() {
                assert(self@.members[i as int].chat_id == chat_id);
                return true;
            }
            i = i + 1;
        }
        false
    }

    /// Whether any membership row, current or past, links the user to the chat.
    pub(crate) fn has_member_row(&self, chat_id: i64, user_id: i64) -> (r: bool)
        ensures
            r == self@.has_member_row(chat_id, user_id),
    {
        let mut i: usize = 0;
        while i < self.members.len()
            invariant
                i <= self.members.len(),
                forall|k: int|
                    0 <= k < i ==> !(#[trigger] self@.members[k].chat_id == chat_id
                        && self@.members[k].user_id == user_id),
            decreases self.members.len() - i,
        {
            if self.members[i].chat_id == chat_id && self.members[i].user_id == user_id {
                assert(self@.members[i as int].chat_id == chat_id);
                return true;
            }
            i = i + 1;
        }
        false
    }
}

/// Position of the read mark of (user, conversation) in a table of marks.
pub(crate) fn read_index(reads: &Vec<ReadRow>, user_id: i64, peer_id: i64) -> (r: Option<usize>)
    requires
        read_keys_unique(read_views(reads@)),
    ensures
        match r {
            Some(i) => i < reads@.len() && reads@[i as int].user_id == user_id
                && reads@[i as int].peer_id == peer_id
                && read_mark(read_views(reads@), user_id, peer_id) == reads@[i as int].last_read_message_id,
            None => read_mark(read_views(reads@), user_id, peer_id) == 0
                && forall|k: int| 0 <= k < reads@.len() ==> !(#[trigger] reads@[k].user_id == user_id
                    && reads@[k].peer_id == peer_id),
        },
{
    let ghost rv = read_views(reads@);
    let mut i: usize = 0;
    while i < reads.len()
        invariant
            i <= reads.len(),
            rv == read_views(reads@),
            read_keys_unique(rv),
            forall|k: int|
                0 <= k < i ==> !(#[trigger] reads@[k].user_id == user_id && reads@[k].peer_id
                    == peer_id),
        decreases reads.len() - i,
    {
        if reads[i].user_id == user_id && reads[i].peer_id == peer_id {
            proof {
                lemma_read_mark_at(rv, i as int);
            }
            return Some(i);
        }
        i = i + 1;
    }
    assert forall|k: int| 0 <= k < rv.len() implies !(rv[k].user_id == user_id && rv[k].peer_id
        == peer_id) by {
        assert(rv[k] == reads@[k]@);
    }
    None
}

/// Whether ids strictly increase and stay within `[1, seq]`.
pub fn check_increasing(ids: &Vec<i64>, seq: i64) -> (r: bool)
    ensures
        r == ids_increasing(ids@, seq),
{
    if seq < 0 {
        return false;
    }
    let mut i: usize = 0;
    while i < ids.len()
        invariant
            0 <= seq,
            i <= ids.len(),
            forall|a: int, b: int| 0 <= a < b < i ==> ids@[a] < ids@[b],
            forall|a: int| 0 <= a < i ==> 1 <= #[trigger] ids@[a] <= seq,
        decreases ids.len() - i,
    {
        if ids[i] < 1 || ids[i] > seq {
            return false;
        }
        if i > 0 && ids[i - 1] >= ids[i] {
            return false;
        }
        proof {
            assert forall|a: int, b: int| 0 <= a < b < i + 1 implies ids@[a] < ids@[b] by {
                if b == i && a < i - 1 {
                    assert(ids@[a] < ids@[i - 1]);
                }
            }
        }
        i = i + 1;
    }
    true
}

impl Store {
    fn user_id_list(&self) -> (r: Vec<i64>)
        ensures
            r@ == self@.user_ids(),
    {
        let mut r: Vec<i64> = Vec::new();
        let mut i: usize = 0;
        while i < self.users.len()
            invariant
                i <= self.users.len(),
                r@ == self@.user_ids().take(i as int),
            decreases self.users.len() - i,
        {
            r.push(self.users[i].id);
            assert(r@ =~= self@.user_ids().take(i + 1));
            i = i + 1;
        }
        assert(r@ =~= self@.user_ids());
        r
    }

    fn message_id_list(&self) -> (r: Vec<i64>)
        ensures
            r@ == self@.message_ids(),
    {
        let mut r: Vec<i64> = Vec::new();
        let mut i: usize = 0;
        while i < self.messages.len()
            invariant
                i <= self.messages.len(),
                r@ == self@.message_ids().take(i as int),
            decreases self.messages.len() - i,
        {
            r.push(self.messages[i].id);
            assert(r@ =~= self@.message_ids().take(i + 1));
            i = i + 1;
        }
        assert(r@ =~= self@.message_ids());
        r
    }

    fn chat_id_list(&self) -> (r: Vec<i64>)
        ensures
            r@ == self@.chat_ids(),
    {
        let mut r: Vec<i64> = Vec::new();
        let mut i: usize = 0;
        while i < self.chats.len()
            invariant
                i <= self.chats.len(),
                r@ == self@.chat_ids().take(i as int),
            decreases self.chats.len() - i,
        {
            r.push(self.chats[i].id);
            assert(r@ =~= self@.chat_ids().take(i + 1));
            i = i + 1;
        }
        assert(r@ =~= self@.chat_ids());
        r
    }

    fn logins_unique(&self) -> (r: bool)
        ensures
            r == (forall|i: int, j: int|
                #![trigger self@.users[i], self@.users[j]]
                0 <= i < self@.users.len() && 0 <= j < self@.users.len() && i != j
                    ==> self@.users[i].login != self@.users[j].login),
    {
        let n = self.users.len();
        let mut i: usize = 0;
        while i < n
            invariant
                n == self.users.len(),
                i <= n,
                forall|a: int, b: int|
                    #![trigger self@.users[a], self@.users[b]]
                    0 <= a < i && 0 <= b < n && a != b ==> self@.users[a].login != self@.users[b].login,
            decreases n - i,
        {
            let mut j: usize = 0;
            while j < n
                invariant
                    n == self.users.len(),
                    i < n,
                    j <= n,
                    forall|a: int, b: int|
                        #![trigger self@.users[a], self@.users[b]]
                        0 <= a < i && 0 <= b < n && a != b ==> self@.users[a].login != self@.users[b].login,
                    forall|b: int|
                        0 <= b < j && b != i ==> self@.users[i as int].login != #[trigger] self@.users[b].login,
                decreases n - j,
            {
                if j != i && self.users[i].login == self.users[j].login {
                    assert(self@.users[i as int].login == self@.users[j as int].login);
                    return false;
                }
                j = j + 1;
            }
            i = i + 1;
        }
        true
    }

    fn members_unique(&self) -> (r: bool)
        ensures
            r == (forall|i: int, j: int|
                #![trigger self@.members[i], self@.members[j]]
                0 <= i < self@.members.len() && 0 <= j < self@.members.len() && i != j
                    ==> !(self@.members[i].chat_id == self@.members[j].chat_id
                    && self@.members[i].user_id == self@.members[j].user_id)),
    {
        let n = self.members.len();
        let mut i: usize = 0;
        while i < n
            invariant
                n == self.members.len(),
                i <= n,
                forall|a: int, b: int|
                    #![trigger self@.members[a], self@.members[b]]
                    0 <= a < i && 0 <= b < n && a != b ==> !(self@.members[a].chat_id
                        == self@.members[b].chat_id && self@.members[a].user_id
                        == self@.members[b].user_id),
            decreases n - i,
        {
            let mut j: usize = 0;
            while j < n
                invariant
                    n == self.members.len(),
                    i < n,
                    j <= n,
                    forall|a: int, b: int|
                        #![trigger self@.members[a], self@.members[b]]
                        0 <= a < i && 0 <= b < n && a != b ==> !(self@.members[a].chat_id
                            == self@.members[b].chat_id && self@.members[a].user_id
                            == self@.members[b].user_id),
                    forall|b: int|
                        0 <= b < j && b != i ==> !(self@.members[i as int].chat_id
                            == #[trigger] self@.members[b].chat_id && self@.members[i as int].user_id
                            == self@.members[b].user_id),
                decreases n - j,
            {
                if j != i && self.members[i].chat_id == self.members[j].chat_id
                    && self.members[i].user_id == self.members[j].user_id {
                    assert(self@.members[i as int].chat_id == self@.members[j as int].chat_id);
                    return false;
                }
                j = j + 1;
            }
            i = i + 1;
        }
        true
    }

    fn sessions_unique(&self) -> (r: bool)
        ensures
            r == (forall|i: int, j: int|
                #![trigger self@.sessions[i], self@.sessions[j]]
                0 <= i < self@.sessions.len() && 0 <= j < self@.sessions.len() && i != j
                    ==> self@.sessions[i].token != self@.sessions[j].token),
    {
        let n = self.sessions.len();
        let mut i: usize = 0;
        while i < n
            invariant
                n == self.sessions.len(),
                i <= n,
                forall|a: int, b: int|
                    #![trigger self@.sessions[a], self@.sessions[b]]
                    0 <= a < i && 0 <= b < n && a != b ==> self@.sessions[a].token != self@.sessions[b].token,
            decreases n - i,
        {
            let mut j: usize = 0;
            while j < n
                invariant
                    n == self.sessions.len(),
                    i < n,
                    j <= n,
                    forall|a: int, b: int|
                        #![trigger self@.sessions[a], self@.sessions[b]]
                        0 <= a < i && 0 <= b < n && a != b ==> self@.sessions[a].token != self@.sessions[b].token,
                    forall|b: int|
                        0 <= b < j && b != i ==> self@.sessions[i as int].token != #[trigger] self@.sessions[b].token,
                decreases n - j,
            {
                if j != i && self.sessions[i].token == self.sessions[j].token {
                    assert(self@.sessions[i as int].token == self@.sessions[j as int].token);
                    return false;
                }
                j = j + 1;
            }
            i = i + 1;
        }
        true
    }

    /// Whether the tables meet the invariant.
    pub fn check_wf(&self) -> (r: bool)
        ensures
            r == self.wf(),
    {
        let uid = self.user_id_list();
        let mid = self.message_id_list();
        let cid = self.chat_id_list();
        check_increasing(&uid, self.user_seq) && check_increasing(&mid, self.message_seq)
            && check_increasing(&cid, self.chat_seq) && self.logins_unique()
            && reads_unique(&self.direct_reads) && reads_unique(&self.group_reads)
            && self.members_unique() && self.sessions_unique()
    }

    /// A store holding the given tables (rows in the tables' order, as SQLite
    /// keeps them by id) and the largest ids handed out so far; `None` when
    /// they break the invariant.
    pub fn restore(
        users: Vec<UserRow>,
        messages: Vec<MessageRow>,
        direct_reads: Vec<ReadRow>,
        group_reads: Vec<ReadRow>,
        blocks: Vec<BlockRow>,
        chats: Vec<ChatRow>,
        members: Vec<MemberRow>,
        sessions: Vec<SessionRow>,
        user_seq: i64,
        message_seq: i64,
        chat_seq: i64,
    ) -> (r: Option<Store>)
        ensures
            ({
                let s = Store {
                    users,
                    messages,
                    direct_reads,
                    group_reads,
                    blocks,
                    chats,
                    members,
                    sessions,
                    user_seq,
                    message_seq,
                    chat_seq,
                };
                match r {
                    Some(x) => x == s && s.wf(),
                    None => !s.wf(),
                }
            }),
    {
        let s = Store {
            users,
            messages,
            direct_reads,
            group_reads,
            blocks,
            chats,
            members,
            sessions,
            user_seq,
            message_seq,
            chat_seq,
        };
        if s.check_wf() {
            Some(s)
        } else {
            None
        }
    }
}

/// Whether no two read marks share (user, conversation).
fn reads_unique(reads: &Vec<ReadRow>) -> (r: bool)
    ensures
        r == read_keys_unique(read_views(reads@)),
{
    let ghost rv = read_views(reads@);
    let n = reads.len();
    let mut i: usize = 0;
    while i < n
        invariant
            n == reads.len(),
            rv == read_views(reads@),
            i <= n,
            forall|a: int, b: int|
                #![trigger rv[a], rv[b]]
                0 <= a < i && 0 <= b < n && a != b ==> !(rv[a].user_id == rv[b].user_id
                    && rv[a].peer_id == rv[b].peer_id),
        decreases n - i,
    {
        let mut j: usize = 0;
        while j < n
            invariant
                n == reads.len(),
                rv == read_views(reads@),
                i < n,
                j <= n,
                forall|a: int, b: int|
                    #![trigger rv[a], rv[b]]
                    0 <= a < i && 0 <= b < n && a != b ==> !(rv[a].user_id == rv[b].user_id
                        && rv[a].peer_id == rv[b].peer_id),
                forall|b: int|
                    0 <= b < j && b != i ==> !(rv[i as int].user_id == #[trigger] rv[b].user_id
                        && rv[i as int].peer_id == rv[b].peer_id),
            decreases n - j,
        {
            if j != i && reads[i].user_id == reads[j].user_id && reads[i].peer_id == reads[j].peer_id {
                assert(rv[i as int].user_id == rv[j as int].user_id);
                assert(rv[i as int].peer_id == rv[j as int].peer_id);
                return false;
            }
            j = j + 1;
        }
        i = i + 1;
    }
    true
}

} // verus!
