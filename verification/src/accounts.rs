//! Accounts: registration, login, sessions and account deletion.
use vstd::prelude::*;

use crate::error::{
    fails_with, is_error, AppError, AppResult, CONFLICT, INTERNAL_SERVER_ERROR, UNAUTHORIZED,
    BAD_REQUEST,
};
use crate::password::{check_password, default_cost_hash, hash_password, password_matches};
use crate::store::Store;
use crate::tables::{
    ids_increasing, read_keys_unique, BlockRow, ReadRow, block_views, member_views, MessageRow, message_views, read_views, session_views, user_views, BlockView,
    MemberRow, MemberView, MessageView, ReadView, SessionRow, SessionView, StoreView, UserRow,
    UserView,
};
use crate::text::{
    all_login_chars, decimal, utf8_len_capped, is_login_char, push_decimal, trimmed, trimmed_string, utf8_len,
};

verus! {

/// Why a registration is refused before anything is stored, if it is:
/// the login and password are taken without surrounding white space; the
/// login needs 3 to 32 bytes of ASCII letters, digits, `_` and `-`, the
/// password at least 8 bytes.
pub open spec fn registration_error(login: Seq<char>, password: Seq<char>) -> Option<Seq<char>> {
    let l = trimmed(login);
    let p = trimmed(password);
    if utf8_len(l) < 3 {
        Some("Логин минимум 3 символа"@)
    } else if utf8_len(l) > 32 || !(forall|i: int| 0 <= i < l.len() ==> is_login_char(#[trigger] l[i])) {
        Some("Логин: 3-32 символа, латиница/цифры/_/-"@)
    } else if utf8_len(p) < 8 {
        Some("Пароль минимум 8 символов"@)
    } else {
        None
    }
}

/// The login a deleted account is renamed to.
pub open spec fn retired_login(id: i64) -> Seq<char> {
    "deleted_"@ + decimal(id as nat)
}

/// The message of the error that SQLite reports when the largest id has
/// already been used.
pub open spec fn full_text() -> Seq<char> {
    "database or disk is full"@
}

impl StoreView {
    /// The store after a new user row is appended.
    pub open spec fn add_user(self, login: Seq<char>, hash: Seq<char>, now: Seq<char>) -> StoreView {
        StoreView {
            users: self.users.push(
                UserView {
                    id: (self.user_seq + 1) as i64,
                    login,
                    password_hash: hash,
                    created_at: now,
                    deleted_at: None,
                },
            ),
            user_seq: (self.user_seq + 1) as i64,
            ..self
        }
    }

    /// The store after a session row is appended.
    pub open spec fn add_session(self, user_id: i64, token: Seq<char>) -> StoreView {
        StoreView { sessions: self.sessions.push(SessionView { token, user_id }), ..self }
    }

    /// The store after the data of user `u` is removed: the messages sent to
    /// or by `u`, the read marks that concern `u`, the blocks `u` is part of;
    /// `u` leaves every group chat.
    pub open spec fn erase_user_data(self, u: i64, now: Seq<char>) -> StoreView {
        StoreView {
            messages: self.messages.filter(untouched_by(u)),
            direct_reads: self.direct_reads.filter(read_kept(u, true)),
            group_reads: self.group_reads.filter(read_kept(u, false)),
            members: self.members.map_values(left_by(u, now)),
            blocks: self.blocks.filter(block_kept(u)),
            ..self
        }
    }

    /// The store after user `u` is renamed, loses its password hash, is
    /// marked deleted, and loses its sessions.
    pub open spec fn retire_user(self, u: i64, now: Seq<char>) -> StoreView {
        StoreView {
            users: self.users.map_values(retired_by(u, now)),
            sessions: self.sessions.filter(session_kept(u)),
            ..self
        }
    }

    /// Whether another user already holds the login that `u` is renamed to.
    pub open spec fn retired_login_taken(self, u: i64) -> bool {
        exists|j: int|
            0 <= j < self.users.len() && self.users[j].id != u && self.users[j].login
                == retired_login(u)
    }
}

proof fn lemma_filter_push<T>(s: Seq<T>, x: T, p: spec_fn(T) -> bool)
    ensures
        s.push(x).filter(p) == (if p(x) {
            s.filter(p).push(x)
        } else {
            s.filter(p)
        }),
{
    reveal_with_fuel(Seq::filter, 1);
    assert(s.push(x).drop_last() =~= s);
}

/// Whether a message was sent to or by `u`.
pub open spec fn touches(m: MessageView, u: i64) -> bool {
    m.sender_id == u || m.receiver_id == Some(u)
}

/// The predicate that keeps the messages `u` has no part in.
pub open spec fn untouched_by(u: i64) -> spec_fn(MessageView) -> bool {
    |m: MessageView| !touches(m, u)
}

/// The messages neither sent to nor by `u`, in their order.
fn drop_messages_of(src: &Vec<MessageRow>, u: i64, Ghost(seq): Ghost<i64>) -> (out: Vec<MessageRow>)
    requires
        ids_increasing(message_views(src@).map_values(|m: MessageView| m.id), seq),
    ensures
        message_views(out@) == message_views(src@).filter(untouched_by(u)),
        ids_increasing(message_views(out@).map_values(|m: MessageView| m.id), seq),
{
    let ghost sv = message_views(src@);
    let ghost ids = sv.map_values(|m: MessageView| m.id);
    let mut out: Vec<MessageRow> = Vec::new();
    let mut k: usize = 0;
    while k < src.len()
        invariant
            k <= src.len(),
            sv == message_views(src@),
            ids == sv.map_values(|m: MessageView| m.id),
            ids_increasing(ids, seq),
            message_views(out@) == sv.take(k as int).filter(untouched_by(u)),
            forall|a: int|
                0 <= a < out@.len() ==> exists|j: int| 0 <= j < k && #[trigger] out@[a].id == ids[j],
            forall|a: int, b: int| 0 <= a < b < out@.len() ==> out@[a].id < out@[b].id,
            forall|a: int| 0 <= a < out@.len() ==> 1 <= #[trigger] out@[a].id <= seq,
        decreases src.len() - k,
    {
        let ghost ov = message_views(out@);
        assert(sv.take(k + 1) =~= sv.take(k as int).push(sv[k as int]));
        proof {
            lemma_filter_push(sv.take(k as int), sv[k as int], untouched_by(u));
        }
        let row = &src[k];
        assert(sv[k as int] == row@);
        assert(ids[k as int] == row.id);
        let to_u = match row.receiver_id {
            Some(r) => r == u,
            None => false,
        };
        if !(row.sender_id == u || to_u) {
            proof {
                assert forall|a: int| 0 <= a < out@.len() implies out@[a].id < row.id by {
                    let j = choose|j: int| 0 <= j < k && #[trigger] out@[a].id == ids[j];
                }
            }
            let c = row.copy();
            out.push(c);
            proof {
                assert(message_views(out@) =~= ov.push(row@));
                assert(untouched_by(u)(sv[k as int]));
                assert(message_views(out@) == sv.take(k + 1).filter(untouched_by(u)));
                assert forall|a: int| 0 <= a < out@.len() implies exists|j: int|
                    0 <= j < k + 1 && #[trigger] out@[a].id == ids[j] by {
                    if a == out@.len() - 1 {
                        assert(out@[a].id == ids[k as int]);
                    } else {
                        let j = choose|j: int| 0 <= j < k && #[trigger] out@[a].id == ids[j];
                        assert(out@[a].id == ids[j]);
                    }
                }
            }
        } else {
            assert(!untouched_by(u)(sv[k as int]));
            assert(message_views(out@) == sv.take(k + 1).filter(untouched_by(u)));
        }
        k = k + 1;
    }
    proof {
        assert(sv.take(sv.len() as int) =~= sv);
        let oids = message_views(out@).map_values(|m: MessageView| m.id);
        assert forall|a: int, b: int| 0 <= a < b < oids.len() implies oids[a] < oids[b] by {
            assert(oids[a] == out@[a].id);
            assert(oids[b] == out@[b].id);
        }
        assert forall|a: int| 0 <= a < oids.len() implies 1 <= #[trigger] oids[a] <= seq by {
            assert(oids[a] == out@[a].id);
        }
    }
    out
}

/// The predicate that keeps the read marks not owned by `u`, and, when
/// `as_peer` is set, not about a conversation with `u` either.
pub open spec fn read_kept(u: i64, as_peer: bool) -> spec_fn(ReadView) -> bool {
    |r: ReadView| !(r.user_id == u || (as_peer && r.peer_id == u))
}

fn drop_reads_of(src: &Vec<ReadRow>, u: i64, as_peer: bool) -> (out: Vec<ReadRow>)
    requires
        read_keys_unique(read_views(src@)),
    ensures
        read_views(out@) == read_views(src@).filter(read_kept(u, as_peer)),
        read_keys_unique(read_views(out@)),
{
    let ghost sv = read_views(src@);
    let mut out: Vec<ReadRow> = Vec::new();
    let mut k: usize = 0;
    while k < src.len()
        invariant
            k <= src.len(),
            sv == read_views(src@),
            read_keys_unique(sv),
            read_views(out@) == sv.take(k as int).filter(read_kept(u, as_peer)),
            forall|a: int|
                0 <= a < out@.len() ==> exists|j: int|
                    0 <= j < k && #[trigger] out@[a].user_id == sv[j].user_id && out@[a].peer_id
                        == sv[j].peer_id,
            read_keys_unique(read_views(out@)),
        decreases src.len() - k,
    {
        let ghost ov = read_views(out@);
        assert(sv.take(k + 1) =~= sv.take(k as int).push(sv[k as int]));
        proof {
            lemma_filter_push(sv.take(k as int), sv[k as int], read_kept(u, as_peer));
        }
        let row = &src[k];
        assert(sv[k as int] == row@);
        if !(row.user_id == u || (as_peer && row.peer_id == u)) {
            let c = row.copy();
            out.push(c);
            proof {
                assert(read_views(out@) =~= ov.push(row@));
                assert(read_kept(u, as_peer)(sv[k as int]));
                assert forall|a: int| 0 <= a < out@.len() implies exists|j: int|
                    0 <= j < k + 1 && #[trigger] out@[a].user_id == sv[j].user_id
                        && out@[a].peer_id == sv[j].peer_id by {
                    if a == out@.len() - 1 {
                        assert(out@[a].user_id == sv[k as int].user_id);
                    } else {
                        let j = choose|j: int|
                            0 <= j < k && #[trigger] out@[a].user_id == sv[j].user_id
                                && out@[a].peer_id == sv[j].peer_id;
                        assert(out@[a].user_id == sv[j].user_id);
                    }
                }
                let nv = read_views(out@);
                assert forall|a: int, b: int|
                    0 <= a < nv.len() && 0 <= b < nv.len() && a != b implies !(nv[a].user_id
                        == nv[b].user_id && nv[a].peer_id == nv[b].peer_id) by {
                    let last = nv.len() - 1;
                    if a == last || b == last {
                        let o = if a == last { b } else { a };
                        let j = choose|j: int|
                            0 <= j < k && #[trigger] out@[o].user_id == sv[j].user_id
                                && out@[o].peer_id == sv[j].peer_id;
                        assert(nv[o] == out@[o]@);
                        assert(nv[last] == sv[k as int]);
                    } else {
                        assert(nv[a] == ov[a]);
                        assert(nv[b] == ov[b]);
                    }
                }
            }
        } else {
            assert(!read_kept(u, as_peer)(sv[k as int]));
        }
        k = k + 1;
    }
    assert(sv.take(sv.len() as int) =~= sv);
    out
}

/// The predicate that keeps the blocks `u` has no part in.
pub open spec fn block_kept(u: i64) -> spec_fn(BlockView) -> bool {
    |b: BlockView| !(b.blocker_id == u || b.blocked_id == u)
}

fn drop_blocks_of(src: &Vec<BlockRow>, u: i64) -> (out: Vec<BlockRow>)
    ensures
        block_views(out@) == block_views(src@).filter(block_kept(u)),
{
    let ghost sv = block_views(src@);
    let mut out: Vec<BlockRow> = Vec::new();
    let mut k: usize = 0;
    while k < src.len()
        invariant
            k <= src.len(),
            sv == block_views(src@),
            block_views(out@) == sv.take(k as int).filter(block_kept(u)),
        decreases src.len() - k,
    {
        let ghost ov = block_views(out@);
        assert(sv.take(k + 1) =~= sv.take(k as int).push(sv[k as int]));
        proof {
            lemma_filter_push(sv.take(k as int), sv[k as int], block_kept(u));
        }
        let row = &src[k];
        assert(sv[k as int] == row@);
        if !(row.blocker_id == u || row.blocked_id == u) {
            let c = row.copy();
            out.push(c);
            assert(block_views(out@) =~= ov.push(row@));
            assert(block_kept(u)(sv[k as int]));
        } else {
            assert(!block_kept(u)(sv[k as int]));
        }
        k = k + 1;
    }
    assert(sv.take(sv.len() as int) =~= sv);
    out
}

/// The predicate that keeps the sessions of other users than `u`.
pub open spec fn session_kept(u: i64) -> spec_fn(SessionView) -> bool {
    |s: SessionView| s.user_id != u
}

fn drop_sessions_of(src: &Vec<SessionRow>, u: i64) -> (out: Vec<SessionRow>)
    requires
        forall|i: int, j: int|
            0 <= i < src@.len() && 0 <= j < src@.len() && i != j ==> src@[i].token@ != src@[j].token@,
    ensures
        session_views(out@) == session_views(src@).filter(session_kept(u)),
        forall|i: int, j: int|
            0 <= i < out@.len() && 0 <= j < out@.len() && i != j ==> out@[i].token@ != out@[j].token@,
{
    let ghost sv = session_views(src@);
    let mut out: Vec<SessionRow> = Vec::new();
    let mut k: usize = 0;
    while k < src.len()
        invariant
            k <= src.len(),
            sv == session_views(src@),
            forall|i: int, j: int|
                0 <= i < src@.len() && 0 <= j < src@.len() && i != j ==> src@[i].token@
                    != src@[j].token@,
            session_views(out@) == sv.take(k as int).filter(session_kept(u)),
            forall|a: int|
                0 <= a < out@.len() ==> exists|j: int|
                    0 <= j < k && #[trigger] out@[a].token@ == src@[j].token@,
            forall|i: int, j: int|
                0 <= i < out@.len() && 0 <= j < out@.len() && i != j ==> out@[i].token@
                    != out@[j].token@,
        decreases src.len() - k,
    {
        let ghost ov = session_views(out@);
        let ghost oo = out@;
        assert(sv.take(k + 1) =~= sv.take(k as int).push(sv[k as int]));
        proof {
            lemma_filter_push(sv.take(k as int), sv[k as int], session_kept(u));
        }
        let row = &src[k];
        assert(sv[k as int] == row@);
        if row.user_id != u {
            let c = row.copy();
            out.push(c);
            proof {
                assert(session_views(out@) =~= ov.push(row@));
                assert(session_kept(u)(sv[k as int]));
                assert forall|a: int| 0 <= a < out@.len() implies exists|j: int|
                    0 <= j < k + 1 && #[trigger] out@[a].token@ == src@[j].token@ by {
                    if a == out@.len() - 1 {
                        assert(out@[a].token@ == src@[k as int].token@);
                    } else {
                        assert(out@[a] == oo[a]);
                        let j = choose|j: int| 0 <= j < k && #[trigger] oo[a].token@ == src@[j].token@;
                        assert(out@[a].token@ == src@[j].token@);
                    }
                }
                assert forall|i: int, j: int|
                    0 <= i < out@.len() && 0 <= j < out@.len() && i != j implies out@[i].token@
                        != out@[j].token@ by {
                    let last = out@.len() - 1;
                    if i == last || j == last {
                        let o = if i == last { j } else { i };
                        assert(out@[o] == oo[o]);
                        let w = choose|w: int| 0 <= w < k && #[trigger] oo[o].token@ == src@[w].token@;
                    } else {
                        assert(out@[i] == oo[i]);
                        assert(out@[j] == oo[j]);
                    }
                }
            }
        } else {
            assert(!session_kept(u)(sv[k as int]));
        }
        k = k + 1;
    }
    assert(sv.take(sv.len() as int) =~= sv);
    out
}

/// The membership row after `u` leaves at `now`.
pub open spec fn left_by(u: i64, now: Seq<char>) -> spec_fn(MemberView) -> MemberView {
    |m: MemberView|
        if m.user_id == u {
            MemberView { left_at: Some(now), ..m }
        } else {
            m
        }
}

fn leave_all_groups(src: &Vec<MemberRow>, u: i64, now: &str) -> (out: Vec<MemberRow>)
    ensures
        member_views(out@) == member_views(src@).map_values(left_by(u, now@)),
{
    let ghost sv = member_views(src@);
    let mut out: Vec<MemberRow> = Vec::new();
    let mut k: usize = 0;
    while k < src.len()
        invariant
            k <= src.len(),
            sv == member_views(src@),
            member_views(out@) == sv.take(k as int).map_values(left_by(u, now@)),
        decreases src.len() - k,
    {
        let ghost ov = member_views(out@);
        let row = &src[k];
        assert(sv[k as int] == row@);
        let c = if row.user_id == u {
            MemberRow {
                chat_id: row.chat_id,
                user_id: row.user_id,
                joined_at: row.joined_at.clone(),
                left_at: Some(now.to_owned()),
            }
        } else {
            row.copy()
        };
        out.push(c);
        assert(member_views(out@) =~= ov.push(c@));
        assert(sv.take(k + 1).map_values(left_by(u, now@)) =~= sv.take(k as int).map_values(
            left_by(u, now@),
        ).push(left_by(u, now@)(sv[k as int])));
        k = k + 1;
    }
    assert(sv.take(sv.len() as int) =~= sv);
    out
}

/// The user row of `u` after the account is deleted at `now`.
pub open spec fn retired_by(u: i64, now: Seq<char>) -> spec_fn(UserView) -> UserView {
    |x: UserView|
        if x.id == u {
            UserView {
                login: retired_login(u),
                password_hash: Seq::empty(),
                deleted_at: Some(now),
                ..x
            }
        } else {
            x
        }
}

fn retire_in(src: &Vec<UserRow>, u: i64, retired: &String, now: &str) -> (out: Vec<UserRow>)
    requires
        retired@ == retired_login(u),
    ensures
        user_views(out@) == user_views(src@).map_values(retired_by(u, now@)),
{
    let ghost sv = user_views(src@);
    let mut out: Vec<UserRow> = Vec::new();
    let mut k: usize = 0;
    while k < src.len()
        invariant
            k <= src.len(),
            sv == user_views(src@),
            retired@ == retired_login(u),
            user_views(out@) == sv.take(k as int).map_values(retired_by(u, now@)),
        decreases src.len() - k,
    {
        let ghost ov = user_views(out@);
        let row = &src[k];
        assert(sv[k as int] == row@);
        let c = if row.id == u {
            let c = UserRow {
                id: row.id,
                login: retired.clone(),
                password_hash: String::new(),
                created_at: row.created_at.clone(),
                deleted_at: Some(now.to_owned()),
            };
            assert(c@ == retired_by(u, now@)(row@));
            c
        } else {
            row.copy()
        };
        out.push(c);
        assert(user_views(out@) =~= ov.push(c@));
        assert(sv.take(k + 1).map_values(retired_by(u, now@)) =~= sv.take(k as int).map_values(
            retired_by(u, now@),
        ).push(retired_by(u, now@)(sv[k as int])));
        k = k + 1;
    }
    assert(sv.take(sv.len() as int) =~= sv);
    out
}

impl Store {
    /// Stores a new user with an already computed password hash; `hashed` is
    /// `None` when hashing failed.
    pub fn insert_user(&mut self, login: String, hashed: Option<String>, now: &str) -> (r: AppResult<()>)
        requires
            old(self).wf(),
        ensures
            final(self).wf(),
            match hashed {
                None => fails_with(r, INTERNAL_SERVER_ERROR, "Ошибка хэширования пароля"@)
                    && final(self)@ == old(self)@,
                Some(h) => if old(self)@.user_seq == i64::MAX {
                    fails_with(r, INTERNAL_SERVER_ERROR, full_text()) && final(self)@ == old(self)@
                } else if old(self)@.user_with_login(login@) is Some {
                    fails_with(r, CONFLICT, "Логин занят"@) && final(self)@ == old(self)@
                } else {
                    r is Ok && final(self)@ == old(self)@.add_user(login@, h@, now@)
                },
            },
    {
        let h = match hashed {
            None => return Err(AppError::internal("Ошибка хэширования пароля")),
            Some(h) => h,
        };
        if self.user_seq == i64::MAX {
            return Err(AppError::internal("database or disk is full"));
        }
        if self.login_index(&login).is_some() {
            return Err(AppError::new(CONFLICT, "Логин занят"));
        }
        let ghost old_view = self@;
        let id = self.user_seq + 1;
        let row = UserRow {
            id,
            login,
            password_hash: h,
            created_at: now.to_owned(),
            deleted_at: None,
        };
        self.users.push(row);
        self.user_seq = id;
        proof {
            assert(user_views(self.users@) =~= old_view.users.push(row@));
            assert(self@.user_ids() =~= old_view.user_ids().push(id));
            assert(self@ == old_view.add_user(row.login@, row.password_hash@, now@));
            assert forall|i: int, j: int|
                0 <= i < self@.users.len() && 0 <= j < self@.users.len() && i != j
                    implies self@.users[i].login != self@.users[j].login by {
                if i == old_view.users.len() {
                    assert(self@.users[j] == old_view.users[j]);
                } else if j == old_view.users.len() {
                    assert(self@.users[i] == old_view.users[i]);
                }
            }
        }
        Ok(())
    }

    /// Registers a user with the given login and password.
    pub fn create_user(&mut self, login: &str, password: &str, now: &str) -> (r: AppResult<()>)
        requires
            old(self).wf(),
        ensures
            final(self).wf(),
            match registration_error(login@, password@) {
                Some(msg) => fails_with(r, BAD_REQUEST, msg) && final(self)@ == old(self)@,
                None => {
                    let l = trimmed(login@);
                    let p = trimmed(password@);
                    &&& r is Ok ==> exists|h: Seq<char>|
                        default_cost_hash(h) && password_matches(p, h) && final(self)@
                            == old(self)@.add_user(l, h, now@)
                    &&& r is Err ==> final(self)@ == old(self)@
                    &&& old(self)@.user_with_login(l) is Some ==> r is Err
                    &&& old(self)@.user_seq == i64::MAX ==> r is Err
                    &&& r matches Err(e) ==> {
                        ||| is_error(e, INTERNAL_SERVER_ERROR, "Ошибка хэширования пароля"@)
                        ||| is_error(e, CONFLICT, "Логин занят"@)
                        ||| is_error(e, INTERNAL_SERVER_ERROR, full_text())
                    }
                    &&& fails_with(r, CONFLICT, "Логин занят"@) ==> ({
                        &&& old(self)@.user_with_login(l) is Some
                        &&& old(self)@.user_seq < i64::MAX
                    })
                    &&& fails_with(r, INTERNAL_SERVER_ERROR, full_text()) ==> (
                    old(self)@.user_seq == i64::MAX)
                },
            },
    {
        let login = trimmed_string(login);
        let password = trimmed_string(password);
        if utf8_len_capped(login.as_str(), 3) < 3 {
            return Err(AppError::new(BAD_REQUEST, "Логин минимум 3 символа"));
        }
        if utf8_len_capped(login.as_str(), 33) > 32 || !all_login_chars(login.as_str()) {
            return Err(AppError::new(BAD_REQUEST, "Логин: 3-32 символа, латиница/цифры/_/-"));
        }
        if utf8_len_capped(password.as_str(), 8) < 8 {
            return Err(AppError::new(BAD_REQUEST, "Пароль минимум 8 символов"));
        }
        let hashed = hash_password(password.as_str());
        proof {
            reveal_strlit("Ошибка хэширования пароля");
            reveal_strlit("database or disk is full");
            assert("Ошибка хэширования пароля"@[0] != full_text()[0]);
        }
        self.insert_user(login, hashed, now)
    }

    /// Checks a login and password; answers the user's id and login.
    pub fn verify_user(&self, login: &str, password: &str) -> (r: AppResult<(i64, String)>)
        requires
            self.wf(),
        ensures
            match self@.live_user_with_login(trimmed(login@)) {
                Some(u) => if password_matches(password@, u.password_hash) {
                    r matches Ok((id, l)) && id == u.id && l@ == u.login
                } else {
                    fails_with(r, UNAUTHORIZED, "Неверные данные"@)
                },
                None => fails_with(r, UNAUTHORIZED, "Неверные данные"@),
            },
    {
        let login = trimmed_string(login);
        match self.login_index(&login) {
            Some(i) => {
                let u = &self.users[i];
                if u.deleted_at.is_some() {
                    return Err(AppError::new(UNAUTHORIZED, "Неверные данные"));
                }
                if check_password(password, u.password_hash.as_str()) {
                    Ok((u.id, u.login.clone()))
                } else {
                    Err(AppError::new(UNAUTHORIZED, "Неверные данные"))
                }
            },
            None => Err(AppError::new(UNAUTHORIZED, "Неверные данные")),
        }
    }

    /// Opens a session: `token` authenticates `user_id` from now on.
    pub fn create_session(&mut self, user_id: i64, token: String) -> (r: AppResult<()>)
        requires
            old(self).wf(),
        ensures
            final(self).wf(),
            if old(self)@.session_user(token@) is Some {
                fails_with(r, INTERNAL_SERVER_ERROR, "UNIQUE constraint failed: sessions.token"@)
                    && final(self)@ == old(self)@
            } else {
                r is Ok && final(self)@ == old(self)@.add_session(user_id, token@)
            },
    {
        let mut i: usize = 0;
        while i < self.sessions.len()
            invariant
                self.wf(),
                i <= self.sessions.len(),
                forall|k: int| 0 <= k < i ==> #[trigger] self@.sessions[k].token != token@,
            decreases self.sessions.len() - i,
        {
            if self.sessions[i].token == token {
                proof {
                    self@.lemma_session_at(i as int);
                }
                return Err(AppError::internal("UNIQUE constraint failed: sessions.token"));
            }
            i = i + 1;
        }
        let ghost old_view = self@;
        let row = SessionRow { token, user_id };
        self.sessions.push(row);
        proof {
            assert(session_views(self.sessions@) =~= old_view.sessions.push(row@));
            assert(self@ == old_view.add_session(user_id, row.token@));
            assert forall|a: int, b: int|
                0 <= a < self@.sessions.len() && 0 <= b < self@.sessions.len() && a != b
                    implies self@.sessions[a].token != self@.sessions[b].token by {
                if a == old_view.sessions.len() {
                    assert(self@.sessions[b] == old_view.sessions[b]);
                } else if b == old_view.sessions.len() {
                    assert(self@.sessions[a] == old_view.sessions[a]);
                }
            }
        }
        Ok(())
    }

    /// The user that a session token belongs to.
    pub fn authenticate_token(&self, token: &String) -> (r: AppResult<i64>)
        requires
            self.wf(),
        ensures
            match self@.session_user(token@) {
                Some(u) => r == Ok::<i64, AppError>(u),
                None => fails_with(r, UNAUTHORIZED, "Нужна авторизация"@),
            },
    {
        let mut i: usize = 0;
        while i < self.sessions.len()
            invariant
                self.wf(),
                i <= self.sessions.len(),
                forall|k: int| 0 <= k < i ==> #[trigger] self@.sessions[k].token != token@,
            decreases self.sessions.len() - i,
        {
            if self.sessions[i].token == *token {
                proof {
                    self@.lemma_session_at(i as int);
                }
                return Ok(self.sessions[i].user_id);
            }
            i = i + 1;
        }
        Err(AppError::new(UNAUTHORIZED, "Нужна авторизация"))
    }

    /// Deletes the account of `user_id` after checking its password: the
    /// user's messages, read marks and blocks go, the user leaves every
    /// group, and the user row is renamed and marked deleted.
    pub fn delete_account(&mut self, user_id: i64, password: &str, now: &str) -> (r: AppResult<()>)
        requires
            old(self).wf(),
        ensures
            final(self).wf(),
            ({
                let s = old(self)@;
                if !s.is_live(user_id) {
                    fails_with(r, UNAUTHORIZED, "Аккаунт не найден"@) && final(self)@ == s
                } else if !password_matches(trimmed(password@), s.find_user(user_id)->0.password_hash) {
                    fails_with(r, UNAUTHORIZED, "Неверный пароль"@) && final(self)@ == s
                } else if s.retired_login_taken(user_id) {
                    fails_with(r, INTERNAL_SERVER_ERROR, "UNIQUE constraint failed: users.login"@)
                        && final(self)@ == s.erase_user_data(user_id, now@)
                } else {
                    r is Ok && final(self)@ == s.erase_user_data(user_id, now@).retire_user(user_id, now@)
                }
            }),
    {
        let ghost s0 = self@;
        let i = match self.user_index(user_id) {
            Some(i) => i,
            None => return Err(AppError::new(UNAUTHORIZED, "Аккаунт не найден")),
        };
        if self.users[i].deleted_at.is_some() {
            return Err(AppError::new(UNAUTHORIZED, "Аккаунт не найден"));
        }
        let password = trimmed_string(password);
        if !check_password(password.as_str(), self.users[i].password_hash.as_str()) {
            return Err(AppError::new(UNAUTHORIZED, "Неверный пароль"));
        }
        proof {
            assert(s0.user_ids()[i as int] == user_id);
        }
        let messages = drop_messages_of(&self.messages, user_id, Ghost(self.message_seq));
        let direct_reads = drop_reads_of(&self.direct_reads, user_id, true);
        let group_reads = drop_reads_of(&self.group_reads, user_id, false);
        let members = leave_all_groups(&self.members, user_id, now);
        let blocks = drop_blocks_of(&self.blocks, user_id);
        self.messages = messages;
        self.direct_reads = direct_reads;
        self.group_reads = group_reads;
        self.members = members;
        self.blocks = blocks;
        let ghost s1 = self@;
        proof {
            assert(s1 == s0.erase_user_data(user_id, now@));
            assert forall|a: int, b: int|
                0 <= a < s1.members.len() && 0 <= b < s1.members.len() && a != b
                    implies !(s1.members[a].chat_id == s1.members[b].chat_id
                    && s1.members[a].user_id == s1.members[b].user_id) by {
                assert(s1.members[a].chat_id == s0.members[a].chat_id);
                assert(s1.members[b].chat_id == s0.members[b].chat_id);
                assert(s1.members[a].user_id == s0.members[a].user_id);
                assert(s1.members[b].user_id == s0.members[b].user_id);
            }
            assert(s1.wf());
        }
        let mut retired = "deleted_".to_owned();
        push_decimal(&mut retired, user_id as u64);
        assert(retired@ == retired_login(user_id));
        let mut j: usize = 0;
        #[verifier::loop_isolation(false)]
        while j < self.users.len()
            invariant
                self@ == s1,
                j <= self.users.len(),
                retired@ == retired_login(user_id),
                forall|k: int|
                    0 <= k < j ==> !(#[trigger] s1.users[k].id != user_id && s1.users[k].login
                        == retired_login(user_id)),
            decreases self.users.len() - j,
        {
            if self.users[j].id != user_id && self.users[j].login == retired {
                assert(s1.users[j as int].id != user_id);
                return Err(AppError::internal("UNIQUE constraint failed: users.login"));
            }
            j = j + 1;
        }
        let users = retire_in(&self.users, user_id, &retired, now);
        proof {
            assert forall|a: int, b: int|
                0 <= a < self.sessions@.len() && 0 <= b < self.sessions@.len() && a != b
                    implies self.sessions@[a].token@ != self.sessions@[b].token@ by {
                assert(s1.sessions[a] == self.sessions@[a]@);
                assert(s1.sessions[b] == self.sessions@[b]@);
            }
        }
        let sessions = drop_sessions_of(&self.sessions, user_id);
        self.users = users;
        self.sessions = sessions;
        proof {
            let s2 = self@;
            assert(s2 == s1.retire_user(user_id, now@));
            assert(s2.user_ids() =~= s1.user_ids());
            assert forall|a: int, b: int|
                0 <= a < s2.users.len() && 0 <= b < s2.users.len() && a != b
                    implies s2.users[a].login != s2.users[b].login by {
                assert(s2.users[a] == retired_by(user_id, now@)(s1.users[a]));
                assert(s2.users[b] == retired_by(user_id, now@)(s1.users[b]));
                if s1.users[a].id == user_id && s1.users[b].id == user_id {
                    s1.lemma_user_ids_unique(a, b);
                }
            }
            assert forall|a: int, b: int|
                0 <= a < s2.sessions.len() && 0 <= b < s2.sessions.len() && a != b
                    implies s2.sessions[a].token != s2.sessions[b].token by {
                assert(s2.sessions[a] == self.sessions@[a]@);
                assert(s2.sessions[b] == self.sessions@[b]@);
            }
        }
        Ok(())
    }
}

} // verus!
