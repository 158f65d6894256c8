//! Properties that hold across the operations of the store.
use vstd::prelude::*;

use crate::accounts::{
    retired_by, block_kept, left_by, read_kept, registration_error, retired_login, touches, untouched_by,
};
use crate::chats::{recent_peers, direct_unread_pred, group_unread_pred, recency_order, time_lt};
use crate::groups::current_member_of;
use crate::listing::{login_order, max_like_pattern_bytes};
use crate::search::{involves, lemma_filter_map_prefix, peer_of, SearchScopeView};
use crate::sorting::{at_most, is_sorted_by, lemma_sort_by_elements, lemma_sort_by_keeps, lemma_sort_by_sorted, sort_by};
use crate::messaging::{block_other_than, upsert_read};
use crate::password::password_matches;
use crate::tables::{
    MemberView, between, count_where, read_keys_unique, read_mark, stored_mark, BlockView, MessageView, ReadView, StoreView,
    UserView,
};
use crate::models::{ChatListItemView, ChatMessageView, MessageSearchResultView, UserResponseView};
use crate::text::{
    contains_pattern, like, lemma_seq_lt_asymmetric, lemma_seq_lt_total, lemma_seq_lt_transitive, seq_lt,
    trimmed, utf8_len,
};

verus! {

/// A user who has just registered can log in: the login finds the new live
/// user, whose stored hash verifies the (trimmed) password.
pub proof fn law_registered_user_can_log_in(
    s: StoreView,
    login: Seq<char>,
    password: Seq<char>,
    hash: Seq<char>,
    now: Seq<char>,
)
    requires
        s.wf(),
        registration_error(login, password) is None,
        s.user_with_login(trimmed(login)) is None,
        s.user_seq < i64::MAX,
        password_matches(trimmed(password), hash),
    ensures
        s.add_user(trimmed(login), hash, now).wf(),
        s.add_user(trimmed(login), hash, now).live_user_with_login(trimmed(login)) == Some(
            UserView {
                id: (s.user_seq + 1) as i64,
                login: trimmed(login),
                password_hash: hash,
                created_at: now,
                deleted_at: None,
            },
        ),
        password_matches(trimmed(password), hash),
{
    let l = trimmed(login);
    let s2 = s.add_user(l, hash, now);
    let n = s.users.len();
    assert(s2.user_ids() =~= s.user_ids().push((s.user_seq + 1) as i64));
    assert forall|i: int, j: int|
        0 <= i < s2.users.len() && 0 <= j < s2.users.len() && i != j implies s2.users[i].login
        != s2.users[j].login by {
        if i == n {
            assert(s2.users[j] == s.users[j]);
        } else if j == n {
            assert(s2.users[i] == s.users[i]);
        } else {
            assert(s2.users[i] == s.users[i] && s2.users[j] == s.users[j]);
        }
    }
    assert(s2.wf());
    s2.lemma_user_with_login_at(n as int);
}

/// A block stops the conversation whichever of the two users set it.
pub proof fn law_block_is_mutual(s: StoreView, a: i64, b: i64)
    ensures
        s.blocked_either_way(a, b) == s.blocked_either_way(b, a),
{
}

/// After `a` blocks `b`, the two cannot talk either way.
pub proof fn law_block_takes_effect(s: StoreView, a: i64, b: i64, now: Seq<char>)
    ensures
        s.add_block(a, b, now).blocks_user(a, b),
        s.add_block(a, b, now).blocked_either_way(a, b),
        s.add_block(a, b, now).blocked_either_way(b, a),
{
    let s2 = s.add_block(a, b, now);
    if !s.blocks_user(a, b) {
        assert(s2.blocks[s.blocks.len() as int].blocker_id == a);
    }
}

/// Unblocking lifts exactly the one block: `a` no longer blocks `b`, and
/// every other block stays as it was.
pub proof fn law_unblock_lifts_one_block(s: StoreView, a: i64, b: i64, x: i64, y: i64)
    ensures
        !s.remove_block(a, b).blocks_user(a, b),
        !(x == a && y == b) ==> s.remove_block(a, b).blocks_user(x, y) == s.blocks_user(x, y),
{
    let p = block_other_than(a, b);
    let f = s.blocks.filter(p);
    broadcast use vstd::seq_lib::group_filter_ensures;
    if s.remove_block(a, b).blocks_user(a, b) {
        let i = choose|i: int| 0 <= i < f.len() && f[i].blocker_id == a && f[i].blocked_id == b;
        assert(p(f[i]));
    }
    if !(x == a && y == b) {
        if s.blocks_user(x, y) {
            let i = choose|i: int|
                0 <= i < s.blocks.len() && s.blocks[i].blocker_id == x && s.blocks[i].blocked_id == y;
            assert(p(s.blocks[i]));
            assert(f.contains(s.blocks[i]));
            let j = choose|j: int| 0 <= j < f.len() && f[j] == s.blocks[i];
            assert(f[j].blocker_id == x && f[j].blocked_id == y);
            assert(s.remove_block(a, b).blocks == f);
            assert(s.remove_block(a, b).blocks_user(x, y));
        }
        if s.remove_block(a, b).blocks_user(x, y) {
            let i = choose|i: int| 0 <= i < f.len() && f[i].blocker_id == x && f[i].blocked_id == y;
            lemma_filter_subset(s.blocks, p, i);
            assert(s.blocks.contains(f[i]));
            let j = choose|j: int| 0 <= j < s.blocks.len() && s.blocks[j] == f[i];
            assert(s.blocks[j].blocker_id == x && s.blocks[j].blocked_id == y);
        }
    }
}

/// Unblocking undoes a block: blocking a user not blocked yet and then
/// unblocking them leaves the blocks as they were.
pub proof fn law_unblock_undoes_block(s: StoreView, a: i64, b: i64, now: Seq<char>)
    requires
        !s.blocks_user(a, b),
    ensures
        s.add_block(a, b, now).remove_block(a, b) == s,
{
    let p = block_other_than(a, b);
    let x = BlockView { blocker_id: a, blocked_id: b, created_at: now };
    reveal_with_fuel(Seq::filter, 1);
    assert(s.blocks.push(x).drop_last() =~= s.blocks);
    assert(s.blocks.push(x).filter(p) == s.blocks.filter(p));
    lemma_filter_keeps_all(s.blocks, p);
    assert(s.add_block(a, b, now).remove_block(a, b) =~= s);
}

/// Every element of a filtered sequence comes from the sequence.
pub proof fn lemma_filter_subset<T>(s: Seq<T>, p: spec_fn(T) -> bool, i: int)
    requires
        0 <= i < s.filter(p).len(),
    ensures
        s.contains(s.filter(p)[i]),
    decreases s.len(),
{
    reveal_with_fuel(Seq::filter, 1);
    let rest = s.drop_last().filter(p);
    if i < rest.len() {
        lemma_filter_subset(s.drop_last(), p, i);
        let j = choose|j: int| 0 <= j < s.drop_last().len() && s.drop_last()[j] == rest[i];
        assert(s[j] == rest[i]);
    } else {
        assert(s[s.len() - 1] == s.filter(p)[i]);
    }
}

proof fn lemma_filter_keeps_all<T>(s: Seq<T>, p: spec_fn(T) -> bool)
    requires
        forall|i: int| 0 <= i < s.len() ==> p(#[trigger] s[i]),
    ensures
        s.filter(p) == s,
    decreases s.len(),
{
    reveal_with_fuel(Seq::filter, 1);
    if s.len() > 0 {
        lemma_filter_keeps_all(s.drop_last(), p);
        assert(p(s[s.len() - 1]));
        assert(s.drop_last().push(s.last()) =~= s);
    }
}

/// A read mark never moves back: after marking (u, p) read up to `id`, a row
/// holds the mark for (u, p), and it is the larger of the old mark and `id`,
/// or `id` where there was none; no other mark changes. Read as a number with
/// 0 for no row, the mark is the larger of the old one and `id` as well,
/// except where no row existed and `id` is negative.
pub proof fn law_read_mark_only_moves_forward(
    r: Seq<ReadView>,
    u: i64,
    p: i64,
    id: i64,
    now: Seq<char>,
    u2: i64,
    p2: i64,
)
    requires
        read_keys_unique(r),
    ensures
        read_keys_unique(upsert_read(r, u, p, id, now)),
        stored_mark(upsert_read(r, u, p, id, now), u, p) == Some(match stored_mark(r, u, p) {
            Some(old) => if old >= id {
                old
            } else {
                id
            },
            None => id,
        }),
        !(u2 == u && p2 == p) ==> stored_mark(upsert_read(r, u, p, id, now), u2, p2) == stored_mark(r, u2, p2),
        (stored_mark(r, u, p) is Some || 0 <= id) ==> read_mark(upsert_read(r, u, p, id, now), u, p) == (
        if read_mark(r, u, p) >= id {
            read_mark(r, u, p)
        } else {
            id
        }),
        !(u2 == u && p2 == p) ==> read_mark(upsert_read(r, u, p, id, now), u2, p2) == read_mark(r, u2, p2),
{
    let r2 = upsert_read(r, u, p, id, now);
    if exists|i: int| 0 <= i < r.len() && r[i].user_id == u && r[i].peer_id == p {
        let i = choose|i: int| 0 <= i < r.len() && r[i].user_id == u && r[i].peer_id == p;
        crate::tables::lemma_read_mark_at(r, i);
        crate::tables::lemma_stored_mark_at(r, i);
        assert(read_keys_unique(r2)) by {
            assert forall|a: int, b: int|
                0 <= a < r2.len() && 0 <= b < r2.len() && a != b implies !(r2[a].user_id
                    == r2[b].user_id && r2[a].peer_id == r2[b].peer_id) by {
                if a != i && b != i {
                    assert(r2[a] == r[a] && r2[b] == r[b]);
                } else if a == i {
                    assert(r2[b] == r[b]);
                } else {
                    assert(r2[a] == r[a]);
                }
            }
        }
        crate::tables::lemma_read_mark_at(r2, i);
        crate::tables::lemma_stored_mark_at(r2, i);
        if !(u2 == u && p2 == p) {
            lemma_read_mark_other(r, r2, u2, p2, i);
        }
    } else {
        let n = r.len() as int;
        assert(r2 == r.push(ReadView { user_id: u, peer_id: p, last_read_message_id: id, updated_at: now }));
        assert(read_keys_unique(r2)) by {
            assert forall|a: int, b: int|
                0 <= a < r2.len() && 0 <= b < r2.len() && a != b implies !(r2[a].user_id
                    == r2[b].user_id && r2[a].peer_id == r2[b].peer_id) by {
                if a != n && b != n {
                    assert(r2[a] == r[a] && r2[b] == r[b]);
                } else if a == n {
                    assert(r2[b] == r[b]);
                } else {
                    assert(r2[a] == r[a]);
                }
            }
        }
        crate::tables::lemma_read_mark_at(r2, n);
        crate::tables::lemma_stored_mark_at(r2, n);
        if !(u2 == u && p2 == p) {
            lemma_read_mark_other(r, r2, u2, p2, n);
        }
    }
}

/// Marks of other keys agree between two tables that differ at one position
/// holding key (u, p) in the second, when that position is new or held the
/// same key in the first.
proof fn lemma_read_mark_other(r: Seq<ReadView>, r2: Seq<ReadView>, u2: i64, p2: i64, i: int)
    requires
        read_keys_unique(r),
        read_keys_unique(r2),
        0 <= i < r2.len(),
        r2.len() == r.len() || r2.len() == r.len() + 1,
        r2.len() == r.len() ==> i < r.len() && r[i].user_id == r2[i].user_id && r[i].peer_id == r2[i].peer_id,
        r2.len() == r.len() + 1 ==> i == r.len(),
        forall|k: int| 0 <= k < r.len() && k != i ==> r2[k] == r[k],
        !(r2[i].user_id == u2 && r2[i].peer_id == p2),
    ensures
        read_mark(r2, u2, p2) == read_mark(r, u2, p2),
        stored_mark(r2, u2, p2) == stored_mark(r, u2, p2),
{
    if exists|k: int| 0 <= k < r.len() && r[k].user_id == u2 && r[k].peer_id == p2 {
        let k = choose|k: int| 0 <= k < r.len() && r[k].user_id == u2 && r[k].peer_id == p2;
        crate::tables::lemma_read_mark_at(r, k);
        crate::tables::lemma_stored_mark_at(r, k);
        assert(k != i);
        assert(r2[k] == r[k]);
        crate::tables::lemma_read_mark_at(r2, k);
        crate::tables::lemma_stored_mark_at(r2, k);
    } else {
        if exists|k: int| 0 <= k < r2.len() && r2[k].user_id == u2 && r2[k].peer_id == p2 {
            let k = choose|k: int| 0 <= k < r2.len() && r2[k].user_id == u2 && r2[k].peer_id == p2;
            assert(k != i);
            assert(r2[k] == r[k]);
        }
    }
}

/// A deleted account cannot log in again: its old login, however it is
/// padded with white space, names no live user, and none of its sessions is
/// left.
pub proof fn law_deleted_account_is_gone(
    s: StoreView,
    u: i64,
    now: Seq<char>,
    token: Seq<char>,
    login: Seq<char>,
)
    requires
        s.wf(),
        s.is_live(u),
        !s.retired_login_taken(u),
    ensures
        trimmed(login) == s.find_user(u)->0.login ==> s.erase_user_data(u, now).retire_user(
            u,
            now,
        ).live_user_with_login(trimmed(login)) is None,
        s.erase_user_data(u, now).retire_user(u, now).session_user(token) != Some(u),
        !s.erase_user_data(u, now).retire_user(u, now).is_live(u),
{
    let s1 = s.erase_user_data(u, now);
    let s2 = s1.retire_user(u, now);
    let i = choose|i: int| 0 <= i < s.users.len() && s.users[i].id == u;
    s.lemma_find_user_at(i);
    let l = s.users[i].login;
    assert(s2.users[i].id == u);
    assert(s2.users[i].deleted_at is Some);
    if s2.user_with_login(l) is Some {
        let j = choose|j: int| 0 <= j < s2.users.len() && s2.users[j].login == l;
        if s.users[j].id == u {
            s.lemma_user_ids_unique(i, j);
        } else {
            assert(s2.users[j] == s.users[j]);
            assert(i != j);
        }
    }
    let ss = s2.sessions;
    broadcast use vstd::seq_lib::group_filter_ensures;
    if s2.session_user(token) == Some(u) {
        let k = choose|k: int| 0 <= k < ss.len() && ss[k].token == token;
        assert(crate::accounts::session_kept(u)(ss[k]));
    }
    if s2.is_live(u) {
        let j = choose|j: int| 0 <= j < s2.users.len() && s2.users[j].id == u;
        assert(s2.users[j].id == s.users[j].id);
        s.lemma_user_ids_unique(i, j);
    }
}

/// In a sequence of messages with increasing ids, a message that `f` keeps
/// is no newer than the last message kept.
proof fn lemma_last_kept_is_newest(
    ms: Seq<MessageView>,
    f: spec_fn(MessageView) -> Option<ChatMessageView>,
    k: int,
)
    requires
        forall|a: int, b: int| 0 <= a < b < ms.len() ==> ms[a].id < ms[b].id,
        forall|m: MessageView| #[trigger] f(m) is Some ==> f(m)->0.id == m.id,
        0 <= k < ms.len(),
        f(ms[k]) is Some,
    ensures
        ms.filter_map(f).len() > 0,
        ms.filter_map(f).last().id >= ms[k].id,
    decreases ms.len(),
{
    let last = ms.len() - 1;
    if f(ms[last]) is Some {
        assert(ms.filter_map(f) == ms.drop_last().filter_map(f) + seq![f(ms.last())->0]);
        if k < last {
            assert(ms[k].id < ms[last].id);
        }
    } else {
        assert(k < last);
        assert(ms.filter_map(f) == ms.drop_last().filter_map(f));
        lemma_last_kept_is_newest(ms.drop_last(), f, k);
    }
}

proof fn lemma_count_none<T>(s: Seq<T>, p: spec_fn(T) -> bool)
    requires
        forall|i: int| 0 <= i < s.len() ==> !p(#[trigger] s[i]),
    ensures
        count_where(s, p) == 0,
    decreases s.len(),
{
    if s.len() > 0 {
        assert(!p(s[s.len() - 1]));
        lemma_count_none(s.drop_last(), p);
    }
}

/// Reading a direct conversation clears its unread counter: once `u` has
/// read the conversation with `t`, no message from `t` counts as unread.
pub proof fn law_reading_clears_unread(s: StoreView, u: i64, t: i64, now: Seq<char>)
    requires
        s.wf(),
        s.find_user(t) is Some,
    ensures
        ({
            let s2 = s.read_direct(u, t, now);
            count_where(s2.messages, direct_unread_pred(u, t, s2.direct_read_mark(u, t))) == 0
        }),
{
    let s2 = s.read_direct(u, t, now);
    let ms = s.messages;
    let f = s.direct_entry(u, t);
    let h = s.direct_history(u, t);
    assert forall|a: int, b: int| 0 <= a < b < ms.len() implies ms[a].id < ms[b].id by {
        assert(s.message_ids()[a] == ms[a].id);
        assert(s.message_ids()[b] == ms[b].id);
    }
    assert forall|m: MessageView| #[trigger] f(m) is Some implies f(m)->0.id == m.id by {}
    let mark = s2.direct_read_mark(u, t);
    assert forall|k: int| 0 <= k < ms.len() implies !(#[trigger] direct_unread_pred(u, t, mark)(ms[k])) by {
        let m = ms[k];
        if direct_unread_pred(u, t, mark)(m) {
            assert(between(m, u, t));
            assert(f(m) is Some);
            lemma_last_kept_is_newest(ms, f, k);
            assert(m.id >= 1) by {
                assert(s.message_ids()[k] == m.id);
            }
            law_read_mark_only_moves_forward(s.direct_reads, u, t, h.last().id, now, u, t);
            assert(h.last().id >= 1);
        }
    }
    assert(s2.messages == ms);
    lemma_count_none(ms, direct_unread_pred(u, t, mark));
}

proof fn lemma_add_member_keeps(s: StoreView, c: i64, v: i64, now: Seq<char>, u: i64, c2: i64)
    requires
        s.is_member(u, c2),
    ensures
        s.add_member(c, v, now).is_member(u, c2),
{
    if !s.has_member_row(c, v) {
        let i = choose|i: int|
            0 <= i < s.members.len() && s.members[i].chat_id == c2 && s.members[i].user_id == u
                && s.members[i].left_at is None;
        assert(s.add_member(c, v, now).members[i] == s.members[i]);
    }
}

proof fn lemma_add_members_keeps(s: StoreView, c: i64, ids: Seq<i64>, now: Seq<char>, u: i64, c2: i64)
    requires
        s.is_member(u, c2),
    ensures
        s.add_members(c, ids, now).is_member(u, c2),
    decreases ids.len(),
{
    if ids.len() > 0 {
        lemma_add_members_keeps(s, c, ids.drop_last(), now, u, c2);
        lemma_add_member_keeps(s.add_members(c, ids.drop_last(), now), c, ids.last(), now, u, c2);
    }
}

proof fn lemma_add_members_concat(s: StoreView, c: i64, a: Seq<i64>, b: Seq<i64>, now: Seq<char>)
    ensures
        s.add_members(c, a + b, now) == s.add_members(c, a, now).add_members(c, b, now),
    decreases b.len(),
{
    if b.len() == 0 {
        assert(a + b =~= a);
    } else {
        lemma_add_members_concat(s, c, a, b.drop_last(), now);
        assert((a + b).drop_last() =~= a + b.drop_last());
        assert((a + b).last() == b.last());
    }
}

/// The creator of a group is one of its members.
pub proof fn law_creator_is_member(
    s: StoreView,
    creator: i64,
    title: Seq<char>,
    logins: Seq<Seq<char>>,
    now: Seq<char>,
)
    requires
        s.chat_seq < i64::MAX,
        !s.has_member_row((s.chat_seq + 1) as i64, creator),
    ensures
        s.create_group(creator, title, logins, now).is_member(creator, (s.chat_seq + 1) as i64),
{
    let c = (s.chat_seq + 1) as i64;
    let s1 = s.add_chat(title, creator, now);
    let rest = s.group_candidates(creator, logins);
    lemma_add_members_concat(s1, c, seq![creator], rest, now);
    assert(seq![creator].drop_last() =~= Seq::<i64>::empty());
    let s2 = s1.add_members(c, seq![creator], now);
    assert(s1.add_members(c, Seq::<i64>::empty(), now) == s1);
    assert(s2 == s1.add_member(c, creator, now));
    assert(!s1.has_member_row(c, creator));
    assert(s2.members[s1.members.len() as int].user_id == creator);
    assert(s2.is_member(creator, c));
    lemma_add_members_keeps(s2, c, rest, now, creator, c);
}

/// No read receipts: what a user's chat list shows does not depend on how
/// far other users have read. Two stores that differ only in read marks,
/// and agree on the marks of `u`, give `u` the same chat list.
pub proof fn law_no_read_receipts(s1: StoreView, s2: StoreView, u: i64)
    requires
        s1.users == s2.users,
        s1.messages == s2.messages,
        s1.blocks == s2.blocks,
        s1.chats == s2.chats,
        s1.members == s2.members,
        forall|p: i64| #[trigger] s1.direct_read_mark(u, p) == s2.direct_read_mark(u, p),
        forall|c: i64| #[trigger] s1.group_read_mark(u, c) == s2.group_read_mark(u, c),
    ensures
        s1.active_chats(u) == s2.active_chats(u),
{
    assert forall|p: Option<i64>| #[trigger] s1.direct_item(u)(p) == s2.direct_item(u)(p) by {
        if p is Some {
            assert(s1.direct_read_mark(u, p->0) == s2.direct_read_mark(u, p->0));
        }
    }
    assert(s1.direct_item(u) =~= s2.direct_item(u));
    assert forall|c: crate::tables::ChatView| #[trigger] s1.group_item(u)(c) == s2.group_item(u)(c) by {
        assert(s1.group_read_mark(u, c.id) == s2.group_read_mark(u, c.id));
    }
    assert(s1.group_item(u) =~= s2.group_item(u));
    assert(s1.direct_items(u) == s2.direct_items(u));
    assert(s1.group_items(u) == s2.group_items(u));
}

/// `seq_lt(a, c)` puts any `b` after `a` or before `c`.
proof fn lemma_seq_lt_split(a: Seq<char>, b: Seq<char>, c: Seq<char>)
    requires
        seq_lt(a, c),
    ensures
        seq_lt(a, b) || seq_lt(b, c),
{
    lemma_seq_lt_total(a, b);
    if seq_lt(b, a) {
        lemma_seq_lt_transitive(b, a, c);
    }
}

proof fn lemma_time_lt_split(a: Option<Seq<char>>, b: Option<Seq<char>>, c: Option<Seq<char>>)
    requires
        time_lt(a, c),
    ensures
        time_lt(a, b) || time_lt(b, c),
{
    match (a, b, c) {
        (Some(x), Some(y), Some(z)) => lemma_seq_lt_split(x, y, z),
        _ => {},
    }
}

proof fn lemma_time_lt_asymmetric(a: Option<Seq<char>>, b: Option<Seq<char>>)
    requires
        time_lt(a, b),
    ensures
        !time_lt(b, a),
{
    match (a, b) {
        (Some(x), Some(y)) => lemma_seq_lt_asymmetric(x, y),
        _ => {},
    }
}

/// The chat list comes with the latest conversation first: along the list,
/// the times of the last messages never increase.
pub proof fn law_chat_list_latest_first(s: StoreView, u: i64)
    ensures
        is_sorted_by(s.active_chats(u), recency_order()),
        forall|a: int, b: int|
            0 <= a < b < s.active_chats(u).len() ==> !time_lt(
                #[trigger] s.active_chats(u)[a].last_message_at,
                #[trigger] s.active_chats(u)[b].last_message_at,
            ),
{
    let before = recency_order();
    assert forall|a: ChatListItemView, b: ChatListItemView| #[trigger] before(a, b) || before(b, a) by {
        if time_lt(a.last_message_at, b.last_message_at) {
            lemma_time_lt_asymmetric(a.last_message_at, b.last_message_at);
        }
    }
    assert forall|a: ChatListItemView, b: ChatListItemView, c: ChatListItemView|
        #![trigger before(a, b), before(b, c)]
        before(a, b) && before(b, c) implies before(a, c) by {
        if time_lt(a.last_message_at, c.last_message_at) {
            lemma_time_lt_split(a.last_message_at, b.last_message_at, c.last_message_at);
        }
    }
    lemma_sort_by_sorted(s.direct_items(u) + s.group_items(u), before);
    let l = s.active_chats(u);
    assert forall|a: int, b: int| 0 <= a < b < l.len() implies !time_lt(
        #[trigger] l[a].last_message_at,
        #[trigger] l[b].last_message_at,
    ) by {
        assert(before(l[a], l[b]));
    }
}

/// Users found by a search come in login order.
pub proof fn law_user_search_in_login_order(s: StoreView, login: Seq<char>, me: i64)
    ensures
        is_sorted_by(s.search_users(login, me), login_order()),
        s.search_users(login, me).len() <= 20,
{
    let before = login_order();
    assert forall|a: UserResponseView, b: UserResponseView| #[trigger] before(a, b) || before(b, a) by {
        if seq_lt(b.login, a.login) {
            lemma_seq_lt_asymmetric(b.login, a.login);
        }
    }
    assert forall|a: UserResponseView, b: UserResponseView, c: UserResponseView|
        #![trigger before(a, b), before(b, c)]
        before(a, b) && before(b, c) implies before(a, c) by {
        if seq_lt(c.login, a.login) {
            lemma_seq_lt_split(c.login, b.login, a.login);
        }
    }
    let q = trimmed(login);
    if !(utf8_len(q) + 2 > max_like_pattern_bytes()) {
        let all = sort_by(s.users.filter_map(s.user_hit(contains_pattern(q), me)), before);
        lemma_sort_by_sorted(s.users.filter_map(s.user_hit(contains_pattern(q), me)), before);
        let r = at_most(all, 20);
        assert forall|a: int, b: int| 0 <= a < b < r.len() implies before(#[trigger] r[a], #[trigger] r[b]) by {
            assert(r[a] == all[a] && r[b] == all[b]);
        }
    }
}

/// A message search answers at most 100 results.
pub proof fn law_search_is_bounded(s: StoreView, u: i64, pattern: Seq<char>, scope: SearchScopeView)
    ensures
        s.search_results(u, pattern, scope).len() <= 100,
{
}

/// What is sent is what is read back: once a direct message from `a` to `b`
/// is stored, the conversation, as either of the two reads it, is what it was
/// followed by that message; no other conversation changes.
pub proof fn law_direct_message_is_read_back(
    s: StoreView,
    a: i64,
    b: i64,
    text: Seq<char>,
    now: Seq<char>,
    x: i64,
    y: i64,
    c: i64,
)
    requires
        s.find_user(a) is Some,
    ensures
        ({
            let s2 = s.add_message(a, Some(b), None, text, now);
            let m = s2.with_sender(s2.messages.last());
            &&& m is Some
            &&& m->0.sender_id == a && m->0.receiver_id == Some(b) && m->0.chat_id is None
            &&& m->0.text == text && m->0.timestamp == now
            &&& s2.direct_history(a, b) == s.direct_history(a, b).push(m->0)
            &&& s2.direct_history(b, a) == s.direct_history(b, a).push(m->0)
            &&& !((x == a && y == b) || (x == b && y == a)) ==> s2.direct_history(x, y)
                == s.direct_history(x, y)
            &&& s2.group_history(c) == s.group_history(c)
        }),
{
    let s2 = s.add_message(a, Some(b), None, text, now);
    assert(s2.messages.drop_last() =~= s.messages);
    assert(s2.direct_entry(a, b) =~= s.direct_entry(a, b));
    assert(s2.direct_entry(b, a) =~= s.direct_entry(b, a));
    assert(s2.direct_entry(x, y) =~= s.direct_entry(x, y));
    assert(s2.group_entry(c) =~= s.group_entry(c));
}

/// The same for a group chat: once a message to chat `c` is stored, the
/// chat's history is what it was followed by that message; no other
/// conversation changes.
pub proof fn law_group_message_is_read_back(
    s: StoreView,
    a: i64,
    c: i64,
    text: Seq<char>,
    now: Seq<char>,
    x: i64,
    y: i64,
    d: i64,
)
    requires
        s.find_user(a) is Some,
    ensures
        ({
            let s2 = s.add_message(a, None, Some(c), text, now);
            let m = s2.with_sender(s2.messages.last());
            &&& m is Some
            &&& m->0.sender_id == a && m->0.receiver_id is None && m->0.chat_id == Some(c)
            &&& m->0.text == text && m->0.timestamp == now
            &&& s2.group_history(c) == s.group_history(c).push(m->0)
            &&& d != c ==> s2.group_history(d) == s.group_history(d)
            &&& s2.direct_history(x, y) == s.direct_history(x, y)
        }),
{
    let s2 = s.add_message(a, None, Some(c), text, now);
    assert(s2.messages.drop_last() =~= s.messages);
    assert(s2.group_entry(c) =~= s.group_entry(c));
    assert(s2.group_entry(d) =~= s.group_entry(d));
    assert(s2.direct_entry(x, y) =~= s.direct_entry(x, y));
}

/// Blocking twice is blocking once: a second block of the same user changes
/// nothing, not even the time the block was set.
pub proof fn law_block_is_idempotent(s: StoreView, a: i64, b: i64, first: Seq<char>, second: Seq<char>)
    ensures
        s.add_block(a, b, first).add_block(a, b, second) == s.add_block(a, b, first),
{
    law_block_takes_effect(s, a, b, first);
}

/// A message search finds only what the user may read: each result is a
/// stored message whose text matches, answered with its sender's login, and
/// it belongs to the searched group chat, to the searched conversation, or,
/// when searching everywhere, to a direct conversation of the user or to a
/// group chat the user is a current member of.
pub proof fn law_search_finds_only_readable_messages(
    s: StoreView,
    u: i64,
    pattern: Seq<char>,
    scope: SearchScopeView,
    r: MessageSearchResultView,
)
    requires
        s.search_results(u, pattern, scope).contains(r),
    ensures
        exists|m: MessageView|
            #![trigger s.messages.contains(m)]
            {
                &&& s.messages.contains(m)
                &&& like(pattern, m.text)
                &&& s.with_sender(m) == Some(r.message)
                &&& match scope {
                    SearchScopeView::Group { chat_id, title } => m.chat_id == Some(chat_id),
                    SearchScopeView::Direct { target_id, title } => between(m, u, target_id),
                    SearchScopeView::Everywhere => {
                        ||| involves(m, u)
                        ||| (m.chat_id matches Some(c) && s.is_member(u, c))
                    },
                }
            },
{
    let f = s.search_hit(u, pattern, scope);
    let rev = s.messages.reverse();
    let all = rev.filter_map(f);
    if all.len() > 100 {
        let i = choose|i: int| 0 <= i < all.take(100).len() && all.take(100)[i] == r;
        assert(all[i] == r);
    }
    assert(all.contains(r));
    rev.lemma_filter_map_contains(f, r);
    let t = choose|t: MessageView| #[trigger] rev.contains(t) && f(t) == Some(r);
    let k = choose|k: int| 0 <= k < rev.len() && rev[k] == t;
    assert(s.messages[s.messages.len() - 1 - k] == t);
    assert(s.messages.contains(t));
}

/// A user search never answers the searching user, a deleted account, or a
/// user with a block between the two; each answer is a live user whose login
/// matches the query.
pub proof fn law_user_search_finds_only_reachable_users(
    s: StoreView,
    login: Seq<char>,
    me: i64,
    r: UserResponseView,
)
    requires
        s.wf(),
        s.search_users(login, me).contains(r),
    ensures
        r.user_id != me,
        s.is_live(r.user_id),
        s.find_user(r.user_id)->0.login == r.login,
        !s.blocked_either_way(me, r.user_id),
        like(contains_pattern(trimmed(login)), r.login),
{
    let q = trimmed(login);
    let f = s.user_hit(contains_pattern(q), me);
    let found = s.users.filter_map(f);
    let sorted = sort_by(found, login_order());
    if sorted.len() > 20 {
        let i = choose|i: int| 0 <= i < sorted.take(20).len() && sorted.take(20)[i] == r;
        assert(sorted[i] == r);
    }
    assert(sorted.contains(r));
    lemma_sort_by_elements(found, login_order(), r);
    s.users.lemma_filter_map_contains(f, r);
    let u = choose|u: UserView| #[trigger] s.users.contains(u) && f(u) == Some(r);
    let i = choose|i: int| 0 <= i < s.users.len() && s.users[i] == u;
    s.lemma_find_user_at(i);
}

/// Deleting an account leaves no trace of the user's conversations: no
/// message sent to or by the user is left, the user is in no group chat, no
/// block involves the user, and no read mark of or about the user is kept.
/// This holds as soon as the data is erased, also when renaming the account
/// then fails.
pub proof fn law_deleted_account_leaves_no_trace(s: StoreView, u: i64, now: Seq<char>, c: i64, x: i64)
    ensures
        ({
            let s1 = s.erase_user_data(u, now);
            &&& forall|k: int| 0 <= k < s1.messages.len() ==> !touches(#[trigger] s1.messages[k], u)
            &&& !s1.is_member(u, c)
            &&& !s1.blocked_either_way(u, x)
            &&& s1.direct_read_mark(u, x) == 0
            &&& s1.direct_read_mark(x, u) == 0
            &&& s1.group_read_mark(u, c) == 0
        }),
{
    let s1 = s.erase_user_data(u, now);
    broadcast use vstd::seq_lib::group_filter_ensures;
    assert forall|k: int| 0 <= k < s1.messages.len() implies !touches(#[trigger] s1.messages[k], u) by {
        assert(untouched_by(u)(s1.messages[k]));
    }
    if s1.is_member(u, c) {
        let i = choose|i: int|
            0 <= i < s1.members.len() && s1.members[i].chat_id == c && s1.members[i].user_id == u
                && s1.members[i].left_at is None;
        assert(s1.members[i] == left_by(u, now)(s.members[i]));
    }
    if s1.blocks_user(u, x) {
        let i = choose|i: int| 0 <= i < s1.blocks.len() && s1.blocks[i].blocker_id == u && s1.blocks[i].blocked_id == x;
        assert(block_kept(u)(s1.blocks[i]));
    }
    if s1.blocks_user(x, u) {
        let i = choose|i: int| 0 <= i < s1.blocks.len() && s1.blocks[i].blocker_id == x && s1.blocks[i].blocked_id == u;
        assert(block_kept(u)(s1.blocks[i]));
    }
    let d = s1.direct_reads;
    if exists|i: int| 0 <= i < d.len() && d[i].user_id == u && d[i].peer_id == x {
        let i = choose|i: int| 0 <= i < d.len() && d[i].user_id == u && d[i].peer_id == x;
        assert(read_kept(u, true)(d[i]));
    }
    if exists|i: int| 0 <= i < d.len() && d[i].user_id == x && d[i].peer_id == u {
        let i = choose|i: int| 0 <= i < d.len() && d[i].user_id == x && d[i].peer_id == u;
        assert(read_kept(u, true)(d[i]));
    }
    let g = s1.group_reads;
    if exists|i: int| 0 <= i < g.len() && g[i].user_id == u && g[i].peer_id == c {
        let i = choose|i: int| 0 <= i < g.len() && g[i].user_id == u && g[i].peer_id == c;
        assert(read_kept(u, false)(g[i]));
    }
}

/// A session token authenticates the user it was opened for, and opening it
/// changes nothing about what any other token authenticates.
pub proof fn law_session_authenticates_its_user(s: StoreView, u: i64, token: Seq<char>, other: Seq<char>)
    requires
        s.wf(),
        s.session_user(token) is None,
    ensures
        s.add_session(u, token).session_user(token) == Some(u),
        other != token ==> s.add_session(u, token).session_user(other) == s.session_user(other),
{
    let s2 = s.add_session(u, token);
    let n = s.sessions.len();
    assert(s2.sessions[n as int].token == token);
    let j = choose|j: int| 0 <= j < s2.sessions.len() && s2.sessions[j].token == token;
    if j < n {
        assert(s.sessions[j].token == token);
    }
    if other != token {
        if exists|i: int| 0 <= i < s.sessions.len() && s.sessions[i].token == other {
            let i = choose|i: int| 0 <= i < s.sessions.len() && s.sessions[i].token == other;
            assert(s2.sessions[i] == s.sessions[i]);
            let k = choose|k: int| 0 <= k < s2.sessions.len() && s2.sessions[k].token == other;
            assert(k < n);
            assert(s2.sessions[k] == s.sessions[k]);
            if k != i {
                assert(s.sessions[k].token == s.sessions[i].token);
            }
        } else {
            if exists|k: int| 0 <= k < s2.sessions.len() && s2.sessions[k].token == other {
                let k = choose|k: int| 0 <= k < s2.sessions.len() && s2.sessions[k].token == other;
                assert(k < n);
                assert(s.sessions[k] == s2.sessions[k]);
            }
        }
    }
}

/// Reading a group chat clears its unread counter: once `u` has read chat
/// `c`, no message of the chat counts as unread for `u`. The messages of the
/// chat are taken to have their senders in the users table, as the foreign
/// key on the sender guarantees.
pub proof fn law_reading_group_clears_unread(s: StoreView, u: i64, c: i64, now: Seq<char>)
    requires
        s.wf(),
        forall|k: int|
            0 <= k < s.messages.len() && s.messages[k].chat_id == Some(c) ==> s.find_user(
                #[trigger] s.messages[k].sender_id,
            ) is Some,
    ensures
        ({
            let s2 = s.read_group(u, c, now);
            count_where(s2.messages, group_unread_pred(u, c, s2.group_read_mark(u, c))) == 0
        }),
{
    let s2 = s.read_group(u, c, now);
    let ms = s.messages;
    let f = s.group_entry(c);
    let h = s.group_history(c);
    assert forall|a: int, b: int| 0 <= a < b < ms.len() implies ms[a].id < ms[b].id by {
        assert(s.message_ids()[a] == ms[a].id);
        assert(s.message_ids()[b] == ms[b].id);
    }
    assert forall|m: MessageView| #[trigger] f(m) is Some implies f(m)->0.id == m.id by {}
    let mark = s2.group_read_mark(u, c);
    assert forall|k: int| 0 <= k < ms.len() implies !(#[trigger] group_unread_pred(u, c, mark)(ms[k])) by {
        let m = ms[k];
        if group_unread_pred(u, c, mark)(m) {
            assert(s.find_user(ms[k].sender_id) is Some);
            assert(f(m) is Some);
            lemma_last_kept_is_newest(ms, f, k);
            assert(m.id >= 1) by {
                assert(s.message_ids()[k] == m.id);
            }
            law_read_mark_only_moves_forward(s.group_reads, u, c, h.last().id, now, u, c);
            assert(h.last().id >= 1);
        }
    }
    assert(s2.messages == ms);
    lemma_count_none(ms, group_unread_pred(u, c, mark));
}

/// Membership rows with distinct (chat, user) pairs list each current member
/// of chat `c` once, and only those.
proof fn lemma_member_ids(ms: Seq<MemberView>, c: i64, x: i64)
    requires
        forall|i: int, j: int|
            #![trigger ms[i], ms[j]]
            0 <= i < ms.len() && 0 <= j < ms.len() && i != j ==> !(ms[i].chat_id == ms[j].chat_id
                && ms[i].user_id == ms[j].user_id),
    ensures
        ms.filter_map(current_member_of(c)).no_duplicates(),
        ms.filter_map(current_member_of(c)).contains(x) <==> exists|i: int|
            0 <= i < ms.len() && ms[i].chat_id == c && ms[i].user_id == x && ms[i].left_at is None,
    decreases ms.len(),
{
    let f = current_member_of(c);
    if ms.len() > 0 {
        let rest = ms.drop_last();
        let n = ms.len() - 1;
        let last = ms.last();
        assert forall|i: int, j: int|
            #![trigger rest[i], rest[j]]
            0 <= i < rest.len() && 0 <= j < rest.len() && i != j implies !(rest[i].chat_id
                == rest[j].chat_id && rest[i].user_id == rest[j].user_id) by {
            assert(rest[i] == ms[i] && rest[j] == ms[j]);
        }
        lemma_member_ids(rest, c, x);
        let fr = rest.filter_map(f);
        let fm = ms.filter_map(f);
        if f(last) is Some {
            let y = last.user_id;
            lemma_member_ids(rest, c, y);
            assert(fm == fr + seq![y]);
            if fr.contains(y) {
                let i = choose|i: int|
                    0 <= i < rest.len() && rest[i].chat_id == c && rest[i].user_id == y
                        && rest[i].left_at is None;
                assert(ms[i] == rest[i]);
                assert(i != n);
                assert(false);
            }
            assert forall|a: int, b: int| 0 <= a < fm.len() && 0 <= b < fm.len() && a != b implies fm[a]
                != fm[b] by {
                if a == fr.len() {
                    assert(fr.contains(fm[b]));
                } else if b == fr.len() {
                    assert(fr.contains(fm[a]));
                } else {
                    assert(fm[a] == fr[a] && fm[b] == fr[b]);
                }
            }
            if fm.contains(x) {
                let k = choose|k: int| 0 <= k < fm.len() && fm[k] == x;
                if k < fr.len() {
                    assert(fr.contains(x));
                    let i = choose|i: int|
                        0 <= i < rest.len() && rest[i].chat_id == c && rest[i].user_id == x
                            && rest[i].left_at is None;
                    assert(ms[i] == rest[i]);
                }
            }
            if exists|i: int|
                0 <= i < ms.len() && ms[i].chat_id == c && ms[i].user_id == x && ms[i].left_at is None {
                let i = choose|i: int|
                    0 <= i < ms.len() && ms[i].chat_id == c && ms[i].user_id == x && ms[i].left_at is None;
                if i < n {
                    assert(rest[i] == ms[i]);
                    assert(fr.contains(x));
                    let k = choose|k: int| 0 <= k < fr.len() && fr[k] == x;
                    assert(fm[k] == x);
                } else {
                    assert(fm[fr.len() as int] == x);
                }
            }
        } else {
            assert(fm == fr);
            if exists|i: int|
                0 <= i < ms.len() && ms[i].chat_id == c && ms[i].user_id == x && ms[i].left_at is None {
                let i = choose|i: int|
                    0 <= i < ms.len() && ms[i].chat_id == c && ms[i].user_id == x && ms[i].left_at is None;
                assert(i != n);
                assert(rest[i] == ms[i]);
            }
            if fr.contains(x) {
                let i = choose|i: int|
                    0 <= i < rest.len() && rest[i].chat_id == c && rest[i].user_id == x
                        && rest[i].left_at is None;
                assert(ms[i] == rest[i]);
            }
        }
    }
}

/// The member list of a group chat names each current member exactly once:
/// it has no duplicates, and a user is on it exactly when the user is a
/// current member of the chat.
pub proof fn law_member_ids_are_the_current_members(s: StoreView, c: i64, x: i64)
    requires
        s.wf(),
    ensures
        s.member_ids(c).no_duplicates(),
        s.member_ids(c).contains(x) <==> s.is_member(x, c),
{
    lemma_member_ids(s.members, c, x);
}

/// A deleted account cannot be reached again: whatever login is given, the
/// login finds no live user with the deleted account's id, and no user search
/// answers that id.
pub proof fn law_deleted_account_is_unreachable(
    s: StoreView,
    u: i64,
    now: Seq<char>,
    login: Seq<char>,
    query: Seq<char>,
    me: i64,
    r: UserResponseView,
)
    ensures
        ({
            let s2 = s.erase_user_data(u, now).retire_user(u, now);
            &&& s2.live_user_with_login(trimmed(login)) matches Some(v) ==> v.id != u
            &&& s2.search_users(query, me).contains(r) ==> r.user_id != u
        }),
{
    let s1 = s.erase_user_data(u, now);
    let s2 = s1.retire_user(u, now);
    assert forall|j: int| 0 <= j < s2.users.len() && #[trigger] s2.users[j].id == u implies s2.users[j].deleted_at
        is Some by {
        assert(s2.users[j] == retired_by(u, now)(s1.users[j]));
    }
    let l = trimmed(login);
    if s2.user_with_login(l) is Some {
        let j = choose|j: int| 0 <= j < s2.users.len() && s2.users[j].login == l;
        if s2.users[j].id == u {
            assert(s2.users[j].deleted_at is Some);
        }
    }
    if s2.search_users(query, me).contains(r) {
        let q = trimmed(query);
        let f = s2.user_hit(contains_pattern(q), me);
        let found = s2.users.filter_map(f);
        let sorted = sort_by(found, login_order());
        if sorted.len() > 20 {
            let i = choose|i: int| 0 <= i < sorted.take(20).len() && sorted.take(20)[i] == r;
            assert(sorted[i] == r);
        }
        assert(sorted.contains(r));
        lemma_sort_by_elements(found, login_order(), r);
        s2.users.lemma_filter_map_contains(f, r);
        let v = choose|v: UserView| #[trigger] s2.users.contains(v) && f(v) == Some(r);
        let j = choose|j: int| 0 <= j < s2.users.len() && s2.users[j] == v;
        if v.id == u {
            assert(s2.users[j].deleted_at is Some);
        }
    }
}

/// A filter-map keeps the image of every element it maps.
proof fn lemma_filter_map_keeps<A, B>(s: Seq<A>, f: spec_fn(A) -> Option<B>, i: int)
    requires
        0 <= i < s.len(),
        f(s[i]) is Some,
    ensures
        s.filter_map(f).contains(f(s[i])->0),
    decreases s.len(),
{
    let rest = s.drop_last();
    let fr = rest.filter_map(f);
    let fm = s.filter_map(f);
    if i == s.len() - 1 {
        assert(fm == fr + seq![f(s[i])->0]);
        assert(fm[fr.len() as int] == f(s[i])->0);
    } else {
        assert(rest[i] == s[i]);
        lemma_filter_map_keeps(rest, f, i);
        let q = choose|q: int| 0 <= q < fr.len() && fr[q] == f(s[i])->0;
        if f(s.last()) is Some {
            assert(fm == fr + seq![f(s.last())->0]);
            assert(fm[q] == fr[q]);
        } else {
            assert(fm == fr);
        }
    }
}

/// Deleting an account removes exactly the messages the user sent or
/// received: every other message stays, and nothing else is left.
pub proof fn law_deleting_an_account_keeps_other_messages(s: StoreView, u: i64, now: Seq<char>, k: int)
    requires
        0 <= k < s.messages.len(),
    ensures
        ({
            let kept = s.erase_user_data(u, now).retire_user(u, now).messages;
            let m = s.messages[k];
            &&& !(m.sender_id == u || m.receiver_id == Some(u)) ==> kept.contains(m)
            &&& forall|i: int|
                0 <= i < kept.len() ==> s.messages.contains(#[trigger] kept[i]) && kept[i].sender_id != u
                    && kept[i].receiver_id != Some(u)
        }),
{
    broadcast use vstd::seq_lib::group_filter_ensures;
    let kept = s.erase_user_data(u, now).retire_user(u, now).messages;
    assert(kept == s.messages.filter(untouched_by(u)));
    assert forall|i: int| 0 <= i < kept.len() implies s.messages.contains(#[trigger] kept[i])
        && kept[i].sender_id != u && kept[i].receiver_id != Some(u) by {
        assert(untouched_by(u)(kept[i]));
        assert(kept.contains(kept[i]));
        s.messages.lemma_filter_contains_rev(untouched_by(u), kept[i]);
    }
}

/// Every conversation shows in the chat list: when `u` has sent a direct
/// message to `p` or received one from `p`, `p` being a live user with no
/// block between the two, the chat list of `u` has a direct entry for `p`.
pub proof fn law_chat_list_holds_every_conversation(s: StoreView, u: i64, p: i64, k: int)
    requires
        0 <= k < s.messages.len(),
        s.messages[k].chat_id is None,
        (s.messages[k].sender_id == u && s.messages[k].receiver_id == Some(p)) || (s.messages[k].sender_id
            == p && s.messages[k].receiver_id == Some(u)),
        s.is_live(p),
        !s.blocks_user(u, p),
        !s.blocks_user(p, u),
    ensures
        exists|i: int|
            0 <= i < s.active_chats(u).len() && (#[trigger] s.active_chats(u)[i]).user_id == Some(p)
                && s.active_chats(u)[i].chat_type == "direct"@,
{
    let ms = s.messages;
    let rev = ms.reverse();
    let j = ms.len() - 1 - k;
    assert(rev[j] == ms[k]);
    assert(involves(rev[j], u) && peer_of(rev[j], u) == Some(p));
    lemma_recent_peers_has(rev, u, p, j);
    let peers = recent_peers(rev, u);
    let q = choose|q: int| 0 <= q < peers.len() && peers[q] == Some(p);
    let f = s.direct_item(u);
    assert(f(peers[q]) is Some);
    lemma_filter_map_keeps(peers, f, q);
    let x = f(peers[q])->0;
    let d = s.direct_items(u);
    let all = d + s.group_items(u);
    let i0 = choose|i: int| 0 <= i < d.len() && d[i] == x;
    assert(all[i0] == x);
    lemma_sort_by_keeps(all, recency_order(), x);
    let l = s.active_chats(u);
    let i = choose|i: int| 0 <= i < l.len() && l[i] == x;
    assert(l[i].user_id == Some(p));
}

/// `recent_peers` names the peer of every direct message of `u`.
proof fn lemma_recent_peers_has(ms: Seq<MessageView>, u: i64, p: i64, j: int)
    requires
        0 <= j < ms.len(),
        involves(ms[j], u),
        peer_of(ms[j], u) == Some(p),
    ensures
        recent_peers(ms, u).contains(Some(p)),
    decreases ms.len(),
{
    let acc = recent_peers(ms.drop_last(), u);
    let r = recent_peers(ms, u);
    if j == ms.len() - 1 {
        if !acc.contains(Some(p)) {
            assert(r == acc.push(Some(p)));
            assert(r[acc.len() as int] == Some(p));
        } else {
            let q = choose|q: int| 0 <= q < acc.len() && acc[q] == Some(p);
            if r != acc {
                assert(r[q] == acc[q]);
            }
        }
    } else {
        assert(ms.drop_last()[j] == ms[j]);
        lemma_recent_peers_has(ms.drop_last(), u, p, j);
        let q = choose|q: int| 0 <= q < acc.len() && acc[q] == Some(p);
        if r != acc {
            assert(r[q] == acc[q]);
        }
    }
}

/// The user search answers the first users in login order among all that
/// match: when a live user `v` other than `me`, with no block between the two,
/// has a login containing the query, either `v` is answered, or the answer is
/// full (20 users) and every answered login sorts strictly before `v`'s. (A
/// query too long for SQLite's `LIKE` answers nothing.)
pub proof fn law_user_search_answers_the_first_matches(s: StoreView, login: Seq<char>, me: i64, j: int)
    requires
        s.wf(),
        0 <= j < s.users.len(),
        utf8_len(trimmed(login)) + 2 <= max_like_pattern_bytes(),
        like(contains_pattern(trimmed(login)), s.users[j].login),
        s.users[j].id != me,
        s.users[j].deleted_at is None,
        !s.blocks_user(me, s.users[j].id),
        !s.blocks_user(s.users[j].id, me),
    ensures
        ({
            let r = s.search_users(login, me);
            let v = s.users[j];
            ||| r.contains(UserResponseView { user_id: v.id, login: v.login })
            ||| (r.len() == 20 && forall|i: int| 0 <= i < 20 ==> seq_lt(#[trigger] r[i].login, v.login))
        }),
{
    let before = login_order();
    assert forall|a: UserResponseView, b: UserResponseView| #[trigger] before(a, b) || before(b, a) by {
        if seq_lt(b.login, a.login) {
            lemma_seq_lt_asymmetric(b.login, a.login);
        }
    }
    assert forall|a: UserResponseView, b: UserResponseView, c: UserResponseView|
        #![trigger before(a, b), before(b, c)]
        before(a, b) && before(b, c) implies before(a, c) by {
        if seq_lt(c.login, a.login) {
            lemma_seq_lt_split(c.login, b.login, a.login);
        }
    }
    let q = trimmed(login);
    let f = s.user_hit(contains_pattern(q), me);
    let found = s.users.filter_map(f);
    let v = s.users[j];
    let x = UserResponseView { user_id: v.id, login: v.login };
    assert(f(s.users[j]) == Some(x));
    lemma_filter_map_keeps(s.users, f, j);
    lemma_sort_by_keeps(found, before, x);
    let sorted = sort_by(found, before);
    lemma_sort_by_sorted(found, before);
    let r = s.search_users(login, me);
    assert(r == at_most(sorted, 20));
    let p = choose|p: int| 0 <= p < sorted.len() && sorted[p] == x;
    if exists|i: int| 0 <= i < 20 && i < sorted.len() && sorted[i] == x {
        let i = choose|i: int| 0 <= i < 20 && i < sorted.len() && sorted[i] == x;
        assert(r[i] == x);
    } else {
        assert(p >= 20);
        assert(r == sorted.take(20));
        assert forall|i: int| 0 <= i < 20 implies seq_lt(#[trigger] r[i].login, v.login) by {
            let e = sorted[i];
            assert(r[i] == e);
            assert(before(e, x));
            assert(sorted.contains(e));
            lemma_sort_by_elements(found, before, e);
            s.users.lemma_filter_map_contains(f, e);
            let w = choose|w: UserView| #[trigger] s.users.contains(w) && f(w) == Some(e);
            let jw = choose|jw: int| 0 <= jw < s.users.len() && s.users[jw] == w;
            lemma_seq_lt_total(e.login, v.login);
            if e.login == v.login {
                assert(s.users[jw].login == s.users[j].login);
                assert(jw == j);
                assert(e == x);
            }
        }
    }
}

/// Among the hits of `f` in `ms` taken newest first (ids increase along
/// `ms`), the first 100 hold the hit of `ms[k]`, or are 100 hits all newer
/// than it.
proof fn lemma_newest_hits(
    ms: Seq<MessageView>,
    f: spec_fn(MessageView) -> Option<MessageSearchResultView>,
    k: int,
)
    requires
        forall|a: int, b: int| 0 <= a < b < ms.len() ==> ms[a].id < ms[b].id,
        forall|x: MessageView| #[trigger] f(x) is Some ==> f(x)->0.message.id == x.id,
        0 <= k < ms.len(),
        f(ms[k]) is Some,
    ensures
        ({
            let r = at_most(ms.reverse().filter_map(f), 100);
            ||| r.contains(f(ms[k])->0)
            ||| (r.len() == 100 && forall|i: int| 0 <= i < 100 ==> (#[trigger] r[i]).message.id > ms[k].id)
        }),
{
    let n = ms.len();
    let rev = ms.reverse();
    let j = n - 1 - k;
    assert(rev[j] == ms[k]);
    let all = rev.filter_map(f);
    let y = f(ms[k])->0;
    let a = rev.take(j).filter_map(f);
    rev.lemma_filter_map_take_succ(f, j);
    assert(rev.take(j + 1).filter_map(f) == a + seq![y]);
    lemma_filter_map_prefix(rev, f, j + 1);
    assert(all.take(a.len() as int + 1) == a + seq![y]);
    assert(all[a.len() as int] == y) by {
        assert(all.take(a.len() as int + 1)[a.len() as int] == y);
    }
    let r = at_most(all, 100);
    if a.len() < 100 {
        assert(r[a.len() as int] == y);
    } else {
        lemma_filter_map_prefix(rev, f, j);
        assert(all.take(a.len() as int) == a);
        assert(r == all.take(100));
        assert forall|i: int| 0 <= i < 100 implies (#[trigger] r[i]).message.id > ms[k].id by {
            assert(r[i] == all[i]);
            assert(all[i] == all.take(a.len() as int)[i]);
            assert(a.contains(a[i]));
            rev.take(j).lemma_filter_map_contains(f, a[i]);
            let t = choose|t: MessageView| #[trigger] rev.take(j).contains(t) && f(t) == Some(a[i]);
            let q = choose|q: int| 0 <= q < rev.take(j).len() && rev.take(j)[q] == t;
            assert(rev[q] == ms[n - 1 - q]);
            assert(ms[k].id < ms[n - 1 - q].id);
        }
    }
}

/// A message search finds what it is asked for: a stored message whose
/// sender exists and whose text matches is among the results, or the results
/// are the 100 messages newer than it, when the message is
/// - in the searched group chat;
/// - in the searched direct conversation, sent either way between the user
///   and the other user;
/// - searching everywhere: a direct message the user sent or received, the
///   other user being live with no block between the two, or a message of a
///   group chat that exists, is not deleted, and has the user as a current
///   member.
pub proof fn law_message_search_finds_every_match(
    s: StoreView,
    u: i64,
    pattern: Seq<char>,
    scope: SearchScopeView,
    k: int,
)
    requires
        s.wf(),
        0 <= k < s.messages.len(),
        like(pattern, s.messages[k].text),
        s.find_user(s.messages[k].sender_id) is Some,
        ({
            let m = s.messages[k];
            match scope {
                SearchScopeView::Group { chat_id, title } => m.chat_id == Some(chat_id),
                SearchScopeView::Direct { target_id, title } => m.chat_id is None && ((m.sender_id == u
                    && m.receiver_id == Some(target_id)) || (m.sender_id == target_id && m.receiver_id
                    == Some(u))),
                SearchScopeView::Everywhere => match m.chat_id {
                    None => {
                        let p = if m.sender_id == u {
                            m.receiver_id
                        } else {
                            Some(m.sender_id)
                        };
                        &&& (m.sender_id == u || m.receiver_id == Some(u))
                        &&& p matches Some(pid) && s.is_live(pid) && !s.blocks_user(u, pid)
                            && !s.blocks_user(pid, u)
                    },
                    Some(c) => s.find_chat(c) matches Some(ch) && ch.deleted_at is None && s.is_member(
                        u,
                        c,
                    ),
                },
            }
        }),
    ensures
        ({
            let r = s.search_results(u, pattern, scope);
            ||| exists|i: int| 0 <= i < r.len() && (#[trigger] r[i]).message.id == s.messages[k].id
            ||| (r.len() == 100 && forall|i: int|
                0 <= i < 100 ==> (#[trigger] r[i]).message.id > s.messages[k].id)
        }),
{
    let ms = s.messages;
    let f = s.search_hit(u, pattern, scope);
    assert forall|a: int, b: int| 0 <= a < b < ms.len() implies ms[a].id < ms[b].id by {
        assert(s.message_ids()[a] == ms[a].id);
        assert(s.message_ids()[b] == ms[b].id);
    }
    assert forall|x: MessageView| #[trigger] f(x) is Some implies f(x)->0.message.id == x.id by {}
    assert(f(ms[k]) is Some);
    lemma_newest_hits(ms, f, k);
    let r = s.search_results(u, pattern, scope);
    if r.contains(f(ms[k])->0) {
        let i = choose|i: int| 0 <= i < r.len() && r[i] == f(ms[k])->0;
        assert(r[i].message.id == ms[k].id);
    }
}

} // verus!
