//! The list of a user's active chats, with unread counters, most recent first.
use vstd::prelude::*;

use crate::models::{copy_opt, opt_view, ChatListItem, ChatListItemView};
use crate::search::{involves, peer_of};
use crate::sorting::{insert_sorted, lemma_insert_sorted_at, lemma_sort_step, sort_by};
use crate::store::{read_index, Store};
use crate::tables::{
    count_where, item_list_view, message_views, ChatView, MessageRow, MessageView, StoreView,
};
use crate::text::{seq_lt, str_lt};

verus! {

/// The distinct peers of `u`'s direct messages in `ms` (newest first), in the
/// order of their newest message.
pub open spec fn recent_peers(ms: Seq<MessageView>, u: i64) -> Seq<Option<i64>>
    decreases ms.len(),
{
    if ms.len() == 0 {
        Seq::empty()
    } else {
        let acc = recent_peers(ms.drop_last(), u);
        let m = ms.last();
        if involves(m, u) && !acc.contains(peer_of(m, u)) {
            acc.push(peer_of(m, u))
        } else {
            acc
        }
    }
}

/// The later of a time (if any) and `t`, in the binary collation.
pub open spec fn later_time(r: Option<Seq<char>>, t: Seq<char>) -> Option<Seq<char>> {
    match r {
        None => Some(t),
        Some(x) => if seq_lt(x, t) {
            Some(t)
        } else {
            Some(x)
        },
    }
}

/// `MAX(timestamp)` over the messages that satisfy `p`.
pub open spec fn latest_time(ms: Seq<MessageView>, p: spec_fn(MessageView) -> bool) -> Option<Seq<char>>
    decreases ms.len(),
{
    if ms.len() == 0 {
        None
    } else {
        let r = latest_time(ms.drop_last(), p);
        if p(ms.last()) {
            later_time(r, ms.last().timestamp)
        } else {
            r
        }
    }
}

/// `MAX(id)` over the messages that satisfy `p`.
pub open spec fn largest_id(ms: Seq<MessageView>, p: spec_fn(MessageView) -> bool) -> Option<i64>
    decreases ms.len(),
{
    if ms.len() == 0 {
        None
    } else {
        let r = largest_id(ms.drop_last(), p);
        if p(ms.last()) {
            match r {
                None => Some(ms.last().id),
                Some(x) => if x < ms.last().id {
                    Some(ms.last().id)
                } else {
                    Some(x)
                },
            }
        } else {
            r
        }
    }
}

/// Whether time `a` sorts before time `b`; no time sorts before any time.
pub open spec fn time_lt(a: Option<Seq<char>>, b: Option<Seq<char>>) -> bool {
    match (a, b) {
        (None, Some(_)) => true,
        (Some(x), Some(y)) => seq_lt(x, y),
        _ => false,
    }
}

/// Chats come with the most recent last message first.
pub open spec fn recency_order() -> spec_fn(ChatListItemView, ChatListItemView) -> bool {
    |a: ChatListItemView, b: ChatListItemView| !time_lt(a.last_message_at, b.last_message_at)
}

/// Group chats come by their ordering key, largest first.
pub open spec fn key_order() -> spec_fn((i64, ChatListItemView), (i64, ChatListItemView)) -> bool {
    |a: (i64, ChatListItemView), b: (i64, ChatListItemView)| b.0 <= a.0
}

pub open spec fn direct_unread_pred(u: i64, p: i64, mark: i64) -> spec_fn(MessageView) -> bool {
    |m: MessageView|
        m.chat_id is None && m.sender_id == p && m.receiver_id == Some(u) && m.id > mark
}

pub open spec fn with_peer(u: i64, p: i64) -> spec_fn(MessageView) -> bool {
    |m: MessageView| involves(m, u) && peer_of(m, u) == Some(p)
}

pub open spec fn group_unread_pred(u: i64, c: i64, mark: i64) -> spec_fn(MessageView) -> bool {
    |m: MessageView| m.chat_id == Some(c) && m.sender_id != u && m.id > mark
}

pub open spec fn in_chat(c: i64) -> spec_fn(MessageView) -> bool {
    |m: MessageView| m.chat_id == Some(c)
}

pub open spec fn pair_list_view(s: Seq<(i64, ChatListItem)>) -> Seq<(i64, ChatListItemView)> {
    s.map_values(|p: (i64, ChatListItem)| (p.0, p.1@))
}

impl StoreView {
    /// The list entry of a direct conversation of `u` with peer `p`.
    pub open spec fn direct_item(self, u: i64) -> spec_fn(Option<i64>) -> Option<ChatListItemView> {
        |p: Option<i64>|
            if p is Some && self.is_live(p->0) && !self.blocked_either_way(u, p->0) {
                let pid = p->0;
                Some(
                    ChatListItemView {
                        chat_type: "direct"@,
                        chat_id: None,
                        user_id: Some(pid),
                        title: self.find_user(pid)->0.login,
                        unread_count: count_where(
                            self.messages,
                            direct_unread_pred(u, pid, self.direct_read_mark(u, pid)),
                        ) as i64,
                        last_message_at: latest_time(self.messages, with_peer(u, pid)),
                    },
                )
            } else {
                None
            }
    }

    /// The ordering key and the list entry of a group chat `u` is in.
    pub open spec fn group_item(self, u: i64) -> spec_fn(ChatView) -> Option<(i64, ChatListItemView)> {
        |c: ChatView|
            if c.deleted_at is None && self.is_member(u, c.id) {
                Some(
                    (
                        match largest_id(self.messages, in_chat(c.id)) {
                            Some(id) => id,
                            None => c.id,
                        },
                        ChatListItemView {
                            chat_type: "group"@,
                            chat_id: Some(c.id),
                            user_id: None,
                            title: c.title,
                            unread_count: count_where(
                                self.messages,
                                group_unread_pred(u, c.id, self.group_read_mark(u, c.id)),
                            ) as i64,
                            last_message_at: latest_time(self.messages, in_chat(c.id)),
                        },
                    ),
                )
            } else {
                None
            }
    }

    /// `u`'s direct conversations, the most recent first.
    pub open spec fn direct_items(self, u: i64) -> Seq<ChatListItemView> {
        recent_peers(self.messages.reverse(), u).filter_map(self.direct_item(u))
    }

    /// `u`'s group chats, by the id of their last message (the chat's own id
    /// when it has none), largest first; ties keep the chats' order.
    pub open spec fn group_items(self, u: i64) -> Seq<ChatListItemView> {
        sort_by(self.chats.filter_map(self.group_item(u)), key_order()).map_values(
            |p: (i64, ChatListItemView)| p.1,
        )
    }

    /// The chat list of `u`: direct conversations, then group chats, sorted
    /// by the time of their last message, latest first; ties keep that order.
    pub open spec fn active_chats(self, u: i64) -> Seq<ChatListItemView> {
        sort_by(self.direct_items(u) + self.group_items(u), recency_order())
    }

    pub proof fn lemma_messages_fit(self)
        requires
            self.wf(),
        ensures
            self.messages.len() <= self.message_seq,
    {
        let ids = self.message_ids();
        if ids.len() > 0 {
            lemma_ids_lower_bound(ids, self.message_seq, ids.len() - 1);
        }
    }
}

proof fn lemma_ids_lower_bound(ids: Seq<i64>, seq: i64, k: int)
    requires
        crate::tables::ids_increasing(ids, seq),
        0 <= k < ids.len(),
    ensures
        ids[k] >= k + 1,
    decreases k,
{
    if k > 0 {
        lemma_ids_lower_bound(ids, seq, k - 1);
    }
}

fn later_time_exec(r: Option<String>, t: &String) -> (o: Option<String>)
    ensures
        opt_view(o) == later_time(opt_view(r), t@),
{
    match r {
        None => Some(t.clone()),
        Some(x) => if str_lt(x.as_str(), t.as_str()) {
            Some(t.clone())
        } else {
            Some(x)
        },
    }
}

fn time_lt_exec(a: &Option<String>, b: &Option<String>) -> (r: bool)
    ensures
        r == time_lt(opt_view(*a), opt_view(*b)),
{
    match (a, b) {
        (None, Some(_)) => true,
        (Some(x), Some(y)) => str_lt(x.as_str(), y.as_str()),
        _ => false,
    }
}

impl Store {
    /// Unread direct messages from `p` to `u` and the time of their latest
    /// message either way.
    fn direct_stats(&self, u: i64, p: i64, mark: i64) -> (r: (i64, Option<String>))
        requires
            self.wf(),
        ensures
            r.0 == count_where(self@.messages, direct_unread_pred(u, p, mark)) as i64,
            opt_view(r.1) == latest_time(self@.messages, with_peer(u, p)),
    {
        let ghost ms = self@.messages;
        proof {
            self@.lemma_messages_fit();
        }
        let mut count: i64 = 0;
        let mut last: Option<String> = None;
        let mut i: usize = 0;
        while i < self.messages.len()
            invariant
                ms == self@.messages,
                ms.len() <= i64::MAX,
                i <= self.messages.len(),
                count == count_where(ms.take(i as int), direct_unread_pred(u, p, mark)),
                count <= i,
                opt_view(last) == latest_time(ms.take(i as int), with_peer(u, p)),
            decreases self.messages.len() - i,
        {
            let row = &self.messages[i];
            assert(ms[i as int] == row@);
            assert(ms.take(i + 1).drop_last() =~= ms.take(i as int));
            assert(ms.take(i + 1).last() == row@);
            let to_u = match row.receiver_id {
                Some(r) => r == u,
                None => false,
            };
            if row.chat_id.is_none() && row.sender_id == p && to_u && row.id > mark {
                count = count + 1;
            }
            let involved = row.chat_id.is_none() && (row.sender_id == u || to_u);
            let peer_is_p = if row.sender_id == u {
                match row.receiver_id {
                    Some(r) => r == p,
                    None => false,
                }
            } else {
                row.sender_id == p
            };
            if involved && peer_is_p {
                last = later_time_exec(last, &row.timestamp);
            }
            i = i + 1;
        }
        assert(ms.take(ms.len() as int) =~= ms);
        (count, last)
    }

    /// Unread messages of group chat `c` for `u`, the id of its last message
    /// and the time of its latest message.
    fn group_stats(&self, u: i64, c: i64, mark: i64) -> (r: (i64, Option<i64>, Option<String>))
        requires
            self.wf(),
        ensures
            r.0 == count_where(self@.messages, group_unread_pred(u, c, mark)) as i64,
            r.1 == largest_id(self@.messages, in_chat(c)),
            opt_view(r.2) == latest_time(self@.messages, in_chat(c)),
    {
        let ghost ms = self@.messages;
        proof {
            self@.lemma_messages_fit();
        }
        let mut count: i64 = 0;
        let mut top: Option<i64> = None;
        let mut last: Option<String> = None;
        let mut i: usize = 0;
        while i < self.messages.len()
            invariant
                ms == self@.messages,
                ms.len() <= i64::MAX,
                i <= self.messages.len(),
                count == count_where(ms.take(i as int), group_unread_pred(u, c, mark)),
                count <= i,
                top == largest_id(ms.take(i as int), in_chat(c)),
                opt_view(last) == latest_time(ms.take(i as int), in_chat(c)),
            decreases self.messages.len() - i,
        {
            let row = &self.messages[i];
            assert(ms[i as int] == row@);
            assert(ms.take(i + 1).drop_last() =~= ms.take(i as int));
            assert(ms.take(i + 1).last() == row@);
            let here = match row.chat_id {
                Some(x) => x == c,
                None => false,
            };
            if here && row.sender_id != u && row.id > mark {
                count = count + 1;
            }
            if here {
                top = match top {
                    None => Some(row.id),
                    Some(x) => if x < row.id {
                        Some(row.id)
                    } else {
                        Some(x)
                    },
                };
                last = later_time_exec(last, &row.timestamp);
            }
            i = i + 1;
        }
        assert(ms.take(ms.len() as int) =~= ms);
        (count, top, last)
    }
}

impl Store {
    /// The read mark of `u` in the direct conversation with `p`.
    fn direct_mark(&self, u: i64, p: i64) -> (r: i64)
        requires
            self.wf(),
        ensures
            r == self@.direct_read_mark(u, p),
    {
        match read_index(&self.direct_reads, u, p) {
            Some(i) => self.direct_reads[i].last_read_message_id,
            None => 0,
        }
    }

    /// The read mark of `u` in group chat `c`.
    fn group_mark(&self, u: i64, c: i64) -> (r: i64)
        requires
            self.wf(),
        ensures
            r == self@.group_read_mark(u, c),
    {
        match read_index(&self.group_reads, u, c) {
            Some(i) => self.group_reads[i].last_read_message_id,
            None => 0,
        }
    }

    /// `u`'s direct conversations, the most recent first.
    fn direct_items(&self, u: i64) -> (r: Vec<ChatListItem>)
        requires
            self.wf(),
        ensures
            item_list_view(r@) == self@.direct_items(u),
    {
        let ghost sv = self@;
        let ghost rev = sv.messages.reverse();
        let n = self.messages.len();
        let mut peers: Vec<Option<i64>> = Vec::new();
        let mut k: usize = 0;
        while k < n
            invariant
                self@ == sv,
                n == self.messages.len(),
                rev == sv.messages.reverse(),
                k <= n,
                peers@ == recent_peers(rev.take(k as int), u),
            decreases n - k,
        {
            let row = &self.messages[n - 1 - k];
            assert(rev[k as int] == sv.messages[n - 1 - k]);
            assert(sv.messages[n - 1 - k] == row@);
            assert(rev.take(k + 1).drop_last() =~= rev.take(k as int));
            assert(rev.take(k + 1).last() == row@);
            let to_u = match row.receiver_id {
                Some(r) => r == u,
                None => false,
            };
            if row.chat_id.is_none() && (row.sender_id == u || to_u) {
                let peer = if row.sender_id == u {
                    row.receiver_id
                } else {
                    Some(row.sender_id)
                };
                let mut seen = false;
                let mut j: usize = 0;
                while j < peers.len()
                    invariant
                        j <= peers.len(),
                        seen == (exists|q: int| 0 <= q < j && peers@[q] == peer),
                    decreases peers.len() - j,
                {
                    let same = match (peers[j], peer) {
                        (Some(a), Some(b)) => a == b,
                        (None, None) => true,
                        _ => false,
                    };
                    if same {
                        seen = true;
                    }
                    j = j + 1;
                }
                assert(seen == peers@.contains(peer));
                if !seen {
                    peers.push(peer);
                }
            }
            k = k + 1;
        }
        assert(rev.take(n as int) =~= rev);
        let ghost f = sv.direct_item(u);
        let ghost ps = peers@;
        let mut items: Vec<ChatListItem> = Vec::new();
        let mut j: usize = 0;
        while j < peers.len()
            invariant
                self.wf(),
                self@ == sv,
                ps == peers@,
                f == sv.direct_item(u),
                j <= peers.len(),
                item_list_view(items@) == ps.take(j as int).filter_map(f),
            decreases peers.len() - j,
        {
            proof {
                ps.lemma_filter_map_take_succ(f, j as int);
            }
            if let Some(pid) = peers[j] {
                if let Some(i) = self.user_index(pid) {
                    if self.users[i].deleted_at.is_none() && !self.is_blocked_either_way(u, pid) {
                        let mark = self.direct_mark(u, pid);
                        let (unread, last) = self.direct_stats(u, pid, mark);
                        let item = ChatListItem {
                            chat_type: "direct".to_owned(),
                            chat_id: None,
                            user_id: Some(pid),
                            title: self.users[i].login.clone(),
                            unread_count: unread,
                            last_message_at: last,
                        };
                        let ghost iv = item_list_view(items@);
                        items.push(item);
                        assert(item_list_view(items@) =~= iv + seq![item@]);
                    }
                }
            }
            j = j + 1;
        }
        assert(ps.take(ps.len() as int) =~= ps);
        items
    }

    /// `u`'s group chats, by the id of their last message, largest first.
    fn group_items(&self, u: i64) -> (r: Vec<ChatListItem>)
        requires
            self.wf(),
        ensures
            item_list_view(r@) == self@.group_items(u),
    {
        let ghost sv = self@;
        let ghost f = sv.group_item(u);
        let mut pairs: Vec<(i64, ChatListItem)> = Vec::new();
        let mut i: usize = 0;
        while i < self.chats.len()
            invariant
                self.wf(),
                self@ == sv,
                f == sv.group_item(u),
                i <= self.chats.len(),
                pair_list_view(pairs@) == sv.chats.take(i as int).filter_map(f),
            decreases self.chats.len() - i,
        {
            proof {
                sv.chats.lemma_filter_map_take_succ(f, i as int);
            }
            let c = &self.chats[i];
            assert(sv.chats[i as int] == c@);
            if c.deleted_at.is_none() && self.is_group_member(u, c.id) {
                let mark = self.group_mark(u, c.id);
                let (unread, top, last) = self.group_stats(u, c.id, mark);
                let key = match top {
                    Some(id) => id,
                    None => c.id,
                };
                let item = ChatListItem {
                    chat_type: "group".to_owned(),
                    chat_id: Some(c.id),
                    user_id: None,
                    title: c.title.clone(),
                    unread_count: unread,
                    last_message_at: last,
                };
                let ghost pv = pair_list_view(pairs@);
                pairs.push((key, item));
                assert(pair_list_view(pairs@) =~= pv + seq![(key, item@)]);
            }
            i = i + 1;
        }
        assert(sv.chats.take(sv.chats.len() as int) =~= sv.chats);
        let ghost all = pair_list_view(pairs@);
        let ghost before = key_order();
        let mut sorted: Vec<(i64, ChatListItem)> = Vec::new();
        assert(all.skip(all.len() as int) =~= Seq::<(i64, ChatListItemView)>::empty());
        while pairs.len() > 0
            invariant
                pairs@.len() <= all.len(),
                pair_list_view(pairs@) == all.take(pairs@.len() as int),
                before == key_order(),
                pair_list_view(sorted@) == sort_by(all.skip(pairs@.len() as int), before),
            decreases pairs@.len(),
        {
            let n = pairs.len();
            let x = pairs.pop().unwrap();
            proof {
                assert(all.take(n as int)[n - 1] == (x.0, x.1@));
                assert(pair_list_view(pairs@) =~= all.take(n - 1));
                lemma_sort_step(all, before, n as int);
            }
            let ghost sv2 = pair_list_view(sorted@);
            let mut j: usize = 0;
            while j < sorted.len() && !(sorted[j].0 <= x.0)
                invariant
                    j <= sorted.len(),
                    sv2 == pair_list_view(sorted@),
                    before == key_order(),
                    forall|k: int| 0 <= k < j ==> !before((x.0, x.1@), #[trigger] sv2[k]),
                decreases sorted.len() - j,
            {
                assert(sv2[j as int] == (sorted@[j as int].0, sorted@[j as int].1@));
                j = j + 1;
            }
            proof {
                if j < sorted.len() {
                    assert(sv2[j as int] == (sorted@[j as int].0, sorted@[j as int].1@));
                }
                lemma_insert_sorted_at((x.0, x.1@), sv2, before, j as int);
            }
            let ghost xv = (x.0, x.1@);
            sorted.insert(j, x);
            assert(pair_list_view(sorted@) =~= sv2.insert(j as int, xv));
        }
        assert(all.skip(0) =~= all);
        let ghost ordered = pair_list_view(sorted@);
        let ghost all_items = ordered.map_values(|p: (i64, ChatListItemView)| p.1);
        let mut items: Vec<ChatListItem> = Vec::new();
        let mut k: usize = 0;
        while k < sorted.len()
            invariant
                k <= sorted.len(),
                ordered == pair_list_view(sorted@),
                all_items == ordered.map_values(|p: (i64, ChatListItemView)| p.1),
                item_list_view(items@) == all_items.take(k as int),
            decreases sorted.len() - k,
        {
            let x = sorted[k].1.copy();
            let ghost iv = item_list_view(items@);
            items.push(x);
            assert(item_list_view(items@) =~= iv.push(x@));
            assert(ordered[k as int] == (sorted@[k as int].0, sorted@[k as int].1@));
            assert(all_items[k as int] == sorted@[k as int].1@);
            assert(item_list_view(items@) =~= all_items.take(k + 1));
            k = k + 1;
        }
        assert(all_items.take(sorted.len() as int) =~= all_items);
        items
    }
}

impl Store {
    /// The chat list of `user_id`: each direct conversation and each group
    /// chat with its unread counter and the time of its last message, the
    /// latest first.
    pub fn active_chats(&self, user_id: i64) -> (r: Vec<ChatListItem>)
        requires
            self.wf(),
        ensures
            item_list_view(r@) == self@.active_chats(user_id),
    {
        let mut items = self.direct_items(user_id);
        let mut groups = self.group_items(user_id);
        let ghost dv = item_list_view(items@);
        let ghost gv = item_list_view(groups@);
        items.append(&mut groups);
        let ghost all = item_list_view(items@);
        assert(all =~= dv + gv);
        let ghost before = recency_order();
        let mut sorted: Vec<ChatListItem> = Vec::new();
        assert(all.skip(all.len() as int) =~= Seq::<ChatListItemView>::empty());
        while items.len() > 0
            invariant
                items@.len() <= all.len(),
                item_list_view(items@) == all.take(items@.len() as int),
                before == recency_order(),
                item_list_view(sorted@) == sort_by(all.skip(items@.len() as int), before),
            decreases items@.len(),
        {
            let n = items.len();
            let x = items.pop().unwrap();
            proof {
                assert(all.take(n as int)[n - 1] == x@);
                assert(item_list_view(items@) =~= all.take(n - 1));
                lemma_sort_step(all, before, n as int);
            }
            let ghost sv2 = item_list_view(sorted@);
            let mut j: usize = 0;
            while j < sorted.len() && time_lt_exec(&x.last_message_at, &sorted[j].last_message_at)
                invariant
                    j <= sorted.len(),
                    sv2 == item_list_view(sorted@),
                    before == recency_order(),
                    forall|k: int| 0 <= k < j ==> !before(x@, #[trigger] sv2[k]),
                decreases sorted.len() - j,
            {
                assert(sv2[j as int] == sorted@[j as int]@);
                j = j + 1;
            }
            proof {
                if j < sorted.len() {
                    assert(sv2[j as int] == sorted@[j as int]@);
                }
                lemma_insert_sorted_at(x@, sv2, before, j as int);
            }
            let ghost xv = x@;
            sorted.insert(j, x);
            assert(item_list_view(sorted@) =~= sv2.insert(j as int, xv));
        }
        assert(all.skip(0) =~= all);
        sorted
    }
}

} // verus!
