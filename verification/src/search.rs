//! Searching the message history.
use vstd::prelude::*;

use crate::error::{fails_with, AppError, AppResult, BAD_REQUEST, FORBIDDEN, NOT_FOUND};
use crate::messaging::opt_is;
use crate::models::{ChatMessage, ChatMessageView, MessageSearchResult, MessageSearchResultView};
use crate::sorting::at_most;
use crate::store::Store;
use crate::tables::{between, result_list_view, MessageRow, MessageView, StoreView};
use crate::text::{
    contains_pattern, contains_pattern_of, like, like_contains, trimmed, trimmed_string, utf8_len,
    utf8_len_capped,
};

verus! {

/// Where a search looks: one group chat, one direct conversation, or every
/// conversation of the user. `title` is what the results carry as title.
pub enum SearchScope {
    Group { chat_id: i64, title: String },
    Direct { target_id: i64, title: String },
    Everywhere,
}

pub enum SearchScopeView {
    Group { chat_id: i64, title: Seq<char> },
    Direct { target_id: i64, title: Seq<char> },
    Everywhere,
}

impl View for SearchScope {
    type V = SearchScopeView;

    open spec fn view(&self) -> SearchScopeView {
        match self {
            SearchScope::Group { chat_id, title } => SearchScopeView::Group {
                chat_id: *chat_id,
                title: title@,
            },
            SearchScope::Direct { target_id, title } => SearchScopeView::Direct {
                target_id: *target_id,
                title: title@,
            },
            SearchScope::Everywhere => SearchScopeView::Everywhere,
        }
    }
}

/// The other user of a direct message that `u` took part in.
pub open spec fn peer_of(m: MessageView, u: i64) -> Option<i64> {
    if m.sender_id == u {
        m.receiver_id
    } else {
        Some(m.sender_id)
    }
}

/// Whether `m` is a direct message that `u` sent or received.
pub open spec fn involves(m: MessageView, u: i64) -> bool {
    m.chat_id is None && (m.sender_id == u || m.receiver_id == Some(u))
}

pub open spec fn search_result(
    chat_type: Seq<char>,
    chat_id: Option<i64>,
    user_id: Option<i64>,
    title: Seq<char>,
    message: ChatMessageView,
) -> MessageSearchResultView {
    MessageSearchResultView { chat_type, chat_id, user_id, title, message }
}

impl StoreView {
    /// A message as found by `u`'s search with `pattern` in `scope`, if it is.
    pub open spec fn search_hit(self, u: i64, pattern: Seq<char>, scope: SearchScopeView) -> spec_fn(
        MessageView,
    ) -> Option<MessageSearchResultView> {
        |m: MessageView|
            if !like(pattern, m.text) || self.with_sender(m) is None {
                None
            } else {
                let cm = self.with_sender(m)->0;
                match scope {
                    SearchScopeView::Group { chat_id, title } => if m.chat_id == Some(chat_id) {
                        Some(search_result("group"@, Some(chat_id), None, title, cm))
                    } else {
                        None
                    },
                    SearchScopeView::Direct { target_id, title } => if between(m, u, target_id) {
                        Some(search_result("direct"@, None, Some(target_id), title, cm))
                    } else {
                        None
                    },
                    SearchScopeView::Everywhere => if m.chat_id is None {
                        if involves(m, u) && peer_of(m, u) is Some && self.is_live(peer_of(m, u)->0)
                            && !self.blocked_either_way(u, peer_of(m, u)->0) {
                            let p = peer_of(m, u)->0;
                            Some(search_result("direct"@, None, Some(p), self.find_user(p)->0.login, cm))
                        } else {
                            None
                        }
                    } else {
                        let c = m.chat_id->0;
                        if self.find_chat(c) is Some && self.find_chat(c)->0.deleted_at is None
                            && self.is_member(u, c) {
                            Some(search_result("group"@, Some(c), None, self.find_chat(c)->0.title, cm))
                        } else {
                            None
                        }
                    },
                }
            }
    }

    /// The newest 100 messages found, newest first.
    pub open spec fn search_results(self, u: i64, pattern: Seq<char>, scope: SearchScopeView) -> Seq<
        MessageSearchResultView,
    > {
        at_most(self.messages.reverse().filter_map(self.search_hit(u, pattern, scope)), 100)
    }
}

/// A prefix of a sequence maps to a prefix of its image.
pub proof fn lemma_filter_map_prefix<A, B>(s: Seq<A>, f: spec_fn(A) -> Option<B>, k: int)
    requires
        0 <= k <= s.len(),
    ensures
        s.take(k).filter_map(f).len() <= s.filter_map(f).len(),
        s.filter_map(f).take(s.take(k).filter_map(f).len() as int) == s.take(k).filter_map(f),
    decreases s.len() - k,
{
    if k == s.len() {
        assert(s.take(k) =~= s);
        assert(s.filter_map(f).take(s.filter_map(f).len() as int) =~= s.filter_map(f));
    } else {
        lemma_filter_map_prefix(s, f, k + 1);
        s.lemma_filter_map_take_succ(f, k);
        let a = s.take(k).filter_map(f);
        let b = s.take(k + 1).filter_map(f);
        assert(b.take(a.len() as int) =~= a);
        assert(s.filter_map(f).take(a.len() as int) =~= b.take(a.len() as int));
    }
}

impl Store {
    /// The search result that a message gives, if any.
    fn search_hit(&self, u: i64, pattern: &Vec<char>, scope: &SearchScope, row: &MessageRow) -> (r: Option<MessageSearchResult>)
        requires
            self.wf(),
        ensures
            match r {
                Some(x) => self@.search_hit(u, pattern@, scope@)(row@) == Some(x@),
                None => self@.search_hit(u, pattern@, scope@)(row@) is None,
            },
    {
        if !like_contains(pattern, row.text.as_str()) {
            return None;
        }
        let cm = match self.with_sender(row) {
            Some(cm) => cm,
            None => return None,
        };
        match scope {
            SearchScope::Group { chat_id, title } => {
                if opt_is(row.chat_id, *chat_id) {
                    Some(MessageSearchResult {
                        chat_type: "group".to_owned(),
                        chat_id: Some(*chat_id),
                        user_id: None,
                        title: title.clone(),
                        message: cm,
                    })
                } else {
                    None
                }
            },
            SearchScope::Direct { target_id, title } => {
                let t = *target_id;
                if row.chat_id.is_none() && ((row.sender_id == u && opt_is(row.receiver_id, t)) || (
                row.sender_id == t && opt_is(row.receiver_id, u))) {
                    Some(MessageSearchResult {
                        chat_type: "direct".to_owned(),
                        chat_id: None,
                        user_id: Some(t),
                        title: title.clone(),
                        message: cm,
                    })
                } else {
                    None
                }
            },
            SearchScope::Everywhere => {
                match row.chat_id {
                    None => {
                        let peer = if row.sender_id == u {
                            row.receiver_id
                        } else {
                            Some(row.sender_id)
                        };
                        if !(row.sender_id == u || opt_is(row.receiver_id, u)) {
                            return None;
                        }
                        let p = match peer {
                            Some(p) => p,
                            None => return None,
                        };
                        let i = match self.user_index(p) {
                            Some(i) => i,
                            None => return None,
                        };
                        if self.users[i].deleted_at.is_some() || self.is_blocked_either_way(u, p) {
                            return None;
                        }
                        Some(MessageSearchResult {
                            chat_type: "direct".to_owned(),
                            chat_id: None,
                            user_id: Some(p),
                            title: self.users[i].login.clone(),
                            message: cm,
                        })
                    },
                    Some(c) => {
                        let i = match self.chat_index(c) {
                            Some(i) => i,
                            None => return None,
                        };
                        if self.chats[i].deleted_at.is_some() || !self.is_group_member(u, c) {
                            return None;
                        }
                        Some(MessageSearchResult {
                            chat_type: "group".to_owned(),
                            chat_id: Some(c),
                            user_id: None,
                            title: self.chats[i].title.clone(),
                            message: cm,
                        })
                    },
                }
            },
        }
    }

    /// The newest 100 messages that `u`'s search with `pattern` finds in
    /// `scope`, newest first.
    pub fn search_in(&self, u: i64, pattern: &Vec<char>, scope: &SearchScope) -> (r: Vec<MessageSearchResult>)
        requires
            self.wf(),
        ensures
            result_list_view(r@) == self@.search_results(u, pattern@, scope@),
    {
        let ghost sv = self@;
        let ghost rev = sv.messages.reverse();
        let ghost f = sv.search_hit(u, pattern@, scope@);
        let n = self.messages.len();
        let mut out: Vec<MessageSearchResult> = Vec::new();
        let mut k: usize = 0;
        while k < n && out.len() < 100
            invariant
                self.wf(),
                self@ == sv,
                n == self.messages.len(),
                rev == sv.messages.reverse(),
                f == sv.search_hit(u, pattern@, scope@),
                k <= n,
                out.len() <= 100,
                result_list_view(out@) == rev.take(k as int).filter_map(f),
            decreases n - k,
        {
            proof {
                rev.lemma_filter_map_take_succ(f, k as int);
            }
            let row = &self.messages[n - 1 - k];
            assert(rev[k as int] == sv.messages[n - 1 - k]);
            assert(sv.messages[n - 1 - k] == row@);
            let ghost ov = result_list_view(out@);
            match self.search_hit(u, pattern, scope, row) {
                Some(x) => {
                    out.push(x);
                    assert(result_list_view(out@) =~= ov + seq![x@]);
                },
                None => {},
            }
            k = k + 1;
        }
        proof {
            lemma_filter_map_prefix(rev, f, k as int);
            if k == n {
                assert(rev.take(k as int) =~= rev);
            }
            let full = rev.filter_map(f);
            if out.len() == 100 {
                assert(at_most(full, 100) =~= full.take(100));
            }
        }
        out
    }

    /// Searches `user_id`'s messages for `q` (trimmed, 2 to 128 bytes): in one
    /// group chat when `chat_id` is given, else in the direct conversation
    /// with `target_id` when that is given, else everywhere the user can read.
    pub fn search_messages(&self, user_id: i64, q: &str, target_id: Option<i64>, chat_id: Option<i64>) -> (r: AppResult<Vec<MessageSearchResult>>)
        requires
            self.wf(),
        ensures
            ({
                let query = trimmed(q@);
                let pattern = contains_pattern(query);
                let s = self@;
                if utf8_len(query) < 2 {
                    fails_with(r, BAD_REQUEST, "Поиск минимум 2 символа"@)
                } else if utf8_len(query) > 128 {
                    fails_with(r, BAD_REQUEST, "Слишком длинный поисковый запрос"@)
                } else if chat_id is Some {
                    let c = chat_id->0;
                    if !s.is_member(user_id, c) {
                        fails_with(r, FORBIDDEN, "Нет доступа к группе"@)
                    } else if !(s.find_chat(c) is Some && s.find_chat(c)->0.deleted_at is None) {
                        fails_with(r, NOT_FOUND, "Группа не найдена"@)
                    } else {
                        r matches Ok(v) && result_list_view(v@) == s.search_results(
                            user_id,
                            pattern,
                            SearchScopeView::Group { chat_id: c, title: s.find_chat(c)->0.title },
                        )
                    }
                } else if target_id is Some {
                    let t = target_id->0;
                    if s.blocked_either_way(user_id, t) {
                        fails_with(r, FORBIDDEN, "Переписка заблокирована"@)
                    } else if !s.is_live(t) {
                        fails_with(r, NOT_FOUND, "Пользователь не найден"@)
                    } else {
                        r matches Ok(v) && result_list_view(v@) == s.search_results(
                            user_id,
                            pattern,
                            SearchScopeView::Direct { target_id: t, title: s.find_user(t)->0.login },
                        )
                    }
                } else {
                    r matches Ok(v) && result_list_view(v@) == s.search_results(
                        user_id,
                        pattern,
                        SearchScopeView::Everywhere,
                    )
                }
            }),
    {
        let query = trimmed_string(q);
        if utf8_len_capped(query.as_str(), 2) < 2 {
            return Err(AppError::new(BAD_REQUEST, "Поиск минимум 2 символа"));
        }
        if utf8_len_capped(query.as_str(), 129) > 128 {
            return Err(AppError::new(BAD_REQUEST, "Слишком длинный поисковый запрос"));
        }
        let pattern = contains_pattern_of(query.as_str());
        let scope = if let Some(c) = chat_id {
            if !self.is_group_member(user_id, c) {
                return Err(AppError::new(FORBIDDEN, "Нет доступа к группе"));
            }
            match self.chat_index(c) {
                Some(i) => {
                    if self.chats[i].deleted_at.is_some() {
                        return Err(AppError::new(NOT_FOUND, "Группа не найдена"));
                    }
                    SearchScope::Group { chat_id: c, title: self.chats[i].title.clone() }
                },
                None => return Err(AppError::new(NOT_FOUND, "Группа не найдена")),
            }
        } else if let Some(t) = target_id {
            if self.is_blocked_either_way(user_id, t) {
                return Err(AppError::new(FORBIDDEN, "Переписка заблокирована"));
            }
            match self.user_index(t) {
                Some(i) => {
                    if self.users[i].deleted_at.is_some() {
                        return Err(AppError::new(NOT_FOUND, "Пользователь не найден"));
                    }
                    SearchScope::Direct { target_id: t, title: self.users[i].login.clone() }
                },
                None => return Err(AppError::new(NOT_FOUND, "Пользователь не найден")),
            }
        } else {
            SearchScope::Everywhere
        };
        Ok(self.search_in(user_id, &pattern, &scope))
    }
}

} // verus!
