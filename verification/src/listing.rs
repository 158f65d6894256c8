//! Searching users.
use vstd::prelude::*;

use crate::models::{UserResponse, UserResponseView};
use crate::sorting::{at_most, insert_sorted, lemma_insert_sorted_at, lemma_sort_step, sort_by};
use crate::store::Store;
use crate::tables::{user_list_view, StoreView, UserView};
use crate::text::{
    contains_pattern, contains_pattern_of, like, like_contains, seq_lt, str_lt, trimmed,
    trimmed_string, utf8_len, utf8_len_capped,
};

verus! {

/// Users found by a search come in login order.
pub open spec fn login_order() -> spec_fn(UserResponseView, UserResponseView) -> bool {
    |a: UserResponseView, b: UserResponseView| !seq_lt(b.login, a.login)
}

/// The longest `LIKE` pattern SQLite evaluates, in bytes; a longer one makes
/// the query fail, and the search answers nothing.
pub open spec fn max_like_pattern_bytes() -> nat {
    50000
}

impl StoreView {
    /// A user as found by `me`'s search with `pattern`: a live user other than
    /// `me`, with no block between the two, whose login matches.
    pub open spec fn user_hit(self, pattern: Seq<char>, me: i64) -> spec_fn(UserView) -> Option<UserResponseView> {
        |u: UserView|
            if like(pattern, u.login) && u.id != me && u.deleted_at is None
                && !self.blocks_user(me, u.id) && !self.blocks_user(u.id, me) {
                Some(UserResponseView { user_id: u.id, login: u.login })
            } else {
                None
            }
    }

    /// What a search of users for `login` by `me` answers: at most 20 users
    /// whose login contains the query (`LIKE '%query%'`), in login order.
    pub open spec fn search_users(self, login: Seq<char>, me: i64) -> Seq<UserResponseView> {
        let q = trimmed(login);
        if utf8_len(q) + 2 > max_like_pattern_bytes() {
            Seq::empty()
        } else {
            at_most(
                sort_by(self.users.filter_map(self.user_hit(contains_pattern(q), me)), login_order()),
                20,
            )
        }
    }
}

impl Store {
    /// Users whose login contains `login` (trimmed), for `current_user_id`.
    pub fn search_users(&self, login: &str, current_user_id: i64) -> (r: Vec<UserResponse>)
        requires
            self.wf(),
        ensures
            user_list_view(r@) == self@.search_users(login@, current_user_id),
    {
        let q = trimmed_string(login);
        if utf8_len_capped(q.as_str(), 49999) > 49998 {
            let r: Vec<UserResponse> = Vec::new();
            assert(user_list_view(r@) =~= Seq::empty());
            return r;
        }
        let pattern = contains_pattern_of(q.as_str());
        let ghost sv = self@;
        let ghost f = sv.user_hit(pattern@, current_user_id);
        let mut hits: Vec<UserResponse> = Vec::new();
        let mut i: usize = 0;
        while i < self.users.len()
            invariant
                self@ == sv,
                f == sv.user_hit(pattern@, current_user_id),
                i <= self.users.len(),
                user_list_view(hits@) == sv.users.take(i as int).filter_map(f),
            decreases self.users.len() - i,
        {
            proof {
                sv.users.lemma_filter_map_take_succ(f, i as int);
            }
            let u = &self.users[i];
            assert(sv.users[i as int] == u@);
            if like_contains(&pattern, u.login.as_str()) && u.id != current_user_id
                && u.deleted_at.is_none() && !self.blocks_user(current_user_id, u.id)
                && !self.blocks_user(u.id, current_user_id) {
                let ghost hv = user_list_view(hits@);
                let item = UserResponse { user_id: u.id, login: u.login.clone() };
                hits.push(item);
                assert(user_list_view(hits@) =~= hv + seq![item@]);
            }
            i = i + 1;
        }
        assert(sv.users.take(sv.users.len() as int) =~= sv.users);
        let ghost all = user_list_view(hits@);
        let ghost before = login_order();
        let mut sorted: Vec<UserResponse> = Vec::new();
        assert(all.skip(all.len() as int) =~= Seq::<UserResponseView>::empty());
        while hits.len() > 0
            invariant
                hits@.len() <= all.len(),
                user_list_view(hits@) == all.take(hits@.len() as int),
                before == login_order(),
                user_list_view(sorted@) == sort_by(all.skip(hits@.len() as int), before),
            decreases hits@.len(),
        {
            let n = hits.len();
            let x = hits.pop().unwrap();
            proof {
                assert(all.take(n as int)[n - 1] == x@);
                assert(user_list_view(hits@) =~= all.take(n - 1));
                lemma_sort_step(all, before, n as int);
            }
            let ghost sv2 = user_list_view(sorted@);
            let mut j: usize = 0;
            while j < sorted.len() && str_lt(sorted[j].login.as_str(), x.login.as_str())
                invariant
                    j <= sorted.len(),
                    sv2 == user_list_view(sorted@),
                    before == login_order(),
                    forall|k: int| 0 <= k < j ==> !before(x@, #[trigger] sv2[k]),
                decreases sorted.len() - j,
            {
                assert(sv2[j as int] == sorted@[j as int]@);
                j = j + 1;
            }
            proof {
                if j < sorted.len() {
                    assert(sv2[j as int] == sorted@[j as int]@);
                }
                lemma_insert_sorted_at(x@, sv2, before, j as int);
            }
            sorted.insert(j, x);
            assert(user_list_view(sorted@) =~= sv2.insert(j as int, x@));
        }
        assert(all.skip(0) =~= all);
        let ghost full = user_list_view(sorted@);
        sorted.truncate(20);
        assert(user_list_view(sorted@) =~= at_most(full, 20));
        sorted
    }
}

} // verus!
