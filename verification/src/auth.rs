//! Who a request comes from: bearer tokens and sessions.
use vstd::prelude::*;

use crate::error::{fails_with, AppError, AppResult, UNAUTHORIZED};
use crate::models::AuthResponse;
use crate::password::password_matches;
use crate::store::Store;
use crate::text::{chars_of, string_of, trimmed, trimmed_string};

verus! {

pub open spec fn bearer_prefix() -> Seq<char> {
    seq!['B', 'e', 'a', 'r', 'e', 'r', ' ']
}

/// The token that an `Authorization` header value carries: the text after
/// `Bearer `, without surrounding white space, when that is not empty.
pub open spec fn bearer_token_of(header: Seq<char>) -> Option<Seq<char>> {
    if header.len() >= 7 && header.take(7) == bearer_prefix() && trimmed(header.skip(7)).len() > 0 {
        Some(trimmed(header.skip(7)))
    } else {
        None
    }
}

/// The bearer token of an `Authorization` header; `header` is `None` when
/// the request has no such header or its value is not visible text.
pub fn bearer_token(header: Option<&str>) -> (r: AppResult<String>)
    ensures
        match header {
            Some(h) => match bearer_token_of(h@) {
                Some(t) => r matches Ok(x) && x@ == t,
                None => fails_with(r, UNAUTHORIZED, "Нужна авторизация"@),
            },
            None => fails_with(r, UNAUTHORIZED, "Нужна авторизация"@),
        },
{
    let h = match header {
        Some(h) => h,
        None => return Err(AppError::new(UNAUTHORIZED, "Нужна авторизация")),
    };
    let cs = chars_of(h);
    if cs.len() < 7 || cs[0] != 'B' || cs[1] != 'e' || cs[2] != 'a' || cs[3] != 'r' || cs[4] != 'e'
        || cs[5] != 'r' || cs[6] != ' ' {
        proof {
            if cs@.len() >= 7 {
                assert(cs@.take(7)[0] == cs@[0]);
                assert(cs@.take(7)[1] == cs@[1]);
                assert(cs@.take(7)[2] == cs@[2]);
                assert(cs@.take(7)[3] == cs@[3]);
                assert(cs@.take(7)[4] == cs@[4]);
                assert(cs@.take(7)[5] == cs@[5]);
                assert(cs@.take(7)[6] == cs@[6]);
            }
        }
        return Err(AppError::new(UNAUTHORIZED, "Нужна авторизация"));
    }
    assert(cs@.take(7) =~= bearer_prefix());
    let mut rest: Vec<char> = Vec::new();
    let mut i: usize = 7;
    while i < cs.len()
        invariant
            7 <= i <= cs.len(),
            rest@ == cs@.subrange(7, i as int),
        decreases cs.len() - i,
    {
        rest.push(cs[i]);
        assert(cs@.subrange(7, i + 1) =~= cs@.subrange(7, i as int).push(cs@[i as int]));
        i = i + 1;
    }
    assert(rest@ =~= h@.skip(7));
    let rest = string_of(&rest);
    let token = trimmed_string(rest.as_str());
    if token.as_str().is_empty() {
        return Err(AppError::new(UNAUTHORIZED, "Нужна авторизация"));
    }
    Ok(token)
}

impl Store {
    /// The user that an `Authorization` header authenticates.
    pub fn authenticated_user_id(&self, header: Option<&str>) -> (r: AppResult<i64>)
        requires
            self.wf(),
        ensures
            match header {
                Some(h) => match bearer_token_of(h@) {
                    Some(t) => match self@.session_user(t) {
                        Some(u) => r == Ok::<i64, AppError>(u),
                        None => fails_with(r, UNAUTHORIZED, "Нужна авторизация"@),
                    },
                    None => fails_with(r, UNAUTHORIZED, "Нужна авторизация"@),
                },
                None => fails_with(r, UNAUTHORIZED, "Нужна авторизация"@),
            },
    {
        let token = bearer_token(header)?;
        self.authenticate_token(&token)
    }

    /// The user that the `token` parameter of a websocket request
    /// authenticates.
    pub fn websocket_user_id(&self, token: Option<&String>) -> (r: AppResult<i64>)
        requires
            self.wf(),
        ensures
            match token {
                Some(t) => match self@.session_user(t@) {
                    Some(u) => r == Ok::<i64, AppError>(u),
                    None => fails_with(r, UNAUTHORIZED, "Нужна авторизация"@),
                },
                None => fails_with(r, UNAUTHORIZED, "Нужна авторизация"@),
            },
    {
        match token {
            Some(t) => self.authenticate_token(t),
            None => Err(AppError::new(UNAUTHORIZED, "Нужна авторизация")),
        }
    }

    /// Logs a user in: checks the login and password and opens a session
    /// under `token`.
    pub fn login(&mut self, login: &str, password: &str, token: String) -> (r: AppResult<AuthResponse>)
        requires
            old(self).wf(),
        ensures
            final(self).wf(),
            ({
                let s = old(self)@;
                match s.live_user_with_login(trimmed(login@)) {
                    Some(u) => if !password_matches(password@, u.password_hash) {
                        fails_with(r, UNAUTHORIZED, "Неверные данные"@) && final(self)@ == s
                    } else if s.session_user(token@) is Some {
                        fails_with(r, 500, "UNIQUE constraint failed: sessions.token"@)
                            && final(self)@ == s
                    } else {
                        &&& r matches Ok(a) && a.user_id == u.id && a.login@ == u.login && a.token@
                            == token@
                        &&& final(self)@ == s.add_session(u.id, token@)
                    },
                    None => fails_with(r, UNAUTHORIZED, "Неверные данные"@) && final(self)@ == s,
                }
            }),
    {
        let (user_id, login) = self.verify_user(login, password)?;
        let kept = token.clone();
        self.create_session(user_id, token)?;
        Ok(AuthResponse { user_id, login, token: kept })
    }
}

} // verus!
