//! What the server does with a message that arrives on a user's websocket:
//! store it, and name the users whose open sockets receive it.
use vstd::prelude::*;

use crate::accounts::full_text;
use crate::error::{is_error, AppResult, BAD_REQUEST, FORBIDDEN, INTERNAL_SERVER_ERROR};
use crate::messaging::message_error;
use crate::models::{ChatMessage, IncomingWsMessage};
use crate::store::Store;
use crate::tables::StoreView;
use crate::text::trimmed;

verus! {

/// Whether the answer to a socket message is a refusal with this status and
/// message.
pub open spec fn refused(r: Option<AppResult<(ChatMessage, Vec<i64>)>>, status: u16, message: Seq<char>) -> bool {
    r matches Some(Err(e)) && is_error(e, status, message)
}

/// Whether a socket may be opened for this user id.
pub fn accepts_socket_user(user_id: i64) -> (r: bool)
    ensures
        r == (user_id > 0),
{
    user_id > 0
}

impl Store {
    /// Handles a message that user `user_id` sent on its socket. `None`
    /// means the message names neither a chat nor a receiver and is ignored.
    /// Otherwise the answer is the stored message and the users to deliver it
    /// to (the group's current members, or the two users of a direct
    /// message), or the reason it was refused. The sender is always the
    /// socket's user, whatever the client claims.
    pub fn handle_incoming(&mut self, user_id: i64, incoming: &IncomingWsMessage, now: &str) -> (r: Option<AppResult<(ChatMessage, Vec<i64>)>>)
        requires
            old(self).wf(),
        ensures
            final(self).wf(),
            ({
                let s0 = old(self)@;
                let text = incoming.text@;
                match incoming.chat_id {
                    Some(c) => match message_error(text) {
                        Some(msg) => refused(r, BAD_REQUEST, msg) && final(self)@ == s0,
                        None => if !s0.is_member(user_id, c) {
                            refused(r, FORBIDDEN, "Нет доступа к группе"@) && final(self)@ == s0
                        } else if s0.message_seq == i64::MAX {
                            refused(r, INTERNAL_SERVER_ERROR, full_text()) && final(self)@ == s0
                        } else if s0.find_user(user_id) is None {
                            refused(r, INTERNAL_SERVER_ERROR, "FOREIGN KEY constraint failed"@)
                                && final(self)@ == s0
                        } else {
                            let s = s0.add_message(user_id, None, Some(c), trimmed(text), now@);
                            &&& final(self)@ == s
                            &&& r matches Some(Ok((m, targets)))
                            &&& Some(m@) == s.with_sender(s.messages.last())
                            &&& m.sender_id == user_id
                            &&& targets@ == s.member_ids(c)
                        },
                    },
                    None => match incoming.receiver_id {
                        Some(t) => match message_error(text) {
                            Some(msg) => refused(r, BAD_REQUEST, msg) && final(self)@ == s0,
                            None => if !s0.is_live(t) {
                                refused(r, BAD_REQUEST, "Получатель не найден"@) && final(self)@ == s0
                            } else if s0.blocked_either_way(user_id, t) {
                                refused(r, FORBIDDEN, "Переписка заблокирована"@) && final(self)@ == s0
                            } else if s0.message_seq == i64::MAX {
                                refused(r, INTERNAL_SERVER_ERROR, full_text()) && final(self)@ == s0
                            } else if s0.find_user(user_id) is None {
                                refused(r, INTERNAL_SERVER_ERROR, "FOREIGN KEY constraint failed"@)
                                    && final(self)@ == s0
                            } else {
                                let s = s0.add_message(user_id, Some(t), None, trimmed(text), now@);
                                &&& final(self)@ == s
                                &&& r matches Some(Ok((m, targets)))
                                &&& Some(m@) == s.with_sender(s.messages.last())
                                &&& m.sender_id == user_id
                                &&& targets@ == seq![user_id, t]
                            },
                        },
                        None => r is None && final(self)@ == s0,
                    },
                }
            }),
    {
        if let Some(chat_id) = incoming.chat_id {
            match self.save_group_message(user_id, chat_id, incoming.text.as_str(), now) {
                Ok(saved) => {
                    let targets = self.group_member_ids(chat_id);
                    Some(Ok((saved, targets)))
                },
                Err(e) => Some(Err(e)),
            }
        } else if let Some(receiver_id) = incoming.receiver_id {
            match self.save_direct_message(user_id, receiver_id, incoming.text.as_str(), now) {
                Ok(saved) => {
                    let mut targets: Vec<i64> = Vec::new();
                    targets.push(user_id);
                    targets.push(receiver_id);
                    assert(targets@ =~= seq![user_id, receiver_id]);
                    Some(Ok((saved, targets)))
                },
                Err(e) => Some(Err(e)),
            }
        } else {
            None
        }
    }
}

} // verus!
