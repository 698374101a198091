//! Room chat: a line is shown and forgotten, and never becomes part of a room.
use vstd::prelude::*;

use std::collections::VecDeque;

use crate::text::{self, clean_name};

verus! {

/// The longest chat line, in characters.
pub const MAX_CHAT_LEN: usize = 240;

/// How many lines somebody who joins late is shown.
pub const CHAT_SCROLLBACK: usize = 12;

/// One line of chat, and the connection that said it.
#[derive(Clone, Debug)]
pub struct ChatLine {
    pub who: u32,
    pub text: String,
}

/// The last `n` items, or all where there are fewer.
pub open spec fn tail<T>(s: Seq<T>, n: nat) -> Seq<T> {
    if s.len() <= n {
        s
    } else {
        s.skip(s.len() - n)
    }
}

/// What a chat line becomes on its way to other screens. An empty one is dropped.
pub fn clean_chat_text(text: &str) -> (r: String)
    ensures
        r@ == text::cleaned(text@, MAX_CHAT_LEN as nat),
{
    clean_name(text, MAX_CHAT_LEN)
}

/// Records a line in the scrollback, the oldest lines out first.
pub fn push_chat(chat: &mut VecDeque<ChatLine>, line: ChatLine)
    requires
        old(chat)@.len() < usize::MAX,
    ensures
        final(chat)@ == tail(old(chat)@.push(line), CHAT_SCROLLBACK as nat),
{
    chat.push_back(line);
    let ghost all = chat@;
    assert(all.skip(0) =~= all);
    while chat.len() > CHAT_SCROLLBACK
        invariant
            chat@.len() <= all.len(),
            chat@ == all.skip(all.len() - chat@.len()),
            all.len() > CHAT_SCROLLBACK ==> chat@.len() >= CHAT_SCROLLBACK,
            all.len() <= CHAT_SCROLLBACK ==> chat@ == all,
        decreases chat@.len(),
    {
        let ghost before = chat@;
        let _ = chat.pop_front();
        proof {
            assert(chat@ =~= all.skip(all.len() - chat@.len()));
        }
    }
}

/// However much is said, the scrollback stays short and ends with the newest line.
pub proof fn law_scrollback_is_bounded_and_keeps_the_newest(chat: Seq<ChatLine>, line: ChatLine)
    ensures
        tail(chat.push(line), CHAT_SCROLLBACK as nat).len() <= CHAT_SCROLLBACK,
        tail(chat.push(line), CHAT_SCROLLBACK as nat).last() == line,
        chat.len() < CHAT_SCROLLBACK ==> tail(chat.push(line), CHAT_SCROLLBACK as nat) == chat.push(
            line,
        ),
        chat.len() == CHAT_SCROLLBACK ==> tail(chat.push(line), CHAT_SCROLLBACK as nat)
            == chat.drop_first().push(line),
{
    if chat.len() == CHAT_SCROLLBACK {
        assert(chat.push(line).skip(1) =~= chat.drop_first().push(line));
    }
}

/// The scrollback after a line was said: the line is last, the lines before it are the last
/// ones that were there, and there are twelve at most.
pub open spec fn line_added(had: Seq<ChatLine>, now: Seq<ChatLine>) -> bool {
    &&& now.len() == if had.len() < 12 {
        had.len() + 1
    } else {
        12
    }
    &&& forall|k: int|
        0 <= k < now.len() - 1 ==> #[trigger] now[k] == had[had.len() - (now.len() - 1) + k]
}

/// A line goes behind the others, and the oldest go first.
pub proof fn law_a_line_goes_behind_the_others(had: Seq<ChatLine>, line: ChatLine)
    ensures
        line_added(had, tail(had.push(line), CHAT_SCROLLBACK as nat)),
        tail(had.push(line), CHAT_SCROLLBACK as nat).last() == line,
{
}

} // verus!
