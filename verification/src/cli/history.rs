//! The turns of past conversations, and how they are quoted back to a
//! model. Where they are kept between runs is the caller's business.

use vstd::prelude::*;
use crate::inference::generator::Message;

verus! {

/// One turn as it is quoted: the role, a colon and a space, the content.
pub open spec fn quoted(message: Message) -> Seq<char> {
    message.role@ + ": "@ + message.content@
}

/// The turns quoted one after the other, a blank line between them.
pub open spec fn quoted_all(messages: Seq<Message>) -> Seq<char>
    decreases messages.len(),
{
    if messages.len() == 0 {
        Seq::empty()
    } else if messages.len() == 1 {
        quoted(messages[0])
    } else {
        quoted_all(messages.drop_last()) + "\n\n"@ + quoted(messages.last())
    }
}

/// The last `n` of `messages`, or all of them where there are fewer.
pub open spec fn last_n(messages: Seq<Message>, n: nat) -> Seq<Message> {
    if messages.len() <= n {
        messages
    } else {
        messages.skip(messages.len() - n)
    }
}

pub struct History {
    messages: Vec<Message>,
}

impl View for History {
    type V = Seq<Message>;

    closed spec fn view(&self) -> Seq<Message> {
        self.messages@
    }
}

impl History {
    pub fn new() -> (h: Self)
        ensures
            h@ == Seq::<Message>::empty(),
    {
        History { messages: Vec::new() }
    }

    /// A history of these turns.
    pub fn from_messages(messages: Vec<Message>) -> (h: Self)
        ensures
            h@ == messages@,
    {
        History { messages }
    }

    pub fn add(&mut self, role: &str, content: &str)
        ensures
            final(self)@.len() == old(self)@.len() + 1,
            final(self)@.drop_last() == old(self)@,
            final(self)@.last().role@ == role@,
            final(self)@.last().content@ == content@,
    {
        self.messages.push(Message { role: String::from_str(role), content: String::from_str(content) });
        assert(self.messages@.drop_last() =~= old(self).messages@);
    }

    pub fn clear(&mut self)
        ensures
            final(self)@ == Seq::<Message>::empty(),
    {
        self.messages = Vec::new();
    }

    pub fn messages(&self) -> (m: &[Message])
        ensures
            m@ == self@,
    {
        self.messages.as_slice()
    }

    pub fn last_n_messages(&self, n: usize) -> (m: &[Message])
        ensures
            m@ == last_n(self@, n as nat),
    {
        let len = self.messages.len();
        if len <= n {
            self.messages.as_slice()
        } else {
            let parts = self.messages.as_slice().split_at(len - n);
            proof {
                assert(self.messages@.subrange(len - n, len as int) =~= self.messages@.skip(len - n));
            }
            parts.1
        }
    }

    /// The last `max_messages` turns, quoted for a model.
    pub fn format_for_context(&self, max_messages: usize) -> (text: String)
        ensures
            text@ == quoted_all(last_n(self@, max_messages as nat)),
    {
        let turns = self.last_n_messages(max_messages);
        let mut out = String::new();
        let mut i: usize = 0;
        assert(turns@.take(0) =~= Seq::<Message>::empty());
        while i < turns.len()
            invariant
                i <= turns@.len(),
                out@ == quoted_all(turns@.take(i as int)),
            decreases turns@.len() - i,
        {
            proof {
                assert(turns@.take(i + 1).drop_last() =~= turns@.take(i as int));
                assert(turns@.take(i + 1).last() == turns@[i as int]);
                if i == 0 {
                    assert(turns@.take(1)[0] == turns@[0]);
                }
            }
            let ghost before = out@;
            if i > 0 {
                out.append("\n\n");
            }
            out.append(turns[i].role.as_str());
            out.append(": ");
            out.append(turns[i].content.as_str());
            proof {
                let q = quoted(turns@[i as int]);
                if i > 0 {
                    assert(out@ =~= before + "\n\n"@ + q);
                } else {
                    assert(before =~= Seq::<char>::empty());
                    assert(out@ =~= q);
                }
            }
            i += 1;
        }
        assert(turns@.take(turns@.len() as int) =~= turns@);
        out
    }
}

impl Default for History {
    fn default() -> (h: Self)
        ensures
            h@ == Seq::<Message>::empty(),
    {
        History::new()
    }
}

} // verus!
