//! The conversation as a chat window holds it, and the breaking of its text
//! into lines.

use vstd::prelude::*;
use crate::inference::generator::Message;
use crate::text::{chars_of, text_from};

verus! {

/// The narrowest window in which text is broken into lines.
pub const MIN_WRAP_WIDTH: usize = 10;

/// The most characters shown of a text in a window too narrow to break it.
pub const NARROW_LIMIT: usize = 200;

/// Lines under construction: those that are done, and the one being
/// filled.
pub struct Wrapping {
    pub lines: Seq<Seq<char>>,
    pub current: Seq<char>,
}

impl Wrapping {
    /// The lines with the one being filled added, unless it is empty.
    pub open spec fn closed_off(self) -> Seq<Seq<char>> {
        if self.current.len() > 0 {
            self.lines.push(self.current)
        } else {
            self.lines
        }
    }

    /// What one more character makes of the lines: a line feed ends the
    /// line being filled and adds an empty one, a character that finds the
    /// line full starts the next, any other joins the line.
    pub open spec fn with(self, c: char, width: nat) -> Wrapping {
        if c == '\n' {
            Wrapping { lines: self.closed_off().push(Seq::empty()), current: Seq::empty() }
        } else if self.current.len() >= width {
            Wrapping { lines: self.lines.push(self.current), current: seq![c] }
        } else {
            Wrapping { lines: self.lines, current: self.current.push(c) }
        }
    }
}

/// The lines under construction after all of `text`.
pub open spec fn wrapping_of(text: Seq<char>, width: nat) -> Wrapping
    decreases text.len(),
{
    if text.len() == 0 {
        Wrapping { lines: Seq::empty(), current: Seq::empty() }
    } else {
        wrapping_of(text.drop_last(), width).with(text.last(), width)
    }
}

/// `text` broken into lines of at most `width` characters. In a window
/// narrower than ten characters the text is not broken: its first two
/// hundred characters make the one line. There is always a line.
pub open spec fn wrapped(text: Seq<char>, width: nat) -> Seq<Seq<char>> {
    if width < 10 {
        seq![if text.len() <= 200 {
            text
        } else {
            text.take(200)
        }]
    } else {
        let lines = wrapping_of(text, width).closed_off();
        if lines.len() == 0 {
            seq![Seq::empty()]
        } else {
            lines
        }
    }
}

/// `text` without its line feeds.
pub open spec fn unbroken(text: Seq<char>) -> Seq<char>
    decreases text.len(),
{
    if text.len() == 0 {
        Seq::empty()
    } else if text.last() == '\n' {
        unbroken(text.drop_last())
    } else {
        unbroken(text.drop_last()).push(text.last())
    }
}

/// Breaking a text into lines keeps its characters: the lines, one after
/// the other, are the text without its line feeds. No line holds a line
/// feed, and none is longer than the width.
pub proof fn lemma_wrapping_keeps_text(text: Seq<char>, width: nat)
    requires
        width >= 10,
    ensures
        wrapping_of(text, width).closed_off().flatten() == unbroken(text),
        wrapping_of(text, width).current.len() <= width,
        forall|i: int|
            0 <= i < wrapping_of(text, width).lines.len() ==> (#[trigger] wrapping_of(
                text,
                width,
            ).lines[i]).len() <= width,
        wrapped(text, width).flatten() == unbroken(text),
        forall|i: int|
            0 <= i < wrapped(text, width).len() ==> (#[trigger] wrapped(text, width)[i]).len()
                <= width,
    decreases text.len(),
{
    broadcast use Seq::lemma_flatten_push;

    if text.len() == 0 {
        assert(Seq::<Seq<char>>::empty().flatten() =~= Seq::<char>::empty());
        assert(unbroken(text) =~= Seq::<char>::empty());
        assert(seq![Seq::<char>::empty()].flatten() =~= Seq::<char>::empty()) by {
            assert(seq![Seq::<char>::empty()] =~= Seq::<Seq<char>>::empty().push(Seq::empty()));
        }
    } else {
        lemma_wrapping_keeps_text(text.drop_last(), width);
        let before = wrapping_of(text.drop_last(), width);
        let after = wrapping_of(text, width);
        let c = text.last();
        if c == '\n' {
            assert(after.closed_off().flatten() =~= before.closed_off().flatten());
        } else if before.current.len() >= width {
            assert(after.closed_off().flatten() =~= before.closed_off().flatten().push(c));
        } else {
            if before.current.len() > 0 {
                assert(after.closed_off().flatten() =~= before.lines.flatten() + before.current.push(
                    c,
                ));
                assert(before.closed_off().flatten() =~= before.lines.flatten() + before.current);
            } else {
                assert(before.current.push(c) =~= seq![c]);
            }
            assert(after.closed_off().flatten() =~= before.closed_off().flatten().push(c));
        }
        if after.closed_off().len() == 0 {
            assert(seq![Seq::<char>::empty()].flatten() =~= Seq::<char>::empty()) by {
                assert(seq![Seq::<char>::empty()] =~= Seq::<Seq<char>>::empty().push(
                    Seq::empty(),
                ));
            }
            assert(Seq::<Seq<char>>::empty().flatten() =~= Seq::<char>::empty());
        }
    }
}

/// Breaks `text` into lines of at most `max_width` characters.
pub fn wrap_text(text: &str, max_width: usize) -> (lines: Vec<String>)
    ensures
        lines@.map_values(|s: String| s@) == wrapped(text@, max_width as nat),
{
    let chars = chars_of(text);
    if max_width < MIN_WRAP_WIDTH {
        let mut head: Vec<char> = Vec::new();
        let mut i: usize = 0;
        while i < chars.len() && i < NARROW_LIMIT
            invariant
                i <= chars@.len(),
                i <= NARROW_LIMIT,
                head@ == chars@.take(i as int),
            decreases chars@.len() - i,
        {
            head.push(chars[i]);
            proof {
                assert(chars@.take(i + 1) =~= chars@.take(i as int).push(chars@[i as int]));
            }
            i += 1;
        }
        let mut lines: Vec<String> = Vec::new();
        lines.push(text_from(&head));
        proof {
            assert(chars@.take(chars@.len() as int) =~= chars@);
            assert(lines@.map_values(|s: String| s@) =~= wrapped(text@, max_width as nat));
        }
        return lines;
    }
    let mut lines: Vec<String> = Vec::new();
    let mut current: Vec<char> = Vec::new();
    let mut i: usize = 0;
    assert(chars@.take(0) =~= Seq::<char>::empty());
    assert(lines@.map_values(|s: String| s@) =~= Seq::<Seq<char>>::empty());
    while i < chars.len()
        invariant
            i <= chars@.len(),
            max_width >= 10,
            (Wrapping { lines: lines@.map_values(|s: String| s@), current: current@ })
                == wrapping_of(chars@.take(i as int), max_width as nat),
        decreases chars@.len() - i,
    {
        let c = chars[i];
        let ghost done = lines@.map_values(|s: String| s@);
        let ghost before = Wrapping { lines: done, current: current@ };
        proof {
            assert(chars@.take(i + 1).drop_last() =~= chars@.take(i as int));
            assert(chars@.take(i + 1).last() == c);
        }
        if c == '\n' {
            if current.len() > 0 {
                let line = text_from(&current);
                lines.push(line);
                current = Vec::new();
            }
            lines.push(String::new());
            proof {
                assert(lines@.map_values(|s: String| s@) =~= before.closed_off().push(Seq::empty()));
            }
        } else if current.len() >= max_width {
            let line = text_from(&current);
            lines.push(line);
            current = Vec::new();
            current.push(c);
            proof {
                assert(lines@.map_values(|s: String| s@) =~= done.push(before.current));
                assert(current@ =~= seq![c]);
            }
        } else {
            current.push(c);
        }
        i += 1;
    }
    proof {
        assert(chars@.take(chars@.len() as int) =~= chars@);
    }
    let ghost done = lines@.map_values(|s: String| s@);
    if current.len() > 0 {
        let line = text_from(&current);
        lines.push(line);
        proof {
            assert(lines@.map_values(|s: String| s@) =~= done.push(current@));
        }
    }
    if lines.len() == 0 {
        lines.push(String::new());
        proof {
            assert(lines@.map_values(|s: String| s@) =~= seq![Seq::<char>::empty()]);
        }
    }
    lines
}

/// What a chat window holds, as specifications see it.
pub struct ChatState {
    pub messages: Seq<(Seq<char>, Seq<char>)>,
    pub streaming: bool,
}

pub struct ChatWidget {
    messages: Vec<Message>,
    model_name: String,
    streaming_message: Option<String>,
}

impl ChatWidget {
    /// The turns shown, each by its role and its content.
    pub closed spec fn turns(&self) -> Seq<(Seq<char>, Seq<char>)> {
        self.messages@.map_values(|m: Message| (m.role@, m.content@))
    }

    /// A reply is being written.
    pub closed spec fn streaming(&self) -> bool {
        self.streaming_message is Some
    }

    pub closed spec fn spec_model_name(&self) -> Seq<char> {
        self.model_name@
    }

    pub fn new(model_name: &str) -> (w: Self)
        ensures
            w.turns() == Seq::<(Seq<char>, Seq<char>)>::empty(),
            !w.streaming(),
            w.spec_model_name() == model_name@,
    {
        let w = ChatWidget {
            messages: Vec::new(),
            model_name: String::from_str(model_name),
            streaming_message: None,
        };
        assert(w.turns() =~= Seq::<(Seq<char>, Seq<char>)>::empty());
        w
    }

    /// Adds a turn that is complete. No reply is being written after it.
    pub fn add_message(&mut self, role: &str, content: &str)
        ensures
            final(self).turns() == old(self).turns().push((role@, content@)),
            !final(self).streaming(),
            final(self).spec_model_name() == old(self).spec_model_name(),
    {
        self.messages.push(Message { role: String::from_str(role), content: String::from_str(content) });
        self.streaming_message = None;
        assert(self.turns() =~= old(self).turns().push((role@, content@)));
    }

    /// Opens an empty turn of `role` that a reply is written into.
    pub fn start_streaming(&mut self, role: &str)
        ensures
            final(self).turns() == old(self).turns().push((role@, Seq::empty())),
            final(self).streaming(),
            final(self).spec_model_name() == old(self).spec_model_name(),
    {
        self.streaming_message = Some(String::new());
        self.messages.push(Message { role: String::from_str(role), content: String::new() });
        assert(self.turns() =~= old(self).turns().push((role@, Seq::empty())));
    }

    /// Adds `token` to the last turn while a reply is being written; at
    /// other times, and where there is no turn, nothing happens.
    pub fn append_token(&mut self, token: &str)
        ensures
            final(self).streaming() == old(self).streaming(),
            final(self).spec_model_name() == old(self).spec_model_name(),
            old(self).streaming() && old(self).turns().len() > 0 ==> final(self).turns() == old(self).turns().drop_last().push(
                (old(self).turns().last().0, old(self).turns().last().1 + token@),
            ),
            !(old(self).streaming() && old(self).turns().len() > 0) ==> final(self).turns() == old(self).turns(),
    {
        match &mut self.streaming_message {
            Some(streaming) => {
                streaming.append(token);
            },
            None => {
                return ;
            },
        }
        match self.messages.pop() {
            Some(last) => {
                let mut content = last.content;
                content.append(token);
                self.messages.push(Message { role: last.role, content });
                assert(self.turns() =~= old(self).turns().drop_last().push(
                    (old(self).turns().last().0, old(self).turns().last().1 + token@),
                ));
            },
            None => {
                assert(self.turns() =~= old(self).turns());
            },
        }
    }

    /// Ends the writing of a reply.
    pub fn finish_streaming(&mut self)
        ensures
            final(self).turns() == old(self).turns(),
            !final(self).streaming(),
            final(self).spec_model_name() == old(self).spec_model_name(),
    {
        self.streaming_message = None;
    }

    pub fn is_streaming(&self) -> (streaming: bool)
        ensures
            streaming == self.streaming(),
    {
        self.streaming_message.is_some()
    }

    /// The turns shown, oldest first.
    pub fn messages(&self) -> (m: &Vec<Message>)
        ensures
            m@.map_values(|m: Message| (m.role@, m.content@)) == self.turns(),
    {
        &self.messages
    }

    pub fn model_name(&self) -> (name: &str)
        ensures
            name@ == self.spec_model_name(),
    {
        self.model_name.as_str()
    }
}

} // verus!
