//! One conversation with a model: the messages exchanged, the tokens that
//! stand in the context, and the loop that turns a prompt into a reply.
//!
//! The generator does not run the model itself. Whoever calls it brings a
//! function that gives the next token for what has been fed so far; the
//! generator decides what is fed, when to stop, what is kept of the
//! history, and what is reported on the way.

use vstd::prelude::*;
use crate::inference::paged_cache::PagedKvCache;
use crate::inference::sampler::check_token;
use crate::model::metadata::GgufMetadata;
use crate::model::tokenizer::{
    complete, decoded_text, fragment, remainder, shown_after, text_of, TokenizerError,
    TokenizerWrapper,
};

verus! {

/// What a generation reports while it runs.
#[derive(Debug)]
pub enum StreamEvent {
    /// A fragment of the reply.
    Token(String),
    /// The prompt has this many tokens; the model is about to read it.
    PrefillStatus(usize),
    /// The reply is complete.
    Done,
}

/// One turn of a conversation.
#[derive(Debug)]
pub struct Message {
    pub role: String,
    pub content: String,
}

impl Clone for Message {
    fn clone(&self) -> (copy: Self)
        ensures
            copy == *self,
    {
        Message { role: self.role.clone(), content: self.content.clone() }
    }
}

/// A turn as a template sees it: the role and the content.
pub open spec fn turn_of(message: Message) -> (Seq<char>, Seq<char>) {
    (message.role@, message.content@)
}

/// A conversation as a template sees it.
pub open spec fn turns_of(messages: Seq<Message>) -> Seq<(Seq<char>, Seq<char>)> {
    messages.map_values(|m: Message| turn_of(m))
}

/// What the template `template` renders for a conversation, each turn
/// given by its role and its content; `None` where the template cannot be
/// compiled or rendering fails.
pub uninterp spec fn rendered_chat(template: Seq<char>, turns: Seq<(Seq<char>, Seq<char>)>) -> Option<
    Seq<char>,
>;

/// Compiles `template` with `minijinja` and renders it with the variable
/// `messages` bound to the list of turns, each a map with the keys `role`
/// and `content`. The text is a function of the template and the turns; a
/// failure comes back as its message.
#[verifier::external_body]
fn render_chat(template: &str, messages: &Vec<Message>) -> (r: Result<String, String>)
    ensures
        match r {
            Ok(s) => rendered_chat(template@, turns_of(messages@)) == Some(s@),
            Err(_) => rendered_chat(template@, turns_of(messages@)) is None,
        },
{
    let mut env = minijinja::Environment::new();
    env.add_template("chat", template).map_err(|e| e.to_string())?;
    let turns: Vec<minijinja::Value> = messages.iter().map(
        |m| [("role", m.role.as_str()), ("content", m.content.as_str())].into_iter().collect(),
    ).collect();
    let context: minijinja::Value = [("messages", minijinja::Value::from(turns))].into_iter().collect();
    env.get_template("chat").and_then(|t| t.render(context)).map_err(|e| e.to_string())
}

/// Why a conversation could not be rendered.
#[derive(Debug)]
pub enum TemplateError {
    /// The model brought no chat template.
    Missing,
    /// The template could not be compiled or rendered.
    Render(String),
}

/// The chat template of a model, if it has one.
#[derive(Debug)]
pub struct ChatTemplate {
    template_str: Option<String>,
}

impl Clone for ChatTemplate {
    fn clone(&self) -> (copy: Self)
        ensures
            copy.source() == self.source(),
    {
        match &self.template_str {
            Some(s) => ChatTemplate { template_str: Some(s.clone()) },
            None => ChatTemplate { template_str: None },
        }
    }
}

impl ChatTemplate {
    /// The text of the template, if there is one.
    pub closed spec fn source(&self) -> Option<Seq<char>> {
        text_of(self.template_str)
    }

    /// What the template renders for a conversation given by its turns;
    /// `None` where there is no template or rendering fails.
    pub open spec fn spec_render(&self, turns: Seq<(Seq<char>, Seq<char>)>) -> Option<Seq<char>> {
        match self.source() {
            Some(t) => rendered_chat(t, turns),
            None => None,
        }
    }

    /// What the template renders for `messages`; `None` where there is no
    /// template or rendering fails.
    pub open spec fn spec_apply(&self, messages: Seq<Message>) -> Option<Seq<char>> {
        self.spec_render(turns_of(messages))
    }

    /// Keeps the template as it is given, with or without a text. It is
    /// compiled when it is applied, so keeping it does not fail.
    pub fn new(template: Option<String>) -> (r: Result<Self, TemplateError>)
        ensures
            r matches Ok(t) && t.source() == text_of(template),
    {
        Ok(ChatTemplate { template_str: template })
    }

    /// Whether the model brought a template.
    pub fn is_present(&self) -> (present: bool)
        ensures
            present == self.source() is Some,
    {
        self.template_str.is_some()
    }

    /// Renders the conversation into the prompt that the model expects.
    pub fn apply(&self, messages: &Vec<Message>) -> (r: Result<String, TemplateError>)
        ensures
            match r {
                Ok(s) => self.spec_apply(messages@) == Some(s@),
                Err(e) => self.spec_apply(messages@) is None && (e is Missing <==> self.source()
                    is None),
            },
    {
        match &self.template_str {
            Some(t) => match render_chat(t.as_str(), messages) {
                Ok(s) => Ok(s),
                Err(why) => Err(TemplateError::Render(why)),
            },
            None => Err(TemplateError::Missing),
        }
    }
}

/// Why a reply could not be generated.
#[derive(Debug)]
pub enum GenerateError {
    /// The conversation could not be rendered.
    Template(TemplateError),
    /// The tokenizer failed.
    Tokenizer(TokenizerError),
    /// The prompt and the tokens asked for do not fit the context, even
    /// with all earlier tokens dropped.
    ContextOverflow,
    /// The model gave no usable token; the reason is kept.
    Inference(String),
}

/// How many of the oldest tokens leave the history before a prompt of
/// `prompt` tokens is answered with up to `max_tokens` tokens in a context
/// of `limit` tokens: the excess over the limit where the history is longer
/// than that, and all of the history otherwise.
pub open spec fn dropped_for(history: nat, prompt: nat, max_tokens: nat, limit: nat) -> nat {
    let total = history + prompt + max_tokens;
    if total > limit {
        let excess = (total - limit) as nat;
        if excess < history {
            excess
        } else {
            history
        }
    } else {
        0
    }
}

/// The number of tokens a generation may produce: as many as asked for,
/// and one where none is asked for, since the first token is always taken.
pub open spec fn budget(max_tokens: nat) -> nat {
    if max_tokens == 0 {
        1
    } else {
        max_tokens
    }
}

/// The tokens of a reply end where they should: there is at least one, no
/// more than the budget, none before the last ends the sequence, and a
/// reply shorter than the budget ends with the end-of-sequence token.
pub open spec fn stops_rightly(reply: Seq<u32>, eos: u32, max_tokens: nat) -> bool {
    &&& 1 <= reply.len() <= budget(max_tokens)
    &&& forall|i: int| 0 <= i < reply.len() - 1 ==> reply[i] != eos
    &&& reply.len() < budget(max_tokens) ==> reply.last() == eos
}

/// The last `repeat_last_n` of `tokens`, or all of them where there are
/// fewer: the tokens that count as recently seen.
pub open spec fn penalty_window(tokens: Seq<u32>, repeat_last_n: nat) -> Seq<u32> {
    if tokens.len() <= repeat_last_n {
        tokens
    } else {
        tokens.skip(tokens.len() - repeat_last_n)
    }
}

/// The text that a run of events carries: its fragments, one after the
/// other.
pub open spec fn spoken(events: Seq<StreamEvent>) -> Seq<char>
    decreases events.len(),
{
    if events.len() == 0 {
        Seq::empty()
    } else {
        match events.last() {
            StreamEvent::Token(s) => spoken(events.drop_last()) + s@,
            _ => spoken(events.drop_last()),
        }
    }
}

/// The events of one generation come in order: first the size of the
/// prompt, then fragments only, and `Done` at the end.
pub open spec fn well_ordered(events: Seq<StreamEvent>, prompt: nat) -> bool {
    &&& events.len() >= 2
    &&& events[0] matches StreamEvent::PrefillStatus(n) && n == prompt
    &&& events.last() is Done
    &&& forall|i: int| 1 <= i < events.len() - 1 ==> #[trigger] events[i] is Token
}

/// What counts as handed out once `ids` have gone, one by one, through a
/// stream that started empty.
pub open spec fn shown_of(source: Seq<u8>, ids: Seq<u32>) -> Seq<char>
    decreases ids.len(),
{
    if ids.len() == 0 {
        Seq::empty()
    } else {
        let before = shown_of(source, ids.drop_last());
        match decoded_text(source, ids) {
            Some(d) => shown_after(before, d, fragment(before, d)),
            None => before,
        }
    }
}

/// The fragments handed out while `ids` went, one by one, through a stream
/// that started empty, one after the other.
pub open spec fn emitted(source: Seq<u8>, ids: Seq<u32>) -> Seq<char>
    decreases ids.len(),
{
    if ids.len() == 0 {
        Seq::empty()
    } else {
        match decoded_text(source, ids) {
            Some(d) => match fragment(shown_of(source, ids.drop_last()), d) {
                Some(f) => emitted(source, ids.drop_last()) + f,
                None => emitted(source, ids.drop_last()),
            },
            None => emitted(source, ids.drop_last()),
        }
    }
}

/// All the text that a stream hands out for `ids`: the fragments on the
/// way, and at the end what was held back.
pub open spec fn told(source: Seq<u8>, ids: Seq<u32>) -> Seq<char> {
    match decoded_text(source, ids) {
        Some(d) => match remainder(shown_of(source, ids), d) {
            Some(rest) => emitted(source, ids) + rest,
            None => emitted(source, ids),
        },
        None => emitted(source, ids),
    }
}

/// The tokenizer reads `ids` steadily: every run of them from the first on
/// decodes, and a text that is complete stays in front of all that is
/// decoded later.
pub open spec fn steady(source: Seq<u8>, ids: Seq<u32>) -> bool {
    &&& forall|k: int| 1 <= k <= ids.len() ==> (#[trigger] decoded_text(source, ids.take(k))) is Some
    &&& forall|j: int, k: int|
        1 <= j <= k <= ids.len() && complete(decoded_text(source, ids.take(j)).unwrap()) ==> (
        #[trigger] decoded_text(source, ids.take(j))).unwrap().is_prefix_of(
            (#[trigger] decoded_text(source, ids.take(k))).unwrap(),
        )
}

/// While a stream takes in steadily read ids, the fragments handed out so
/// far are what counts as handed out, and that stays in front of all that
/// is decoded later.
proof fn lemma_stream_in_step(source: Seq<u8>, ids: Seq<u32>, k: int)
    requires
        steady(source, ids),
        0 <= k <= ids.len(),
    ensures
        emitted(source, ids.take(k)) == shown_of(source, ids.take(k)),
        forall|m: int|
            k <= m <= ids.len() && 1 <= m ==> shown_of(source, ids.take(k)).is_prefix_of(
                (#[trigger] decoded_text(source, ids.take(m))).unwrap(),
            ),
    decreases k,
{
    if k > 0 {
        lemma_stream_in_step(source, ids, k - 1);
        assert(ids.take(k).drop_last() =~= ids.take(k - 1));
        let before = shown_of(source, ids.take(k - 1));
        assert(decoded_text(source, ids.take(k)) is Some);
        let d = decoded_text(source, ids.take(k)).unwrap();
        assert(before.is_prefix_of(d));
        if fragment(before, d) is Some {
            assert(emitted(source, ids.take(k)) =~= d);
            assert forall|m: int| k <= m <= ids.len() && 1 <= m implies shown_of(
                source,
                ids.take(k),
            ).is_prefix_of((#[trigger] decoded_text(source, ids.take(m))).unwrap()) by {
                assert(complete(decoded_text(source, ids.take(k)).unwrap()));
            }
        }
    } else {
        assert(ids.take(0) =~= Seq::<u32>::empty());
    }
}

/// Nothing is lost in the stream: where the tokenizer reads the tokens of
/// a reply steadily, the fragments handed out on the way, followed by what
/// is handed out at the end, are the text that the tokens decode to.
pub proof fn lemma_stream_tells_all(source: Seq<u8>, ids: Seq<u32>)
    requires
        ids.len() > 0,
        steady(source, ids),
    ensures
        Some(told(source, ids)) == decoded_text(source, ids),
{
    lemma_stream_in_step(source, ids, ids.len() as int);
    assert(ids.take(ids.len() as int) =~= ids);
    let d = decoded_text(source, ids).unwrap();
    assert(shown_of(source, ids).is_prefix_of(d));
    assert(told(source, ids) =~= d);
}

/// A cache can be set up for the model: a page of its keys or values can
/// be addressed.
pub open spec fn cache_fits(metadata: GgufMetadata) -> bool {
    let per_layer = metadata.n_embd as int / metadata.n_layer as int;
    per_layer * per_layer * 64 <= isize::MAX
}

fn page_fits(per_layer: usize) -> (fits: bool)
    ensures
        fits == (per_layer * per_layer * 64 <= isize::MAX),
{
    let limit: usize = (isize::MAX as usize) / 64;
    if per_layer == 0 {
        true
    } else {
        let fits = per_layer <= limit / per_layer;
        proof {
            let p = per_layer as int;
            let l = limit as int;
            assert(l == isize::MAX as int / 64);
            assert(p <= l / p <==> p * p <= l) by (nonlinear_arith)
                requires
                    p > 0,
                    l >= 0,
            ;
            assert(p * p <= l <==> p * p * 64 <= isize::MAX as int) by (nonlinear_arith)
                requires
                    l == isize::MAX as int / 64,
                    isize::MAX as int % 64 == 63,
            ;
        }
        fits
    }
}

/// `out` with the tokens of `src` from `from` up to `to` added at its end.
fn copy_range(src: &[u32], from: usize, to: usize, out: &mut Vec<u32>)
    requires
        from <= to <= src@.len(),
    ensures
        final(out)@ == old(out)@ + src@.subrange(from as int, to as int),
{
    let mut i: usize = from;
    assert(out@ =~= old(out)@ + src@.subrange(from as int, from as int));
    while i < to
        invariant
            from <= i <= to <= src@.len(),
            out@ == old(out)@ + src@.subrange(from as int, i as int),
        decreases to - i,
    {
        out.push(src[i]);
        proof {
            assert(src@.subrange(from as int, i + 1) =~= src@.subrange(from as int, i as int).push(
                src@[i as int],
            ));
            assert(out@ =~= old(out)@ + src@.subrange(from as int, i + 1));
        }
        i += 1;
    }
}

/// How many of the oldest tokens leave the history.
pub fn trim_count(history: usize, prompt: usize, max_tokens: usize, limit: usize) -> (dropped: usize)
    ensures
        dropped == dropped_for(history as nat, prompt as nat, max_tokens as nat, limit as nat),
        dropped <= history,
{
    if prompt > limit || max_tokens > limit - prompt {
        history
    } else {
        let room: usize = limit - prompt - max_tokens;
        if history > room {
            history - room
        } else {
            0
        }
    }
}

/// A prompt of `prompt` tokens can be answered on its own with up to
/// `max_tokens` tokens in a context of `limit` tokens: it is not empty, and
/// it fits the context together with the tokens that may be generated.
pub open spec fn answerable(prompt: nat, max_tokens: nat, limit: nat) -> bool {
    prompt > 0 && prompt + budget(max_tokens) <= limit
}

/// `text` is the answer to `prompt`: the text of a reply that ends where it
/// should, whose tokens are all of the vocabulary and were drawn from
/// `next_token` one by one, beginning with the prompt.
pub open spec fn is_answer_to<N: FnMut(&[u32], usize, &[u32]) -> Result<u32, String>>(
    next_token: N,
    prompt: Seq<u32>,
    repeat_last_n: nat,
    text: Seq<char>,
    source: Seq<u8>,
    eos: u32,
    vocab_size: usize,
    max_tokens: nat,
) -> bool {
    exists|reply: Seq<u32>|
        #[trigger] stops_rightly(reply, eos, max_tokens) && decoded_text(source, reply) == Some(
            text,
        ) && (forall|i: int| 0 <= i < reply.len() ==> #[trigger] reply[i] < vocab_size) && drawn(
            next_token,
            Seq::empty(),
            prompt,
            reply,
            repeat_last_n,
        )
}

/// Each of `texts` is the answer to the prompt at its place in
/// `token_lists`, and each of those prompts begins with the
/// beginning-of-sequence token.
pub open spec fn answers_all<N: FnMut(&[u32], usize, &[u32]) -> Result<u32, String>>(
    next_token: N,
    token_lists: Seq<Seq<u32>>,
    repeat_last_n: nat,
    texts: Seq<String>,
    source: Seq<u8>,
    eos: u32,
    bos: u32,
    vocab_size: usize,
    max_tokens: nat,
) -> bool {
    &&& token_lists.len() == texts.len()
    &&& forall|i: int|
        0 <= i < texts.len() ==> (#[trigger] token_lists[i]).len() > 0 && token_lists[i][0] == bos
            && is_answer_to(
            next_token,
            token_lists[i],
            repeat_last_n,
            texts[i]@,
            source,
            eos,
            vocab_size,
            max_tokens,
        )
}

/// The tokens that count as recently seen.
pub fn recent<'a>(tokens: &'a Vec<u32>, repeat_last_n: usize) -> (window: &'a [u32])
    ensures
        window@ == penalty_window(tokens@, repeat_last_n as nat),
{
    let len = tokens.len();
    let start: usize = if len <= repeat_last_n {
        0
    } else {
        len - repeat_last_n
    };
    let parts = tokens.as_slice().split_at(start);
    proof {
        assert(tokens@.subrange(start as int, len as int) =~= tokens@.skip(start as int));
        assert(tokens@.skip(0) =~= tokens@);
    }
    parts.1
}

/// What the model is fed at step `i` of a reply: the whole prompt at the
/// first step, and after that the token drawn at the step before.
pub open spec fn fed_input(prompt: Seq<u32>, reply: Seq<u32>, i: int) -> Seq<u32> {
    if i == 0 {
        prompt
    } else {
        seq![reply[i - 1]]
    }
}

/// The position at which the input of step `i` stands: the prompt at 0,
/// each later token where it stands among the `before` tokens that were
/// kept and fed ahead of the reply.
pub open spec fn fed_position(before: nat, i: int) -> int {
    if i == 0 {
        0
    } else {
        before + i - 1
    }
}

/// The tokens that count as recently seen at step `i` of a reply: none at
/// the first step, and after that the last `repeat_last_n` of the tokens
/// kept, the prompt and the reply so far.
pub open spec fn fed_window(
    kept: Seq<u32>,
    prompt: Seq<u32>,
    reply: Seq<u32>,
    repeat_last_n: nat,
    i: int,
) -> Seq<u32> {
    if i == 0 {
        Seq::empty()
    } else {
        penalty_window(kept + prompt + reply.take(i), repeat_last_n)
    }
}

/// Token `i` of `reply` is what `next_token` gave for the input of step
/// `i`, at its position and with its window of recent tokens.
pub open spec fn drawn_at<N: FnMut(&[u32], usize, &[u32]) -> Result<u32, String>>(
    next_token: N,
    kept: Seq<u32>,
    prompt: Seq<u32>,
    reply: Seq<u32>,
    repeat_last_n: nat,
    i: int,
) -> bool {
    exists|input: &[u32], position: usize, seen: &[u32]|
        input@ == fed_input(prompt, reply, i) && position == fed_position(
            kept.len() + prompt.len(),
            i,
        ) && seen@ == fed_window(kept, prompt, reply, repeat_last_n, i)
            && #[trigger] next_token.ensures((input, position, seen), Ok::<u32, String>(reply[i]))
}

/// Every token of `reply` was drawn from `next_token`, each from the input
/// of its step.
pub open spec fn drawn<N: FnMut(&[u32], usize, &[u32]) -> Result<u32, String>>(
    next_token: N,
    kept: Seq<u32>,
    prompt: Seq<u32>,
    reply: Seq<u32>,
    repeat_last_n: nat,
) -> bool {
    forall|i: int|
        0 <= i < reply.len() ==> #[trigger] drawn_at(
            next_token,
            kept,
            prompt,
            reply,
            repeat_last_n,
            i,
        )
}

/// Whatever `next_token` is asked, it gives a token of a vocabulary of
/// `vocab_size` tokens.
pub open spec fn always_draws<N: FnMut(&[u32], usize, &[u32]) -> Result<u32, String>>(
    next_token: N,
    vocab_size: nat,
) -> bool {
    forall|input: &[u32], position: usize, seen: &[u32], outcome: Result<u32, String>|
        #[trigger] next_token.ensures((input, position, seen), outcome) ==> (outcome matches Ok(t)
            && t < vocab_size)
}

/// The tokenizer built from `source` decodes whatever ids it is given.
pub open spec fn reads_all(source: Seq<u8>) -> bool {
    forall|ids: Seq<u32>| (#[trigger] decoded_text(source, ids)) is Some
}

/// What becomes of the outcome of one draw: a failure is handed on with
/// its reason, a token outside a vocabulary of `vocab_size` tokens is
/// turned down, and any other token is taken.
pub fn take_drawn(outcome: Result<u32, String>, vocab_size: usize) -> (r: Result<u32, GenerateError>)
    ensures
        match outcome {
            Ok(t) => if t < vocab_size {
                r == Ok::<u32, GenerateError>(t)
            } else {
                r matches Err(GenerateError::Inference(why)) && why@
                    == "The token drawn is not of the vocabulary"@
            },
            Err(reason) => r == Err::<u32, GenerateError>(GenerateError::Inference(reason)),
        },
{
    match check_token(outcome, vocab_size) {
        Ok(t) => Ok(t),
        Err(why) => Err(GenerateError::Inference(why)),
    }
}

/// Whether another token is drawn after `count` tokens of which `last` is
/// the latest: not once the budget is used up, and not after the
/// end-of-sequence token.
pub fn goes_on(count: usize, max_tokens: usize, last: u32, eos: u32) -> (more: bool)
    ensures
        more == (count < max_tokens && last != eos),
{
    count < max_tokens && last != eos
}

pub struct Generator {
    tokenizer: TokenizerWrapper,
    template: ChatTemplate,
    metadata: GgufMetadata,
    messages: Vec<Message>,
    system_prompt: Option<String>,
    token_history: Vec<u32>,
    kv_cache: Option<PagedKvCache>,
    transcript: Vec<StreamEvent>,
    last_response: Vec<u32>,
}

impl Generator {
    pub closed spec fn spec_tokenizer(&self) -> TokenizerWrapper {
        self.tokenizer
    }

    pub closed spec fn spec_template(&self) -> ChatTemplate {
        self.template
    }

    pub closed spec fn spec_metadata(&self) -> GgufMetadata {
        self.metadata
    }

    /// The turns of the conversation so far, the system prompt not among
    /// them.
    pub closed spec fn spec_messages(&self) -> Seq<Message> {
        self.messages@
    }

    pub closed spec fn spec_system_prompt(&self) -> Option<Seq<char>> {
        text_of(self.system_prompt)
    }

    /// The tokens that stand in the context.
    pub closed spec fn spec_history(&self) -> Seq<u32> {
        self.token_history@
    }

    pub closed spec fn spec_kv_cache(&self) -> Option<PagedKvCache> {
        self.kv_cache
    }

    /// The events of the latest generation, in the order in which they were
    /// reported.
    pub closed spec fn spec_transcript(&self) -> Seq<StreamEvent> {
        self.transcript@
    }

    /// The tokens of the latest reply.
    pub closed spec fn spec_last_response(&self) -> Seq<u32> {
        self.last_response@
    }

    pub open spec fn spec_context_limit(&self) -> nat {
        self.spec_metadata().context_length as nat
    }

    /// What holds of every generator: the description of its model is
    /// sound, its tokenizer is in order, the history fits the context, and
    /// the cache is in order.
    pub open spec fn wf(&self) -> bool {
        &&& self.spec_metadata().wf()
        &&& self.spec_tokenizer().wf()
        &&& self.spec_history().len() <= self.spec_context_limit()
        &&& self.spec_kv_cache() matches Some(c) ==> c.wf()
    }

    /// Two generators that differ at most in what a conversation changes.
    pub open spec fn same_setup_as(&self, other: Self) -> bool {
        &&& self.spec_tokenizer().same_tokenizer_as(other.spec_tokenizer())
        &&& self.spec_template().source() == other.spec_template().source()
        &&& self.spec_metadata() == other.spec_metadata()
        &&& self.spec_system_prompt() == other.spec_system_prompt()
        &&& self.spec_kv_cache() == other.spec_kv_cache()
    }

    /// The conversation handed to the template: the system prompt, where
    /// there is one, and then the turns.
    pub open spec fn framed(system_prompt: Option<Seq<char>>, turns: Seq<(Seq<char>, Seq<char>)>) -> Seq<
        (Seq<char>, Seq<char>),
    > {
        match system_prompt {
            Some(text) => seq![("system"@, text)] + turns,
            None => turns,
        }
    }

    /// The text handed to the tokenizer when `prompt` is asked as the next
    /// turn: the conversation so far with the prompt at its end, rendered
    /// by the template.
    pub open spec fn asked(&self, prompt: Seq<char>) -> Option<Seq<char>> {
        self.spec_template().spec_render(
            Self::framed(
                self.spec_system_prompt(),
                turns_of(self.spec_messages()).push(("user"@, prompt)),
            ),
        )
    }

    /// The text handed to the tokenizer when `prompt` is asked on its own.
    pub open spec fn asked_alone(&self, prompt: Seq<char>) -> Option<Seq<char>> {
        self.spec_template().spec_render(
            Self::framed(self.spec_system_prompt(), seq![("user"@, prompt)]),
        )
    }

    /// `self` is `before` after a prompt of the tokens `prompt` was
    /// answered with `text`: the reply ends where it should, its tokens are
    /// of the vocabulary and decode to `text`, the events came in order
    /// and carried all that the stream handed out, and the history, where it
    /// is kept, is the old one less its dropped tokens, then the prompt,
    /// then the reply.
    pub open spec fn kept_for(&self, prompt: nat, max_tokens: nat, store_history: bool) -> Seq<u32> {
        if store_history {
            self.spec_history().skip(
                dropped_for(self.spec_history().len(), prompt, max_tokens, self.spec_context_limit()) as int,
            )
        } else {
            Seq::empty()
        }
    }

    /// A prompt of `prompt` tokens can be answered: it is not empty, and
    /// with the tokens kept in front of it and the tokens that may be
    /// generated it fits the context.
    pub open spec fn can_answer(&self, prompt: nat, max_tokens: nat, store_history: bool) -> bool {
        prompt > 0 && self.kept_for(prompt, max_tokens, store_history).len() + prompt + budget(
            max_tokens,
        ) <= self.spec_context_limit()
    }

    pub open spec fn replied(
        &self,
        before: Self,
        prompt: Seq<u32>,
        max_tokens: nat,
        store_history: bool,
        text: Seq<char>,
    ) -> bool {
        let limit = before.spec_context_limit();
        let reply = self.spec_last_response();
        let source = before.spec_tokenizer().source();
        let kept = if store_history {
            before.spec_history().skip(
                dropped_for(before.spec_history().len(), prompt.len(), max_tokens, limit) as int,
            )
        } else {
            Seq::<u32>::empty()
        };
        &&& prompt.len() > 0
        &&& kept.len() + prompt.len() + budget(max_tokens) <= limit
        &&& stops_rightly(reply, before.spec_tokenizer().spec_eos(), max_tokens)
        &&& forall|i: int| 0 <= i < reply.len() ==> #[trigger] reply[i] < before.spec_metadata().vocab_size
        &&& decoded_text(source, reply) == Some(text)
        &&& well_ordered(self.spec_transcript(), prompt.len())
        &&& self.spec_transcript().len() <= reply.len() + 2
        &&& spoken(self.spec_transcript()) == told(source, reply)
        &&& self.spec_history() == if store_history {
            kept + prompt + reply
        } else {
            before.spec_history()
        }
        &&& self.spec_tokenizer().pending() == Seq::<u32>::empty()
        &&& self.spec_tokenizer().shown() == Seq::<char>::empty()
    }

    /// A generator for a model with this description and this tokenizer,
    /// with an empty conversation. It fails where the model brought no chat
    /// template.
    pub fn new(metadata: GgufMetadata, tokenizer: TokenizerWrapper, system_prompt: Option<String>) -> (r:
        Result<Self, GenerateError>)
        requires
            metadata.wf(),
            tokenizer.wf(),
        ensures
            match r {
                Ok(g) => {
                    &&& metadata.chat_template is Some
                    &&& g.wf()
                    &&& g.spec_metadata() == metadata
                    &&& g.spec_tokenizer() == tokenizer
                    &&& g.spec_template().source() == text_of(metadata.chat_template)
                    &&& g.spec_system_prompt() == text_of(system_prompt)
                    &&& g.spec_messages() == Seq::<Message>::empty()
                    &&& g.spec_history() == Seq::<u32>::empty()
                    &&& g.spec_transcript() == Seq::<StreamEvent>::empty()
                    &&& g.spec_last_response() == Seq::<u32>::empty()
                    &&& g.spec_kv_cache() is Some <==> metadata.context_length <= usize::MAX - 15
                        && cache_fits(metadata)
                },
                Err(e) => metadata.chat_template is None && e matches GenerateError::Template(
                    TemplateError::Missing,
                ),
            },
    {
        let template = match &metadata.chat_template {
            Some(t) => match ChatTemplate::new(Some(t.clone())) {
                Ok(template) => template,
                Err(e) => {
                    return Err(GenerateError::Template(e));
                },
            },
            None => {
                return Err(GenerateError::Template(TemplateError::Missing));
            },
        };
        let per_layer: usize = metadata.n_embd / metadata.n_layer;
        let kv_cache = if metadata.context_length <= usize::MAX - 15 && page_fits(per_layer) {
            Some(PagedKvCache::new(per_layer, per_layer, metadata.context_length))
        } else {
            None
        };
        Ok(
            Generator {
                tokenizer,
                template,
                metadata,
                messages: Vec::new(),
                system_prompt,
                token_history: Vec::new(),
                kv_cache,
                transcript: Vec::new(),
                last_response: Vec::new(),
            },
        )
    }

    /// Answers a prompt that is already in tokens.
    ///
    /// With `store_history` the oldest tokens are dropped from the history
    /// to make room, and the prompt and the reply are added to it; without,
    /// the history is neither read nor changed. The prompt is fed at
    /// position 0, each later token at the position it holds among the
    /// tokens so far, together with the tokens that count as recently
    /// seen. Generation stops after the end-of-sequence token and when the
    /// budget is used up. A failure leaves history and messages as they
    /// were.
    pub fn generate_internal_with_tokens<N, F>(
        &mut self,
        prompt_tokens: &[u32],
        max_tokens: usize,
        repeat_last_n: usize,
        store_history: bool,
        next_token: &mut N,
        callback: &mut F,
    ) -> (r: Result<String, GenerateError>) where
        N: FnMut(&[u32], usize, &[u32]) -> Result<u32, String>,
        F: FnMut(StreamEvent),

        requires
            old(self).wf(),
            forall|input: &[u32], position: usize, seen: &[u32]|
                (*old(next_token)).requires((input, position, seen)),
            forall|event: StreamEvent| (*old(callback)).requires((event,)),
        ensures
            final(self).wf(),
            final(self).same_setup_as(*old(self)),
            final(self).spec_messages() == old(self).spec_messages(),
            forall|input: &[u32], position: usize, seen: &[u32]|
                (*final(next_token)).requires((input, position, seen)),
            forall|event: StreamEvent| (*final(callback)).requires((event,)),
            match r {
                Ok(text) => final(self).replied(
                    *old(self),
                    prompt_tokens@,
                    max_tokens as nat,
                    store_history,
                    text@,
                ),
                Err(e) => {
                    &&& final(self).spec_history() == old(self).spec_history()
                    &&& final(self).spec_last_response() == old(self).spec_last_response()
                    &&& e is Inference || e is ContextOverflow || e is Tokenizer
                    &&& prompt_tokens@.len() == 0 ==> e is Inference
                    &&& e is ContextOverflow <==> prompt_tokens@.len() > 0 && (if store_history {
                        old(self).spec_history().len() - dropped_for(
                            old(self).spec_history().len(),
                            prompt_tokens@.len(),
                            max_tokens as nat,
                            old(self).spec_context_limit(),
                        )
                    } else {
                        0
                    }) + prompt_tokens@.len() + budget(max_tokens as nat) > old(self).spec_context_limit()
                },
            },
            *final(next_token) == *old(next_token),
            r is Ok ==> drawn(
                *old(next_token),
                old(self).kept_for(prompt_tokens@.len(), max_tokens as nat, store_history),
                prompt_tokens@,
                final(self).spec_last_response(),
                repeat_last_n as nat,
            ),
            old(self).can_answer(prompt_tokens@.len(), max_tokens as nat, store_history)
                && always_draws(*old(next_token), old(self).spec_metadata().vocab_size as nat)
                && reads_all(old(self).spec_tokenizer().source()) ==> r is Ok,
    {
        let ghost draw = *old(next_token);
        self.tokenizer.clear_cache();
        self.transcript = Vec::new();
        let limit: usize = self.metadata.context_length;
        let vocab_size: usize = self.metadata.vocab_size;
        let p: usize = prompt_tokens.len();
        if p == 0 {
            return Err(GenerateError::Inference(String::from_str("The prompt holds no token")));
        }
        let h: usize = self.token_history.len();
        let dropped: usize = if store_history {
            trim_count(h, p, max_tokens, limit)
        } else {
            h
        };
        let kept: usize = h - dropped;
        let most: usize = if max_tokens == 0 {
            1
        } else {
            max_tokens
        };
        if p > limit || most > limit - p || kept > limit - p - most {
            return Err(GenerateError::ContextOverflow);
        }
        let ghost source = self.tokenizer.source();
        let ghost kept_tokens = self.token_history@.subrange(dropped as int, h as int);
        let mut all_tokens: Vec<u32> = Vec::new();
        copy_range(self.token_history.as_slice(), dropped, h, &mut all_tokens);
        copy_range(prompt_tokens, 0, p, &mut all_tokens);
        proof {
            assert(prompt_tokens@.subrange(0, p as int) =~= prompt_tokens@);
            assert(all_tokens@ =~= kept_tokens + prompt_tokens@);
            assert(kept_tokens =~= old(self).spec_history().skip(dropped as int));
            if !store_history {
                assert(kept_tokens =~= Seq::<u32>::empty());
            }
        }
        let eos: u32 = self.tokenizer.eos_token_id();

        self.transcript.push(StreamEvent::PrefillStatus(p));
        callback(StreamEvent::PrefillStatus(p));

        let nothing: Vec<u32> = Vec::new();
        let unseen = nothing.as_slice();
        let outcome = next_token(prompt_tokens, 0, unseen);
        assert(draw.ensures((prompt_tokens, 0usize, unseen), outcome));
        let first: u32 = match take_drawn(outcome, vocab_size) {
            Ok(t) => t,
            Err(e) => {
                return Err(e);
            },
        };
        all_tokens.push(first);
        let mut reply: Vec<u32> = Vec::new();
        reply.push(first);
        proof {
            assert(unseen@ =~= Seq::<u32>::empty());
            assert(outcome == Ok::<u32, String>(first));
            assert(reply@[0] == first);
            assert(draw.ensures((prompt_tokens, 0usize, unseen), Ok::<u32, String>(reply@[0])));
            assert(drawn_at(draw, kept_tokens, prompt_tokens@, reply@, repeat_last_n as nat, 0));
            assert(reply@.drop_last() =~= Seq::<u32>::empty());
            assert(self.tokenizer.pending().push(first) =~= reply@);
            assert(shown_of(source, Seq::<u32>::empty()) =~= Seq::<char>::empty());
            assert(emitted(source, Seq::<u32>::empty()) =~= Seq::<char>::empty());
            assert(self.transcript@.drop_last() =~= Seq::<StreamEvent>::empty());
            assert(spoken(Seq::<StreamEvent>::empty()) =~= Seq::<char>::empty());
            assert(spoken(self.transcript@) =~= Seq::<char>::empty());
        }
        match self.tokenizer.decode_next(first) {
            Ok(Some(text)) => {
                let ghost before = self.transcript@;
                self.transcript.push(StreamEvent::Token(text.clone()));
                proof {
                    assert(self.transcript@.drop_last() =~= before);
                    assert(before.drop_last() =~= Seq::<StreamEvent>::empty());
                }
                callback(StreamEvent::Token(text));
            },
            Ok(None) => {
                proof {
                    assert(self.transcript@.drop_last() =~= Seq::<StreamEvent>::empty());
                }
            },
            Err(e) => {
                return Err(GenerateError::Tokenizer(e));
            },
        }
        let mut last: u32 = first;
        let mut count: usize = 1;
        while goes_on(count, max_tokens, last, eos)
            invariant
                *next_token == draw,
                draw == *old(next_token),
                always_draws(draw, vocab_size as nat) && reads_all(source) ==> decoded_text(
                    source,
                    reply@,
                ) is Some,
                forall|i: int|
                    0 <= i < reply@.len() ==> #[trigger] drawn_at(
                        draw,
                        kept_tokens,
                        prompt_tokens@,
                        reply@,
                        repeat_last_n as nat,
                        i,
                    ),
                self.transcript@.len() <= count + 1,
                self.transcript@.len() == count + 1 ==> self.tokenizer.shown().len()
                    >= decoded_text(source, reply@).unwrap().len(),
                forall|input: &[u32], position: usize, seen: &[u32]|
                    (*next_token).requires((input, position, seen)),
                forall|event: StreamEvent| (*callback).requires((event,)),
                self.wf(),
                self.same_setup_as(*old(self)),
                self.messages == old(self).messages,
                self.token_history == old(self).token_history,
                self.last_response == old(self).last_response,
                source == old(self).spec_tokenizer().source(),
                source == self.tokenizer.source(),
                eos == self.tokenizer.spec_eos(),
                limit == self.metadata.context_length,
                vocab_size == self.metadata.vocab_size,
                most == budget(max_tokens as nat),
                kept == kept_tokens.len(),
                kept_tokens == (if store_history {
                    old(self).spec_history().skip(
                        dropped_for(
                            old(self).spec_history().len(),
                            prompt_tokens@.len(),
                            max_tokens as nat,
                            limit as nat,
                        ) as int,
                    )
                } else {
                    Seq::<u32>::empty()
                }),
                p == prompt_tokens@.len(),
                p > 0,
                kept + p + most <= limit,
                1 <= count <= most,
                count == reply@.len(),
                last == reply@.last(),
                all_tokens@ == kept_tokens + prompt_tokens@ + reply@,
                forall|i: int| 0 <= i < reply@.len() - 1 ==> reply@[i] != eos,
                forall|i: int| 0 <= i < reply@.len() ==> #[trigger] reply@[i] < vocab_size,
                self.tokenizer.pending() == reply@,
                self.tokenizer.shown() == shown_of(source, reply@),
                decoded_text(source, reply@) is Some,
                self.transcript@.len() >= 1,
                self.transcript@[0] matches StreamEvent::PrefillStatus(n) && n == p,
                forall|i: int| 1 <= i < self.transcript@.len() ==> #[trigger] self.transcript@[i] is Token,
                spoken(self.transcript@) == emitted(source, reply@),
            decreases max_tokens - count,
        {
            let mut input: Vec<u32> = Vec::new();
            input.push(last);
            let position: usize = all_tokens.len() - 1;
            let window = recent(&all_tokens, repeat_last_n);
            let fed = input.as_slice();
            let outcome = next_token(fed, position, window);
            assert(draw.ensures((fed, position, window), outcome));
            let next: u32 = match take_drawn(outcome, vocab_size) {
                Ok(t) => t,
                Err(e) => {
                    return Err(e);
                },
            };
            let ghost reply_before = reply@;
            let ghost events_before = self.transcript@;
            let ghost tokens_before = all_tokens@;
            all_tokens.push(next);
            reply.push(next);
            count += 1;
            last = next;
            proof {
                assert(reply@.drop_last() =~= reply_before);
                assert(all_tokens@ =~= kept_tokens + prompt_tokens@ + reply@);
                let at = reply_before.len() as int;
                assert(reply@.take(at) =~= reply_before);
                assert(fed@ =~= seq![reply@[at - 1]]);
                assert(outcome == Ok::<u32, String>(next));
                assert(reply@[at] == next);
                assert(tokens_before =~= kept_tokens + prompt_tokens@ + reply@.take(at));
                assert(window@ == fed_window(
                    kept_tokens,
                    prompt_tokens@,
                    reply@,
                    repeat_last_n as nat,
                    at,
                ));
                assert(position == fed_position(kept_tokens.len() + prompt_tokens@.len(), at));
                assert(draw.ensures((fed, position, window), Ok::<u32, String>(reply@[at])));
                assert(drawn_at(draw, kept_tokens, prompt_tokens@, reply@, repeat_last_n as nat, at));
                assert forall|i: int| 0 <= i < reply@.len() implies #[trigger] drawn_at(
                    draw,
                    kept_tokens,
                    prompt_tokens@,
                    reply@,
                    repeat_last_n as nat,
                    i,
                ) by {
                    if i < at {
                        assert(drawn_at(
                            draw,
                            kept_tokens,
                            prompt_tokens@,
                            reply_before,
                            repeat_last_n as nat,
                            i,
                        ));
                        assert(reply@.take(i) =~= reply_before.take(i));
                    }
                }
            }
            match self.tokenizer.decode_next(next) {
                Ok(Some(text)) => {
                    self.transcript.push(StreamEvent::Token(text.clone()));
                    proof {
                        assert(self.transcript@.drop_last() =~= events_before);
                    }
                    callback(StreamEvent::Token(text));
                },
                Ok(None) => {},
                Err(e) => {
                    return Err(GenerateError::Tokenizer(e));
                },
            }
        }
        let ghost events_before_rest = self.transcript@;
        match self.tokenizer.decode_rest() {
            Ok(Some(text)) => {
                self.transcript.push(StreamEvent::Token(text.clone()));
                proof {
                    assert(self.transcript@.drop_last() =~= events_before_rest);
                    assert(spoken(self.transcript@) =~= told(source, reply@));
                }
                callback(StreamEvent::Token(text));
            },
            Ok(None) => {
                proof {
                    assert(spoken(self.transcript@) =~= told(source, reply@));
                }
            },
            Err(e) => {
                return Err(GenerateError::Tokenizer(e));
            },
        }
        assert(spoken(self.transcript@) == told(source, reply@));
        let response = match self.tokenizer.decode(reply.as_slice()) {
            Ok(s) => s,
            Err(e) => {
                return Err(GenerateError::Tokenizer(e));
            },
        };
        self.tokenizer.clear_cache();
        if store_history {
            self.token_history = all_tokens;
        }
        self.last_response = reply;
        let ghost events_before = self.transcript@;
        self.transcript.push(StreamEvent::Done);
        proof {
            assert(self.transcript@.drop_last() =~= events_before);
        }
        callback(StreamEvent::Done);
        Ok(response)
    }

    /// The conversation as the template gets it for one more prompt: the
    /// system prompt, the turns given, and the prompt as a turn of the user.
    fn frame(&self, turns: &Vec<Message>, prompt: &str) -> (all: Vec<Message>)
        ensures
            turns_of(all@) == Self::framed(
                self.spec_system_prompt(),
                turns_of(turns@).push(("user"@, prompt@)),
            ),
    {
        let mut all: Vec<Message> = Vec::new();
        match &self.system_prompt {
            Some(text) => {
                all.push(Message { role: String::from_str("system"), content: text.clone() });
            },
            None => {},
        }
        let ghost head = all@;
        let mut i: usize = 0;
        while i < turns.len()
            invariant
                i <= turns@.len(),
                all@ == head + turns@.take(i as int),
            decreases turns@.len() - i,
        {
            all.push(turns[i].clone());
            proof {
                assert(turns@.take(i + 1) =~= turns@.take(i as int).push(turns@[i as int]));
                assert(all@ =~= head + turns@.take(i + 1));
            }
            i += 1;
        }
        let user = Message { role: String::from_str("user"), content: String::from_str(prompt) };
        all.push(user);
        proof {
            assert(turns@.take(turns@.len() as int) =~= turns@);
            assert(all@ =~= head + turns@.push(user));
            assert(turns_of(turns@.push(user)) =~= turns_of(turns@).push(("user"@, prompt@)));
            assert(turns_of(all@) =~= turns_of(head) + turns_of(turns@.push(user)));
            if self.system_prompt is Some {
                assert(turns_of(head) =~= seq![("system"@, self.spec_system_prompt().unwrap())]);
            } else {
                assert(turns_of(head) =~= Seq::<(Seq<char>, Seq<char>)>::empty());
                assert(turns_of(all@) =~= turns_of(turns@.push(user)));
            }
        }
        all
    }

    /// Answers `prompt` as the next turn of the conversation, once the
    /// conversation that ends with it has been rendered and turned into
    /// `prompt_tokens`.
    ///
    /// The reply is generated as `generate_internal_with_tokens` says, with
    /// the history kept. On success the prompt and the reply join the
    /// conversation; a failure leaves conversation and history as they
    /// were. Success is owed where the prompt can be answered, the model
    /// always gives a token of the vocabulary and the tokenizer decodes
    /// whatever it is given.
    pub fn generate_turn<N, F>(
        &mut self,
        prompt: &str,
        prompt_tokens: &[u32],
        max_tokens: usize,
        repeat_last_n: usize,
        next_token: &mut N,
        callback: &mut F,
    ) -> (r: Result<String, GenerateError>) where
        N: FnMut(&[u32], usize, &[u32]) -> Result<u32, String>,
        F: FnMut(StreamEvent),

        requires
            old(self).wf(),
            forall|input: &[u32], position: usize, seen: &[u32]|
                (*old(next_token)).requires((input, position, seen)),
            forall|event: StreamEvent| (*old(callback)).requires((event,)),
        ensures
            final(self).wf(),
            final(self).same_setup_as(*old(self)),
            *final(next_token) == *old(next_token),
            forall|event: StreamEvent| (*final(callback)).requires((event,)),
            match r {
                Ok(text) => {
                    &&& final(self).spec_messages().len() == old(self).spec_messages().len() + 2
                    &&& final(self).spec_messages().take(old(self).spec_messages().len() as int)
                        == old(self).spec_messages()
                    &&& turn_of(final(self).spec_messages()[old(self).spec_messages().len() as int])
                        == ("user"@, prompt@)
                    &&& turn_of(final(self).spec_messages().last()) == ("assistant"@, text@)
                    &&& final(self).replied(
                        *old(self),
                        prompt_tokens@,
                        max_tokens as nat,
                        true,
                        text@,
                    )
                    &&& drawn(
                        *old(next_token),
                        old(self).kept_for(prompt_tokens@.len(), max_tokens as nat, true),
                        prompt_tokens@,
                        final(self).spec_last_response(),
                        repeat_last_n as nat,
                    )
                },
                Err(e) => {
                    &&& final(self).spec_messages() == old(self).spec_messages()
                    &&& final(self).spec_history() == old(self).spec_history()
                    &&& e is Inference || e is ContextOverflow || e is Tokenizer
                    &&& prompt_tokens@.len() == 0 ==> e is Inference
                    &&& e is ContextOverflow <==> prompt_tokens@.len() > 0 && !old(self).can_answer(
                        prompt_tokens@.len(),
                        max_tokens as nat,
                        true,
                    )
                },
            },
            old(self).can_answer(prompt_tokens@.len(), max_tokens as nat, true) && always_draws(
                *old(next_token),
                old(self).spec_metadata().vocab_size as nat,
            ) && reads_all(old(self).spec_tokenizer().source()) ==> r is Ok,
    {
        let text = match self.generate_internal_with_tokens(
            prompt_tokens,
            max_tokens,
            repeat_last_n,
            true,
            next_token,
            callback,
        ) {
            Ok(s) => s,
            Err(e) => {
                return Err(e);
            },
        };
        proof {
            assert(self.replied(*old(self), prompt_tokens@, max_tokens as nat, true, text@));
        }
        let ghost turns = self.messages@;
        self.messages.push(
            Message { role: String::from_str("user"), content: String::from_str(prompt) },
        );
        self.messages.push(Message { role: String::from_str("assistant"), content: text.clone() });
        proof {
            assert(self.messages@.take(turns.len() as int) =~= turns);
            assert(self.replied(*old(self), prompt_tokens@, max_tokens as nat, true, text@));
        }
        Ok(text)
    }

    /// Answers `prompt` as the next turn of the conversation.
    ///
    /// The conversation, with the system prompt in front and the prompt at
    /// its end, is rendered by the chat template and turned into tokens;
    /// what follows is as `generate_turn` says. A failure leaves
    /// conversation and history as they were. With a model that always
    /// gives a token of the vocabulary and a tokenizer that decodes
    /// whatever it is given, the call fails only where the template does
    /// not render, the text cannot be turned into tokens, or the prompt
    /// cannot be answered within the context.
    pub fn generate<N, F>(
        &mut self,
        prompt: &str,
        max_tokens: usize,
        repeat_last_n: usize,
        next_token: &mut N,
        callback: &mut F,
    ) -> (r: Result<String, GenerateError>) where
        N: FnMut(&[u32], usize, &[u32]) -> Result<u32, String>,
        F: FnMut(StreamEvent),

        requires
            old(self).wf(),
            forall|input: &[u32], position: usize, seen: &[u32]|
                (*old(next_token)).requires((input, position, seen)),
            forall|event: StreamEvent| (*old(callback)).requires((event,)),
        ensures
            final(self).wf(),
            final(self).same_setup_as(*old(self)),
            final(self).spec_history().len() <= final(self).spec_context_limit(),
            *final(next_token) == *old(next_token),
            forall|event: StreamEvent| (*final(callback)).requires((event,)),
            match r {
                Ok(text) => {
                    &&& final(self).spec_messages().len() == old(self).spec_messages().len() + 2
                    &&& final(self).spec_messages().take(old(self).spec_messages().len() as int)
                        == old(self).spec_messages()
                    &&& turn_of(final(self).spec_messages()[old(self).spec_messages().len() as int])
                        == ("user"@, prompt@)
                    &&& turn_of(final(self).spec_messages().last()) == ("assistant"@, text@)
                    &&& old(self).asked(prompt@) is Some
                    &&& exists|prompt_tokens: Seq<u32>|
                        prompt_tokens.len() > 0 && prompt_tokens[0] == old(self).spec_tokenizer().spec_bos() && #[trigger] final(self).replied(
                            *old(self),
                            prompt_tokens,
                            max_tokens as nat,
                            true,
                            text@,
                        ) && drawn(
                            *old(next_token),
                            old(self).kept_for(prompt_tokens.len(), max_tokens as nat, true),
                            prompt_tokens,
                            final(self).spec_last_response(),
                            repeat_last_n as nat,
                        )
                },
                Err(e) => {
                    &&& final(self).spec_messages() == old(self).spec_messages()
                    &&& final(self).spec_history() == old(self).spec_history()
                    &&& e is Template <==> old(self).asked(prompt@) is None
                    &&& (e matches GenerateError::Template(TemplateError::Missing)) <==> old(
                        self
                    ).spec_template().source() is None
                    &&& always_draws(*old(next_token), old(self).spec_metadata().vocab_size as nat)
                        && reads_all(old(self).spec_tokenizer().source()) ==> e is Template
                        || e is ContextOverflow || e matches GenerateError::Tokenizer(
                        TokenizerError::Encode(_),
                    )
                },
            },
    {
        let all_messages = self.frame(&self.messages, prompt);
        let prompt_text = match self.template.apply(&all_messages) {
            Ok(s) => s,
            Err(e) => {
                return Err(GenerateError::Template(e));
            },
        };
        let prompt_tokens = match self.tokenizer.encode(prompt_text.as_str()) {
            Ok(ids) => ids,
            Err(e) => {
                return Err(GenerateError::Tokenizer(e));
            },
        };
        self.generate_turn(
            prompt,
            prompt_tokens.as_slice(),
            max_tokens,
            repeat_last_n,
            next_token,
            callback,
        )
    }

    /// The tokens of `prompt` as the first turn of a fresh conversation
    /// under the system prompt.
    pub fn batch_prompt_tokens(&self, prompt: &str) -> (r: Result<Vec<u32>, GenerateError>)
        requires
            self.wf(),
        ensures
            match r {
                Ok(tokens) => {
                    &&& tokens@.len() > 0
                    &&& tokens@[0] == self.spec_tokenizer().spec_bos()
                    &&& self.asked_alone(prompt@) is Some
                },
                Err(e) => {
                    &&& e is Template || e is Tokenizer
                    &&& e is Tokenizer ==> e->Tokenizer_0 is Encode
                    &&& e is Template <==> self.asked_alone(prompt@) is None
                    &&& (e matches GenerateError::Template(TemplateError::Missing))
                        <==> self.spec_template().source() is None
                },
            },
    {
        let no_turns: Vec<Message> = Vec::new();
        let all_messages = self.frame(&no_turns, prompt);
        proof {
            assert(turns_of(no_turns@).push(("user"@, prompt@)) =~= seq![("user"@, prompt@)]);
        }
        let prompt_text = match self.template.apply(&all_messages) {
            Ok(s) => s,
            Err(e) => {
                return Err(GenerateError::Template(e));
            },
        };
        match self.tokenizer.encode(prompt_text.as_str()) {
            Ok(ids) => Ok(ids),
            Err(e) => Err(GenerateError::Tokenizer(e)),
        }
    }

    /// Answers each of `prompts`, given in tokens, on its own and in order.
    /// Neither the conversation nor the history is read or changed. The
    /// first failure ends the batch: a batch succeeds only where every
    /// prompt can be answered on its own, and an empty batch always does.
    pub fn generate_batch_tokens<N>(
        &mut self,
        prompts: &Vec<Vec<u32>>,
        max_tokens: usize,
        repeat_last_n: usize,
        next_token: &mut N,
    ) -> (r: Result<Vec<String>, GenerateError>) where
        N: FnMut(&[u32], usize, &[u32]) -> Result<u32, String>,

        requires
            old(self).wf(),
            forall|input: &[u32], position: usize, seen: &[u32]|
                (*old(next_token)).requires((input, position, seen)),
        ensures
            final(self).wf(),
            final(self).same_setup_as(*old(self)),
            final(self).spec_messages() == old(self).spec_messages(),
            final(self).spec_history() == old(self).spec_history(),
            *final(next_token) == *old(next_token),
            r matches Ok(texts) ==> texts@.len() == prompts@.len(),
            r matches Ok(texts) ==> prompts@.len() > 0 ==> decoded_text(
                old(self).spec_tokenizer().source(),
                final(self).spec_last_response(),
            ) == Some(texts@.last()@) && stops_rightly(
                final(self).spec_last_response(),
                old(self).spec_tokenizer().spec_eos(),
                max_tokens as nat,
            ) && prompts@.last()@.len() > 0,
            prompts@.len() == 0 ==> (r matches Ok(texts) && texts@.len() == 0),
            r matches Ok(texts) ==> forall|i: int|
                0 <= i < prompts@.len() ==> #[trigger] answerable(
                    prompts@[i]@.len(),
                    max_tokens as nat,
                    old(self).spec_context_limit(),
                ),
            r matches Ok(texts) ==> forall|i: int|
                0 <= i < texts@.len() ==> is_answer_to(
                    *old(next_token),
                    prompts@[i]@,
                    repeat_last_n as nat,
                    (#[trigger] texts@[i])@,
                    old(self).spec_tokenizer().source(),
                    old(self).spec_tokenizer().spec_eos(),
                    old(self).spec_metadata().vocab_size,
                    max_tokens as nat,
                ),
            (forall|i: int|
                0 <= i < prompts@.len() ==> #[trigger] answerable(
                    prompts@[i]@.len(),
                    max_tokens as nat,
                    old(self).spec_context_limit(),
                )) && always_draws(*old(next_token), old(self).spec_metadata().vocab_size as nat)
                && reads_all(old(self).spec_tokenizer().source()) ==> r is Ok,
            always_draws(*old(next_token), old(self).spec_metadata().vocab_size as nat)
                && reads_all(old(self).spec_tokenizer().source()) ==> (r matches Err(e) ==> e
                is ContextOverflow || (e is Inference && exists|i: int|
                0 <= i < prompts@.len() && (#[trigger] prompts@[i])@.len() == 0)),
            r matches Err(e) ==> e is Inference || e is ContextOverflow || e is Tokenizer,
            prompts@.len() > 0 && prompts@[0]@.len() == 0 ==> (r matches Err(e) && e is Inference),
            prompts@.len() > 0 && prompts@[0]@.len() > 0 && !answerable(
                prompts@[0]@.len(),
                max_tokens as nat,
                old(self).spec_context_limit(),
            ) ==> (r matches Err(e) && e is ContextOverflow),
    {
        let mut ignore = |event: StreamEvent| {};
        let mut texts: Vec<String> = Vec::new();
        let mut i: usize = 0;
        while i < prompts.len()
            invariant
                i <= prompts@.len(),
                texts@.len() == i,
                forall|j: int|
                    0 <= j < i ==> #[trigger] answerable(
                        prompts@[j]@.len(),
                        max_tokens as nat,
                        old(self).spec_context_limit(),
                    ),
                forall|j: int|
                    0 <= j < i ==> is_answer_to(
                        *old(next_token),
                        prompts@[j]@,
                        repeat_last_n as nat,
                        (#[trigger] texts@[j])@,
                        old(self).spec_tokenizer().source(),
                        old(self).spec_tokenizer().spec_eos(),
                        old(self).spec_metadata().vocab_size,
                        max_tokens as nat,
                    ),
                *next_token == *old(next_token),
                self.wf(),
                self.same_setup_as(*old(self)),
                self.spec_messages() == old(self).spec_messages(),
                self.spec_history() == old(self).spec_history(),
                forall|input: &[u32], position: usize, seen: &[u32]|
                    (*next_token).requires((input, position, seen)),
                forall|event: StreamEvent| ignore.requires((event,)),
                i > 0 ==> decoded_text(
                    old(self).spec_tokenizer().source(),
                    self.spec_last_response(),
                ) == Some(texts@.last()@) && stops_rightly(
                    self.spec_last_response(),
                    old(self).spec_tokenizer().spec_eos(),
                    max_tokens as nat,
                ) && prompts@[i - 1]@.len() > 0,
            decreases prompts@.len() - i,
        {
            let ghost before = *self;
            let text = match self.generate_internal_with_tokens(
                prompts[i].as_slice(),
                max_tokens,
                repeat_last_n,
                false,
                next_token,
                &mut ignore,
            ) {
                Ok(s) => s,
                Err(e) => {
                    proof {
                        assert(before.can_answer(
                            prompts@[i as int]@.len(),
                            max_tokens as nat,
                            false,
                        ) == answerable(
                            prompts@[i as int]@.len(),
                            max_tokens as nat,
                            old(self).spec_context_limit(),
                        ));
                        if i > 0 {
                            assert(answerable(
                                prompts@[0]@.len(),
                                max_tokens as nat,
                                old(self).spec_context_limit(),
                            ));
                        }
                    }
                    return Err(e);
                },
            };
            proof {
                assert(self.replied(before, prompts@[i as int]@, max_tokens as nat, false, text@));
                let reply = self.spec_last_response();
                assert(stops_rightly(
                    reply,
                    old(self).spec_tokenizer().spec_eos(),
                    max_tokens as nat,
                ));
                assert(before.kept_for(prompts@[i as int]@.len(), max_tokens as nat, false)
                    =~= Seq::<u32>::empty());
                assert(drawn(
                    *old(next_token),
                    Seq::<u32>::empty(),
                    prompts@[i as int]@,
                    reply,
                    repeat_last_n as nat,
                ));
                assert(is_answer_to(
                    *old(next_token),
                    prompts@[i as int]@,
                    repeat_last_n as nat,
                    text@,
                    old(self).spec_tokenizer().source(),
                    old(self).spec_tokenizer().spec_eos(),
                    old(self).spec_metadata().vocab_size,
                    max_tokens as nat,
                ));
            }
            let ghost answered = texts@;
            texts.push(text);
            proof {
                assert forall|j: int| 0 <= j < i + 1 implies is_answer_to(
                    *old(next_token),
                    prompts@[j]@,
                    repeat_last_n as nat,
                    (#[trigger] texts@[j])@,
                    old(self).spec_tokenizer().source(),
                    old(self).spec_tokenizer().spec_eos(),
                    old(self).spec_metadata().vocab_size,
                    max_tokens as nat,
                ) by {
                    if j < i {
                        assert(texts@[j] == answered[j]);
                    }
                }
            }
            i += 1;
        }
        proof {
            if prompts@.len() > 0 {
                assert(answerable(
                    prompts@[0]@.len(),
                    max_tokens as nat,
                    old(self).spec_context_limit(),
                ));
            }
        }
        Ok(texts)
    }

    /// Answers each of `prompts` on its own, as the first turn of a fresh
    /// conversation under the system prompt. All prompts are turned into
    /// tokens first, then answered one after the other. Neither the
    /// conversation nor the history is read or changed. The replies come in
    /// the order of the prompts; the first failure ends the batch.
    pub fn generate_batch<N>(
        &mut self,
        prompts: &Vec<String>,
        max_tokens: usize,
        repeat_last_n: usize,
        next_token: &mut N,
    ) -> (r: Result<Vec<String>, GenerateError>) where
        N: FnMut(&[u32], usize, &[u32]) -> Result<u32, String>,

        requires
            old(self).wf(),
            forall|input: &[u32], position: usize, seen: &[u32]|
                (*old(next_token)).requires((input, position, seen)),
        ensures
            final(self).wf(),
            final(self).same_setup_as(*old(self)),
            final(self).spec_messages() == old(self).spec_messages(),
            final(self).spec_history() == old(self).spec_history(),
            *final(next_token) == *old(next_token),
            r matches Ok(texts) ==> texts@.len() == prompts@.len(),
            r matches Ok(texts) ==> prompts@.len() > 0 ==> decoded_text(
                old(self).spec_tokenizer().source(),
                final(self).spec_last_response(),
            ) == Some(texts@.last()@) && stops_rightly(
                final(self).spec_last_response(),
                old(self).spec_tokenizer().spec_eos(),
                max_tokens as nat,
            ),
            prompts@.len() == 0 ==> (r matches Ok(texts) && texts@.len() == 0),
            r matches Ok(texts) ==> exists|token_lists: Seq<Seq<u32>>|
                #[trigger] answers_all(
                    *old(next_token),
                    token_lists,
                    repeat_last_n as nat,
                    texts@,
                    old(self).spec_tokenizer().source(),
                    old(self).spec_tokenizer().spec_eos(),
                    old(self).spec_tokenizer().spec_bos(),
                    old(self).spec_metadata().vocab_size,
                    max_tokens as nat,
                ),
            always_draws(*old(next_token), old(self).spec_metadata().vocab_size as nat)
                && reads_all(old(self).spec_tokenizer().source()) ==> (r matches Err(e) ==> e
                is Template || e is ContextOverflow || e matches GenerateError::Tokenizer(
                TokenizerError::Encode(_),
            )),
            old(self).spec_template().source() is None && prompts@.len() > 0 ==> r matches Err(
                GenerateError::Template(TemplateError::Missing),
            ),
    {
        let mut token_lists: Vec<Vec<u32>> = Vec::new();
        let mut i: usize = 0;
        while i < prompts.len()
            invariant
                i <= prompts@.len(),
                token_lists@.len() == i,
                *self == *old(self),
                self.wf(),
                forall|input: &[u32], position: usize, seen: &[u32]|
                    (*next_token).requires((input, position, seen)),
                i > 0 ==> self.spec_template().source() is Some,
                *next_token == *old(next_token),
                forall|j: int|
                    0 <= j < i ==> (#[trigger] token_lists@[j])@.len() > 0 && token_lists@[j]@[0]
                        == self.spec_tokenizer().spec_bos(),
            decreases prompts@.len() - i,
        {
            match self.batch_prompt_tokens(prompts[i].as_str()) {
                Ok(tokens) => token_lists.push(tokens),
                Err(e) => {
                    return Err(e);
                },
            }
            i += 1;
        }
        let r = self.generate_batch_tokens(&token_lists, max_tokens, repeat_last_n, next_token);
        proof {
            if r is Ok {
                let lists = Seq::new(token_lists@.len(), |j: int| token_lists@[j]@);
                let texts = r.unwrap()@;
                assert forall|j: int| 0 <= j < texts.len() implies (#[trigger] lists[j]).len() > 0
                    && lists[j][0] == old(self).spec_tokenizer().spec_bos() && is_answer_to(
                    *old(next_token),
                    lists[j],
                    repeat_last_n as nat,
                    texts[j]@,
                    old(self).spec_tokenizer().source(),
                    old(self).spec_tokenizer().spec_eos(),
                    old(self).spec_metadata().vocab_size,
                    max_tokens as nat,
                ) by {
                    assert(token_lists@[j]@.len() > 0);
                    assert(is_answer_to(
                        *old(next_token),
                        token_lists@[j]@,
                        repeat_last_n as nat,
                        texts[j]@,
                        old(self).spec_tokenizer().source(),
                        old(self).spec_tokenizer().spec_eos(),
                        old(self).spec_metadata().vocab_size,
                        max_tokens as nat,
                    ));
                }
                assert(answers_all(
                    *old(next_token),
                    lists,
                    repeat_last_n as nat,
                    texts,
                    old(self).spec_tokenizer().source(),
                    old(self).spec_tokenizer().spec_eos(),
                    old(self).spec_tokenizer().spec_bos(),
                    old(self).spec_metadata().vocab_size,
                    max_tokens as nat,
                ));
            }
        }
        r
    }

    /// How far the cache is filled, and how far it can be.
    pub fn kv_cache_stats(&self) -> (stats: Option<(usize, usize)>)
        requires
            self.wf(),
        ensures
            match self.spec_kv_cache() {
                Some(c) => stats == Some(
                    (c.spec_current_seq_len() as usize, c.spec_max_seq_len() as usize),
                ),
                None => stats is None,
            },
    {
        match &self.kv_cache {
            Some(c) => Some((c.current_seq_len(), c.max_seq_len())),
            None => None,
        }
    }

    /// Empties the cache.
    pub fn clear_kv_cache(&mut self)
        requires
            old(self).wf(),
        ensures
            final(self).wf(),
            final(self).spec_tokenizer() == old(self).spec_tokenizer(),
            final(self).spec_template() == old(self).spec_template(),
            final(self).spec_metadata() == old(self).spec_metadata(),
            final(self).spec_messages() == old(self).spec_messages(),
            final(self).spec_history() == old(self).spec_history(),
            final(self).spec_kv_cache() is Some <==> old(self).spec_kv_cache() is Some,
            final(self).spec_kv_cache() matches Some(c) ==> c.spec_current_seq_len() == 0
                && c.spec_allocated_pages() == 0 && c.dense() && c.same_shape_as(
                old(self).spec_kv_cache().unwrap(),
            ),
    {
        match &mut self.kv_cache {
            Some(c) => {
                c.reset();
            },
            None => {},
        }
    }

    pub fn metadata(&self) -> (m: &GgufMetadata)
        ensures
            *m == self.spec_metadata(),
    {
        &self.metadata
    }

    /// The number of tokens that stand in the context.
    pub fn context_used(&self) -> (n: usize)
        ensures
            n == self.spec_history().len(),
    {
        self.token_history.len()
    }

    /// The number of tokens the context has room for.
    pub fn context_limit(&self) -> (n: usize)
        ensures
            n == self.spec_context_limit(),
    {
        self.metadata.context_length
    }

    /// The share of the context in use, in whole percent, rounded down.
    pub fn context_percentage(&self) -> (percent: usize)
        requires
            self.wf(),
        ensures
            percent == (100 * self.spec_history().len()) as int / (self.spec_context_limit() as int),
            percent <= 100,
    {
        let limit = self.metadata.context_length as u128;
        let used = self.token_history.len() as u128;
        let percent = (100 * used) / limit;
        assert(percent <= 100) by (nonlinear_arith)
            requires
                used <= limit,
                limit > 0,
                percent as int == (100 * used) as int / (limit as int),
        ;
        percent as usize
    }

    /// Whether four fifths of the context or more are in use.
    pub fn context_warning(&self) -> (warn: bool)
        requires
            self.wf(),
        ensures
            warn == (100 * self.spec_history().len() >= 80 * self.spec_context_limit()),
    {
        let limit = self.metadata.context_length as u128;
        let used = self.token_history.len() as u128;
        100 * used >= 80 * limit
    }

    /// Forgets the conversation: no message, no token in the context. Model,
    /// tokenizer and cache stay as they are.
    pub fn clear_history(&mut self)
        ensures
            final(self).same_setup_as(*old(self)),
            final(self).spec_messages() == Seq::<Message>::empty(),
            final(self).spec_history() == Seq::<u32>::empty(),
            old(self).wf() ==> final(self).wf(),
    {
        self.messages = Vec::new();
        self.token_history = Vec::new();
    }

    /// The tokens that stand in the context, oldest first.
    pub fn token_history(&self) -> (tokens: &Vec<u32>)
        ensures
            tokens@ == self.spec_history(),
    {
        &self.token_history
    }

    /// The turns of the conversation so far.
    pub fn messages(&self) -> (m: &Vec<Message>)
        ensures
            m@ == self.spec_messages(),
    {
        &self.messages
    }

    /// The events of the latest generation.
    pub fn transcript(&self) -> (events: &Vec<StreamEvent>)
        ensures
            events@ == self.spec_transcript(),
    {
        &self.transcript
    }

    /// The tokens of the latest reply.
    pub fn last_response(&self) -> (tokens: &Vec<u32>)
        ensures
            tokens@ == self.spec_last_response(),
    {
        &self.last_response
    }
}

/// Dropping makes room and wastes none: nothing is dropped from a history
/// that fits beside the prompt and the tokens asked for; where these fit
/// the context on their own, what is kept fits beside them, and fills the
/// context to the last place where anything had to go.
pub proof fn lemma_trim_makes_room(history: nat, prompt: nat, max_tokens: nat, limit: nat)
    ensures
        dropped_for(history, prompt, max_tokens, limit) <= history,
        history + prompt + max_tokens <= limit ==> dropped_for(history, prompt, max_tokens, limit)
            == 0,
        prompt + max_tokens <= limit ==> history - dropped_for(history, prompt, max_tokens, limit)
            + prompt + max_tokens <= limit,
        prompt + max_tokens < limit && history + prompt + max_tokens > limit ==> history
            - dropped_for(history, prompt, max_tokens, limit) + prompt + max_tokens == limit,
        prompt + max_tokens >= limit ==> dropped_for(history, prompt, max_tokens, limit) == history
            || history + prompt + max_tokens <= limit,
{
}

/// A turn of the conversation can always be answered where the prompt and
/// the tokens asked for fit the context on their own: the history gives way.
pub proof fn lemma_history_gives_way(g: Generator, prompt: nat, max_tokens: nat)
    requires
        g.wf(),
        prompt > 0,
        max_tokens > 0,
        prompt + max_tokens <= g.spec_context_limit(),
    ensures
        g.can_answer(prompt, max_tokens, true),
{
    lemma_trim_makes_room(g.spec_history().len(), prompt, max_tokens, g.spec_context_limit());
}

/// What a generation leaves behind is settled by the state before it, the
/// tokens of the prompt and the tokens of the reply: two generations that
/// agree in these agree in the text, in what their events carried, and in
/// the history. When two runs draw the same tokens is said by
/// `lemma_reply_repeats`.
pub proof fn lemma_reply_determined(
    a: Generator,
    b: Generator,
    before: Generator,
    prompt: Seq<u32>,
    max_tokens: nat,
    store_history: bool,
    text_a: Seq<char>,
    text_b: Seq<char>,
)
    requires
        a.replied(before, prompt, max_tokens, store_history, text_a),
        b.replied(before, prompt, max_tokens, store_history, text_b),
        a.spec_last_response() == b.spec_last_response(),
    ensures
        text_a == text_b,
        a.spec_history() == b.spec_history(),
        spoken(a.spec_transcript()) == spoken(b.spec_transcript()),
{
}

/// `next_token` answers alike whenever it is asked alike: for one input,
/// one position and one window of recent tokens it gives one outcome.
pub open spec fn single_valued<N: FnMut(&[u32], usize, &[u32]) -> Result<u32, String>>(
    next_token: N,
) -> bool {
    forall|
        a: &[u32],
        b: &[u32],
        position: usize,
        seen_a: &[u32],
        seen_b: &[u32],
        outcome_a: Result<u32, String>,
        outcome_b: Result<u32, String>,
    |
        a@ == b@ && seen_a@ == seen_b@ && #[trigger] next_token.ensures(
            (a, position, seen_a),
            outcome_a,
        ) && #[trigger] next_token.ensures((b, position, seen_b), outcome_b) ==> outcome_a
            == outcome_b
}

/// Two replies drawn for one prompt from a function that answers alike
/// whenever it is asked alike agree as far as both go.
proof fn lemma_drawn_alike<N: FnMut(&[u32], usize, &[u32]) -> Result<u32, String>>(
    next_token: N,
    kept: Seq<u32>,
    prompt: Seq<u32>,
    repeat_last_n: nat,
    first: Seq<u32>,
    second: Seq<u32>,
    upto: int,
)
    requires
        single_valued(next_token),
        drawn(next_token, kept, prompt, first, repeat_last_n),
        drawn(next_token, kept, prompt, second, repeat_last_n),
        0 <= upto <= first.len(),
        upto <= second.len(),
    ensures
        first.take(upto) == second.take(upto),
    decreases upto,
{
    if upto == 0 {
        assert(first.take(0) =~= second.take(0));
    } else {
        let i = upto - 1;
        lemma_drawn_alike(next_token, kept, prompt, repeat_last_n, first, second, i);
        assert(drawn_at(next_token, kept, prompt, first, repeat_last_n, i));
        assert(drawn_at(next_token, kept, prompt, second, repeat_last_n, i));
        if i > 0 {
            assert(first[i - 1] == first.take(i)[i - 1]);
            assert(second[i - 1] == second.take(i)[i - 1]);
        }
        assert(first[i] == second[i]);
        assert(first.take(upto) =~= first.take(i).push(first[i]));
        assert(second.take(upto) =~= second.take(i).push(second[i]));
    }
}

/// The same prompt gets the same reply: where the function that gives the
/// next token answers alike whenever it is asked alike, as a model does
/// whose sampler is greedy or starts from the same seed, two replies drawn
/// from it for one prompt, in one state, that both end where they should
/// are one and the same.
pub proof fn lemma_reply_repeats<N: FnMut(&[u32], usize, &[u32]) -> Result<u32, String>>(
    next_token: N,
    kept: Seq<u32>,
    prompt: Seq<u32>,
    repeat_last_n: nat,
    eos: u32,
    max_tokens: nat,
    first: Seq<u32>,
    second: Seq<u32>,
)
    requires
        single_valued(next_token),
        drawn(next_token, kept, prompt, first, repeat_last_n),
        drawn(next_token, kept, prompt, second, repeat_last_n),
        stops_rightly(first, eos, max_tokens),
        stops_rightly(second, eos, max_tokens),
    ensures
        first == second,
{
    if first.len() <= second.len() {
        lemma_drawn_alike(next_token, kept, prompt, repeat_last_n, first, second, first.len() as int);
        assert(first.take(first.len() as int) =~= first);
        if first.len() < second.len() {
            assert(second.take(first.len() as int)[first.len() - 1] == second[first.len() - 1]);
            assert(false);
        }
        assert(second.take(second.len() as int) =~= second);
    } else {
        lemma_drawn_alike(next_token, kept, prompt, repeat_last_n, first, second, second.len() as int);
        assert(second.take(second.len() as int) =~= second);
        assert(first.take(second.len() as int)[second.len() - 1] == first[second.len() - 1]);
        assert(false);
    }
}

/// The same prompt gets the same answer: two generations for one prompt,
/// from states of one setup and one history (as are a generator and one
/// like it, or a generator before its first turn and after its history
/// was cleared), whose tokens were drawn from a function that answers
/// alike whenever it is asked alike, end with the same text, the same
/// history and the same text in their events.
pub proof fn lemma_answer_repeats<N: FnMut(&[u32], usize, &[u32]) -> Result<u32, String>>(
    next_token: N,
    a: Generator,
    b: Generator,
    before_a: Generator,
    before_b: Generator,
    prompt: Seq<u32>,
    max_tokens: nat,
    repeat_last_n: nat,
    store_history: bool,
    text_a: Seq<char>,
    text_b: Seq<char>,
)
    requires
        single_valued(next_token),
        before_a.same_setup_as(before_b),
        before_a.spec_history() == before_b.spec_history(),
        a.replied(before_a, prompt, max_tokens, store_history, text_a),
        b.replied(before_b, prompt, max_tokens, store_history, text_b),
        drawn(
            next_token,
            before_a.kept_for(prompt.len(), max_tokens, store_history),
            prompt,
            a.spec_last_response(),
            repeat_last_n,
        ),
        drawn(
            next_token,
            before_b.kept_for(prompt.len(), max_tokens, store_history),
            prompt,
            b.spec_last_response(),
            repeat_last_n,
        ),
    ensures
        a.spec_last_response() == b.spec_last_response(),
        text_a == text_b,
        a.spec_history() == b.spec_history(),
        spoken(a.spec_transcript()) == spoken(b.spec_transcript()),
{
    lemma_reply_repeats(
        next_token,
        before_a.kept_for(prompt.len(), max_tokens, store_history),
        prompt,
        repeat_last_n,
        before_a.spec_tokenizer().spec_eos(),
        max_tokens,
        a.spec_last_response(),
        b.spec_last_response(),
    );
}

/// After a reply the context is not overfull: the history fits the limit
/// of the model.
pub proof fn lemma_reply_fits(
    after: Generator,
    before: Generator,
    prompt: Seq<u32>,
    max_tokens: nat,
    store_history: bool,
    text: Seq<char>,
)
    requires
        before.wf(),
        after.replied(before, prompt, max_tokens, store_history, text),
    ensures
        after.spec_history().len() <= before.spec_context_limit(),
{
}

} // verus!
