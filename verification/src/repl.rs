//! The chat: what a line of input means, what the model is asked, and what is
//! remembered of its answer.

use tokenizers::Tokenizer;
use vstd::prelude::*;
use vstd::string::*;

use crate::conversation::{
    history, newest_of, prompt, trimmed_by, user_turn, user_turn_prompt, views, windowed,
    Conversation, MessageRole, MessageView, Trim,
};
use crate::generation::{answer_of, answer_text, fresh, fresh_text, GenConfig};
use crate::text::{
    contains, contains_seq, is_white, law_found_is_there, law_found_where_it_stands,
    law_trim_of_padded, lower_is, lower_seq, trim_seq, trimmed,
};
use crate::tokens::{
    decodable, decoded, merge_dropout, text_tokens, token_ids, tokenizable, tokens_of,
    TokenizeError,
};

verus! {

/// What the assistant is told first.
pub fn system_prompt() -> (s: &'static str)
    ensures
        s@ == "You are a helpful AI assistant."@,
{
    "You are a helpful AI assistant."
}

/// Tokens that the history may take.
pub const MAX_HISTORY_TOKENS: usize = 3072;

/// Tokens of one answer after its first.
pub const MAX_NEW_TOKENS: usize = 1024;

// ── sampling ───────────────────────────────────────────────────────────────

/// How tokens are sampled: among the `top_k` likeliest, of these among the
/// likeliest that together have the probability `top_p`, at a temperature. The
/// last two are double-precision numbers, by their bits.
#[derive(Debug, Clone, Copy, PartialEq, Eq, Structural)]
pub struct SamplingParams {
    pub top_k: usize,
    pub top_p: u64,
    pub temperature: u64,
}

/// A query is about code when it holds one of some words.
pub open spec fn code_question(q: Seq<char>) -> bool {
    ||| contains_seq(q, "code"@)
    ||| contains_seq(q, "example"@)
    ||| contains_seq(q, "```"@)
    ||| contains_seq(q, "function"@)
    ||| contains_seq(q, "loop"@)
    ||| contains_seq(q, "similar"@)
}

/// How the answer to a query is sampled and generated.
pub open spec fn settings_for(q: Seq<char>) -> (SamplingParams, GenConfig) {
    if code_question(q) {
        (
            SamplingParams { top_k: 25, top_p: 0x3FEE_6666_6666_6666, temperature: 0x3FD6_6666_6666_6666 },
            GenConfig {
                max_new_tokens: MAX_NEW_TOKENS,
                repeat_penalty: 0x3FA6_6666,
                repeat_last_n: 128,
            },
        )
    } else {
        (
            SamplingParams { top_k: 50, top_p: 0x3FEC_CCCC_CCCC_CCCD, temperature: 0x3FE3_3333_3333_3333 },
            GenConfig {
                max_new_tokens: MAX_NEW_TOKENS,
                repeat_penalty: 0x3FAC_CCCD,
                repeat_last_n: 256,
            },
        )
    }
}

/// How the answer to a query is sampled and generated: closer to the likeliest
/// tokens when the query is about code.
pub fn sampling_for_query(user_input: &str) -> (r: (SamplingParams, GenConfig))
    ensures
        r == settings_for(user_input@),
{
    let is_code_question = contains(user_input, "code") || contains(user_input, "example")
        || contains(user_input, "```") || contains(user_input, "function") || contains(
        user_input,
        "loop",
    ) || contains(user_input, "similar");
    if is_code_question {
        (
            SamplingParams { top_k: 25, top_p: 0x3FEE_6666_6666_6666, temperature: 0x3FD6_6666_6666_6666 },
            GenConfig {
                max_new_tokens: MAX_NEW_TOKENS,
                repeat_penalty: 0x3FA6_6666,
                repeat_last_n: 128,
            },
        )
    } else {
        (
            SamplingParams { top_k: 50, top_p: 0x3FEC_CCCC_CCCC_CCCD, temperature: 0x3FE3_3333_3333_3333 },
            GenConfig {
                max_new_tokens: MAX_NEW_TOKENS,
                repeat_penalty: 0x3FAC_CCCD,
                repeat_last_n: 256,
            },
        )
    }
}

// ── lines ──────────────────────────────────────────────────────────────────

/// What a line of input asks for.
#[derive(Debug)]
pub enum Command {
    /// To leave.
    Exit,
    /// To forget the history.
    Reset,
    /// Nothing.
    Empty,
    /// To answer a query.
    Query(String),
}

/// Reads a line: white space around it does not count, and the commands are
/// understood in any case.
pub fn read_command(line: &str) -> (r: Command)
    ensures
        ({
            let q = trim_seq(line@);
            if lower_seq(q) == "exit"@ {
                r is Exit
            } else if lower_seq(q) == "reset"@ {
                r is Reset
            } else if q.len() == 0 {
                r is Empty
            } else {
                r is Query && r->Query_0@ == q
            }
        }),
{
    let q = trimmed(line);
    if lower_is(q.as_str(), "exit") {
        Command::Exit
    } else if lower_is(q.as_str(), "reset") {
        Command::Reset
    } else if q.as_str().unicode_len() == 0 {
        Command::Empty
    } else {
        Command::Query(q)
    }
}

// ── the session ────────────────────────────────────────────────────────────

/// A chat session: the conversation, how many tokens the model has seen, and
/// whether it has seen any.
#[derive(Debug)]
pub struct Session {
    pub conversation: Conversation,
    pub position: usize,
    pub is_first_turn: bool,
}

/// A session, as its history, position and whether it is at its first turn.
#[verifier::ext_equal]
pub struct SessionView {
    pub history: Seq<MessageView>,
    pub system: Seq<char>,
    pub max: int,
    pub position: int,
    pub first: bool,
}

impl View for Session {
    type V = SessionView;

    open spec fn view(&self) -> SessionView {
        SessionView {
            history: views(self.conversation.messages@),
            system: self.conversation.system_prompt@,
            max: self.conversation.max_history_tokens as int,
            position: self.position as int,
            first: self.is_first_turn,
        }
    }
}

/// A session that has not begun.
pub open spec fn fresh_session(system: Seq<char>) -> SessionView {
    SessionView {
        history: seq![(MessageRole::System, system)],
        system,
        max: MAX_HISTORY_TOKENS as int,
        position: 0,
        first: true,
    }
}

/// What the model is asked in one turn.
#[derive(Debug)]
pub struct Turn {
    pub prompt_tokens: Vec<u32>,
    pub sampling: SamplingParams,
    pub config: GenConfig,
    pub trim: Option<Trim>,
}

/// The text of a turn: at first the prompt of the whole history, later what the
/// query adds to it.
pub open spec fn turn_text(first: bool, now: Seq<MessageView>, query: Seq<char>) -> Seq<char> {
    if first {
        prompt(now)
    } else {
        user_turn(query)
    }
}

/// What a turn is when the history with the query is `all`: the history that
/// remains and the tokens for the model, or nothing where a text cannot be
/// tokenized.
pub open spec fn turn_spec(t: Tokenizer, s: SessionView, query: Seq<char>) -> Option<
    (Seq<MessageView>, Seq<u32>),
> {
    let all = s.history.push((MessageRole::User, query));
    match windowed(t, all, s.system, s.max) {
        None => None,
        Some(now) => match text_tokens(t, turn_text(s.first, now, query)) {
            None => None,
            Some(ids) => Some((now, ids)),
        },
    }
}

impl Session {
    /// The history has its first message.
    pub open spec fn wf(&self) -> bool {
        self.conversation.wf()
    }

    /// A session with the usual system prompt.
    pub fn new() -> (s: Session)
        ensures
            s.wf(),
            s@ == fresh_session("You are a helpful AI assistant."@),
    {
        Session {
            conversation: Conversation::new(system_prompt().to_owned(), MAX_HISTORY_TOKENS),
            position: 0,
            is_first_turn: true,
        }
    }

    /// Forgets all but the system prompt. What the model has cached is to be
    /// dropped too.
    pub fn reset(&mut self)
        ensures
            final(self).wf(),
            final(self)@ == fresh_session(old(self).conversation.system_prompt@),
    {
        let system = self.conversation.system_prompt.clone();
        self.conversation = Conversation::new(system, MAX_HISTORY_TOKENS);
        self.position = 0;
        self.is_first_turn = true;
    }

    /// Takes a query into the history, cuts the history to fit, and says what the
    /// model is asked. An error leaves the query in the history.
    pub fn begin_turn(&mut self, query: &str, tokenizer: &Tokenizer) -> (r: Result<
        Turn,
        TokenizeError,
    >)
        requires
            old(self).wf(),
        ensures
            final(self).wf(),
            final(self)@.system == old(self)@.system,
            final(self)@.max == old(self)@.max,
            final(self)@.position == old(self)@.position,
            final(self)@.first == old(self)@.first,
            newest_of(final(self)@.history, old(self)@.history.push((MessageRole::User, query@))),
            r is Ok ==> (r->Ok_0.sampling, r->Ok_0.config) == settings_for(query@),
            r is Ok ==> trimmed_by(
                r->Ok_0.trim,
                old(self)@.history.push((MessageRole::User, query@)),
                final(self)@.history,
            ),
            r == Err::<Turn, TokenizeError>(TokenizeError::Unsupported) <==> !tokenizable(
                *tokenizer,
            ),
            !merge_dropout(*tokenizer) ==> match r {
                Ok(turn) => turn_spec(*tokenizer, old(self)@, query@) == Some(
                    (final(self)@.history, turn.prompt_tokens@),
                ),
                Err(_) => turn_spec(*tokenizer, old(self)@, query@) is None,
            },
            !merge_dropout(*tokenizer) && r is Err ==> {
                let all = old(self)@.history.push((MessageRole::User, query@));
                match windowed(*tokenizer, all, old(self)@.system, old(self)@.max) {
                    Some(now) => final(self)@.history == now,
                    None => final(self)@.history == all,
                }
            },
    {
        let (sampling, config) = sampling_for_query(query);
        self.conversation.add_user_message(query.to_owned());
        let trim = match self.conversation.apply_sliding_window(tokenizer) {
            Ok(t) => t,
            Err(e) => {
                return Err(e);
            },
        };
        let text = if self.is_first_turn {
            self.conversation.format_prompt()
        } else {
            user_turn_prompt(query)
        };
        match tokens_of(tokenizer, text.as_str()) {
            Ok(prompt_tokens) => Ok(Turn { prompt_tokens, sampling, config, trim }),
            Err(e) => Err(e),
        }
    }

    /// Takes the answer into the history. Returns what of it has not been
    /// printed.
    pub fn finish_turn(
        &mut self,
        generated: &[u32],
        printed_chars: usize,
        position: usize,
        tokenizer: &Tokenizer,
    ) -> (r: Option<String>)
        requires
            old(self).wf(),
        ensures
            final(self).wf(),
            ({
                let text = answer_text(*tokenizer, generated@);
                &&& final(self)@ == (SessionView {
                    history: old(self)@.history.push((MessageRole::Assistant, trim_seq(text))),
                    position: position as int,
                    first: false,
                    ..old(self)@
                })
                &&& match r {
                    Some(s) => fresh(text, printed_chars as int) == Some(s@),
                    None => fresh(text, printed_chars as int) is None,
                }
            }),
            decodable(*tokenizer, generated@, true) && decoded(*tokenizer, generated@, true) is Some
                ==> {
                let text = decoded(*tokenizer, generated@, true)->0;
                &&& final(self)@.history == old(self)@.history.push(
                    (MessageRole::Assistant, trim_seq(text)),
                )
                &&& match r {
                    Some(s) => printed_chars < text.len() && s@ == text.skip(printed_chars as int),
                    None => printed_chars >= text.len(),
                }
            },
    {
        let text = answer_of(tokenizer, generated);
        let remaining = fresh_text(text.as_str(), printed_chars);
        self.record_answer(text.as_str(), position);
        remaining
    }

    /// Takes the text of an answer, without the white space around it, into the
    /// history.
    pub fn record_answer(&mut self, text: &str, position: usize)
        requires
            old(self).wf(),
        ensures
            final(self).wf(),
            final(self)@ == (SessionView {
                history: old(self)@.history.push((MessageRole::Assistant, trim_seq(text@))),
                position: position as int,
                first: false,
                ..old(self)@
            }),
    {
        self.conversation.add_assistant_message(trimmed(text));
        self.position = position;
        self.is_first_turn = false;
    }
}

/// While nothing is cut, the texts of the first and of a later turn together are
/// the prompt of the whole history, but for the answer in between.
pub proof fn law_turns_make_the_prompt(
    h: Seq<MessageView>,
    answer: Seq<char>,
    query: Seq<char>,
)
    ensures
        ({
            let answered = h.push((MessageRole::Assistant, answer));
            let all = answered.push((MessageRole::User, query));
            prompt(all) == turn_text(true, h, query) + answer + "<|end|>\n"@ + turn_text(
                false,
                all,
                query,
            )
        }),
{
    let answered = h.push((MessageRole::Assistant, answer));
    let all = answered.push((MessageRole::User, query));
    crate::conversation::law_prompt_of_turn(answered, query);
    assert(answered.drop_last() =~= h);
    assert(history(answered) =~= history(h) + crate::conversation::rendered(
        (MessageRole::Assistant, answer),
    ));
    assert(prompt(all) =~= turn_text(true, h, query) + answer + "<|end|>\n"@ + turn_text(
        false,
        all,
        query,
    ));
}

/// A turn hands the model all the tokens of its text: of the prompt of the whole
/// history at first, and later of the user's message, opened and closed, with the
/// assistant to speak. It comes to nothing only where a text has no tokens.
pub proof fn law_turn_hands_over_its_text(t: Tokenizer, s: SessionView, query: Seq<char>)
    ensures
        ({
            let all = s.history.push((MessageRole::User, query));
            let later = "<|user|>\n"@ + query + "<|end|>\n"@ + "<|assistant|>\n"@;
            match turn_spec(t, s, query) {
                Some((now, ids)) => {
                    &&& windowed(t, all, s.system, s.max) == Some(now)
                    &&& s.first ==> token_ids(t, history(now) + "<|assistant|>\n"@, false) == Some(
                        ids,
                    )
                    &&& !s.first ==> token_ids(t, later, false) == Some(ids)
                },
                None => {
                    ||| !tokenizable(t)
                    ||| windowed(t, all, s.system, s.max) is None
                    ||| s.first && token_ids(
                        t,
                        history(windowed(t, all, s.system, s.max)->0) + "<|assistant|>\n"@,
                        false,
                    ) is None
                    ||| !s.first && token_ids(t, later, false) is None
                },
            }
        }),
{
    let all = s.history.push((MessageRole::User, query));
    crate::conversation::law_messages_are_tagged(all, query);
    if let Some(now) = windowed(t, all, s.system, s.max) {
        crate::conversation::law_messages_are_tagged(now, query);
    }
}

/// A query is about code where one of six words stands in it, wherever, and only
/// there. It is then sampled among fewer tokens, at a lower temperature, with a
/// lower penalty over fewer tokens; either way an answer has the same length.
pub proof fn law_code_words_choose_the_settings(q: Seq<char>)
    ensures
        ({
            let code = {
                ||| exists|a: Seq<char>, b: Seq<char>| q == #[trigger] (a + "code"@ + b)
                ||| exists|a: Seq<char>, b: Seq<char>| q == #[trigger] (a + "example"@ + b)
                ||| exists|a: Seq<char>, b: Seq<char>| q == #[trigger] (a + "```"@ + b)
                ||| exists|a: Seq<char>, b: Seq<char>| q == #[trigger] (a + "function"@ + b)
                ||| exists|a: Seq<char>, b: Seq<char>| q == #[trigger] (a + "loop"@ + b)
                ||| exists|a: Seq<char>, b: Seq<char>| q == #[trigger] (a + "similar"@ + b)
            };
            let (sampling, config) = settings_for(q);
            &&& config.max_new_tokens == 1024
            &&& code ==> sampling.top_k == 25 && config.repeat_last_n == 128
            &&& !code ==> sampling.top_k == 50 && config.repeat_last_n == 256
            &&& code ==> sampling.top_p == 0x3FEE_6666_6666_6666 && sampling.temperature
                == 0x3FD6_6666_6666_6666 && config.repeat_penalty == 0x3FA6_6666
            &&& !code ==> sampling.top_p == 0x3FEC_CCCC_CCCC_CCCD && sampling.temperature
                == 0x3FE3_3333_3333_3333 && config.repeat_penalty == 0x3FAC_CCCD
        }),
{
    lemma_word(q, "code"@);
    lemma_word(q, "example"@);
    lemma_word(q, "```"@);
    lemma_word(q, "function"@);
    lemma_word(q, "loop"@);
    lemma_word(q, "similar"@);
}

proof fn lemma_word(q: Seq<char>, w: Seq<char>)
    ensures
        contains_seq(q, w) <==> exists|a: Seq<char>, b: Seq<char>| q == #[trigger] (a + w + b),
{
    law_found_is_there(q, w);
    assert forall|a: Seq<char>, b: Seq<char>| q == #[trigger] (a + w + b) implies contains_seq(
        q,
        w,
    ) by {
        law_found_where_it_stands(a, w, b);
    }
}

/// A session begins with the system's message alone, at position 0, and its
/// history may take 3072 tokens.
pub proof fn law_session_begins_empty(system: Seq<char>)
    ensures
        fresh_session(system).history == seq![(MessageRole::System, system)],
        fresh_session(system).system == system,
        fresh_session(system).max == 3072,
        fresh_session(system).position == 0,
        fresh_session(system).first,
{
}

/// A line is understood by what stands between the white space around it: two
/// words, in any case, are commands, nothing is nothing, and all else is a query,
/// just as it stands there.
pub proof fn law_lines_are_understood(
    line: &str,
    a: Seq<char>,
    core: Seq<char>,
    b: Seq<char>,
    r: Command,
)
    requires
        line@ == a + core + b,
        forall|i: int| 0 <= i < a.len() ==> is_white(#[trigger] a[i]),
        forall|i: int| 0 <= i < b.len() ==> is_white(#[trigger] b[i]),
        core.len() > 0 ==> !is_white(core.first()) && !is_white(core.last()),
        call_ensures(read_command, (line,), r),
    ensures
        core.len() == 0 ==> r is Empty,
        lower_seq(core) == "exit"@ ==> r is Exit,
        lower_seq(core) == "reset"@ ==> r is Reset,
        core.len() > 0 && lower_seq(core) != "exit"@ && lower_seq(core) != "reset"@ ==> r is Query
            && r->Query_0@ == core,
{
    law_trim_of_padded(a, core, b);
    reveal_strlit("exit");
    reveal_strlit("reset");
    assert("exit"@.len() == 4);
    assert("reset"@.len() == 5);
}

/// A session is seen as it is: its whole history, its limit and where it is.
pub proof fn law_session_is_seen_whole(s: Session, i: int)
    requires
        0 <= i < s.conversation.messages@.len(),
    ensures
        s@.history.len() == s.conversation.messages@.len(),
        s@.history[i].0 == s.conversation.messages@[i].role,
        s@.history[i].1 == s.conversation.messages@[i].content@,
        s@.system == s.conversation.system_prompt@,
        s@.max == s.conversation.max_history_tokens,
        s@.position == s.position,
        s@.first == s.is_first_turn,
{
}

} // verus!
