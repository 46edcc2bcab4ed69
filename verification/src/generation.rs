//! Generating an answer token by token.
//!
//! The model and the sampler are the caller's. A generation says what the model
//! is to be run on, takes the token that was sampled, and says what to print.

use tokenizers::Tokenizer;
use vstd::prelude::*;
use vstd::string::*;

use crate::text::skipped;
use crate::tokens::{decodable, decoded, text_of, token_text};

verus! {

/// How one answer is generated. The repetition penalty is a single-precision
/// number, by its bits.
#[derive(Debug, Clone, Copy, PartialEq, Eq, Structural)]
pub struct GenConfig {
    pub max_new_tokens: usize,
    pub repeat_penalty: u32,
    pub repeat_last_n: usize,
}

/// The bits of one, the repetition penalty that changes nothing.
pub const NO_PENALTY: u32 = 0x3F80_0000;

/// What came of a generation: how many tokens were sampled after the first.
#[derive(Debug, Clone, Copy, PartialEq, Eq, Structural)]
pub struct GenStats {
    pub token_count: usize,
}

/// How far a generation has come.
#[derive(Debug, Clone, Copy, PartialEq, Eq, Structural)]
pub enum Phase {
    /// The prompt has not been run.
    Prefill,
    /// Tokens are generated one by one.
    Decoding,
    /// No more tokens are generated.
    Done,
}

/// What the model is to be run on.
#[derive(Debug, Clone, Copy, PartialEq, Eq, Structural)]
pub enum Request {
    /// The prompt, from this position on.
    Prompt { position: usize },
    /// One token at this position. Where there is a penalty it is for the
    /// generated tokens from `penalized_from` on.
    Token { token: u32, at: usize, penalized_from: Option<usize> },
    /// Nothing.
    Nothing,
}

/// A generation under way.
#[derive(Debug)]
pub struct Generation {
    pub cfg: GenConfig,
    pub input_len: usize,
    pub start: usize,
    pub before: usize,
    pub phase: Phase,
    pub steps: usize,
    pub position: usize,
    pub generated: Vec<u32>,
    pub response: String,
    pub printed_chars: usize,
    pub token_count: usize,
}

/// A generation under way.
#[verifier::ext_equal]
pub struct GenView {
    pub phase: Phase,
    pub steps: int,
    pub position: int,
    pub generated: Seq<u32>,
    pub response: Seq<char>,
    pub printed: int,
    pub token_count: int,
}

impl View for Generation {
    type V = GenView;

    open spec fn view(&self) -> GenView {
        GenView {
            phase: self.phase,
            steps: self.steps as int,
            position: self.position as int,
            generated: self.generated@,
            response: self.response@,
            printed: self.printed_chars as int,
            token_count: self.token_count as int,
        }
    }
}

/// What of `text` is new when its first `printed` characters have been printed.
pub open spec fn fresh(text: Seq<char>, printed: int) -> Option<Seq<char>> {
    if text.len() > printed {
        Some(text.skip(printed))
    } else {
        None
    }
}

/// What of `text` is new when its first `printed` characters have been printed.
pub fn fresh_text(text: &str, printed: usize) -> (r: Option<String>)
    ensures
        match r {
            Some(s) => fresh(text@, printed as int) == Some(s@),
            None => fresh(text@, printed as int) is None,
        },
{
    if text.unicode_len() > printed {
        Some(skipped(text, printed))
    } else {
        None
    }
}

/// Where a text goes on from what has been printed, printing what is new of it
/// completes it.
pub proof fn law_stream_completes(shown: Seq<char>, text: Seq<char>)
    requires
        shown.len() <= text.len(),
        text.take(shown.len() as int) == shown,
    ensures
        match fresh(text, shown.len() as int) {
            Some(more) => shown + more == text,
            None => shown == text,
        },
{
    if text.len() > shown.len() {
        assert(shown + text.skip(shown.len() as int) =~= text);
    } else {
        assert(text.take(shown.len() as int) =~= text);
    }
}

/// The text of generated tokens. Tokens that have none are shown as an error.
pub open spec fn answer_text(t: Tokenizer, ids: Seq<u32>) -> Seq<char> {
    match token_text(t, ids) {
        Some(s) => s,
        None => "[DECODE_ERROR]"@,
    }
}

/// The text of generated tokens.
pub fn answer_of(tokenizer: &Tokenizer, ids: &[u32]) -> (s: String)
    ensures
        s@ == answer_text(*tokenizer, ids@),
        decodable(*tokenizer, ids@, true) && decoded(*tokenizer, ids@, true) is Some ==> s@
            == decoded(*tokenizer, ids@, true)->0,
{
    match text_of(tokenizer, ids) {
        Some(s) => s,
        None => "[DECODE_ERROR]".to_owned(),
    }
}

/// Takes over the text of the tokens generated so far. The second part of the
/// result is to be printed.
pub open spec fn streamed(v: GenView, text: Seq<char>) -> (GenView, Option<Seq<char>>) {
    match fresh(text, v.printed) {
        Some(more) => (GenView { printed: text.len() as int, response: text, ..v }, Some(more)),
        None => (GenView { response: text, ..v }, None),
    }
}

/// Texts are streamed from this many tokens on.
pub const STREAM_FROM: usize = 4;

/// What follows when `token` is sampled. The second part of the result is to be
/// printed. The first token of an answer is taken as it is; a later one that is
/// among `eos` ends the answer.
pub open spec fn gen_next(
    v: GenView,
    cfg: GenConfig,
    input_len: int,
    token: u32,
    eos: Seq<u32>,
    t: Tokenizer,
) -> (GenView, Option<Seq<char>>) {
    match v.phase {
        Phase::Done => (v, None),
        Phase::Prefill => (
            GenView {
                phase: if cfg.max_new_tokens == 0 {
                    Phase::Done
                } else {
                    Phase::Decoding
                },
                position: v.position + input_len + 1,
                generated: v.generated.push(token),
                ..v
            },
            None,
        ),
        Phase::Decoding => if eos.contains(token) {
            (
                GenView {
                    phase: Phase::Done,
                    steps: v.steps + 1,
                    token_count: v.token_count + 1,
                    ..v
                },
                None,
            )
        } else {
            let w = GenView {
                phase: if v.steps + 1 >= cfg.max_new_tokens {
                    Phase::Done
                } else {
                    Phase::Decoding
                },
                steps: v.steps + 1,
                token_count: v.token_count + 1,
                position: v.position + 1,
                generated: v.generated.push(token),
                ..v
            };
            if w.generated.len() >= STREAM_FROM {
                streamed(w, answer_text(t, w.generated))
            } else {
                (w, None)
            }
        },
    }
}

fn holds(v: &[u32], x: u32) -> (r: bool)
    ensures
        r == v@.contains(x),
{
    let mut i: usize = 0;
    while i < v.len()
        invariant
            i <= v@.len(),
            forall|j: int| 0 <= j < i ==> #[trigger] v@[j] != x,
        decreases v@.len() - i,
    {
        if v[i] == x {
            return true;
        }
        i += 1;
    }
    false
}

impl Generation {
    /// The position counts the prompt and every token that was generated after
    /// those that were there before; the steps are those after the first of them
    /// and no more than allowed.
    pub open spec fn wf(&self) -> bool {
        &&& self.start + self.input_len + self.cfg.max_new_tokens + 1 <= usize::MAX
        &&& self.steps <= self.cfg.max_new_tokens
        &&& self.token_count == self.steps
        &&& match self.phase {
            Phase::Prefill => {
                &&& self.steps == 0
                &&& self.generated@.len() == self.before
                &&& self.position == self.start
            },
            Phase::Decoding => {
                &&& self.steps < self.cfg.max_new_tokens
                &&& self.generated@.len() == self.before + self.steps + 1
                &&& self.position == self.start + self.input_len + self.steps + 1
            },
            Phase::Done => {
                let n = self.generated@.len() - self.before;
                &&& 0 < n <= self.steps + 1
                &&& self.steps <= n
                &&& self.position == self.start + self.input_len + n
            },
        }
    }

    /// Starts to answer a prompt of `input_len` tokens at `position`.
    pub fn new(cfg: GenConfig, position: usize, input_len: usize) -> (g: Generation)
        requires
            position + input_len + cfg.max_new_tokens + 1 <= usize::MAX,
        ensures
            g.wf(),
            g.cfg == cfg,
            g.input_len == input_len,
            g.start == position,
            g.before == 0,
            g@ == fresh_generation(position as int),
    {
        Generation::resume(cfg, position, input_len, Vec::new(), String::new(), 0)
    }

    /// Starts to answer a prompt of `input_len` tokens at `position`, going on
    /// from tokens that were generated before, their text and how many of its
    /// characters have been printed.
    pub fn resume(
        cfg: GenConfig,
        position: usize,
        input_len: usize,
        generated: Vec<u32>,
        response: String,
        printed_chars: usize,
    ) -> (g: Generation)
        requires
            position + input_len + cfg.max_new_tokens + 1 <= usize::MAX,
        ensures
            g.wf(),
            g.cfg == cfg,
            g.input_len == input_len,
            g.start == position,
            g.before == generated@.len(),
            g@ == resumed_generation(
                position as int,
                generated@,
                response@,
                printed_chars as int,
            ),
    {
        Generation {
            cfg,
            input_len,
            start: position,
            before: generated.len(),
            phase: Phase::Prefill,
            steps: 0,
            position,
            generated,
            response,
            printed_chars,
            token_count: 0,
        }
    }

    /// What the model is to be run on now.
    pub fn request(&self) -> (r: Request)
        requires
            self.wf(),
        ensures
            r == (match self.phase {
                Phase::Prefill => Request::Prompt { position: self.position },
                Phase::Decoding => Request::Token {
                    token: self.generated@.last(),
                    at: self.position,
                    penalized_from: if self.cfg.repeat_penalty == NO_PENALTY {
                        None
                    } else if self.generated@.len() < self.cfg.repeat_last_n {
                        Some(0usize)
                    } else {
                        Some((self.generated@.len() - self.cfg.repeat_last_n) as usize)
                    },
                },
                Phase::Done => Request::Nothing,
            }),
    {
        match self.phase {
            Phase::Prefill => Request::Prompt { position: self.position },
            Phase::Decoding => {
                let n: usize = self.generated.len();
                let penalized_from: Option<usize> = if self.cfg.repeat_penalty == NO_PENALTY {
                    None
                } else if n < self.cfg.repeat_last_n {
                    Some(0)
                } else {
                    Some(n - self.cfg.repeat_last_n)
                };
                Request::Token { token: self.generated[n - 1], at: self.position, penalized_from }
            },
            Phase::Done => Request::Nothing,
        }
    }

    /// Takes over the text of the tokens generated so far and returns what of it
    /// is to be printed.
    pub fn stream(&mut self, text: String) -> (r: Option<String>)
        requires
            old(self).wf(),
        ensures
            final(self).wf(),
            final(self).cfg == old(self).cfg,
            final(self).input_len == old(self).input_len,
            final(self).start == old(self).start,
            final(self).before == old(self).before,
            final(self)@ == streamed(old(self)@, text@).0,
            match r {
                Some(s) => streamed(old(self)@, text@).1 == Some(s@),
                None => streamed(old(self)@, text@).1 is None,
            },
    {
        let total: usize = text.as_str().unicode_len();
        let r = fresh_text(text.as_str(), self.printed_chars);
        if total > self.printed_chars {
            self.printed_chars = total;
        }
        self.response = text;
        r
    }

    /// Takes the token that was sampled and returns what is to be printed.
    pub fn sampled(&mut self, token: u32, eos: &[u32], tokenizer: &Tokenizer) -> (r: Option<String>)
        requires
            old(self).wf(),
        ensures
            final(self).wf(),
            final(self).cfg == old(self).cfg,
            final(self).input_len == old(self).input_len,
            final(self).start == old(self).start,
            final(self).before == old(self).before,
            ({
                let next = gen_next(
                    old(self)@,
                    old(self).cfg,
                    old(self).input_len as int,
                    token,
                    eos@,
                    *tokenizer,
                );
                &&& final(self)@ == next.0
                &&& match r {
                    Some(s) => next.1 == Some(s@),
                    None => next.1 is None,
                }
            }),
            ({
                let all = final(self).generated@;
                old(self).phase == Phase::Decoding && !eos@.contains(token) && all.len() >= 4
                    && decodable(*tokenizer, all, true) && decoded(*tokenizer, all, true) is Some
                    ==> final(self).response@ == decoded(*tokenizer, all, true)->0
            }),
    {
        match self.phase {
            Phase::Done => None,
            Phase::Prefill => {
                self.position = self.position + self.input_len + 1;
                self.generated.push(token);
                self.phase = if self.cfg.max_new_tokens == 0 {
                    Phase::Done
                } else {
                    Phase::Decoding
                };
                None
            },
            Phase::Decoding => {
                self.steps = self.steps + 1;
                self.token_count = self.token_count + 1;
                if holds(eos, token) {
                    self.phase = Phase::Done;
                    return None;
                }
                self.generated.push(token);
                self.position = self.position + 1;
                if self.steps >= self.cfg.max_new_tokens {
                    self.phase = Phase::Done;
                }
                if self.generated.len() >= STREAM_FROM {
                    let text = answer_of(tokenizer, self.generated.as_slice());
                    self.stream(text)
                } else {
                    None
                }
            },
        }
    }

    /// What came of the generation.
    pub fn stats(&self) -> (s: GenStats)
        ensures
            s.token_count == self.token_count,
    {
        GenStats { token_count: self.token_count }
    }
}

/// Logits that are a single row: one dimension, or two of which the first is
/// one.
#[derive(Debug, Clone, Copy, PartialEq, Eq, Structural)]
pub enum LogitsShape {
    /// A row as it is.
    Row,
    /// A row that is the only one of a matrix.
    OnlyRow,
    /// Something else.
    Unsupported,
}

/// How logits with these dimensions become a row.
pub fn squeeze_logits(dims: &[usize]) -> (r: LogitsShape)
    ensures
        r == (if dims@.len() == 1 {
            LogitsShape::Row
        } else if dims@.len() == 2 && dims@[0] == 1 {
            LogitsShape::OnlyRow
        } else {
            LogitsShape::Unsupported
        }),
{
    if dims.len() == 1 {
        LogitsShape::Row
    } else if dims.len() == 2 && dims[0] == 1 {
        LogitsShape::OnlyRow
    } else {
        LogitsShape::Unsupported
    }
}

// ── whole answers ──────────────────────────────────────────────────────────

/// A generation after these tokens were sampled.
pub open spec fn gen_run(
    v: GenView,
    cfg: GenConfig,
    input_len: int,
    tokens: Seq<u32>,
    eos: Seq<u32>,
    t: Tokenizer,
) -> GenView
    decreases tokens.len(),
{
    if tokens.len() == 0 {
        v
    } else {
        gen_next(
            gen_run(v, cfg, input_len, tokens.drop_last(), eos, t),
            cfg,
            input_len,
            tokens.last(),
            eos,
            t,
        ).0
    }
}

/// A generation that has not begun and goes on from earlier tokens, their text
/// and what of it has been printed.
pub open spec fn resumed_generation(
    position: int,
    generated: Seq<u32>,
    response: Seq<char>,
    printed: int,
) -> GenView {
    GenView {
        phase: Phase::Prefill,
        steps: 0,
        position,
        generated,
        response,
        printed,
        token_count: 0,
    }
}

/// A generation that has not begun.
pub open spec fn fresh_generation(position: int) -> GenView {
    resumed_generation(position, Seq::empty(), Seq::empty(), 0)
}

/// While no token ends the answer, what was sampled follows the tokens that were
/// there before, the position moves by the prompt and every token, and every
/// token but the first is counted. The answer is over when the first token and as
/// many as allowed have been sampled, and not before.
pub proof fn law_answer_is_what_was_sampled(
    position: int,
    before: Seq<u32>,
    response: Seq<char>,
    printed: int,
    cfg: GenConfig,
    input_len: int,
    tokens: Seq<u32>,
    eos: Seq<u32>,
    t: Tokenizer,
)
    requires
        0 < tokens.len() <= cfg.max_new_tokens + 1,
        forall|i: int| 1 <= i < tokens.len() ==> !eos.contains(#[trigger] tokens[i]),
    ensures
        ({
            let start = resumed_generation(position, before, response, printed);
            let v = gen_run(start, cfg, input_len, tokens, eos, t);
            &&& v.generated == before + tokens
            &&& v.position == position + input_len + tokens.len()
            &&& v.token_count == tokens.len() - 1
            &&& v.steps == tokens.len() - 1
            &&& v.phase == (if tokens.len() == cfg.max_new_tokens + 1 {
                Phase::Done
            } else {
                Phase::Decoding
            })
        }),
    decreases tokens.len(),
{
    let start = resumed_generation(position, before, response, printed);
    let less = tokens.drop_last();
    assert(tokens =~= less.push(tokens.last()));
    assert(before + tokens =~= (before + less).push(tokens.last()));
    if less.len() > 0 {
        assert forall|i: int| 1 <= i < less.len() implies !eos.contains(#[trigger] less[i]) by {
            assert(less[i] == tokens[i]);
        }
        law_answer_is_what_was_sampled(
            position,
            before,
            response,
            printed,
            cfg,
            input_len,
            less,
            eos,
            t,
        );
    } else {
        assert(before + less =~= before);
        assert(gen_run(start, cfg, input_len, less, eos, t) == start);
    }
}

/// A token that ends the answer is counted and is no part of it.
pub proof fn law_end_token_ends(
    v: GenView,
    cfg: GenConfig,
    input_len: int,
    token: u32,
    eos: Seq<u32>,
    t: Tokenizer,
)
    requires
        v.phase == Phase::Decoding,
        eos.contains(token),
    ensures
        ({
            let w = gen_next(v, cfg, input_len, token, eos, t).0;
            &&& w.phase == Phase::Done
            &&& w.generated == v.generated
            &&& w.position == v.position
            &&& w.token_count == v.token_count + 1
        }),
{
}

/// An answer reads as its tokens decode, however many they are; only tokens that
/// do not decode are shown as an error.
pub proof fn law_answer_is_the_decoding(t: Tokenizer, ids: Seq<u32>)
    ensures
        decodable(t, ids, true) && decoded(t, ids, true) is Some ==> answer_text(t, ids)
            == decoded(t, ids, true)->0,
        !(decodable(t, ids, true) && decoded(t, ids, true) is Some) ==> answer_text(t, ids)
            == "[DECODE_ERROR]"@,
{
}

/// What was printed while these tokens were sampled.
pub open spec fn gen_shown(
    v: GenView,
    cfg: GenConfig,
    input_len: int,
    tokens: Seq<u32>,
    eos: Seq<u32>,
    t: Tokenizer,
) -> Seq<char>
    decreases tokens.len(),
{
    if tokens.len() == 0 {
        Seq::empty()
    } else {
        let less = tokens.drop_last();
        gen_shown(v, cfg, input_len, less, eos, t) + match gen_next(
            gen_run(v, cfg, input_len, less, eos, t),
            cfg,
            input_len,
            tokens.last(),
            eos,
            t,
        ).1 {
            Some(piece) => piece,
            None => Seq::empty(),
        }
    }
}

/// Once four tokens are there and one more than the first has been sampled, the
/// response is the decoding of all of them, whatever their number; until then
/// nothing is printed and the response stays.
pub proof fn law_response_is_the_decoding(
    position: int,
    before: Seq<u32>,
    response: Seq<char>,
    printed: int,
    cfg: GenConfig,
    input_len: int,
    tokens: Seq<u32>,
    eos: Seq<u32>,
    t: Tokenizer,
)
    requires
        0 < tokens.len() <= cfg.max_new_tokens + 1,
        forall|i: int| 1 <= i < tokens.len() ==> !eos.contains(#[trigger] tokens[i]),
    ensures
        ({
            let start = resumed_generation(position, before, response, printed);
            let v = gen_run(start, cfg, input_len, tokens, eos, t);
            let all = before + tokens;
            &&& tokens.len() >= 2 && all.len() >= 4 && decodable(t, all, true) && decoded(
                t,
                all,
                true,
            ) is Some ==> v.response == decoded(t, all, true)->0
            &&& tokens.len() == 1 || all.len() < 4 ==> v.response == response && v.printed
                == printed && gen_shown(start, cfg, input_len, tokens, eos, t) == Seq::<
                char,
            >::empty()
        }),
    decreases tokens.len(),
{
    let start = resumed_generation(position, before, response, printed);
    let less = tokens.drop_last();
    let all = before + tokens;
    law_answer_is_what_was_sampled(
        position,
        before,
        response,
        printed,
        cfg,
        input_len,
        tokens,
        eos,
        t,
    );
    if less.len() > 0 {
        assert forall|i: int| 1 <= i < less.len() implies !eos.contains(#[trigger] less[i]) by {
            assert(less[i] == tokens[i]);
        }
        law_response_is_the_decoding(
            position,
            before,
            response,
            printed,
            cfg,
            input_len,
            less,
            eos,
            t,
        );
        law_answer_is_what_was_sampled(
            position,
            before,
            response,
            printed,
            cfg,
            input_len,
            less,
            eos,
            t,
        );
        assert((before + less).push(tokens.last()) =~= all);
    } else {
        assert(gen_run(start, cfg, input_len, less, eos, t) == start);
        assert(gen_shown(start, cfg, input_len, less, eos, t) =~= Seq::<char>::empty());
    }
    assert(tokens.len() == 1 || all.len() < 4 ==> gen_shown(start, cfg, input_len, tokens, eos, t)
        =~= Seq::<char>::empty());
}

/// `a` is how `b` begins.
pub open spec fn begins(a: Seq<char>, b: Seq<char>) -> bool {
    a.len() <= b.len() && b.take(a.len() as int) == a
}

proof fn lemma_shown_begins(
    position: int,
    before: Seq<u32>,
    response: Seq<char>,
    shown: Seq<char>,
    cfg: GenConfig,
    input_len: int,
    tokens: Seq<u32>,
    eos: Seq<u32>,
    t: Tokenizer,
    whole: Seq<char>,
)
    requires
        tokens.len() <= cfg.max_new_tokens + 1,
        forall|i: int| 1 <= i < tokens.len() ==> !eos.contains(#[trigger] tokens[i]),
        begins(shown, whole),
        forall|i: int|
            1 <= i <= tokens.len() ==> begins(
                answer_text(t, before + #[trigger] tokens.take(i)),
                whole,
            ),
    ensures
        ({
            let start = resumed_generation(position, before, response, shown.len() as int);
            let v = gen_run(start, cfg, input_len, tokens, eos, t);
            &&& 0 <= v.printed <= whole.len()
            &&& shown + gen_shown(start, cfg, input_len, tokens, eos, t) == whole.take(v.printed)
        }),
    decreases tokens.len(),
{
    let start = resumed_generation(position, before, response, shown.len() as int);
    let less = tokens.drop_last();
    if tokens.len() == 0 {
        assert(shown + Seq::<char>::empty() =~= shown);
    } else {
        assert forall|i: int| 1 <= i < less.len() implies !eos.contains(#[trigger] less[i]) by {
            assert(less[i] == tokens[i]);
        }
        assert forall|i: int| 1 <= i <= less.len() implies begins(
            answer_text(t, before + #[trigger] less.take(i)),
            whole,
        ) by {
            assert(less.take(i) =~= tokens.take(i));
        }
        lemma_shown_begins(
            position,
            before,
            response,
            shown,
            cfg,
            input_len,
            less,
            eos,
            t,
            whole,
        );
        let v = gen_run(start, cfg, input_len, less, eos, t);
        let so_far = gen_shown(start, cfg, input_len, less, eos, t);
        assert(so_far + Seq::<char>::empty() =~= so_far);
        if less.len() > 0 {
            law_answer_is_what_was_sampled(
                position,
                before,
                response,
                shown.len() as int,
                cfg,
                input_len,
                less,
                eos,
                t,
            );
            let all = v.generated.push(tokens.last());
            assert(all =~= before + tokens.take(tokens.len() as int));
            let text = answer_text(t, all);
            assert(begins(text, whole));
            if all.len() >= STREAM_FROM && text.len() > v.printed {
                let more = text.skip(v.printed);
                assert(shown + (so_far + more) =~= whole.take(v.printed) + more);
                assert(whole.take(v.printed) + more =~= whole.take(text.len() as int)) by {
                    assert(text == whole.take(text.len() as int));
                }
            }
        } else {
            assert(v == start);
        }
    }
}

/// Printed piece by piece an answer comes out whole. Where tokens already printed
/// read the same with more behind them, what had been printed, what is printed
/// while the tokens are sampled, and what is left of the text at the end make the
/// decoding of all the tokens, whatever their number.
pub proof fn law_answer_is_printed_whole(
    position: int,
    before: Seq<u32>,
    response: Seq<char>,
    shown: Seq<char>,
    cfg: GenConfig,
    input_len: int,
    tokens: Seq<u32>,
    eos: Seq<u32>,
    t: Tokenizer,
)
    requires
        0 < tokens.len() <= cfg.max_new_tokens + 1,
        forall|i: int| 1 <= i < tokens.len() ==> !eos.contains(#[trigger] tokens[i]),
        decodable(t, before + tokens, true),
        decoded(t, before + tokens, true) is Some,
        begins(shown, decoded(t, before + tokens, true)->0),
        forall|i: int|
            1 <= i <= tokens.len() ==> {
                let part = before + #[trigger] tokens.take(i);
                &&& decodable(t, part, true)
                &&& decoded(t, part, true) is Some
                &&& begins(decoded(t, part, true)->0, decoded(t, before + tokens, true)->0)
            },
    ensures
        ({
            let start = resumed_generation(position, before, response, shown.len() as int);
            let v = gen_run(start, cfg, input_len, tokens, eos, t);
            let rest = match fresh(answer_text(t, v.generated), v.printed) {
                Some(more) => more,
                None => Seq::empty(),
            };
            shown + gen_shown(start, cfg, input_len, tokens, eos, t) + rest == decoded(
                t,
                before + tokens,
                true,
            )->0
        }),
{
    let whole = decoded(t, before + tokens, true)->0;
    let start = resumed_generation(position, before, response, shown.len() as int);
    let v = gen_run(start, cfg, input_len, tokens, eos, t);
    assert forall|i: int| 1 <= i <= tokens.len() implies begins(
        answer_text(t, before + #[trigger] tokens.take(i)),
        whole,
    ) by {
        law_answer_is_the_decoding(t, before + tokens.take(i));
    }
    lemma_shown_begins(
        position,
        before,
        response,
        shown,
        cfg,
        input_len,
        tokens,
        eos,
        t,
        whole,
    );
    law_answer_is_what_was_sampled(
        position,
        before,
        response,
        shown.len() as int,
        cfg,
        input_len,
        tokens,
        eos,
        t,
    );
    law_answer_is_the_decoding(t, v.generated);
    let so_far = shown + gen_shown(start, cfg, input_len, tokens, eos, t);
    if whole.len() > v.printed {
        assert(whole.take(v.printed) + whole.skip(v.printed) =~= whole);
    } else {
        assert(so_far + Seq::<char>::empty() =~= whole);
    }
}

/// An answer that is over stays as it is, and nothing more is printed.
pub proof fn law_over_is_over(
    v: GenView,
    cfg: GenConfig,
    input_len: int,
    token: u32,
    eos: Seq<u32>,
    t: Tokenizer,
)
    requires
        v.phase == Phase::Done,
    ensures
        gen_next(v, cfg, input_len, token, eos, t).0 == v,
        gen_next(v, cfg, input_len, token, eos, t).1 is None,
{
}

/// An end token changes neither the response nor what has been printed.
pub proof fn law_end_token_prints_nothing(
    v: GenView,
    cfg: GenConfig,
    input_len: int,
    token: u32,
    eos: Seq<u32>,
    t: Tokenizer,
)
    requires
        v.phase == Phase::Decoding,
        eos.contains(token),
    ensures
        gen_next(v, cfg, input_len, token, eos, t).0.response == v.response,
        gen_next(v, cfg, input_len, token, eos, t).0.printed == v.printed,
        gen_next(v, cfg, input_len, token, eos, t).0.steps == v.steps + 1,
        gen_next(v, cfg, input_len, token, eos, t).1 is None,
{
}

/// What is shown of tokens is their whole decoding, whatever their number.
pub proof fn law_shown_is_the_decoding(tokenizer: &Tokenizer, ids: &[u32], s: String)
    requires
        call_ensures(answer_of, (tokenizer, ids), s),
        decodable(*tokenizer, ids@, true),
        decoded(*tokenizer, ids@, true) is Some,
    ensures
        s@ == decoded(*tokenizer, ids@, true)->0,
{
}

/// The model is run on the last token that was generated, at the next position,
/// and a penalty, unless it is one, is for the last tokens, as many as set or all
/// there are.
pub proof fn law_penalty_is_for_the_last_tokens(g: &Generation, r: Request)
    requires
        g.wf(),
        g.phase == Phase::Decoding,
        g.generated@.len() <= usize::MAX,
        call_ensures(Generation::request, (g,), r),
    ensures
        r is Token,
        r->token == g.generated@[g.generated@.len() - 1],
        r->at == g.start + g.input_len + g.steps + 1,
        g.cfg.repeat_penalty == 0x3F80_0000 <==> r->penalized_from is None,
        r->penalized_from is Some ==> {
            let n = g.generated@.len() - r->penalized_from->0;
            &&& n <= g.cfg.repeat_last_n
            &&& n == g.cfg.repeat_last_n || r->penalized_from->0 == 0
        },
{
}

/// Before the first token the model is run on the prompt, where it begins; after
/// the last it is not run.
pub proof fn law_prompt_first_nothing_last(g: &Generation, r: Request)
    requires
        g.wf(),
        g.phase != Phase::Decoding,
        call_ensures(Generation::request, (g,), r),
    ensures
        g.phase == Phase::Prefill ==> r == (Request::Prompt { position: g.start }),
        g.phase == Phase::Done ==> r == Request::Nothing,
{
}

/// A generation is seen as it is, with all its tokens and its whole response.
pub proof fn law_generation_is_seen_whole(g: Generation)
    ensures
        g@.generated == g.generated@,
        g@.response == g.response@,
        g@.printed == g.printed_chars,
        g@.position == g.position,
        g@.steps == g.steps,
        g@.token_count == g.token_count,
        g@.phase == g.phase,
{
}

/// A generation begins with what it goes on from, and a new one with nothing.
pub proof fn law_generation_begins(
    position: int,
    generated: Seq<u32>,
    response: Seq<char>,
    printed: int,
)
    ensures
        ({
            let v = resumed_generation(position, generated, response, printed);
            &&& v.phase == Phase::Prefill
            &&& v.steps == 0
            &&& v.token_count == 0
            &&& v.position == position
            &&& v.generated == generated
            &&& v.response == response
            &&& v.printed == printed
        }),
        fresh_generation(position).generated == Seq::<u32>::empty(),
        fresh_generation(position).response == Seq::<char>::empty(),
        fresh_generation(position).printed == 0,
        fresh_generation(position).position == position,
        fresh_generation(position).phase == Phase::Prefill,
{
}

} // verus!
