//! The message history of a chat, the prompt that it makes, and how it is cut to
//! fit.

use tokenizers::Tokenizer;
use vstd::prelude::*;
use vstd::string::*;

use crate::tokens::{
    merge_dropout, text_tokens, token_ids, tokenizable, tokens_of, TokenizeError,
};

verus! {

/// Who a message is from.
#[derive(Debug, Clone, Copy, PartialEq, Eq, Structural)]
pub enum MessageRole {
    System,
    User,
    Assistant,
}

/// A message of the history.
#[derive(Debug)]
pub struct Message {
    pub role: MessageRole,
    pub content: String,
}

/// What a message says and who it is from.
pub type MessageView = (MessageRole, Seq<char>);

impl View for Message {
    type V = MessageView;

    open spec fn view(&self) -> MessageView {
        (self.role, self.content@)
    }
}

impl Clone for Message {
    fn clone(&self) -> (m: Message)
        ensures
            m@ == self@,
    {
        Message { role: self.role, content: self.content.clone() }
    }
}

/// A chat: the history, whose first message is the system's, and the number of
/// tokens that it may take.
#[derive(Debug)]
pub struct Conversation {
    pub messages: Vec<Message>,
    pub max_history_tokens: usize,
    pub system_prompt: String,
}

/// The views of messages.
pub open spec fn views(m: Seq<Message>) -> Seq<MessageView> {
    m.map_values(|x: Message| x@)
}

// ── prompts ────────────────────────────────────────────────────────────────

/// How a message of this role begins in a prompt.
pub open spec fn role_tag(r: MessageRole) -> Seq<char> {
    match r {
        MessageRole::System => "<|system|>\n"@,
        MessageRole::User => "<|user|>\n"@,
        MessageRole::Assistant => "<|assistant|>\n"@,
    }
}

/// A message in a prompt.
pub open spec fn rendered(m: MessageView) -> Seq<char> {
    role_tag(m.0) + m.1 + "<|end|>\n"@
}

/// A history in a prompt.
pub open spec fn history(m: Seq<MessageView>) -> Seq<char>
    decreases m.len(),
{
    if m.len() == 0 {
        Seq::empty()
    } else {
        history(m.drop_last()) + rendered(m.last())
    }
}

/// The prompt that asks for an answer to a history.
pub open spec fn prompt(m: Seq<MessageView>) -> Seq<char> {
    history(m) + role_tag(MessageRole::Assistant)
}

/// What one more message of the user adds to a prompt.
pub open spec fn user_turn(content: Seq<char>) -> Seq<char> {
    rendered((MessageRole::User, content)) + role_tag(MessageRole::Assistant)
}

/// The prompt of a history that ends with a message of the user is the history
/// before it followed by that message's turn.
pub proof fn law_prompt_of_turn(m: Seq<MessageView>, content: Seq<char>)
    ensures
        prompt(m.push((MessageRole::User, content))) == history(m) + user_turn(content),
{
    let n = m.push((MessageRole::User, content));
    assert(n.drop_last() =~= m);
    assert(prompt(n) =~= history(m) + user_turn(content));
}

fn tag_of(r: MessageRole) -> (s: &'static str)
    ensures
        s@ == role_tag(r),
{
    match r {
        MessageRole::System => "<|system|>\n",
        MessageRole::User => "<|user|>\n",
        MessageRole::Assistant => "<|assistant|>\n",
    }
}

fn push_rendered(s: &mut String, role: MessageRole, content: &str)
    ensures
        final(s)@ == old(s)@ + rendered((role, content@)),
{
    let ghost before = s@;
    s.append(tag_of(role));
    s.append(content);
    s.append("<|end|>\n");
    assert(s@ =~= before + rendered((role, content@)));
}

/// The text that is handed to the model for one more message of the user.
pub fn user_turn_prompt(content: &str) -> (s: String)
    ensures
        s@ == user_turn(content@),
{
    let mut s = String::new();
    push_rendered(&mut s, MessageRole::User, content);
    s.append(tag_of(MessageRole::Assistant));
    assert(s@ =~= user_turn(content@));
    s
}

/// A history is its messages one after the other.
pub proof fn law_history_joins(a: Seq<MessageView>, b: Seq<MessageView>)
    ensures
        history(a + b) == history(a) + history(b),
    decreases b.len(),
{
    if b.len() == 0 {
        assert(a + b =~= a);
        assert(history(a) + history(b) =~= history(a));
    } else {
        law_history_joins(a, b.drop_last());
        assert((a + b).drop_last() =~= a + b.drop_last());
        assert((a + b).last() == b.last());
        assert(history(a + b) =~= history(a) + history(b));
    }
}

/// A message stands whole between its role and its end, and a prompt ends where
/// the assistant is to speak.
pub proof fn law_messages_are_tagged(m: Seq<MessageView>, text: Seq<char>)
    ensures
        history(seq![(MessageRole::System, text)]) == "<|system|>\n"@ + text + "<|end|>\n"@,
        history(seq![(MessageRole::User, text)]) == "<|user|>\n"@ + text + "<|end|>\n"@,
        history(seq![(MessageRole::Assistant, text)]) == "<|assistant|>\n"@ + text + "<|end|>\n"@,
        prompt(m) == history(m) + "<|assistant|>\n"@,
        user_turn(text) == "<|user|>\n"@ + text + "<|end|>\n"@ + "<|assistant|>\n"@,
{
    let none = Seq::<MessageView>::empty();
    let s = seq![(MessageRole::System, text)];
    let u = seq![(MessageRole::User, text)];
    let a = seq![(MessageRole::Assistant, text)];
    assert(s.drop_last() =~= none && u.drop_last() =~= none && a.drop_last() =~= none);
    assert(history(none) =~= Seq::<char>::empty());
    assert(history(s) =~= "<|system|>\n"@ + text + "<|end|>\n"@);
    assert(history(u) =~= "<|user|>\n"@ + text + "<|end|>\n"@);
    assert(history(a) =~= "<|assistant|>\n"@ + text + "<|end|>\n"@);
}

// ── the window ─────────────────────────────────────────────────────────────

/// The sum of the last `m` counts.
pub open spec fn suffix_sum(counts: Seq<usize>, m: int) -> int
    decreases m,
{
    if m <= 0 {
        0
    } else {
        suffix_sum(counts, m - 1) + counts[counts.len() - m]
    }
}

/// `m` is how many of the newest messages fit beside the system's: as many as
/// stay within `max` when taken newest first, up to the first that does not fit.
pub open spec fn fits(system: int, counts: Seq<usize>, max: int, m: int) -> bool {
    &&& 0 <= m <= counts.len()
    &&& forall|i: int| 1 <= i <= m ==> system + #[trigger] suffix_sum(counts, i) <= max
    &&& m < counts.len() ==> system + suffix_sum(counts, m + 1) > max
}

/// There is only one number of messages that fits.
pub proof fn law_window_unique(system: int, counts: Seq<usize>, max: int, m1: int, m2: int)
    requires
        fits(system, counts, max, m1),
        fits(system, counts, max, m2),
    ensures
        m1 == m2,
{
    if m1 < m2 {
        assert(system + suffix_sum(counts, m1 + 1) <= max);
    } else if m2 < m1 {
        assert(system + suffix_sum(counts, m2 + 1) <= max);
    }
}

/// A history cut to its first message and the last `m` of the others.
pub open spec fn cut(all: Seq<MessageView>, m: int) -> Seq<MessageView> {
    seq![all[0]] + all.skip(all.len() - m)
}

/// How many tokens a text has.
pub open spec fn token_count(t: Tokenizer, text: Seq<char>) -> Option<int> {
    match text_tokens(t, text) {
        Some(ids) => Some(ids.len() as int),
        None => None,
    }
}

/// How many of the messages after the first are kept, newest first, when
/// `current` tokens are taken: nothing where a message that is looked at has no
/// tokens at all.
pub open spec fn kept(t: Tokenizer, rest: Seq<MessageView>, current: int, max: int) -> Option<int>
    decreases rest.len(),
{
    if rest.len() == 0 {
        Some(0)
    } else {
        match token_count(t, rest.last().1) {
            None => None,
            Some(n) => if current + n > max {
                Some(0)
            } else {
                match kept(t, rest.drop_last(), current + n, max) {
                    None => None,
                    Some(m) => Some(m + 1),
                }
            },
        }
    }
}

/// The history after the window is applied: all of it where its prompt fits,
/// else what is kept. Nothing where a text cannot be tokenized.
pub open spec fn windowed(t: Tokenizer, all: Seq<MessageView>, system: Seq<char>, max: int) -> Option<
    Seq<MessageView>,
> {
    match token_count(t, prompt(all)) {
        None => None,
        Some(total) => if total <= max {
            Some(all)
        } else {
            match token_count(t, system) {
                None => None,
                Some(current) => match kept(t, all.drop_first(), current, max) {
                    None => None,
                    Some(m) => Some(cut(all, m)),
                },
            }
        },
    }
}

/// Messages taken into a window so far, and the tokens they have.
#[derive(Debug, Clone, Copy, PartialEq, Eq, Structural)]
pub struct Window {
    pub current: usize,
    pub kept: usize,
    pub max: usize,
}

impl Window {
    /// A window that holds the system prompt alone.
    pub fn new(system: usize, max: usize) -> (w: Window)
        ensures
            w == (Window { current: system, kept: 0, max }),
    {
        Window { current: system, kept: 0, max }
    }

    /// Takes a message of `n` tokens in if it fits.
    pub fn take(&mut self, n: usize) -> (taken: bool)
        requires
            old(self).kept < usize::MAX,
        ensures
            taken == (old(self).current + n <= old(self).max),
            taken ==> *final(self) == (Window {
                current: (old(self).current + n) as usize,
                kept: (old(self).kept + 1) as usize,
                max: old(self).max,
            }),
            !taken ==> *final(self) == *old(self),
    {
        match self.current.checked_add(n) {
            Some(next) => {
                if next > self.max {
                    return false;
                }
                self.current = next;
                self.kept = self.kept + 1;
                true
            },
            None => false,
        }
    }
}

/// What applying the window did.
#[derive(Debug, Clone, Copy, PartialEq, Eq, Structural)]
pub struct Trim {
    pub kept: usize,
    pub removed: usize,
}

/// What was done to `all` made it `now`: nothing, or it was cut to so many
/// messages by so many.
pub open spec fn trimmed_by(
    trim: Option<Trim>,
    all: Seq<MessageView>,
    now: Seq<MessageView>,
) -> bool {
    match trim {
        Some(t) => t.kept == now.len() && t.kept + t.removed == all.len(),
        None => now == all,
    }
}

/// `now` is `all`, or `all` cut to its first message and some of the last ones.
pub open spec fn newest_of(now: Seq<MessageView>, all: Seq<MessageView>) -> bool {
    now == all || exists|m: int| 0 <= m < all.len() && now == #[trigger] cut(all, m)
}

impl Conversation {
    /// The history has its first message.
    pub open spec fn wf(&self) -> bool {
        self.messages@.len() > 0
    }

    /// A chat that holds the system's message alone.
    pub fn new(system_prompt: String, max_history_tokens: usize) -> (c: Conversation)
        ensures
            c.wf(),
            views(c.messages@) == seq![(MessageRole::System, system_prompt@)],
            c.max_history_tokens == max_history_tokens,
            c.system_prompt@ == system_prompt@,
    {
        let system_msg = Message { role: MessageRole::System, content: system_prompt.clone() };
        let mut messages: Vec<Message> = Vec::new();
        messages.push(system_msg);
        assert(views(messages@) =~= seq![(MessageRole::System, system_prompt@)]);
        Conversation { messages, max_history_tokens, system_prompt }
    }

    /// Adds a message of the user.
    pub fn add_user_message(&mut self, content: String)
        ensures
            final(self).wf(),
            views(final(self).messages@) == views(old(self).messages@).push(
                (MessageRole::User, content@),
            ),
            final(self).max_history_tokens == old(self).max_history_tokens,
            final(self).system_prompt == old(self).system_prompt,
    {
        let ghost before = self.messages@;
        self.messages.push(Message { role: MessageRole::User, content });
        assert(views(self.messages@) =~= views(before).push((MessageRole::User, content@)));
    }

    /// Adds a message of the assistant.
    pub fn add_assistant_message(&mut self, content: String)
        ensures
            final(self).wf(),
            views(final(self).messages@) == views(old(self).messages@).push(
                (MessageRole::Assistant, content@),
            ),
            final(self).max_history_tokens == old(self).max_history_tokens,
            final(self).system_prompt == old(self).system_prompt,
    {
        let ghost before = self.messages@;
        self.messages.push(Message { role: MessageRole::Assistant, content });
        assert(views(self.messages@) =~= views(before).push((MessageRole::Assistant, content@)));
    }

    /// The prompt that asks for an answer.
    pub fn format_prompt(&self) -> (s: String)
        ensures
            s@ == prompt(views(self.messages@)),
    {
        let mut s = String::new();
        let n: usize = self.messages.len();
        let ghost all = views(self.messages@);
        let mut i: usize = 0;
        assert(all.take(0) =~= Seq::<MessageView>::empty());
        while i < n
            invariant
                n == self.messages@.len(),
                all == views(self.messages@),
                i <= n,
                s@ == history(all.take(i as int)),
            decreases n - i,
        {
            let m = &self.messages[i];
            push_rendered(&mut s, m.role, m.content.as_str());
            proof {
                let t = all.take(i + 1);
                assert(t.drop_last() =~= all.take(i as int));
                assert(t.last() == m@);
            }
            i += 1;
        }
        assert(all.take(n as int) =~= all);
        s.append(tag_of(MessageRole::Assistant));
        s
    }

    /// Cuts the history to the system's message and the newest messages that fit
    /// in the tokens it may take. A history whose prompt fits stays whole, and a
    /// text that cannot be tokenized is an error that changes nothing.
    pub fn apply_sliding_window(&mut self, tokenizer: &Tokenizer) -> (r: Result<
        Option<Trim>,
        TokenizeError,
    >)
        requires
            old(self).wf(),
        ensures
            final(self).wf(),
            final(self).max_history_tokens == old(self).max_history_tokens,
            final(self).system_prompt == old(self).system_prompt,
            newest_of(views(final(self).messages@), views(old(self).messages@)),
            r is Err ==> views(final(self).messages@) == views(old(self).messages@),
            r is Ok ==> trimmed_by(
                r->Ok_0,
                views(old(self).messages@),
                views(final(self).messages@),
            ),
            r == Err::<Option<Trim>, TokenizeError>(TokenizeError::Unsupported) <==> !tokenizable(
                *tokenizer,
            ),
            !merge_dropout(*tokenizer) ==> {
                let w = windowed(
                    *tokenizer,
                    views(old(self).messages@),
                    old(self).system_prompt@,
                    old(self).max_history_tokens as int,
                );
                match r {
                    Ok(_) => w == Some(views(final(self).messages@)),
                    Err(_) => w is None,
                }
            },
            !merge_dropout(*tokenizer) && r is Ok ==> (r->Ok_0 is None <==> token_ids(
                *tokenizer,
                prompt(views(old(self).messages@)),
                false,
            )->0.len() <= old(self).max_history_tokens),
            !merge_dropout(*tokenizer) && r is Ok ==> {
                let t = *tokenizer;
                let all = views(old(self).messages@);
                let now = views(final(self).messages@);
                let max = old(self).max_history_tokens as int;
                &&& token_ids(t, prompt(all), false)->0.len() <= max ==> now == all
                &&& token_ids(t, prompt(all), false)->0.len() > max ==> exists|m: int|
                    {
                        let newest = #[trigger] all.skip(all.len() - m);
                        let system = token_ids(t, old(self).system_prompt@, false)->0.len();
                        &&& 0 <= m < all.len()
                        &&& now == seq![all[0]] + newest
                        &&& m > 0 ==> system + tokens_in(t, newest) <= max
                        &&& m + 1 < all.len() ==> system + tokens_in(
                            t,
                            all.skip(all.len() - m - 1),
                        ) > max
                    }
            },
    {
        let ghost all = views(self.messages@);
        let full_prompt = self.format_prompt();
        let tokens: usize = match tokens_of(tokenizer, full_prompt.as_str()) {
            Ok(ids) => ids.len(),
            Err(e) => {
                return Err(e);
            },
        };
        if tokens <= self.max_history_tokens {
            return Ok(None);
        }
        let system: usize = match tokens_of(tokenizer, self.system_prompt.as_str()) {
            Ok(ids) => ids.len(),
            Err(e) => {
                return Err(e);
            },
        };
        let n: usize = self.messages.len();
        let mut window = Window::new(system, self.max_history_tokens);
        let ghost rest = all.drop_first();
        let ghost max = self.max_history_tokens as int;
        let mut left: usize = n - 1;
        let mut open = true;
        assert(rest.take(left as int) =~= rest);
        while open && left > 0
            invariant
                n == self.messages@.len(),
                all == views(self.messages@),
                rest == all.drop_first(),
                *self == *old(self),
                left < n,
                window.max == max,
                max == self.max_history_tokens,
                tokens > max,
                !merge_dropout(*tokenizer) ==> token_count(*tokenizer, prompt(all)) == Some(
                    tokens as int,
                ),
                !merge_dropout(*tokenizer) ==> token_count(*tokenizer, self.system_prompt@) == Some(
                    system as int,
                ),
                window.kept <= n - 1 - left,
                open ==> window.kept == n - 1 - left,
                !merge_dropout(*tokenizer) ==> {
                    let k = kept(*tokenizer, rest, system as int, max);
                    if open {
                        let more = kept(
                            *tokenizer,
                            rest.take(left as int),
                            window.current as int,
                            max,
                        );
                        match more {
                            Some(m) => k == Some(m + window.kept),
                            None => k is None,
                        }
                    } else {
                        k == Some(window.kept as int)
                    }
                },
            decreases
                left + (if open {
                    1int
                } else {
                    0
                }),
        {
            let ghost part = rest.take(left as int);
            let m = &self.messages[left];
            proof {
                assert(part.last() == rest[left - 1]);
                assert(rest[left - 1] == all[left as int]);
                assert(all[left as int] == m@);
                assert(part.drop_last() =~= rest.take(left - 1));
            }
            let count: usize = match tokens_of(tokenizer, m.content.as_str()) {
                Ok(ids) => ids.len(),
                Err(e) => {
                    return Err(e);
                },
            };
            if window.take(count) {
                left -= 1;
            } else {
                open = false;
            }
        }
        proof {
            if open {
                assert(rest.take(0) =~= Seq::<MessageView>::empty());
            }
        }
        let mut kept_messages: Vec<Message> = Vec::new();
        kept_messages.push(self.messages[0].clone());
        let from: usize = n - window.kept;
        let mut i: usize = from;
        let ghost tail = all.skip(from as int);
        assert(views(kept_messages@) =~= seq![all[0]] + tail.take(0));
        while i < n
            invariant
                n == self.messages@.len(),
                all == views(self.messages@),
                tail == all.skip(from as int),
                1 <= from <= i <= n,
                views(kept_messages@) == seq![all[0]] + tail.take(i - from),
            decreases n - i,
        {
            let ghost before = kept_messages@;
            kept_messages.push(self.messages[i].clone());
            proof {
                assert(views(kept_messages@) =~= views(before).push(all[i as int]));
                assert(tail.take(i + 1 - from) =~= tail.take(i - from).push(all[i as int]));
                assert(views(kept_messages@) =~= seq![all[0]] + tail.take(i + 1 - from));
            }
            i += 1;
        }
        proof {
            assert(tail.take(n - from) =~= tail);
            assert(views(kept_messages@) == cut(all, window.kept as int));
            assert(views(kept_messages@).len() == kept_messages@.len());
        }
        let kept_count: usize = kept_messages.len();
        self.messages = kept_messages;
        proof {
            if !merge_dropout(*tokenizer) {
                law_window_stays_within(
                    *tokenizer,
                    all,
                    old(self).system_prompt@,
                    max,
                    views(self.messages@),
                );
            }
        }
        Ok(Some(Trim { kept: kept_count, removed: n - kept_count }))
    }
}

proof fn lemma_suffix_sum(counts: Seq<usize>, m: int)
    requires
        0 <= m < counts.len(),
    ensures
        suffix_sum(counts, m + 1) == counts.last() + suffix_sum(counts.drop_last(), m),
    decreases m,
{
    if m > 0 {
        lemma_suffix_sum(counts, m - 1);
        assert(counts[counts.len() - m - 1] == counts.drop_last()[counts.drop_last().len() - m]);
    } else {
        assert(suffix_sum(counts, 1) == suffix_sum(counts, 0) + counts[counts.len() - 1]);
    }
}

/// Of messages that can all be tokenized, the window keeps the newest that fit,
/// up to the first that does not.
pub proof fn law_window_keeps_what_fits(
    t: Tokenizer,
    rest: Seq<MessageView>,
    counts: Seq<usize>,
    system: int,
    max: int,
)
    requires
        counts.len() == rest.len(),
        forall|i: int|
            0 <= i < rest.len() ==> token_count(t, (#[trigger] rest[i]).1) == Some(counts[i] as int),
    ensures
        kept(t, rest, system, max) is Some,
        fits(system, counts, max, kept(t, rest, system, max)->0),
    decreases rest.len(),
{
    if rest.len() > 0 {
        let n = counts.last() as int;
        assert(token_count(t, rest.last().1) == Some(n));
        lemma_suffix_sum(counts, 0);
        if system + n <= max {
            let less = counts.drop_last();
            assert forall|i: int| 0 <= i < rest.drop_last().len() implies token_count(
                t,
                (#[trigger] rest.drop_last()[i]).1,
            ) == Some(less[i] as int) by {
                assert(rest.drop_last()[i] == rest[i]);
            }
            law_window_keeps_what_fits(t, rest.drop_last(), less, system + n, max);
            let m = kept(t, rest.drop_last(), system + n, max)->0;
            assert forall|i: int| 1 <= i <= m + 1 implies system + #[trigger] suffix_sum(counts, i)
                <= max by {
                lemma_suffix_sum(counts, i - 1);
                if i > 1 {
                    assert(system + n + suffix_sum(less, i - 1) <= max);
                }
            }
            if m + 1 < counts.len() {
                lemma_suffix_sum(counts, m + 1);
            }
        }
    }
}

proof fn lemma_kept_again(t: Tokenizer, rest: Seq<MessageView>, current: int, max: int)
    requires
        kept(t, rest, current, max) is Some,
    ensures
        ({
            let m = kept(t, rest, current, max)->0;
            &&& 0 <= m <= rest.len()
            &&& kept(t, rest.skip(rest.len() - m), current, max) == Some(m)
        }),
    decreases rest.len(),
{
    let m = kept(t, rest, current, max)->0;
    if rest.len() > 0 {
        let n = token_count(t, rest.last().1)->0;
        if current + n > max {
            assert(rest.skip(rest.len() as int) =~= Seq::<MessageView>::empty());
        } else {
            let before = rest.drop_last();
            lemma_kept_again(t, before, current + n, max);
            let s = rest.skip(rest.len() - m);
            assert(s.last() == rest.last());
            assert(s.drop_last() =~= before.skip(before.len() - (m - 1)));
        }
    } else {
        assert(rest.skip(0) =~= rest);
    }
}

/// A history that the window was applied to stays as it is when the window is
/// applied again, if the prompt that it now makes can be tokenized.
pub proof fn law_window_settles(
    t: Tokenizer,
    all: Seq<MessageView>,
    system: Seq<char>,
    max: int,
    now: Seq<MessageView>,
)
    requires
        all.len() > 0,
        windowed(t, all, system, max) == Some(now),
        token_count(t, prompt(now)) is Some,
    ensures
        windowed(t, now, system, max) == Some(now),
{
    let total = token_count(t, prompt(all))->0;
    if total > max {
        let current = token_count(t, system)->0;
        let rest = all.drop_first();
        let m = kept(t, rest, current, max)->0;
        lemma_kept_again(t, rest, current, max);
        assert(now.drop_first() =~= rest.skip(rest.len() - m));
        assert(cut(now, m) =~= now);
    }
}

/// The tokens of messages, taken one by one.
pub open spec fn tokens_in(t: Tokenizer, m: Seq<MessageView>) -> int
    decreases m.len(),
{
    if m.len() == 0 {
        0
    } else {
        token_ids(t, m[0].1, false)->0.len() + tokens_in(t, m.drop_first())
    }
}

proof fn lemma_tokens_in(t: Tokenizer, m: Seq<MessageView>)
    requires
        m.len() > 0,
    ensures
        tokens_in(t, m) == tokens_in(t, m.drop_last()) + token_ids(t, m.last().1, false)->0.len(),
    decreases m.len(),
{
    if m.len() > 1 {
        lemma_tokens_in(t, m.drop_first());
        assert(m.drop_first().drop_last() =~= m.drop_last().drop_first());
    } else {
        assert(m.drop_first() =~= m.drop_last());
    }
}

proof fn lemma_kept_within(t: Tokenizer, rest: Seq<MessageView>, current: int, max: int)
    requires
        kept(t, rest, current, max) is Some,
    ensures
        ({
            let m = kept(t, rest, current, max)->0;
            let n = rest.len() as int;
            &&& 0 <= m <= n
            &&& m > 0 ==> current + tokens_in(t, rest.skip(n - m)) <= max
            &&& m < n ==> current + tokens_in(t, rest.skip(n - m - 1)) > max
        }),
    decreases rest.len(),
{
    let m = kept(t, rest, current, max)->0;
    let n = rest.len() as int;
    if n > 0 {
        let c = token_count(t, rest.last().1)->0;
        let last = rest.skip(n - 1);
        assert(last.drop_first() =~= Seq::<MessageView>::empty());
        assert(tokens_in(t, last) == c + tokens_in(t, last.drop_first()));
        if current + c <= max {
            let before = rest.drop_last();
            lemma_kept_within(t, before, current + c, max);
            let newest = rest.skip(n - m);
            lemma_tokens_in(t, newest);
            assert(newest.drop_last() =~= before.skip(n - m));
            if m == 1 {
                assert(newest.drop_last() =~= Seq::<MessageView>::empty());
            }
            if m < n {
                let more = rest.skip(n - m - 1);
                lemma_tokens_in(t, more);
                assert(more.drop_last() =~= before.skip(n - m - 1));
            }
        }
    }
}

/// The limit holds. A history whose prompt has no more tokens than `max` stays
/// whole. Of any other the first message stays and the newest after it, of which
/// the system prompt's tokens and their own make at most `max`, as many as do.
pub proof fn law_window_stays_within(
    t: Tokenizer,
    all: Seq<MessageView>,
    system: Seq<char>,
    max: int,
    now: Seq<MessageView>,
)
    requires
        all.len() > 0,
        windowed(t, all, system, max) == Some(now),
    ensures
        token_ids(t, prompt(all), false) is Some,
        token_ids(t, prompt(all), false)->0.len() <= max ==> now == all,
        token_ids(t, prompt(all), false)->0.len() > max ==> exists|m: int|
            {
                let newest = #[trigger] all.skip(all.len() - m);
                let first = token_ids(t, system, false)->0.len();
                &&& 0 <= m < all.len()
                &&& now == seq![all[0]] + newest
                &&& m > 0 ==> first + tokens_in(t, newest) <= max
                &&& m + 1 < all.len() ==> first + tokens_in(t, all.skip(all.len() - m - 1)) > max
            },
{
    let total = token_count(t, prompt(all))->0;
    if total > max {
        let current = token_count(t, system)->0;
        let rest = all.drop_first();
        let m = kept(t, rest, current, max)->0;
        lemma_kept_within(t, rest, current, max);
        assert(all.skip(all.len() - m) =~= rest.skip(rest.len() - m));
        if m < rest.len() {
            assert(all.skip(all.len() - m - 1) =~= rest.skip(rest.len() - m - 1));
        }
        assert(now == seq![all[0]] + all.skip(all.len() - m));
    }
}

/// Where the prompt has more tokens than `max` and every message can be
/// tokenized, the number of messages kept after the first is the one that fits.
pub proof fn law_window_keeps_the_number_that_fits(
    t: Tokenizer,
    all: Seq<MessageView>,
    counts: Seq<usize>,
    system: Seq<char>,
    max: int,
)
    requires
        all.len() > 0,
        counts.len() == all.len() - 1,
        token_count(t, prompt(all)) is Some,
        token_count(t, prompt(all))->0 > max,
        token_count(t, system) is Some,
        forall|i: int|
            1 <= i < all.len() ==> token_count(t, (#[trigger] all[i]).1) == Some(
                counts[i - 1] as int,
            ),
    ensures
        exists|m: int|
            {
                &&& fits(token_count(t, system)->0, counts, max, m)
                &&& windowed(t, all, system, max) == Some(
                    seq![all[0]] + #[trigger] all.skip(all.len() - m),
                )
            },
{
    let current = token_count(t, system)->0;
    let rest = all.drop_first();
    assert forall|i: int| 0 <= i < rest.len() implies token_count(t, (#[trigger] rest[i]).1)
        == Some(counts[i] as int) by {
        assert(rest[i] == all[i + 1]);
    }
    law_window_keeps_what_fits(t, rest, counts, current, max);
    let m = kept(t, rest, current, max)->0;
    assert(fits(current, counts, max, m));
    assert(cut(all, m) == seq![all[0]] + all.skip(all.len() - m));
}

/// Where the prompt, the system prompt and every message can be tokenized, the
/// window can be applied.
pub proof fn law_window_is_owed(t: Tokenizer, all: Seq<MessageView>, system: Seq<char>, max: int)
    requires
        all.len() > 0,
        tokenizable(t),
        token_ids(t, prompt(all), false) is Some,
        token_ids(t, system, false) is Some,
        forall|i: int|
            1 <= i < all.len() ==> token_ids(t, (#[trigger] all[i]).1, false) is Some,
    ensures
        windowed(t, all, system, max) is Some,
{
    let rest = all.drop_first();
    assert forall|i: int| 0 <= i < rest.len() implies token_count(
        t,
        (#[trigger] rest[i]).1,
    ) is Some by {
        assert(rest[i] == all[i + 1]);
    }
    lemma_kept_owed(t, rest, token_count(t, system)->0, max);
}

proof fn lemma_kept_owed(t: Tokenizer, rest: Seq<MessageView>, current: int, max: int)
    requires
        forall|i: int| 0 <= i < rest.len() ==> token_count(t, (#[trigger] rest[i]).1) is Some,
    ensures
        kept(t, rest, current, max) is Some,
    decreases rest.len(),
{
    if rest.len() > 0 {
        assert(token_count(t, rest[rest.len() - 1].1) is Some);
        let n = token_count(t, rest.last().1)->0;
        assert forall|i: int| 0 <= i < rest.drop_last().len() implies token_count(
            t,
            (#[trigger] rest.drop_last()[i]).1,
        ) is Some by {
            assert(rest.drop_last()[i] == rest[i]);
        }
        lemma_kept_owed(t, rest.drop_last(), current + n, max);
    }
}

/// What a cut reports: how many messages are left, and how many are gone; where it
/// reports nothing, nothing is gone.
pub proof fn law_cut_is_reported(
    trim: Option<Trim>,
    all: Seq<MessageView>,
    now: Seq<MessageView>,
)
    requires
        trimmed_by(trim, all, now),
    ensures
        trim is None ==> now == all,
        trim is Some ==> trim->0.kept == now.len() && trim->0.removed == all.len() - now.len(),
{
}

/// A history is seen as it is: every message, with its role and its whole text.
pub proof fn law_history_is_seen_whole(m: Seq<Message>, i: int)
    requires
        0 <= i < m.len(),
    ensures
        views(m).len() == m.len(),
        views(m)[i].0 == m[i].role,
        views(m)[i].1 == m[i].content@,
{
}

} // verus!
