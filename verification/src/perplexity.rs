//! Measuring perplexity: which stretches of a corpus are scored, and which
//! predictions count.

use tokenizers::Tokenizer;
use vstd::prelude::*;
use vstd::string::*;

use crate::text::{
    decimal, digits_value, law_decimal_round_trip, law_numbers_are_digits, parse_spec, parse_usize,
};
use crate::tokens::{merge_dropout, text_tokens, tokenizable, tokens_of, TokenizeError};

verus! {

/// The models to load and the corpus to score.
#[derive(Debug)]
pub struct PerplexityArgs {
    pub shard1: String,
    pub shard2: Option<String>,
    pub corpus: String,
}

/// Reads the arguments after the program's name: two or three, the last of which
/// is the corpus.
pub fn parse_args(args: &Vec<String>) -> (r: Option<PerplexityArgs>)
    ensures
        match r {
            Some(a) => {
                &&& args@.len() == 2 || args@.len() == 3
                &&& a.shard1@ == args@[0]@
                &&& a.corpus@ == args@.last()@
                &&& match a.shard2 {
                    Some(s) => args@.len() == 3 && s@ == args@[1]@,
                    None => args@.len() == 2,
                }
            },
            None => args@.len() != 2 && args@.len() != 3,
        },
{
    if args.len() == 2 {
        Some(
            PerplexityArgs {
                shard1: args[0].clone(),
                shard2: None,
                corpus: args[1].clone(),
            },
        )
    } else if args.len() == 3 {
        Some(
            PerplexityArgs {
                shard1: args[0].clone(),
                shard2: Some(args[1].clone()),
                corpus: args[2].clone(),
            },
        )
    } else {
        None
    }
}

/// The number that a setting gives; nothing where it is absent or no number.
pub open spec fn setting_value(setting: Option<Seq<char>>) -> Option<nat> {
    match setting {
        Some(t) => parse_spec(t, usize::MAX as nat),
        None => None,
    }
}

/// The text of a setting.
pub open spec fn setting_text(setting: Option<&str>) -> Option<Seq<char>> {
    match setting {
        Some(t) => Some(t@),
        None => None,
    }
}

/// The number that a setting gives.
pub fn env_opt_usize(setting: Option<&str>) -> (r: Option<usize>)
    ensures
        match r {
            Some(n) => setting_value(setting_text(setting)) == Some(n as nat),
            None => setting_value(setting_text(setting)) is None,
        },
{
    match setting {
        Some(t) => parse_usize(t),
        None => None,
    }
}

/// The number that a setting gives, or else `default`.
pub fn env_usize(setting: Option<&str>, default: usize) -> (r: usize)
    ensures
        match setting_value(setting_text(setting)) {
            Some(n) => r == n,
            None => r == default,
        },
{
    match env_opt_usize(setting) {
        Some(n) => n,
        None => default,
    }
}

/// Tokens of a chunk where no setting says otherwise.
pub const DEFAULT_CTX: usize = 512;

/// How a corpus is cut into chunks.
#[derive(Debug, Clone, Copy, PartialEq, Eq, Structural)]
pub struct EvalPlan {
    pub ctx: usize,
    pub stride: usize,
    pub max_chunks: Option<usize>,
}

/// Why a corpus cannot be scored.
#[derive(Debug, Clone, Copy, PartialEq, Eq, Structural)]
pub enum PlanError {
    /// A chunk would have fewer than two tokens.
    ContextTooShort,
    /// The chunks would never move on.
    ZeroStride,
    /// The corpus has fewer than two tokens.
    CorpusTooShort(usize),
}

/// Tokens of a chunk: as set, but no more than the model has positions.
pub open spec fn ctx_of(ctx: Option<nat>, max_positions: nat) -> nat {
    let wanted = match ctx {
        Some(n) => n,
        None => DEFAULT_CTX as nat,
    };
    if wanted < max_positions {
        wanted
    } else {
        max_positions
    }
}

/// `r` is the plan that these settings give for a corpus of `tokens` tokens and a
/// model of `max_positions` positions, or why there is none.
pub open spec fn planned(
    r: Result<EvalPlan, PlanError>,
    ctx: Option<Seq<char>>,
    stride: Option<Seq<char>>,
    max_chunks: Option<Seq<char>>,
    max_positions: nat,
    tokens: nat,
) -> bool {
    let c = ctx_of(setting_value(ctx), max_positions);
    let s = match setting_value(stride) {
        Some(n) => n,
        None => c,
    };
    match r {
        Ok(p) => {
            &&& p.ctx == c
            &&& c >= 2
            &&& p.stride == s
            &&& s > 0
            &&& tokens >= 2
            &&& match p.max_chunks {
                Some(n) => setting_value(max_chunks) == Some(n as nat),
                None => setting_value(max_chunks) is None,
            }
        },
        Err(PlanError::ContextTooShort) => c < 2,
        Err(PlanError::ZeroStride) => c >= 2 && s == 0,
        Err(PlanError::CorpusTooShort(n)) => c >= 2 && s > 0 && tokens < 2 && n == tokens,
    }
}

/// Reads the settings of a measurement. Without a stride of its own a chunk
/// begins where the one before ended.
pub fn plan_eval(
    ctx: Option<&str>,
    stride: Option<&str>,
    max_chunks: Option<&str>,
    max_positions: usize,
    tokens: usize,
) -> (r: Result<EvalPlan, PlanError>)
    ensures
        planned(
            r,
            setting_text(ctx),
            setting_text(stride),
            setting_text(max_chunks),
            max_positions as nat,
            tokens as nat,
        ),
{
    let wanted: usize = env_usize(ctx, DEFAULT_CTX);
    let c: usize = if wanted < max_positions { wanted } else { max_positions };
    let s: usize = env_usize(stride, c);
    let m = env_opt_usize(max_chunks);
    if c < 2 {
        return Err(PlanError::ContextTooShort);
    }
    if s == 0 {
        return Err(PlanError::ZeroStride);
    }
    if tokens < 2 {
        return Err(PlanError::CorpusTooShort(tokens));
    }
    Ok(EvalPlan { ctx: c, stride: s, max_chunks: m })
}

/// Why a corpus cannot be scored.
#[derive(Debug, PartialEq, Eq)]
pub enum CorpusError {
    /// It has no tokens.
    Tokenize(TokenizeError),
    /// The settings give no plan for so many tokens.
    Plan(PlanError),
}

/// The tokens of a corpus and how they are cut into chunks.
pub fn plan_corpus(
    corpus: &str,
    tokenizer: &Tokenizer,
    ctx: Option<&str>,
    stride: Option<&str>,
    max_chunks: Option<&str>,
    max_positions: usize,
) -> (r: Result<(Vec<u32>, EvalPlan), CorpusError>)
    ensures
        r == Err::<(Vec<u32>, EvalPlan), CorpusError>(
            CorpusError::Tokenize(TokenizeError::Unsupported),
        ) <==> !tokenizable(*tokenizer),
        match r {
            Ok((tokens, plan)) => planned(
                Ok(plan),
                setting_text(ctx),
                setting_text(stride),
                setting_text(max_chunks),
                max_positions as nat,
                tokens@.len(),
            ),
            Err(CorpusError::Tokenize(_)) => true,
            Err(CorpusError::Plan(e)) => exists|n: nat| #[trigger]
                planned(
                    Err(e),
                    setting_text(ctx),
                    setting_text(stride),
                    setting_text(max_chunks),
                    max_positions as nat,
                    n,
                ),
        },
        !merge_dropout(*tokenizer) ==> match r {
            Ok((tokens, _)) => text_tokens(*tokenizer, corpus@) == Some(tokens@),
            Err(CorpusError::Tokenize(_)) => text_tokens(*tokenizer, corpus@) is None,
            Err(CorpusError::Plan(e)) => text_tokens(*tokenizer, corpus@) is Some && planned(
                Err(e),
                setting_text(ctx),
                setting_text(stride),
                setting_text(max_chunks),
                max_positions as nat,
                text_tokens(*tokenizer, corpus@)->0.len(),
            ),
        },
{
    let tokens = match tokens_of(tokenizer, corpus) {
        Ok(ids) => ids,
        Err(e) => {
            return Err(CorpusError::Tokenize(e));
        },
    };
    match plan_eval(ctx, stride, max_chunks, max_positions, tokens.len()) {
        Ok(plan) => Ok((tokens, plan)),
        Err(e) => {
            assert(planned(
                Err(e),
                setting_text(ctx),
                setting_text(stride),
                setting_text(max_chunks),
                max_positions as nat,
                tokens@.len(),
            ));
            Err(CorpusError::Plan(e))
        },
    }
}

/// Where chunk `i` starts.
pub open spec fn chunk_start(p: EvalPlan, i: int) -> int {
    i * p.stride
}

/// Where chunk `i` of a corpus of `n` tokens ends.
pub open spec fn chunk_end(p: EvalPlan, n: int, i: int) -> int {
    if chunk_start(p, i) + p.ctx < n {
        chunk_start(p, i) + p.ctx
    } else {
        n
    }
}

/// There is a chunk `i`: the ones before do not reach the end of the corpus, its
/// own start leaves a token to predict, and the limit is not reached.
pub open spec fn has_chunk(p: EvalPlan, n: int, i: int) -> bool {
    &&& chunk_start(p, i) + 1 < n
    &&& i > 0 ==> chunk_end(p, n, i - 1) < n
    &&& p.max_chunks is Some ==> i < p.max_chunks->0
}

/// There is a chunk `i`, and `c` is where it starts and ends.
pub open spec fn is_chunk(p: EvalPlan, n: int, i: int, c: (usize, usize)) -> bool {
    &&& has_chunk(p, n, i)
    &&& c.0 == chunk_start(p, i)
    &&& c.1 == chunk_end(p, n, i)
}

/// `r` lists the chunks of a corpus of `n` tokens.
pub open spec fn chunks_of(p: EvalPlan, n: int, r: Seq<(usize, usize)>) -> bool {
    &&& forall|i: int| 0 <= i < r.len() ==> is_chunk(p, n, i, #[trigger] r[i])
    &&& !has_chunk(p, n, r.len() as int)
}

/// Cuts a corpus of `n` tokens into chunks.
pub fn chunks(p: &EvalPlan, n: usize) -> (r: Vec<(usize, usize)>)
    requires
        p.ctx >= 2,
        p.stride > 0,
    ensures
        chunks_of(*p, n as int, r@),
        r@.len() > 0 ==> r@[0].0 == 0,
        forall|i: int, j: int|
            0 <= i && j == i + 1 && j < r@.len() ==> #[trigger] r@[j].0 - #[trigger] r@[i].0
                == p.stride,
{
    let mut r: Vec<(usize, usize)> = Vec::new();
    let mut start: usize = 0;
    let mut more = n >= 2;
    assert(0 * p.stride == 0) by (nonlinear_arith);
    while more
        invariant
            p.ctx >= 2,
            p.stride > 0,
            forall|i: int| 0 <= i < r@.len() ==> is_chunk(*p, n as int, i, #[trigger] r@[i]),
            more ==> {
                &&& start == chunk_start(*p, r@.len() as int)
                &&& start + 1 < n
                &&& r@.len() > 0 ==> chunk_end(*p, n as int, r@.len() - 1) < n
            },
            !more ==> !has_chunk(*p, n as int, r@.len() as int),
        decreases
                (if more {
                    n - start + 1
                } else {
                    0
                }),
    {
        let done: usize = r.len();
        let capped = match p.max_chunks {
            Some(cap) => done >= cap,
            None => false,
        };
        if capped {
            more = false;
        } else {
            let left: usize = n - start;
            let end: usize = if p.ctx < left { start + p.ctx } else { n };
            let ghost before = r@;
            r.push((start, end));
            proof {
                let i = done as int;
                assert(chunk_end(*p, n as int, i) == end);
                assert(has_chunk(*p, n as int, i));
                assert((i + 1) * p.stride == i * p.stride + p.stride) by (nonlinear_arith);
                assert forall|j: int| 0 <= j < r@.len() implies is_chunk(
                    *p,
                    n as int,
                    j,
                    #[trigger] r@[j],
                ) by {
                    if j < i {
                        assert(r@[j] == before[j]);
                    }
                }
            }
            if end == n || left <= p.stride || left - p.stride < 2 {
                more = false;
            } else {
                start = start + p.stride;
            }
        }
    }
    proof {
        law_chunks_step(*p, n as int, r@);
    }
    r
}

/// The first chunk starts with the corpus, and each starts one stride after the
/// one before.
pub proof fn law_chunks_step(p: EvalPlan, n: int, r: Seq<(usize, usize)>)
    requires
        chunks_of(p, n, r),
    ensures
        r.len() > 0 ==> r[0].0 == 0,
        forall|i: int, j: int|
            0 <= i && j == i + 1 && j < r.len() ==> #[trigger] r[j].0 - #[trigger] r[i].0
                == p.stride,
{
    if r.len() > 0 {
        assert(is_chunk(p, n, 0, r[0]));
        assert(0 * p.stride == 0) by (nonlinear_arith);
    }
    assert forall|i: int, j: int| 0 <= i && j == i + 1 && j < r.len() implies #[trigger] r[j].0
        - #[trigger] r[i].0 == p.stride by {
        assert(is_chunk(p, n, i, r[i]));
        assert(is_chunk(p, n, j, r[j]));
        assert((i + 1) * p.stride == i * p.stride + p.stride) by (nonlinear_arith);
    }
}

/// A chunk has as many tokens as fit, or all that are left, and at least two;
/// only the last one reaches the end of the corpus.
pub proof fn law_chunks_are_full(p: EvalPlan, n: int, r: Seq<(usize, usize)>, i: int)
    requires
        p.ctx >= 2,
        chunks_of(p, n, r),
        0 <= i < r.len(),
    ensures
        r[i].0 + p.ctx <= n ==> r[i].1 == r[i].0 + p.ctx,
        r[i].0 + p.ctx > n ==> r[i].1 == n,
        r[i].1 - r[i].0 >= 2,
        i + 1 < r.len() ==> r[i].1 < n,
{
    assert(is_chunk(p, n, i, r[i]));
    if i + 1 < r.len() {
        assert(is_chunk(p, n, i + 1, r[i + 1]));
    }
}

/// The chunks end with the corpus, where the next would have no token to
/// predict, or at the limit, whichever comes first, and not before.
pub proof fn law_chunks_go_to_the_end(p: EvalPlan, n: int, r: Seq<(usize, usize)>)
    requires
        p.ctx >= 2,
        chunks_of(p, n, r),
    ensures
        p.max_chunks is Some ==> r.len() <= p.max_chunks->0,
        p.max_chunks is None || r.len() < p.max_chunks->0 ==> {
            &&& r.len() == 0 <==> n < 2
            &&& r.len() > 0 ==> r.last().1 == n || r.last().0 + p.stride + 1 >= n
        },
{
    let m = r.len() as int;
    assert(0 * p.stride == 0) by (nonlinear_arith);
    if m > 0 {
        assert(is_chunk(p, n, m - 1, r[m - 1]));
        assert(is_chunk(p, n, 0, r[0]));
        assert(m * p.stride == (m - 1) * p.stride + p.stride) by (nonlinear_arith);
    }
}

/// A number as a setting gives it.
pub open spec fn setting_of(n: Option<nat>) -> Option<Seq<char>> {
    match n {
        Some(n) => Some(decimal(n)),
        None => None,
    }
}

/// The settings decide: a chunk has as many tokens as set, or 512, but no more
/// than the model has positions; the stride is as set, or a whole chunk; the
/// limit is as set, or there is none. A corpus is refused where a chunk or the
/// corpus has fewer than two tokens, or the stride is 0, and only there.
pub proof fn law_settings_make_the_plan(
    r: Result<EvalPlan, PlanError>,
    ctx: Option<nat>,
    stride: Option<nat>,
    max_chunks: Option<nat>,
    max_positions: nat,
    tokens: nat,
)
    requires
        ctx is Some ==> ctx->0 <= usize::MAX,
        stride is Some ==> stride->0 <= usize::MAX,
        max_chunks is Some ==> max_chunks->0 <= usize::MAX,
        planned(
            r,
            setting_of(ctx),
            setting_of(stride),
            setting_of(max_chunks),
            max_positions,
            tokens,
        ),
    ensures
        r is Ok ==> {
            &&& r->Ok_0.ctx <= max_positions
            &&& ctx is Some && ctx->0 <= max_positions ==> r->Ok_0.ctx == ctx->0
            &&& ctx is None && 512 <= max_positions ==> r->Ok_0.ctx == 512
            &&& ctx is Some && ctx->0 > max_positions ==> r->Ok_0.ctx == max_positions
            &&& ctx is None && 512 > max_positions ==> r->Ok_0.ctx == max_positions
            &&& stride is Some ==> r->Ok_0.stride == stride->0
            &&& stride is None ==> r->Ok_0.stride == r->Ok_0.ctx
            &&& max_chunks is None ==> r->Ok_0.max_chunks is None
            &&& max_chunks is Some ==> r->Ok_0.max_chunks == Some(max_chunks->0 as usize)
        },
        r is Err <==> {
            ||| max_positions < 2
            ||| ctx is Some && ctx->0 < 2
            ||| stride == Some(0nat)
            ||| tokens < 2
        },
{
    if ctx is Some {
        law_decimal_round_trip(ctx->0);
    }
    if stride is Some {
        law_decimal_round_trip(stride->0);
    }
    if max_chunks is Some {
        law_decimal_round_trip(max_chunks->0);
    }
}

/// Chunks that do not overlap adjoin: every token up to the end of the last
/// chunk is in exactly one.
pub proof fn law_chunks_adjoin(p: EvalPlan, n: int, r: Seq<(usize, usize)>, i: int)
    requires
        p.stride == p.ctx,
        p.ctx >= 2,
        0 <= n <= usize::MAX,
        chunks_of(p, n, r),
        0 <= i,
        i + 1 < r.len(),
    ensures
        r[i].1 == r[i + 1].0,
        r[0].0 == 0,
{
    assert(is_chunk(p, n, 0, r[0]));
    assert(is_chunk(p, n, i, r[i]));
    assert(is_chunk(p, n, i + 1, r[i + 1]));
    assert((i + 1) * p.stride == i * p.stride + p.stride) by (nonlinear_arith);
    assert(0 <= i * p.stride) by (nonlinear_arith)
        requires
            0 <= i,
            0 <= p.stride,
    ;
    assert(0 * p.stride == 0) by (nonlinear_arith);
}

/// Every chunk has a token to predict and no more tokens than fit.
pub proof fn law_chunk_sizes(p: EvalPlan, n: int, r: Seq<(usize, usize)>, i: int)
    requires
        p.ctx >= 2,
        0 <= n <= usize::MAX,
        chunks_of(p, n, r),
        0 <= i < r.len(),
    ensures
        r[i].0 + 2 <= r[i].1 <= n,
        r[i].1 - r[i].0 <= p.ctx,
{
    assert(is_chunk(p, n, i, r[i]));
    assert(0 <= i * p.stride) by (nonlinear_arith)
        requires
            0 <= i,
            0 <= p.stride,
    ;
}

/// Where the prediction of each next token stands among `vocab` predictions per
/// position, or the first token that is out of the vocabulary.
pub fn target_indices(chunk: &[u32], vocab: usize) -> (r: Result<Vec<usize>, u32>)
    requires
        chunk@.len() >= 1,
        (chunk@.len() - 1) * vocab <= usize::MAX,
    ensures
        match r {
            Ok(v) => {
                &&& v@.len() == chunk@.len() - 1
                &&& forall|i: int|
                    0 <= i < v@.len() ==> chunk@[i + 1] < vocab && #[trigger] v@[i] == i * vocab
                        + chunk@[i + 1]
            },
            Err(t) => exists|i: int|
                {
                    &&& 1 <= i < chunk@.len()
                    &&& #[trigger] chunk@[i] == t
                    &&& t >= vocab
                    &&& forall|j: int| 1 <= j < i ==> #[trigger] chunk@[j] < vocab
                },
        },
{
    let n: usize = chunk.len();
    let mut v: Vec<usize> = Vec::new();
    let mut i: usize = 0;
    while i < n - 1
        invariant
            n == chunk@.len(),
            n >= 1,
            (n - 1) * vocab <= usize::MAX,
            i <= n - 1,
            v@.len() == i,
            forall|j: int|
                0 <= j < i ==> chunk@[j + 1] < vocab && #[trigger] v@[j] == j * vocab + chunk@[j
                    + 1],
            forall|j: int| 1 <= j <= i ==> #[trigger] chunk@[j] < vocab,
        decreases n - i,
    {
        let token: u32 = chunk[i + 1];
        let target: usize = token as usize;
        if target >= vocab {
            assert(chunk@[i + 1] == token);
            return Err(token);
        }
        assert(i * vocab + vocab <= (n - 1) * vocab) by (nonlinear_arith)
            requires
                i + 1 <= n - 1,
                0 <= vocab,
        ;
        v.push(i * vocab + target);
        i += 1;
    }
    Ok(v)
}

/// The prediction after each token is scored at the token that follows it: at row
/// `i` the column of token `i + 1`. A token that has no column is an error.
pub proof fn law_targets_are_the_next_tokens(
    chunk: &[u32],
    vocab: usize,
    r: Result<Vec<usize>, u32>,
)
    requires
        chunk@.len() >= 1,
        call_ensures(target_indices, (chunk, vocab), r),
    ensures
        r is Ok <==> forall|i: int| 1 <= i < chunk@.len() ==> #[trigger] chunk@[i] < vocab,
        r is Ok ==> r->Ok_0@.len() == chunk@.len() - 1,
        r is Ok ==> forall|i: int|
            0 <= i < r->Ok_0@.len() ==> {
                let at = #[trigger] r->Ok_0@[i] as int;
                &&& at / vocab as int == i
                &&& at % vocab as int == chunk@[i + 1]
            },
        r is Err ==> r->Err_0 >= vocab && chunk@.contains(r->Err_0),
{
    if let Ok(v) = r {
        assert forall|i: int| 1 <= i < chunk@.len() implies #[trigger] chunk@[i] < vocab by {
            assert(v@[i - 1] == (i - 1) * vocab + chunk@[i - 1 + 1]);
        }
        assert forall|i: int| 0 <= i < v@.len() implies {
            let at = #[trigger] v@[i] as int;
            &&& at / vocab as int == i
            &&& at % vocab as int == chunk@[i + 1]
        } by {
            vstd::arithmetic::div_mod::lemma_fundamental_div_mod_converse(
                v@[i] as int,
                vocab as int,
                i,
                chunk@[i + 1] as int,
            );
        }
    }
}

/// A setting that is a number counts; without one the default does.
pub proof fn law_setting_or_default(t: &str, n: nat, default: usize, set: usize, unset: usize)
    requires
        n <= usize::MAX,
        t@ == decimal(n),
        call_ensures(env_usize, (Some(t), default), set),
        call_ensures(env_usize, (None, default), unset),
    ensures
        set == n,
        unset == default,
{
    law_decimal_round_trip(n);
}

/// Cutting a corpus gives chunks that start at 0 and move on by the stride.
pub proof fn law_corpus_is_cut_by_the_stride(p: &EvalPlan, n: usize, r: Vec<(usize, usize)>)
    requires
        p.ctx >= 2,
        p.stride > 0,
        call_ensures(chunks, (p, n), r),
    ensures
        r@.len() > 0 ==> r@[0].0 == 0,
        forall|i: int, j: int|
            0 <= i && j == i + 1 && j < r@.len() ==> #[trigger] r@[j].0 - #[trigger] r@[i].0
                == p.stride,
        p.max_chunks is None && n >= 2 ==> r@.len() > 0 && (r@.last().1 == n || r@.last().0
            + p.stride + 1 >= n),
{
    law_chunks_step(*p, n as int, r@);
    law_chunks_go_to_the_end(*p, n as int, r@);
}

/// A setting of digits, one plus sign before them or not, is the number that they
/// write, where it fits.
pub proof fn law_settings_are_numbers(t: Seq<char>)
    requires
        t.len() > 0,
        forall|i: int| 0 <= i < t.len() ==> 48 <= #[trigger] t[i] as int <= 57,
    ensures
        digits_value(t) <= usize::MAX ==> setting_value(Some(t)) == Some(digits_value(t)),
        digits_value(t) <= usize::MAX ==> setting_value(Some(seq!['+'] + t)) == Some(
            digits_value(t),
        ),
        digits_value(t) > usize::MAX ==> setting_value(Some(t)) is None,
        setting_value(None) is None,
{
    law_numbers_are_digits(t, usize::MAX as nat);
}

/// What is refused is said: a chunk of fewer than two tokens, a stride of none, or
/// a corpus of fewer than two, with their number.
pub proof fn law_refusals_say_why(
    e: PlanError,
    ctx: Option<nat>,
    stride: Option<nat>,
    max_positions: nat,
    tokens: nat,
)
    requires
        ctx is Some ==> ctx->0 <= usize::MAX,
        stride is Some ==> stride->0 <= usize::MAX,
        planned(
            Err(e),
            setting_of(ctx),
            setting_of(stride),
            None,
            max_positions,
            tokens,
        ),
    ensures
        e == PlanError::ContextTooShort ==> max_positions < 2 || ctx is Some && ctx->0 < 2,
        e == PlanError::ZeroStride ==> stride == Some(0nat),
        e is CorpusTooShort ==> tokens < 2 && e->CorpusTooShort_0 == tokens,
{
    if ctx is Some {
        law_decimal_round_trip(ctx->0);
    }
    if stride is Some {
        law_decimal_round_trip(stride->0);
    }
}

/// A plan holds the numbers that its settings write.
pub proof fn law_plan_holds_its_settings(
    ctx: &str,
    stride: &str,
    max_chunks: &str,
    c: nat,
    s: nat,
    m: nat,
    max_positions: usize,
    tokens: usize,
    r: Result<EvalPlan, PlanError>,
)
    requires
        ctx@ == decimal(c),
        stride@ == decimal(s),
        max_chunks@ == decimal(m),
        2 <= c <= max_positions,
        0 < s <= usize::MAX,
        m <= usize::MAX,
        tokens >= 2,
        call_ensures(
            plan_eval,
            (Some(ctx), Some(stride), Some(max_chunks), max_positions, tokens),
            r,
        ),
    ensures
        r is Ok,
        r->Ok_0.ctx == c,
        r->Ok_0.stride == s,
        r->Ok_0.max_chunks == Some(m as usize),
{
    law_decimal_round_trip(c);
    law_decimal_round_trip(s);
    law_decimal_round_trip(m);
}

} // verus!
