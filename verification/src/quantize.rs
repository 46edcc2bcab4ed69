//! Which tensors are quantized, and in which format.

use vstd::prelude::*;
use vstd::slice::slice_subrange;
use vstd::string::*;

use crate::container::{TensorEntry, TensorSet};
use crate::quant_file::BlockFormat;
use crate::quant_q8k_128::{lemma_slot, wide_product};
use crate::text::{
    all_digits, chars_of, contains, contains_seq, digits_value, ends_with, ends_with_seq, is_digit,
    law_found_is_there, law_found_where_it_stands, law_numbers_are_digits, lemma_found_at, lower_is,
    lower_seq, parse_spec, parse_u32_digits, parse_usize_chars, same, starts_with, starts_with_seq,
};

verus! {

/// A weight is quantized unless it is the embedding or a normalization.
pub open spec fn target_weight(name: Seq<char>) -> bool {
    &&& ends_with_seq(name, ".weight"@)
    &&& !contains_seq(name, "embed_tokens"@)
    &&& !contains_seq(name, "norm"@)
}

/// Whether a tensor is quantized.
pub fn is_target_weight(name: &str) -> (r: bool)
    ensures
        r == target_weight(name@),
{
    if !ends_with(name, ".weight") {
        return false;
    }
    if contains(name, "embed_tokens") {
        return false;
    }
    if contains(name, "norm") {
        return false;
    }
    true
}

/// The weights that four bits are enough for.
pub open spec fn q4k_layer(name: Seq<char>) -> bool {
    contains_seq(name, "mlp.down_proj"@)
}

/// Whether four bits are enough for a weight.
pub fn is_q4k_layer(name: &str) -> (r: bool)
    ensures
        r == q4k_layer(name@),
{
    contains(name, "mlp.down_proj")
}

// ── layers ─────────────────────────────────────────────────────────────────

/// The first dot of `s` is at `i`.
pub open spec fn first_dot(s: Seq<char>, i: int) -> bool {
    &&& 0 <= i < s.len()
    &&& s[i] == '.'
    &&& forall|j: int| 0 <= j < i ==> #[trigger] s[j] != '.'
}

/// What follows `model.layers.` in a name.
pub open spec fn after_layers(name: Seq<char>) -> Seq<char> {
    name.skip("model.layers."@.len() as int)
}

/// The layer that a weight belongs to: the number between `model.layers.` and
/// the next dot.
pub open spec fn layer_of(name: Seq<char>) -> Option<nat> {
    let rest = after_layers(name);
    if starts_with_seq(name, "model.layers."@) && rest.contains('.') {
        let end = choose|i: int| first_dot(rest, i);
        parse_spec(rest.take(end), usize::MAX as nat)
    } else {
        None
    }
}

/// The layer that a weight belongs to.
pub fn layer_id(name: &str) -> (r: Option<usize>)
    ensures
        match r {
            Some(n) => layer_of(name@) == Some(n as nat),
            None => layer_of(name@) is None,
        },
{
    if !starts_with(name, "model.layers.") {
        return None;
    }
    let cs = chars_of(name);
    proof {
        reveal_strlit("model.layers.");
    }
    let ghost rest = after_layers(name@);
    let mut number: Vec<char> = Vec::new();
    let n: usize = cs.len();
    let mut i: usize = 13;
    while i < n && cs[i] != '.'
        invariant
            n == cs@.len(),
            cs@ == name@,
            rest == name@.skip(13),
            13 <= i <= n,
            number@ == rest.take(i - 13),
            forall|j: int| 0 <= j < i - 13 ==> #[trigger] rest[j] != '.',
        decreases n - i,
    {
        assert(cs@[i as int] == rest[i - 13]);
        number.push(cs[i]);
        assert(rest.take(i + 1 - 13) =~= rest.take(i - 13).push(rest[i - 13]));
        i += 1;
    }
    if i >= n {
        assert(!rest.contains('.'));
        return None;
    }
    proof {
        assert(rest[i - 13] == '.');
        assert(rest.contains('.'));
        assert(first_dot(rest, i - 13));
        let end = choose|j: int| first_dot(rest, j);
        assert(end == i - 13) by {
            if end < i - 13 {
                assert(rest[end] != '.');
            } else if end > i - 13 {
                assert(rest[i - 13] != '.');
            }
        }
    }
    parse_usize_chars(&number)
}

// ── policies ───────────────────────────────────────────────────────────────

/// Which weights get 128-wide blocks.
#[derive(Debug, Clone, Copy, PartialEq, Eq, Structural)]
pub enum Q8K128Policy {
    Off,
    Layer0Qkv,
    EarlyQkv,
    Qkv,
    Attn,
    Q8K,
    All,
}

/// The policy that a word, in small letters, names.
pub open spec fn q8k128_policy_named(l: Seq<char>) -> Option<Q8K128Policy> {
    if l == "off"@ || l == "0"@ || l == "false"@ {
        Some(Q8K128Policy::Off)
    } else if l == "layer0-qkv"@ || l == "layer0_qkv"@ || l == "l0-qkv"@ || l == "l0_qkv"@ {
        Some(Q8K128Policy::Layer0Qkv)
    } else if l == "early-qkv"@ || l == "early_qkv"@ || l == "layers0-3-qkv"@ || l == "0-3-qkv"@ {
        Some(Q8K128Policy::EarlyQkv)
    } else if l == "qkv"@ || l == "all-qkv"@ || l == "all_qkv"@ {
        Some(Q8K128Policy::Qkv)
    } else if l == "attn"@ || l == "attention"@ || l == "self-attn"@ || l == "self_attn"@ {
        Some(Q8K128Policy::Attn)
    } else if l == "q8k"@ || l == "q8k-layers"@ || l == "non-down"@ {
        Some(Q8K128Policy::Q8K)
    } else if l == "all"@ {
        Some(Q8K128Policy::All)
    } else {
        None
    }
}

impl Q8K128Policy {
    /// The policy that a setting names, in any case. Without a setting it is
    /// `Layer0Qkv`; a setting that names none is an error.
    pub fn from_setting(setting: Option<&str>) -> (r: Result<Q8K128Policy, ()>)
        ensures
            match setting {
                None => r == Ok::<Q8K128Policy, ()>(Q8K128Policy::Layer0Qkv),
                Some(t) => match r {
                    Ok(p) => q8k128_policy_named(lower_seq(t@)) == Some(p),
                    Err(_) => q8k128_policy_named(lower_seq(t@)) is None,
                },
            },
    {
        let t = match setting {
            Some(t) => t,
            None => {
                return Ok(Q8K128Policy::Layer0Qkv);
            },
        };
        if lower_is(t, "off") || lower_is(t, "0") || lower_is(t, "false") {
            Ok(Q8K128Policy::Off)
        } else if lower_is(t, "layer0-qkv") || lower_is(t, "layer0_qkv") || lower_is(t, "l0-qkv")
            || lower_is(t, "l0_qkv") {
            Ok(Q8K128Policy::Layer0Qkv)
        } else if lower_is(t, "early-qkv") || lower_is(t, "early_qkv") || lower_is(
            t,
            "layers0-3-qkv",
        ) || lower_is(t, "0-3-qkv") {
            Ok(Q8K128Policy::EarlyQkv)
        } else if lower_is(t, "qkv") || lower_is(t, "all-qkv") || lower_is(t, "all_qkv") {
            Ok(Q8K128Policy::Qkv)
        } else if lower_is(t, "attn") || lower_is(t, "attention") || lower_is(t, "self-attn")
            || lower_is(t, "self_attn") {
            Ok(Q8K128Policy::Attn)
        } else if lower_is(t, "q8k") || lower_is(t, "q8k-layers") || lower_is(t, "non-down") {
            Ok(Q8K128Policy::Q8K)
        } else if lower_is(t, "all") {
            Ok(Q8K128Policy::All)
        } else {
            Err(())
        }
    }

    /// The policy's name.
    pub open spec fn spec_name(self) -> Seq<char> {
        match self {
            Q8K128Policy::Off => "off"@,
            Q8K128Policy::Layer0Qkv => "layer0-qkv"@,
            Q8K128Policy::EarlyQkv => "early-qkv"@,
            Q8K128Policy::Qkv => "qkv"@,
            Q8K128Policy::Attn => "attn"@,
            Q8K128Policy::Q8K => "q8k"@,
            Q8K128Policy::All => "all"@,
        }
    }

    /// The policy's name.
    pub fn name(self) -> (r: &'static str)
        ensures
            r@ == self.spec_name(),
    {
        match self {
            Q8K128Policy::Off => "off",
            Q8K128Policy::Layer0Qkv => "layer0-qkv",
            Q8K128Policy::EarlyQkv => "early-qkv",
            Q8K128Policy::Qkv => "qkv",
            Q8K128Policy::Attn => "attn",
            Q8K128Policy::Q8K => "q8k",
            Q8K128Policy::All => "all",
        }
    }

    /// Whether the policy gives a weight 128-wide blocks.
    pub open spec fn covers(self, name: Seq<char>) -> bool {
        match self {
            Q8K128Policy::Off => false,
            Q8K128Policy::Layer0Qkv => layer_of(name) == Some(0nat) && contains_seq(
                name,
                "self_attn.qkv_proj"@,
            ),
            Q8K128Policy::EarlyQkv => layer_of(name) is Some && layer_of(name)->0 <= 3
                && contains_seq(name, "self_attn.qkv_proj"@),
            Q8K128Policy::Qkv => contains_seq(name, "self_attn.qkv_proj"@),
            Q8K128Policy::Attn => contains_seq(name, "self_attn.qkv_proj"@) || contains_seq(
                name,
                "self_attn.o_proj"@,
            ),
            Q8K128Policy::Q8K => !q4k_layer(name),
            Q8K128Policy::All => true,
        }
    }
}

/// Whether a policy gives a weight 128-wide blocks.
pub fn is_q8k128_layer(name: &str, policy: Q8K128Policy) -> (r: bool)
    ensures
        r == policy.covers(name@),
{
    match policy {
        Q8K128Policy::Off => false,
        Q8K128Policy::Layer0Qkv => match layer_id(name) {
            Some(n) => n == 0 && contains(name, "self_attn.qkv_proj"),
            None => false,
        },
        Q8K128Policy::EarlyQkv => match layer_id(name) {
            Some(n) => n <= 3 && contains(name, "self_attn.qkv_proj"),
            None => false,
        },
        Q8K128Policy::Qkv => contains(name, "self_attn.qkv_proj"),
        Q8K128Policy::Attn => contains(name, "self_attn.qkv_proj") || contains(
            name,
            "self_attn.o_proj",
        ),
        Q8K128Policy::Q8K => !is_q4k_layer(name),
        Q8K128Policy::All => true,
    }
}

/// The formats that a quantizer writes.
#[derive(Debug, Clone, Copy, PartialEq, Eq, Structural)]
pub enum QuantFormat {
    Q8K128,
    Q8K,
    Q4K,
    Q6K,
}

impl QuantFormat {
    /// The layout of the format's blocks.
    pub open spec fn spec_layout(self) -> BlockFormat {
        match self {
            QuantFormat::Q8K128 => BlockFormat::Q8K128,
            QuantFormat::Q8K => BlockFormat::Q8K,
            QuantFormat::Q4K => BlockFormat::Q4K,
            QuantFormat::Q6K => BlockFormat::Q6K,
        }
    }

    /// The layout of the format's blocks.
    pub fn layout(self) -> (r: BlockFormat)
        ensures
            r == self.spec_layout(),
    {
        match self {
            QuantFormat::Q8K128 => BlockFormat::Q8K128,
            QuantFormat::Q8K => BlockFormat::Q8K,
            QuantFormat::Q4K => BlockFormat::Q4K,
            QuantFormat::Q6K => BlockFormat::Q6K,
        }
    }
}

/// The format of a weight without 128-wide blocks.
pub open spec fn baseline_format(name: Seq<char>) -> QuantFormat {
    if q4k_layer(name) {
        QuantFormat::Q4K
    } else {
        QuantFormat::Q8K
    }
}

/// The format of a weight under a policy.
pub open spec fn quant_format(name: Seq<char>, policy: Q8K128Policy) -> QuantFormat {
    if policy.covers(name) {
        QuantFormat::Q8K128
    } else {
        baseline_format(name)
    }
}

/// The format of a weight under a policy.
pub fn choose_quant_format(name: &str, policy: Q8K128Policy) -> (r: QuantFormat)
    ensures
        r == quant_format(name@, policy),
{
    if is_q8k128_layer(name, policy) {
        QuantFormat::Q8K128
    } else if is_q4k_layer(name) {
        QuantFormat::Q4K
    } else {
        QuantFormat::Q8K
    }
}

/// Which weights get six bits.
#[derive(Debug, Clone, Copy, PartialEq, Eq, Structural)]
pub enum Q6KPolicy {
    Off,
    Down,
    Q8K,
    All,
}

/// The policy that a word, in small letters, names.
pub open spec fn q6k_policy_named(l: Seq<char>) -> Option<Q6KPolicy> {
    if l == "off"@ {
        Some(Q6KPolicy::Off)
    } else if l == "down"@ {
        Some(Q6KPolicy::Down)
    } else if l == "q8k"@ {
        Some(Q6KPolicy::Q8K)
    } else if l == "all"@ {
        Some(Q6KPolicy::All)
    } else {
        None
    }
}

impl Q6KPolicy {
    /// The policy that a setting names, in any case. Without a setting it is
    /// `Off`; a setting that names none is an error.
    pub fn from_setting(setting: Option<&str>) -> (r: Result<Q6KPolicy, ()>)
        ensures
            match setting {
                None => r == Ok::<Q6KPolicy, ()>(Q6KPolicy::Off),
                Some(t) => match r {
                    Ok(p) => q6k_policy_named(lower_seq(t@)) == Some(p),
                    Err(_) => q6k_policy_named(lower_seq(t@)) is None,
                },
            },
    {
        let t = match setting {
            Some(t) => t,
            None => {
                return Ok(Q6KPolicy::Off);
            },
        };
        if lower_is(t, "off") {
            Ok(Q6KPolicy::Off)
        } else if lower_is(t, "down") {
            Ok(Q6KPolicy::Down)
        } else if lower_is(t, "q8k") {
            Ok(Q6KPolicy::Q8K)
        } else if lower_is(t, "all") {
            Ok(Q6KPolicy::All)
        } else {
            Err(())
        }
    }
}

/// The format of a weight under a six-bit policy: `Down` replaces the Q4K
/// weights, `Q8K` the Q8K weights, `All` both, `Off` none.
pub open spec fn q6k_format(name: Seq<char>, policy: Q6KPolicy) -> QuantFormat {
    match policy {
        Q6KPolicy::Off => baseline_format(name),
        Q6KPolicy::Down => if q4k_layer(name) {
            QuantFormat::Q6K
        } else {
            QuantFormat::Q8K
        },
        Q6KPolicy::Q8K => if q4k_layer(name) {
            QuantFormat::Q4K
        } else {
            QuantFormat::Q6K
        },
        Q6KPolicy::All => QuantFormat::Q6K,
    }
}

/// The format of a weight under a six-bit policy.
pub fn choose_q6k_format(name: &str, policy: Q6KPolicy) -> (r: QuantFormat)
    ensures
        r == q6k_format(name@, policy),
{
    let down = is_q4k_layer(name);
    match policy {
        Q6KPolicy::Off => if down {
            QuantFormat::Q4K
        } else {
            QuantFormat::Q8K
        },
        Q6KPolicy::Down => if down {
            QuantFormat::Q6K
        } else {
            QuantFormat::Q8K
        },
        Q6KPolicy::Q8K => if down {
            QuantFormat::Q4K
        } else {
            QuantFormat::Q6K
        },
        Q6KPolicy::All => QuantFormat::Q6K,
    }
}

/// Without 128-wide and six-bit blocks both quantizers write the same formats.
pub proof fn law_policies_off_agree(name: Seq<char>)
    ensures
        quant_format(name, Q8K128Policy::Off) == q6k_format(name, Q6KPolicy::Off),
        quant_format(name, Q8K128Policy::Off) == baseline_format(name),
{
}

/// Down projections stay at four bits under every policy but `All`.
pub proof fn law_down_proj_stays_q4k(name: Seq<char>, policy: Q8K128Policy)
    requires
        q4k_layer(name),
        !contains_seq(name, "self_attn.qkv_proj"@),
        !contains_seq(name, "self_attn.o_proj"@),
        policy != Q8K128Policy::All,
    ensures
        quant_format(name, policy) == QuantFormat::Q4K,
{
}

/// Each policy gives 128-wide blocks to all the weights that a narrower one
/// does.
pub proof fn law_policies_nest(name: Seq<char>)
    ensures
        Q8K128Policy::Layer0Qkv.covers(name) ==> Q8K128Policy::EarlyQkv.covers(name),
        Q8K128Policy::EarlyQkv.covers(name) ==> Q8K128Policy::Qkv.covers(name),
        Q8K128Policy::Qkv.covers(name) ==> Q8K128Policy::Attn.covers(name),
        Q8K128Policy::Attn.covers(name) && !q4k_layer(name) ==> Q8K128Policy::Q8K.covers(name),
        Q8K128Policy::All.covers(name),
{
}

/// A policy is named by its own name.
pub proof fn law_policy_name_round_trip(p: Q8K128Policy)
    ensures
        q8k128_policy_named(p.spec_name()) == Some(p),
{
    reveal_strlit("off");
    reveal_strlit("0");
    reveal_strlit("false");
    reveal_strlit("layer0-qkv");
    reveal_strlit("layer0_qkv");
    reveal_strlit("l0-qkv");
    reveal_strlit("l0_qkv");
    reveal_strlit("early-qkv");
    reveal_strlit("early_qkv");
    reveal_strlit("layers0-3-qkv");
    reveal_strlit("0-3-qkv");
    reveal_strlit("qkv");
    reveal_strlit("all-qkv");
    reveal_strlit("all_qkv");
    reveal_strlit("attn");
    reveal_strlit("attention");
    reveal_strlit("self-attn");
    reveal_strlit("self_attn");
    reveal_strlit("q8k");
    reveal_strlit("q8k-layers");
    reveal_strlit("non-down");
    reveal_strlit("all");
    let n = p.spec_name();
    assert(p == Q8K128Policy::Layer0Qkv ==> n[0] == 'l');
    assert(p == Q8K128Policy::EarlyQkv ==> n[0] == 'e');
    assert(p == Q8K128Policy::Qkv ==> n[0] == 'q' && n[1] == 'k');
    assert(p == Q8K128Policy::Attn ==> n[0] == 'a' && n[1] == 't');
    assert(p == Q8K128Policy::Q8K ==> n[0] == 'q' && n[1] == '8');
    assert(p == Q8K128Policy::All ==> n[0] == 'a' && n[1] == 'l');
    assert("off"@[0] == 'o');
    assert("0"@[0] == '0');
    assert("false"@[0] == 'f');
    assert("layer0-qkv"@[0] == 'l');
    assert("layer0_qkv"@[0] == 'l');
    assert("l0-qkv"@[0] == 'l');
    assert("l0_qkv"@[0] == 'l');
    assert("early-qkv"@[0] == 'e');
    assert("early_qkv"@[0] == 'e');
    assert("layers0-3-qkv"@[0] == 'l');
    assert("0-3-qkv"@[0] == '0');
    assert("qkv"@[1] == 'k');
    assert("attn"@[1] == 't');
    assert("q8k"@[0] == 'q');
    assert("all"@.len() == 3);
    assert("all-qkv"@.len() == 7);
    assert("all_qkv"@.len() == 7);
    assert("attention"@.len() == 9);
}

// ── attention projections ──────────────────────────────────────────────────

/// The letter of an attention projection.
pub open spec fn is_projection(kind: Seq<char>) -> bool {
    kind == "q"@ || kind == "k"@ || kind == "v"@ || kind == "o"@
}

/// The name of an attention projection of the layer that the digits `d` write.
pub open spec fn attention_name(d: Seq<char>, kind: Seq<char>) -> Seq<char> {
    "model.layers."@ + d + ".self_attn."@ + kind + "_proj.weight"@
}

/// `name` is an attention projection of the layer that the digits `d` write.
pub open spec fn names_attention(name: Seq<char>, d: Seq<char>, kind: Seq<char>) -> bool {
    &&& d.len() > 0
    &&& all_digits(d)
    &&& is_projection(kind)
    &&& name == attention_name(d, kind)
}

/// The layer and the letter of an attention projection whose layer number fits
/// in 32 bits.
pub fn parse_attention_proj(name: &str) -> (r: Option<(u32, &'static str)>)
    ensures
        match r {
            Some((layer, kind)) => exists|d: Seq<char>| #[trigger]
                names_attention(name@, d, kind@) && digits_value(d) == layer,
            None => forall|d: Seq<char>, kind: Seq<char>| #[trigger]
                names_attention(name@, d, kind) ==> digits_value(d) > u32::MAX,
        },
{
    proof {
        reveal_strlit("model.layers.");
        reveal_strlit(".self_attn.");
        reveal_strlit("_proj.weight");
        reveal_strlit("q");
        reveal_strlit("k");
        reveal_strlit("v");
        reveal_strlit("o");
        assert forall|d: Seq<char>, kind: Seq<char>| #[trigger]
            names_attention(name@, d, kind) implies attention_parts(name@, d, kind) by {
            lemma_attention_parts(name@, d, kind);
        }
    }
    let cs = chars_of(name);
    let n: usize = cs.len();
    if n < 38 {
        return None;
    }
    if !starts_with(name, "model.layers.") || !ends_with(name, "_proj.weight") {
        return None;
    }
    let middle = chars_of(".self_attn.");
    let at: usize = n - 24;
    let mut i: usize = 0;
    while i < 11
        invariant
            n == cs@.len(),
            cs@ == name@,
            n >= 38,
            at == n - 24,
            i <= 11,
            middle@ == ".self_attn."@,
            middle@.len() == 11,
            forall|j: int| 0 <= j < i ==> name@[at + j] == #[trigger] middle@[j],
            forall|d: Seq<char>, kind: Seq<char>| #[trigger]
                names_attention(name@, d, kind) ==> attention_parts(name@, d, kind),
        decreases 11 - i,
    {
        if cs[at + i] != middle[i] {
            proof {
                assert forall|d: Seq<char>, kind: Seq<char>| #[trigger]
                    names_attention(name@, d, kind) implies digits_value(d) > u32::MAX by {
                    assert(attention_parts(name@, d, kind));
                    assert(name@.subrange(at as int, at + 11)[i as int] == name@[at + i]);
                }
            }
            return None;
        }
        i += 1;
    }
    let c: char = cs[n - 13];
    let kind: &'static str = if c == 'q' {
        "q"
    } else if c == 'k' {
        "k"
    } else if c == 'v' {
        "v"
    } else if c == 'o' {
        "o"
    } else {
        return None;
    };
    let mut digits: Vec<char> = Vec::new();
    let mut j: usize = 13;
    while j < at
        invariant
            n == cs@.len(),
            cs@ == name@,
            n >= 38,
            at == n - 24,
            13 <= j <= at,
            digits@ == name@.subrange(13, j as int),
        decreases at - j,
    {
        digits.push(cs[j]);
        assert(name@.subrange(13, j + 1) =~= name@.subrange(13, j as int).push(name@[j as int]));
        j += 1;
    }
    let ghost d = name@.subrange(13, at as int);
    assert(digits@.skip(0) =~= d);
    proof {
        let k = kind@;
        assert(name@.subrange(0, 13) == "model.layers."@);
        assert(name@.subrange(at as int, at + 11) =~= ".self_attn."@);
        assert(name@.subrange(n - 13, n - 12) =~= k);
        assert(name@.subrange(n - 12, n as int) == "_proj.weight"@);
        assert(name@ =~= name@.subrange(0, 13) + d + name@.subrange(at as int, at + 11)
            + name@.subrange(n - 13, n - 12) + name@.subrange(n - 12, n as int));
        assert(name@ == attention_name(d, k));
    }
    match parse_u32_digits(&digits, 0) {
        Some(layer) => {
            let r = Some((layer, kind));
            assert(digits_value(d) == layer);
            assert(names_attention(name@, d, (r->0).1@));
            r
        },
        None => None,
    }
}

/// Where the parts of an attention projection's name stand.
spec fn attention_parts(name: Seq<char>, d: Seq<char>, kind: Seq<char>) -> bool {
    let n = name.len() as int;
    &&& n == 37 + d.len()
    &&& starts_with_seq(name, "model.layers."@)
    &&& ends_with_seq(name, "_proj.weight"@)
    &&& name.subrange(n - 24, n - 13) == ".self_attn."@
    &&& kind == seq![name[n - 13]]
    &&& d == name.subrange(13, n - 24)
}

proof fn lemma_attention_parts(name: Seq<char>, d: Seq<char>, kind: Seq<char>)
    requires
        names_attention(name, d, kind),
    ensures
        attention_parts(name, d, kind),
{
    reveal_strlit("model.layers.");
    reveal_strlit(".self_attn.");
    reveal_strlit("_proj.weight");
    reveal_strlit("q");
    reveal_strlit("k");
    reveal_strlit("v");
    reveal_strlit("o");
    let n = name.len() as int;
    assert(kind.len() == 1);
    assert(name.subrange(0, 13) =~= "model.layers."@);
    assert(name.subrange(n - 12, n) =~= "_proj.weight"@);
    assert(name.subrange(n - 24, n - 13) =~= ".self_attn."@);
    assert(kind =~= seq![name[n - 13]]);
    assert(d =~= name.subrange(13, n - 24));
}

/// How the columns of a Q8K weight are permuted.
#[derive(Debug, Clone, Copy, PartialEq, Eq, Structural)]
pub enum PermPlan {
    /// Not at all.
    Keep,
    /// As those of the other attention projections of the layer.
    Shared(u32),
    /// In an order of their own.
    Own,
}

/// How the columns of a Q8K weight are permuted where permuting is on: the
/// output projection is left alone, the other attention projections of a layer
/// share an order, and any other weight has its own.
pub fn perm_plan(name: &str, use_permute: bool) -> (r: PermPlan)
    ensures
        match r {
            PermPlan::Keep => !use_permute || exists|d: Seq<char>| #[trigger]
                names_attention(name@, d, "o"@) && digits_value(d) <= u32::MAX,
            PermPlan::Shared(layer) => use_permute && exists|d: Seq<char>, kind: Seq<char>|
                #[trigger]
                names_attention(name@, d, kind) && kind != "o"@ && digits_value(d) == layer,
            PermPlan::Own => use_permute && forall|d: Seq<char>, kind: Seq<char>| #[trigger]
                names_attention(name@, d, kind) ==> digits_value(d) > u32::MAX,
        },
        forall|d: Seq<char>, kind: Seq<char>| #[trigger]
            names_attention(name@, d, kind) && use_permute && digits_value(d) <= u32::MAX ==> r == (
            if kind == "o"@ {
                PermPlan::Keep
            } else {
                PermPlan::Shared(digits_value(d) as u32)
            }),
{
    if !use_permute {
        return PermPlan::Keep;
    }
    proof {
        assert forall|d: Seq<char>, kind: Seq<char>, e: Seq<char>, letter: Seq<char>|
            #[trigger] names_attention(name@, d, kind) && #[trigger] names_attention(
                name@,
                e,
                letter,
            ) implies d == e && kind == letter by {
            law_attention_names_are_read_one_way(name@, d, kind, e, letter);
        }
    }
    match parse_attention_proj(name) {
        Some((layer, kind)) => if same(kind, "o") {
            PermPlan::Keep
        } else {
            PermPlan::Shared(layer)
        },
        None => PermPlan::Own,
    }
}

// ── the work to be done ────────────────────────────────────────────────────

/// A tensor to quantize: where it stands, its dimensions and its format.
#[derive(Debug, Clone, Copy, PartialEq, Eq, Structural)]
pub struct WorkItem {
    pub index: usize,
    pub rows: usize,
    pub k: usize,
    pub format: QuantFormat,
}

/// Why a tensor is not quantized.
#[derive(Debug, Clone, Copy, PartialEq, Eq, Structural)]
pub enum Skip {
    /// It is no matrix, or none of the weights to quantize.
    NotTarget,
    /// Its rows are not a whole number of blocks.
    Ragged { rows: usize, k: usize, block: usize },
}

/// What to do with a tensor of this name and shape that is to be written in
/// `format`.
pub open spec fn route(name: Seq<char>, shape: Seq<usize>, format: QuantFormat) -> Result<
    (usize, usize),
    Skip,
> {
    if shape.len() != 2 || !target_weight(name) {
        Err(Skip::NotTarget)
    } else if shape[1] as int % format.spec_layout().spec_block_elems() as int != 0 {
        Err(
            Skip::Ragged {
                rows: shape[0],
                k: shape[1],
                block: format.spec_layout().spec_block_elems(),
            },
        )
    } else {
        Ok((shape[0], shape[1]))
    }
}

/// What to do with a tensor that is to be written in `format`.
pub fn route_tensor(t: &TensorEntry, format: QuantFormat) -> (r: Result<(usize, usize), Skip>)
    ensures
        r == route(t.name@, t.shape@, format),
{
    if t.shape.len() != 2 || !is_target_weight(t.name.as_str()) {
        return Err(Skip::NotTarget);
    }
    let rows: usize = t.shape[0];
    let k: usize = t.shape[1];
    let block: usize = format.layout().block_elems();
    if k % block != 0 {
        return Err(Skip::Ragged { rows, k, block });
    }
    Ok((rows, k))
}

/// A way to choose formats.
#[derive(Debug, Clone, Copy, PartialEq, Eq, Structural)]
pub enum Routing {
    Q6K(Q6KPolicy),
    Q8K128(Q8K128Policy),
}

impl Routing {
    /// The format of a weight.
    pub open spec fn spec_format(self, name: Seq<char>) -> QuantFormat {
        match self {
            Routing::Q6K(p) => q6k_format(name, p),
            Routing::Q8K128(p) => quant_format(name, p),
        }
    }

    /// The format of a weight.
    pub fn format(self, name: &str) -> (r: QuantFormat)
        ensures
            r == self.spec_format(name@),
    {
        match self {
            Routing::Q6K(p) => choose_q6k_format(name, p),
            Routing::Q8K128(p) => choose_quant_format(name, p),
        }
    }
}

/// The tensors to quantize, in their order, and those that are skipped.
#[derive(Debug)]
pub struct QuantPlan {
    pub items: Vec<WorkItem>,
    pub skipped: Vec<usize>,
}

/// Of the first `n` tensors, `items` are quantized and `skipped` are not, each in
/// their order.
pub open spec fn plan_of(
    e: Seq<TensorEntry>,
    n: int,
    routing: Routing,
) -> (Seq<WorkItem>, Seq<usize>)
    decreases n,
{
    if n <= 0 {
        (Seq::empty(), Seq::empty())
    } else {
        let (items, skipped) = plan_of(e, n - 1, routing);
        let t = e[n - 1];
        let format = routing.spec_format(t.name@);
        match route(t.name@, t.shape@, format) {
            Ok((rows, k)) => (
                items.push(WorkItem { index: (n - 1) as usize, rows, k, format }),
                skipped,
            ),
            Err(_) => (items, skipped.push((n - 1) as usize)),
        }
    }
}

/// Decides for every tensor whether and how it is quantized.
pub fn plan(set: &TensorSet, routing: Routing) -> (r: QuantPlan)
    ensures
        (r.items@, r.skipped@) == plan_of(set.entries@, set.entries@.len() as int, routing),
{
    let mut items: Vec<WorkItem> = Vec::new();
    let mut skipped: Vec<usize> = Vec::new();
    let n: usize = set.entries.len();
    let mut i: usize = 0;
    while i < n
        invariant
            n == set.entries@.len(),
            i <= n,
            (items@, skipped@) == plan_of(set.entries@, i as int, routing),
        decreases n - i,
    {
        let t = &set.entries[i];
        let format = routing.format(t.name.as_str());
        match route_tensor(t, format) {
            Ok((rows, k)) => {
                items.push(WorkItem { index: i, rows, k, format });
            },
            Err(_) => {
                skipped.push(i);
            },
        }
        i += 1;
    }
    QuantPlan { items, skipped }
}

/// Every tensor is quantized or skipped, and none is both.
pub proof fn law_plan_covers(e: Seq<TensorEntry>, n: int, routing: Routing)
    requires
        0 <= n <= e.len(),
        n <= usize::MAX,
    ensures
        plan_of(e, n, routing).0.len() + plan_of(e, n, routing).1.len() == n,
        forall|i: int| 0 <= i < plan_of(e, n, routing).0.len() ==> {
            let item = #[trigger] plan_of(e, n, routing).0[i];
            let t = e[item.index as int];
            &&& item.index < n
            &&& target_weight(t.name@)
            &&& t.shape@ == seq![item.rows, item.k]
            &&& item.format == routing.spec_format(t.name@)
            &&& item.k as int % item.format.spec_layout().spec_block_elems() as int == 0
        },
        forall|i: int| 0 <= i < plan_of(e, n, routing).1.len() ==> {
            let at = #[trigger] plan_of(e, n, routing).1[i];
            &&& at < n
            &&& route(
                e[at as int].name@,
                e[at as int].shape@,
                routing.spec_format(e[at as int].name@),
            ) is Err
        },
    decreases n,
{
    if n > 0 {
        law_plan_covers(e, n - 1, routing);
        let (items, skipped) = plan_of(e, n - 1, routing);
        let t = e[n - 1];
        let format = routing.spec_format(t.name@);
        if let Ok((rows, k)) = route(t.name@, t.shape@, format) {
            let item = WorkItem { index: (n - 1) as usize, rows, k, format };
            assert(t.shape@ =~= seq![rows, k]);
            assert(plan_of(e, n, routing).0 == items.push(item));
            assert forall|i: int| 0 <= i < items.len() + 1 implies {
                let it = #[trigger] plan_of(e, n, routing).0[i];
                let u = e[it.index as int];
                &&& it.index < n
                &&& target_weight(u.name@)
                &&& u.shape@ == seq![it.rows, it.k]
                &&& it.format == routing.spec_format(u.name@)
                &&& it.k as int % it.format.spec_layout().spec_block_elems() as int == 0
            } by {
                if i < items.len() {
                    assert(plan_of(e, n, routing).0[i] == items[i]);
                }
            }
        } else {
            assert(plan_of(e, n, routing).1 == skipped.push((n - 1) as usize));
            assert forall|i: int| 0 <= i < skipped.len() + 1 implies {
                let at = #[trigger] plan_of(e, n, routing).1[i];
                &&& at < n
                &&& route(
                    e[at as int].name@,
                    e[at as int].shape@,
                    routing.spec_format(e[at as int].name@),
                ) is Err
            } by {
                if i < skipped.len() {
                    assert(plan_of(e, n, routing).1[i] == skipped[i]);
                }
            }
        }
    }
}

// ── rows of blocks ─────────────────────────────────────────────────────────

/// Why a matrix could not be quantized in blocks of 256 values.
#[derive(Debug, Clone, Copy, PartialEq, Eq, Structural)]
pub enum RowsError {
    /// The rows are not made of whole blocks.
    KNotMultiple { k: usize },
    /// The values are not those of the rows.
    SourceLength { got: usize, expected: u128 },
}

/// The blocks of row `r` are what `row_of` makes of its values.
pub open spec fn row_quantized<T, B, F: Fn(&[T]) -> Vec<B>>(
    blocks: Seq<B>,
    data: Seq<T>,
    k: int,
    r: int,
    row_of: F,
) -> bool {
    let n = k / 256;
    exists|src: &[T], v: Vec<B>| #[trigger]
        call_ensures(row_of, (src,), v) && src@ == data.subrange(r * k, r * k + k) && v@
            == blocks.subrange(r * n, r * n + n)
}

/// Quantizes `rows` rows of `k` values row by row, in blocks of 256 values.
pub fn quantize_k_rows<T, B, F: Fn(&[T]) -> Vec<B>>(
    rows: usize,
    k: usize,
    data: &[T],
    row_of: F,
) -> (r: Result<Vec<B>, RowsError>)
    requires
        forall|src: &[T]| src@.len() == k ==> #[trigger] call_requires(row_of, (src,)),
        forall|src: &[T], v: Vec<B>| #[trigger]
            call_ensures(row_of, (src,), v) && src@.len() == k ==> v@.len() == k / 256,
    ensures
        match r {
            Ok(blocks) => {
                &&& k % 256 == 0
                &&& data@.len() == rows * k
                &&& blocks@.len() == rows * (k / 256)
                &&& forall|i: int|
                    0 <= i < rows ==> #[trigger] row_quantized(
                        blocks@,
                        data@,
                        k as int,
                        i,
                        row_of,
                    )
            },
            Err(e) => if k % 256 != 0 {
                e == (RowsError::KNotMultiple { k })
            } else {
                &&& data@.len() != rows * k
                &&& e == (RowsError::SourceLength {
                    got: data@.len() as usize,
                    expected: (rows * k) as u128,
                })
            },
        },
{
    if k % 256 != 0 {
        return Err(RowsError::KNotMultiple { k });
    }
    let expected: u128 = wide_product(rows, k);
    let got: usize = data.len();
    if got as u128 != expected {
        return Err(RowsError::SourceLength { got, expected });
    }
    let ghost n = k as int / 256;
    let mut blocks: Vec<B> = Vec::new();
    let mut i: usize = 0;
    while i < rows
        invariant
            forall|src: &[T]| src@.len() == k ==> #[trigger] call_requires(row_of, (src,)),
            forall|src: &[T], v: Vec<B>| #[trigger]
                call_ensures(row_of, (src,), v) && src@.len() == k ==> v@.len() == k / 256,
            k % 256 == 0,
            n == k as int / 256,
            data@.len() == rows * k,
            data@.len() <= usize::MAX,
            i <= rows,
            blocks@.len() == i * n,
            forall|j: int|
                0 <= j < i ==> #[trigger] row_quantized(blocks@, data@, k as int, j, row_of),
        decreases rows - i,
    {
        proof {
            lemma_slot(i as int, rows as int, k as int);
            lemma_slot(i as int, rows as int, n);
        }
        let src = slice_subrange(data, i * k, i * k + k);
        let mut v = row_of(src);
        let ghost added = v;
        let ghost before = blocks@;
        blocks.append(&mut v);
        proof {
            assert(blocks@ == before + added@);
            assert(added@ =~= blocks@.subrange(i * n, i * n + n));
            assert(call_ensures(row_of, (src,), added));
            assert(row_quantized(blocks@, data@, k as int, i as int, row_of));
            assert forall|j: int| 0 <= j < i implies #[trigger] row_quantized(
                blocks@,
                data@,
                k as int,
                j,
                row_of,
            ) by {
                lemma_slot(j, i as int, n);
                assert(row_quantized(before, data@, k as int, j, row_of));
                assert(blocks@.subrange(j * n, j * n + n) =~= before.subrange(j * n, j * n + n));
            }
        }
        i += 1;
    }
    Ok(blocks)
}

// ── what the plan is for ───────────────────────────────────────────────────

/// The name of a weight of the layer that the digits `d` write.
pub open spec fn layer_weight(d: Seq<char>, part: Seq<char>) -> Seq<char> {
    "model.layers."@ + d + "."@ + part + ".weight"@
}

/// The weights of a layer that a model multiplies by.
pub open spec fn is_layer_part(part: Seq<char>) -> bool {
    ||| part == "self_attn.qkv_proj"@
    ||| part == "self_attn.o_proj"@
    ||| part == "mlp.gate_up_proj"@
    ||| part == "mlp.down_proj"@
}

/// No character of a layer's weight is a `b`, and no `n` has an `o` behind it.
pub(crate) proof fn lemma_layer_letters(d: Seq<char>, part: Seq<char>, i: int)
    requires
        all_digits(d),
        is_layer_part(part),
        0 <= i < layer_weight(d, part).len(),
    ensures
        layer_weight(d, part).len() == 21 + d.len() + part.len(),
        i < 13 ==> layer_weight(d, part)[i] == "model.layers."@[i],
        13 <= i < 13 + d.len() ==> layer_weight(d, part)[i] == d[i - 13],
        i == 13 + d.len() ==> layer_weight(d, part)[i] == '.',
        14 + d.len() <= i < 14 + d.len() + part.len() ==> layer_weight(d, part)[i] == part[i - 14
            - d.len()],
        14 + d.len() + part.len() <= i ==> layer_weight(d, part)[i] == ".weight"@[i - 14 - d.len()
            - part.len()],
        layer_weight(d, part)[i] != 'b',
        layer_weight(d, part)[i] == 'n' && i + 1 < layer_weight(d, part).len() ==> layer_weight(
            d,
            part,
        )[i + 1] != 'o',
{
    reveal_strlit("model.layers.");
    reveal_strlit(".");
    reveal_strlit(".weight");
    reveal_strlit("self_attn.qkv_proj");
    reveal_strlit("self_attn.o_proj");
    reveal_strlit("mlp.gate_up_proj");
    reveal_strlit("mlp.down_proj");
    let name = layer_weight(d, part);
    let at: int = (14 + d.len()) as int;
    assert(forall|j: int| 0 <= j < d.len() ==> is_digit(#[trigger] d[j]));
    if i < 13 {
        assert(name[i] == "model.layers."@[i]);
    } else if i < at - 1 {
        assert(name[i] == d[i - 13]);
    } else if at <= i < at + part.len() {
        assert(name[i] == part[i - at]);
        if i + 1 < at + part.len() {
            assert(name[i + 1] == part[i + 1 - at]);
        } else {
            assert(name[i + 1] == '.');
        }
    } else if i > at {
        assert(name[i] == ".weight"@[i - at - part.len()]);
    }
}

proof fn lemma_no_other_name(d: Seq<char>, part: Seq<char>)
    requires
        d.len() > 0,
        all_digits(d),
        is_layer_part(part),
    ensures
        !contains_seq(layer_weight(d, part), "embed_tokens"@),
        !contains_seq(layer_weight(d, part), "norm"@),
{
    reveal_strlit("embed_tokens");
    reveal_strlit("norm");
    let name = layer_weight(d, part);
    if contains_seq(name, "embed_tokens"@) {
        let i = lemma_found_at(name, "embed_tokens"@);
        assert(name[i + 2] == "embed_tokens"@[2]);
        lemma_layer_letters(d, part, i + 2);
    }
    if contains_seq(name, "norm"@) {
        let i = lemma_found_at(name, "norm"@);
        assert(name[i + 0] == "norm"@[0]);
        assert(name[i + 1] == "norm"@[1]);
        lemma_layer_letters(d, part, i);
    }
}

/// `ml` and `se` stand only where the part begins.
proof fn lemma_part_begins(d: Seq<char>, part: Seq<char>, i: int)
    requires
        all_digits(d),
        is_layer_part(part),
        0 <= i,
        i + 1 < layer_weight(d, part).len(),
        layer_weight(d, part)[i] == 'm' && layer_weight(d, part)[i + 1] == 'l' || layer_weight(
            d,
            part,
        )[i] == 's' && layer_weight(d, part)[i + 1] == 'e',
    ensures
        i == 14 + d.len(),
{
    reveal_strlit("model.layers.");
    reveal_strlit(".");
    reveal_strlit(".weight");
    reveal_strlit("self_attn.qkv_proj");
    reveal_strlit("self_attn.o_proj");
    reveal_strlit("mlp.gate_up_proj");
    reveal_strlit("mlp.down_proj");
    let name = layer_weight(d, part);
    let at: int = (14 + d.len()) as int;
    assert(forall|j: int| 0 <= j < d.len() ==> is_digit(#[trigger] d[j]));
    if i < 13 {
        assert(name[i] == "model.layers."@[i]);
        if i < 12 {
            assert(name[i + 1] == "model.layers."@[i + 1]);
        }
    } else if i < at - 1 {
        assert(name[i] == d[i - 13]);
    } else if at < i < at + part.len() {
        assert(name[i] == part[i - at]);
        if i + 1 < at + part.len() {
            assert(name[i + 1] == part[i + 1 - at]);
        }
    } else if i > at {
        assert(name[i] == ".weight"@[i - at - part.len()]);
    }
}

proof fn lemma_down_name(d: Seq<char>, part: Seq<char>)
    requires
        d.len() > 0,
        all_digits(d),
        is_layer_part(part),
    ensures
        contains_seq(layer_weight(d, part), "mlp.down_proj"@) <==> part == "mlp.down_proj"@,
{
    let name = layer_weight(d, part);
    let whole = "model.layers."@ + d + "."@;
    assert(name == whole + part + ".weight"@);
    law_found_where_it_stands(whole, part, ".weight"@);
    if contains_seq(name, "mlp.down_proj"@) {
        let i = lemma_found_at(name, "mlp.down_proj"@);
        reveal_strlit("self_attn.qkv_proj");
        reveal_strlit("self_attn.o_proj");
        reveal_strlit("mlp.gate_up_proj");
        reveal_strlit("mlp.down_proj");
        assert(name[i + 0] == "mlp.down_proj"@[0]);
        assert(name[i + 1] == "mlp.down_proj"@[1]);
        assert(name[i + 4] == "mlp.down_proj"@[4]);
        lemma_part_begins(d, part, i);
        lemma_layer_letters(d, part, i);
        lemma_layer_letters(d, part, i + 4);
        assert(part.len() > 4);
        assert(part[4] == 'd');
        assert(part[0] == "mlp.down_proj"@[0]);
    }
}

proof fn lemma_qkv_name(d: Seq<char>, part: Seq<char>)
    requires
        d.len() > 0,
        all_digits(d),
        is_layer_part(part),
    ensures
        contains_seq(layer_weight(d, part), "self_attn.qkv_proj"@) <==> part == "self_attn.qkv_proj"@,
{
    let name = layer_weight(d, part);
    let whole = "model.layers."@ + d + "."@;
    assert(name == whole + part + ".weight"@);
    law_found_where_it_stands(whole, part, ".weight"@);
    if contains_seq(name, "self_attn.qkv_proj"@) {
        let i = lemma_found_at(name, "self_attn.qkv_proj"@);
        reveal_strlit("self_attn.qkv_proj");
        reveal_strlit("self_attn.o_proj");
        reveal_strlit("mlp.gate_up_proj");
        reveal_strlit("mlp.down_proj");
        assert(name[i + 0] == "self_attn.qkv_proj"@[0]);
        assert(name[i + 1] == "self_attn.qkv_proj"@[1]);
        assert(name[i + 10] == "self_attn.qkv_proj"@[10]);
        lemma_part_begins(d, part, i);
        lemma_layer_letters(d, part, i);
        lemma_layer_letters(d, part, i + 10);
        assert(part.len() > 10);
        assert(part[10] == 'q');
        assert(part[0] == "self_attn.qkv_proj"@[0]);
    }
}

proof fn lemma_o_name(d: Seq<char>, part: Seq<char>)
    requires
        d.len() > 0,
        all_digits(d),
        is_layer_part(part),
    ensures
        contains_seq(layer_weight(d, part), "self_attn.o_proj"@) <==> part == "self_attn.o_proj"@,
{
    let name = layer_weight(d, part);
    let whole = "model.layers."@ + d + "."@;
    assert(name == whole + part + ".weight"@);
    law_found_where_it_stands(whole, part, ".weight"@);
    if contains_seq(name, "self_attn.o_proj"@) {
        let i = lemma_found_at(name, "self_attn.o_proj"@);
        reveal_strlit("self_attn.qkv_proj");
        reveal_strlit("self_attn.o_proj");
        reveal_strlit("mlp.gate_up_proj");
        reveal_strlit("mlp.down_proj");
        assert(name[i + 0] == "self_attn.o_proj"@[0]);
        assert(name[i + 1] == "self_attn.o_proj"@[1]);
        assert(name[i + 10] == "self_attn.o_proj"@[10]);
        lemma_part_begins(d, part, i);
        lemma_layer_letters(d, part, i);
        lemma_layer_letters(d, part, i + 10);
        assert(part.len() > 10);
        assert(part[10] == 'o');
        assert(part[0] == "self_attn.o_proj"@[0]);
    }
}

/// What a layer's weight is called says which layer and which part it is.
pub proof fn law_layer_weight_names(d: Seq<char>, part: Seq<char>)
    requires
        d.len() > 0,
        all_digits(d),
        is_layer_part(part),
    ensures
        !contains_seq(layer_weight(d, part), "embed_tokens"@),
        !contains_seq(layer_weight(d, part), "norm"@),
        contains_seq(layer_weight(d, part), "mlp.down_proj"@) <==> part == "mlp.down_proj"@,
        contains_seq(layer_weight(d, part), "self_attn.qkv_proj"@) <==> part
            == "self_attn.qkv_proj"@,
        contains_seq(layer_weight(d, part), "self_attn.o_proj"@) <==> part == "self_attn.o_proj"@,
        layer_of(layer_weight(d, part)) == (if digits_value(d) <= usize::MAX {
            Some(digits_value(d))
        } else {
            None
        }),
{
    lemma_no_other_name(d, part);
    lemma_down_name(d, part);
    lemma_qkv_name(d, part);
    lemma_o_name(d, part);
    reveal_strlit("model.layers.");
    reveal_strlit(".");
    let name = layer_weight(d, part);
    assert(forall|j: int| 0 <= j < d.len() ==> is_digit(#[trigger] d[j]));
    let behind = d + "."@ + part + ".weight"@;
    assert(name =~= "model.layers."@ + behind);
    law_found_where_it_stands(seq![], "model.layers."@, behind);
    assert(after_layers(name) =~= behind);
    assert(behind[d.len() as int] == '.');
    assert forall|j: int| 0 <= j < d.len() implies #[trigger] behind[j] != '.' by {
        assert(behind[j] == d[j]);
    }
    assert(first_dot(behind, d.len() as int));
    let end = choose|i: int| first_dot(behind, i);
    if end > d.len() {
        assert(behind[d.len() as int] != '.');
    }
    assert(end == d.len());
    assert(behind.take(end) =~= d);
    assert forall|i: int| 0 <= i < d.len() implies 48 <= #[trigger] d[i] as int <= 57 by {
        assert(is_digit(d[i]));
    }
    law_numbers_are_digits(d, usize::MAX as nat);
}

/// The head has a weight of none of these names in it.
proof fn lemma_head_name()
    ensures
        !contains_seq("lm_head.weight"@, "embed_tokens"@),
        !contains_seq("lm_head.weight"@, "norm"@),
        !contains_seq("lm_head.weight"@, "mlp.down_proj"@),
        !contains_seq("lm_head.weight"@, "self_attn.qkv_proj"@),
        !contains_seq("lm_head.weight"@, "self_attn.o_proj"@),
        ends_with_seq("lm_head.weight"@, ".weight"@),
{
    reveal_strlit("lm_head.weight");
    reveal_strlit(".weight");
    reveal_strlit("embed_tokens");
    reveal_strlit("norm");
    reveal_strlit("mlp.down_proj");
    reveal_strlit("self_attn.qkv_proj");
    reveal_strlit("self_attn.o_proj");
    let name = "lm_head.weight"@;
    if contains_seq(name, "embed_tokens"@) {
        let i = lemma_found_at(name, "embed_tokens"@);
        assert(name[i + 2] == "embed_tokens"@[2]);
    }
    if contains_seq(name, "norm"@) {
        let i = lemma_found_at(name, "norm"@);
        assert(name[i + 0] == "norm"@[0]);
    }
    if contains_seq(name, "mlp.down_proj"@) {
        let i = lemma_found_at(name, "mlp.down_proj"@);
        assert(name[i + 2] == "mlp.down_proj"@[2]);
    }
    assert(name.subrange(7, 14) =~= ".weight"@);
}

/// The formats of the weights that a model multiplies by. Four bits are for the
/// down projections, eight for the rest; a six-bit policy replaces the one, the
/// other or both; a policy for 128-wide blocks takes those of the attention
/// weights, of the layers, or of all the weights that its name says.
pub proof fn law_formats_of_layer_weights(d: Seq<char>, part: Seq<char>)
    requires
        d.len() > 0,
        all_digits(d),
        is_layer_part(part),
    ensures
        ({
            let name = layer_weight(d, part);
            let down = part == "mlp.down_proj"@;
            let qkv = part == "self_attn.qkv_proj"@;
            let attention = qkv || part == "self_attn.o_proj"@;
            let four_or_eight = if down {
                QuantFormat::Q4K
            } else {
                QuantFormat::Q8K
            };
            &&& Routing::Q6K(Q6KPolicy::Off).spec_format(name) == four_or_eight
            &&& Routing::Q6K(Q6KPolicy::Down).spec_format(name) == (if down {
                QuantFormat::Q6K
            } else {
                QuantFormat::Q8K
            })
            &&& Routing::Q6K(Q6KPolicy::Q8K).spec_format(name) == (if down {
                QuantFormat::Q4K
            } else {
                QuantFormat::Q6K
            })
            &&& Routing::Q6K(Q6KPolicy::All).spec_format(name) == QuantFormat::Q6K
            &&& Routing::Q8K128(Q8K128Policy::Off).spec_format(name) == four_or_eight
            &&& Routing::Q8K128(Q8K128Policy::Layer0Qkv).spec_format(name) == (if qkv
                && digits_value(d) == 0 {
                QuantFormat::Q8K128
            } else {
                four_or_eight
            })
            &&& Routing::Q8K128(Q8K128Policy::EarlyQkv).spec_format(name) == (if qkv
                && digits_value(d) <= 3 {
                QuantFormat::Q8K128
            } else {
                four_or_eight
            })
            &&& Routing::Q8K128(Q8K128Policy::Qkv).spec_format(name) == (if qkv {
                QuantFormat::Q8K128
            } else {
                four_or_eight
            })
            &&& Routing::Q8K128(Q8K128Policy::Attn).spec_format(name) == (if attention {
                QuantFormat::Q8K128
            } else {
                four_or_eight
            })
            &&& Routing::Q8K128(Q8K128Policy::Q8K).spec_format(name) == (if down {
                QuantFormat::Q4K
            } else {
                QuantFormat::Q8K128
            })
            &&& Routing::Q8K128(Q8K128Policy::All).spec_format(name) == QuantFormat::Q8K128
        }),
{
    law_layer_weight_names(d, part);
    reveal_strlit("self_attn.qkv_proj");
    reveal_strlit("mlp.down_proj");
    reveal_strlit("self_attn.o_proj");
    assert("mlp.down_proj"@[0] == 'm');
    assert("self_attn.qkv_proj"@[0] == 's');
    assert("self_attn.o_proj"@[0] == 's');
}

/// Blocks of 128 weights are for one format; the others have 256.
pub proof fn law_block_widths(f: QuantFormat)
    ensures
        f == QuantFormat::Q8K128 ==> f.spec_layout().spec_block_elems() == 128,
        f != QuantFormat::Q8K128 ==> f.spec_layout().spec_block_elems() == 256,
        f == QuantFormat::Q8K128 <==> f.spec_layout() == BlockFormat::Q8K128,
        f == QuantFormat::Q8K <==> f.spec_layout() == BlockFormat::Q8K,
        f == QuantFormat::Q4K <==> f.spec_layout() == BlockFormat::Q4K,
        f == QuantFormat::Q6K <==> f.spec_layout() == BlockFormat::Q6K,
{
}

/// A tensor is quantized where it is a matrix of whole blocks whose name ends in
/// `.weight` and holds neither `embed_tokens` nor `norm`, and only there; its
/// item says where it stands, what dimensions it has and what format it gets.
pub proof fn law_planned_where_weights_are(e: Seq<TensorEntry>, n: int, routing: Routing, i: int)
    requires
        0 <= i < n <= e.len(),
        n <= usize::MAX,
    ensures
        ({
            let t = e[i];
            let format = routing.spec_format(t.name@);
            let width: int = if format == QuantFormat::Q8K128 {
                128
            } else {
                256
            };
            let wanted = {
                &&& t.shape@.len() == 2
                &&& t.shape@[1] as int % width == 0
                &&& exists|a: Seq<char>| t.name@ == #[trigger] (a + ".weight"@)
                &&& forall|a: Seq<char>, b: Seq<char>| t.name@ != #[trigger] (a + "embed_tokens"@
                    + b)
                &&& forall|a: Seq<char>, b: Seq<char>| t.name@ != #[trigger] (a + "norm"@ + b)
            };
            &&& wanted ==> plan_of(e, n, routing).0.contains(
                WorkItem { index: i as usize, rows: t.shape@[0], k: t.shape@[1], format },
            )
            &&& !wanted ==> plan_of(e, n, routing).1.contains(i as usize)
            &&& !wanted ==> forall|j: int|
                0 <= j < plan_of(e, n, routing).0.len() ==> (#[trigger] plan_of(
                    e,
                    n,
                    routing,
                ).0[j]).index != i
            &&& wanted ==> !plan_of(e, n, routing).1.contains(i as usize)
        }),
    decreases n,
{
    let t = e[i];
    let name = t.name@;
    let format = routing.spec_format(name);
    let (items, skipped) = plan_of(e, n, routing);
    law_block_widths(format);
    law_found_is_there(name, ".weight"@);
    law_found_is_there(name, "embed_tokens"@);
    law_found_is_there(name, "norm"@);
    assert forall|a: Seq<char>| name == #[trigger] (a + ".weight"@) implies ends_with_seq(
        name,
        ".weight"@,
    ) by {
        law_found_where_it_stands(a, ".weight"@, seq![]);
    }
    assert forall|a: Seq<char>, b: Seq<char>| name == #[trigger] (a + "embed_tokens"@
        + b) implies contains_seq(name, "embed_tokens"@) by {
        law_found_where_it_stands(a, "embed_tokens"@, b);
    }
    assert forall|a: Seq<char>, b: Seq<char>| name == #[trigger] (a + "norm"@
        + b) implies contains_seq(name, "norm"@) by {
        law_found_where_it_stands(a, "norm"@, b);
    }
    let (before, left) = plan_of(e, n - 1, routing);
    law_plan_covers(e, n - 1, routing);
    if i < n - 1 {
        law_planned_where_weights_are(e, n - 1, routing, i);
        if before.contains(
            WorkItem { index: i as usize, rows: t.shape@[0], k: t.shape@[1], format },
        ) {
            let j = choose|j: int|
                0 <= j < before.len() && before[j] == (WorkItem {
                    index: i as usize,
                    rows: t.shape@[0],
                    k: t.shape@[1],
                    format,
                });
            assert(items[j] == before[j]);
        }
        if left.contains(i as usize) {
            let j = choose|j: int| 0 <= j < left.len() && left[j] == i as usize;
            assert(skipped[j] == left[j]);
        }
        assert forall|j: int| 0 <= j < items.len() implies (#[trigger] items[j]).index != i
            || before.len() > j && items[j] == before[j] by {}
        assert forall|j: int| 0 <= j < skipped.len() implies (#[trigger] skipped[j]) != i
            || left.len() > j && skipped[j] == left[j] by {}
    } else if items.len() > before.len() {
        assert(items[before.len() as int] == (WorkItem {
            index: i as usize,
            rows: t.shape@[0],
            k: t.shape@[1],
            format,
        }));
        assert(skipped == left);
    } else {
        assert(skipped[left.len() as int] == i as usize);
        assert(items == before);
    }
}

/// Every weight that a model multiplies by is quantized where it is a matrix of
/// whole blocks: the four of each layer, and the head.
pub proof fn law_model_weights_are_planned(
    e: Seq<TensorEntry>,
    n: int,
    routing: Routing,
    i: int,
    d: Seq<char>,
    part: Seq<char>,
)
    requires
        0 <= i < n <= e.len(),
        n <= usize::MAX,
        d.len() > 0,
        all_digits(d),
        part == "self_attn.qkv_proj"@ || part == "self_attn.o_proj"@ || part
            == "mlp.gate_up_proj"@ || part == "mlp.down_proj"@,
        e[i].name@ == "model.layers."@ + d + "."@ + part + ".weight"@ || e[i].name@
            == "lm_head.weight"@,
        e[i].shape@.len() == 2,
        e[i].shape@[1] as int % 256 == 0 || e[i].shape@[1] as int % 128 == 0
            && routing.spec_format(e[i].name@) == QuantFormat::Q8K128,
    ensures
        exists|j: int|
            {
                let item = #[trigger] plan_of(e, n, routing).0[j];
                &&& 0 <= j < plan_of(e, n, routing).0.len()
                &&& item.index == i
                &&& item.rows == e[i].shape@[0]
                &&& item.k == e[i].shape@[1]
                &&& item.format == routing.spec_format(e[i].name@)
            },
{
    let t = e[i];
    let name = t.name@;
    let format = routing.spec_format(name);
    law_planned_where_weights_are(e, n, routing, i);
    law_layer_weight_names(d, part);
    lemma_head_name();
    let front = "model.layers."@ + d + "."@ + part;
    if name == layer_weight(d, part) {
        assert(name == front + ".weight"@);
    } else {
        law_found_is_there(name, ".weight"@);
    }
    assert forall|a: Seq<char>, b: Seq<char>| name != #[trigger] (a + "embed_tokens"@ + b) by {
        law_found_where_it_stands(a, "embed_tokens"@, b);
    }
    assert forall|a: Seq<char>, b: Seq<char>| name != #[trigger] (a + "norm"@ + b) by {
        law_found_where_it_stands(a, "norm"@, b);
    }
    let item = WorkItem { index: i as usize, rows: t.shape@[0], k: t.shape@[1], format };
    let j = choose|j: int|
        0 <= j < plan_of(e, n, routing).0.len() && plan_of(e, n, routing).0[j] == item;
    assert(plan_of(e, n, routing).0[j].index == i);
}

/// The items, and the tensors that are skipped, stand in the order of the
/// tensors.
pub proof fn law_plan_keeps_the_order(e: Seq<TensorEntry>, n: int, routing: Routing)
    requires
        0 <= n <= e.len(),
        n <= usize::MAX,
    ensures
        forall|i: int, j: int|
            0 <= i < j < plan_of(e, n, routing).0.len() ==> (#[trigger] plan_of(
                e,
                n,
                routing,
            ).0[i]).index < (#[trigger] plan_of(e, n, routing).0[j]).index,
        forall|i: int, j: int|
            0 <= i < j < plan_of(e, n, routing).1.len() ==> #[trigger] plan_of(e, n, routing).1[i]
                < #[trigger] plan_of(e, n, routing).1[j],
    decreases n,
{
    if n > 0 {
        law_plan_keeps_the_order(e, n - 1, routing);
        law_plan_covers(e, n - 1, routing);
    }
}

/// The name of an attention projection, letter by letter.
pub proof fn law_attention_names(d: Seq<char>)
    requires
        d.len() > 0,
        all_digits(d),
    ensures
        names_attention("model.layers."@ + d + ".self_attn.q_proj.weight"@, d, "q"@),
        names_attention("model.layers."@ + d + ".self_attn.k_proj.weight"@, d, "k"@),
        names_attention("model.layers."@ + d + ".self_attn.v_proj.weight"@, d, "v"@),
        names_attention("model.layers."@ + d + ".self_attn.o_proj.weight"@, d, "o"@),
{
    reveal_strlit("model.layers.");
    reveal_strlit(".self_attn.");
    reveal_strlit("_proj.weight");
    reveal_strlit("q");
    reveal_strlit("k");
    reveal_strlit("v");
    reveal_strlit("o");
    reveal_strlit(".self_attn.q_proj.weight");
    reveal_strlit(".self_attn.k_proj.weight");
    reveal_strlit(".self_attn.v_proj.weight");
    reveal_strlit(".self_attn.o_proj.weight");
    assert(".self_attn.q_proj.weight"@ =~= ".self_attn."@ + "q"@ + "_proj.weight"@);
    assert(".self_attn.k_proj.weight"@ =~= ".self_attn."@ + "k"@ + "_proj.weight"@);
    assert(".self_attn.v_proj.weight"@ =~= ".self_attn."@ + "v"@ + "_proj.weight"@);
    assert(".self_attn.o_proj.weight"@ =~= ".self_attn."@ + "o"@ + "_proj.weight"@);
    let m = "model.layers."@;
    assert(m + d + ".self_attn.q_proj.weight"@ =~= attention_name(d, "q"@));
    assert(m + d + ".self_attn.k_proj.weight"@ =~= attention_name(d, "k"@));
    assert(m + d + ".self_attn.v_proj.weight"@ =~= attention_name(d, "v"@));
    assert(m + d + ".self_attn.o_proj.weight"@ =~= attention_name(d, "o"@));
}

/// Row `r` of blocks is made of the values from `r * k` on, and of no others.
pub proof fn law_rows_keep_their_places<T, B, F: Fn(&[T]) -> Vec<B>>(
    blocks: Seq<B>,
    data: Seq<T>,
    rows: int,
    k: int,
    r: int,
    row_of: F,
)
    requires
        0 <= r < rows,
        k >= 0,
        k % 256 == 0,
        data.len() == rows * k,
        blocks.len() == rows * (k / 256),
        row_quantized(blocks, data, k, r, row_of),
    ensures
        exists|src: &[T], v: Vec<B>|
            {
                &&& #[trigger] call_ensures(row_of, (src,), v)
                &&& src@.len() == k
                &&& v@.len() == k / 256
                &&& forall|j: int| 0 <= j < k ==> #[trigger] src@[j] == data[r * k + j]
                &&& forall|j: int| 0 <= j < k / 256 ==> #[trigger] v@[j] == blocks[r * (k / 256) + j]
            },
{
    let n = k / 256;
    let (src, v) = choose|src: &[T], v: Vec<B>| #[trigger]
        call_ensures(row_of, (src,), v) && src@ == data.subrange(r * k, r * k + k) && v@
            == blocks.subrange(r * n, r * n + n);
    lemma_slot(r, rows, k);
    lemma_slot(r, rows, n);
    assert(call_ensures(row_of, (src,), v));
}

/// Which words name which policy, and no other word names any.
pub proof fn law_policy_words(l: Seq<char>)
    ensures
        match q8k128_policy_named(l) {
            Some(Q8K128Policy::Off) => seq!["off"@, "0"@, "false"@].contains(l),
            Some(Q8K128Policy::Layer0Qkv) => seq![
                "layer0-qkv"@,
                "layer0_qkv"@,
                "l0-qkv"@,
                "l0_qkv"@,
            ].contains(l),
            Some(Q8K128Policy::EarlyQkv) => seq![
                "early-qkv"@,
                "early_qkv"@,
                "layers0-3-qkv"@,
                "0-3-qkv"@,
            ].contains(l),
            Some(Q8K128Policy::Qkv) => seq!["qkv"@, "all-qkv"@, "all_qkv"@].contains(l),
            Some(Q8K128Policy::Attn) => seq![
                "attn"@,
                "attention"@,
                "self-attn"@,
                "self_attn"@,
            ].contains(l),
            Some(Q8K128Policy::Q8K) => seq!["q8k"@, "q8k-layers"@, "non-down"@].contains(l),
            Some(Q8K128Policy::All) => l == "all"@,
            None => {
                &&& !seq!["off"@, "0"@, "false"@].contains(l)
                &&& !seq!["layer0-qkv"@, "layer0_qkv"@, "l0-qkv"@, "l0_qkv"@].contains(l)
                &&& !seq!["early-qkv"@, "early_qkv"@, "layers0-3-qkv"@, "0-3-qkv"@].contains(l)
                &&& !seq!["qkv"@, "all-qkv"@, "all_qkv"@].contains(l)
                &&& !seq!["attn"@, "attention"@, "self-attn"@, "self_attn"@].contains(l)
                &&& !seq!["q8k"@, "q8k-layers"@, "non-down"@].contains(l)
                &&& l != "all"@
            },
        },
        match q6k_policy_named(l) {
            Some(Q6KPolicy::Off) => l == "off"@,
            Some(Q6KPolicy::Down) => l == "down"@,
            Some(Q6KPolicy::Q8K) => l == "q8k"@,
            Some(Q6KPolicy::All) => l == "all"@,
            None => l != "off"@ && l != "down"@ && l != "q8k"@ && l != "all"@,
        },
{
    lemma_one_of(l, "off"@, "0"@, "false"@, "false"@);
    lemma_one_of(l, "layer0-qkv"@, "layer0_qkv"@, "l0-qkv"@, "l0_qkv"@);
    lemma_one_of(l, "early-qkv"@, "early_qkv"@, "layers0-3-qkv"@, "0-3-qkv"@);
    lemma_one_of(l, "qkv"@, "all-qkv"@, "all_qkv"@, "all_qkv"@);
    lemma_one_of(l, "attn"@, "attention"@, "self-attn"@, "self_attn"@);
    lemma_one_of(l, "q8k"@, "q8k-layers"@, "non-down"@, "non-down"@);
}

proof fn lemma_one_of(l: Seq<char>, a: Seq<char>, b: Seq<char>, c: Seq<char>, d: Seq<char>)
    ensures
        seq![a, b, c].contains(l) <==> l == a || l == b || l == c,
        seq![a, b, c, d].contains(l) <==> l == a || l == b || l == c || l == d,
{
    let three = seq![a, b, c];
    let four = seq![a, b, c, d];
    assert(three[0] == a && three[1] == b && three[2] == c);
    assert(four[0] == a && four[1] == b && four[2] == c && four[3] == d);
}

/// The four weights of every layer, and the head, are to be quantized.
pub proof fn law_model_weights_are_targets(name: &str, d: Seq<char>, part: Seq<char>, r: bool)
    requires
        d.len() > 0,
        all_digits(d),
        part == "self_attn.qkv_proj"@ || part == "self_attn.o_proj"@ || part
            == "mlp.gate_up_proj"@ || part == "mlp.down_proj"@,
        name@ == "model.layers."@ + d + "."@ + part + ".weight"@ || name@ == "lm_head.weight"@,
        call_ensures(is_target_weight, (name,), r),
    ensures
        r,
{
    law_layer_weight_names(d, part);
    lemma_head_name();
    law_found_where_it_stands("model.layers."@ + d + "."@ + part, ".weight"@, seq![]);
}

/// Embeddings, normalizations and what is no weight are not to be quantized.
pub proof fn law_other_tensors_are_no_targets(
    name: &str,
    a: Seq<char>,
    b: Seq<char>,
    r: bool,
)
    requires
        name@ == a + "embed_tokens"@ + b || name@ == a + "norm"@ + b || forall|c: Seq<char>|
            name@ != #[trigger] (c + ".weight"@),
        call_ensures(is_target_weight, (name,), r),
    ensures
        !r,
{
    law_found_where_it_stands(a, "embed_tokens"@, b);
    law_found_where_it_stands(a, "norm"@, b);
    law_found_is_there(name@, ".weight"@);
}

/// An attention projection's name says its layer and its letter, and nothing else
/// does.
pub proof fn law_attention_names_are_read_one_way(
    name: Seq<char>,
    d: Seq<char>,
    kind: Seq<char>,
    e: Seq<char>,
    letter: Seq<char>,
)
    requires
        names_attention(name, d, kind),
        names_attention(name, e, letter),
    ensures
        d == e,
        kind == letter,
{
    lemma_attention_parts(name, d, kind);
    lemma_attention_parts(name, e, letter);
}

/// A tensor that is skipped for its rows says what they are.
pub proof fn law_ragged_tensors_say_so(name: Seq<char>, shape: Seq<usize>, format: QuantFormat)
    ensures
        match route(name, shape, format) {
            Ok((rows, k)) => shape == seq![rows, k],
            Err(Skip::Ragged { rows, k, block }) => {
                &&& shape == seq![rows, k]
                &&& block == (if format == QuantFormat::Q8K128 {
                    128usize
                } else {
                    256
                })
                &&& k as int % block as int != 0
            },
            Err(Skip::NotTarget) => shape.len() != 2 || !target_weight(name),
        },
{
    law_block_widths(format);
    if shape.len() == 2 {
        assert(shape =~= seq![shape[0], shape[1]]);
    }
}

/// Policies go by these names.
pub proof fn law_names_of_policies(p: Q8K128Policy)
    ensures
        p == Q8K128Policy::Off ==> p.spec_name() == "off"@,
        p == Q8K128Policy::Layer0Qkv ==> p.spec_name() == "layer0-qkv"@,
        p == Q8K128Policy::EarlyQkv ==> p.spec_name() == "early-qkv"@,
        p == Q8K128Policy::Qkv ==> p.spec_name() == "qkv"@,
        p == Q8K128Policy::Attn ==> p.spec_name() == "attn"@,
        p == Q8K128Policy::Q8K ==> p.spec_name() == "q8k"@,
        p == Q8K128Policy::All ==> p.spec_name() == "all"@,
{
}

} // verus!
