//! Tokens of texts and texts of tokens.
//!
//! A tokenizer is made of parts that its file chooses. Some choices make it panic
//! on some texts or tokens. They are told apart here, before a text or a token is
//! handed over.

use tokenizers::models::ModelWrapper;
use tokenizers::processors::template::{Piece, Sequence};
use tokenizers::{
    DecoderWrapper, NormalizerWrapper, OffsetReferential, OffsetType, PaddingStrategy,
    PostProcessorWrapper, PreTokenizerWrapper, Tokenizer,
};
use vstd::prelude::*;
use vstd::string::*;

use crate::text::same;

verus! {

/// A tokenizer, as loaded.
#[verifier::external_type_specification]
#[verifier::external_body]
pub struct ExTokenizer(Tokenizer);

/// A part that rewrites a text before it is cut.
#[verifier::external_type_specification]
#[verifier::external_body]
pub struct ExNormalizer(NormalizerWrapper);

/// A part that cuts a text into words.
#[verifier::external_type_specification]
#[verifier::external_body]
pub struct ExPreTokenizer(PreTokenizerWrapper);

/// A part that finishes an encoding.
#[verifier::external_type_specification]
#[verifier::external_body]
pub struct ExPostProcessor(PostProcessorWrapper);

/// A part that turns tokens into text.
#[verifier::external_type_specification]
#[verifier::external_body]
pub struct ExDecoder(DecoderWrapper);

// ── the parts of a tokenizer ───────────────────────────────────────────────

/// A step that cuts a text into words.
#[derive(Debug, Clone, Copy, PartialEq, Eq, Structural)]
pub enum PreStep {
    /// Words of so many characters.
    FixedLength(usize),
    /// Cuts where a pattern matches.
    Split,
    /// Another.
    Other,
}

/// A step that rewrites a text before it is cut.
#[derive(Debug, Clone, Copy, PartialEq, Eq, Structural)]
pub enum NormStep {
    Precompiled,
    /// Replaces a literal text of so many bytes, or what a regular expression
    /// matches.
    Replace(Option<usize>),
    /// Puts a text of so many bytes in front.
    Prepend(usize),
    /// Another.
    Other,
}

/// A piece of a template for an encoding.
#[derive(Debug, Clone, Copy, PartialEq, Eq, Structural)]
pub enum TemplatePiece {
    /// The first text.
    First,
    /// The second text.
    Second,
    /// A special token.
    Special,
}

/// A step that turns tokens into text.
#[derive(Debug, Clone, Copy, PartialEq, Eq, Structural)]
pub enum DecodeStep {
    BytePair,
    ByteLevel,
    Ctc,
    Fuse,
    /// Takes up to so many characters off the end of each token.
    Strip(usize),
    /// Replaces a literal text of so many bytes, or what a regular expression
    /// matches.
    Replace(Option<usize>),
    /// Another.
    Other,
}

/// The length to which encodings are cut and the tokens that neighbouring parts
/// share, where encodings are cut.
pub uninterp spec fn truncation(t: Tokenizer) -> Option<(usize, usize)>;

/// Where encodings are filled up: the length, if it is fixed, and the number of
/// which it is to be a multiple, if there is one.
pub uninterp spec fn padding(t: Tokenizer) -> Option<(Option<usize>, Option<usize>)>;

/// The part that cuts a text into words.
pub uninterp spec fn pre_tokenizer(t: Tokenizer) -> Option<PreTokenizerWrapper>;

/// The members of a part that cuts a text into words, where it is a sequence.
pub uninterp spec fn pre_members(p: PreTokenizerWrapper) -> Option<Seq<PreTokenizerWrapper>>;

/// What a part does that cuts a text into words.
pub uninterp spec fn pre_step(p: PreTokenizerWrapper) -> PreStep;

/// The part that rewrites a text.
pub uninterp spec fn normalizer(t: Tokenizer) -> Option<NormalizerWrapper>;

/// The members of a part that rewrites a text, where it is a sequence.
pub uninterp spec fn norm_members(p: NormalizerWrapper) -> Option<Seq<NormalizerWrapper>>;

/// What a part does that rewrites a text.
pub uninterp spec fn norm_step(p: NormalizerWrapper) -> NormStep;

/// The part that finishes an encoding.
pub uninterp spec fn post_processor(t: Tokenizer) -> Option<PostProcessorWrapper>;

/// The members of a part that finishes an encoding, where it is a sequence.
pub uninterp spec fn post_members(p: PostProcessorWrapper) -> Option<Seq<PostProcessorWrapper>>;

/// The template for a single text, where a part that finishes an encoding has one.
pub uninterp spec fn template(p: PostProcessorWrapper) -> Option<Seq<TemplatePiece>>;

/// The part that turns tokens into text.
pub uninterp spec fn decoder(t: Tokenizer) -> Option<DecoderWrapper>;

/// The members of a part that turns tokens into text, where it is a sequence.
pub uninterp spec fn decode_members(p: DecoderWrapper) -> Option<Seq<DecoderWrapper>>;

/// What a part does that turns tokens into text.
pub uninterp spec fn decode_step(p: DecoderWrapper) -> DecodeStep;

/// Of the tokens that were added to the model's: whether they take the white
/// space on their left and that on their right.
pub uninterp spec fn added_flags(t: Tokenizer) -> Set<(bool, bool)>;

/// How the added tokens cut a text that is not rewritten: the pieces that are not
/// empty, and whether they are added tokens.
pub uninterp spec fn added_cuts(t: Tokenizer, text: Seq<char>) -> Seq<(Seq<char>, bool)>;

/// Whether the tokenizer's model merges at random: a byte-pair model with a
/// dropout.
pub uninterp spec fn merge_dropout(t: Tokenizer) -> bool;

/// The text of a token, if there is such a token.
pub uninterp spec fn id_text(t: Tokenizer, id: u32) -> Option<Seq<char>>;

/// Whether a text is that of a special token.
pub uninterp spec fn special_text(t: Tokenizer, text: Seq<char>) -> bool;

/// Reads `max_length` and `stride` of `Tokenizer::get_truncation`.
#[verifier::external_body]
fn truncation_of(t: &Tokenizer) -> (r: Option<(usize, usize)>)
    ensures
        r == truncation(*t),
{
    t.get_truncation().map(|p| (p.max_length, p.stride))
}

/// Reads the strategy and `pad_to_multiple_of` of `Tokenizer::get_padding`.
#[verifier::external_body]
fn padding_of(t: &Tokenizer) -> (r: Option<(Option<usize>, Option<usize>)>)
    ensures
        r == padding(*t),
{
    t.get_padding().map(
        |p|
            {
                let fixed = match p.strategy {
                    PaddingStrategy::Fixed(n) => Some(n),
                    PaddingStrategy::BatchLongest => None,
                };
                (fixed, p.pad_to_multiple_of)
            },
    )
}

/// What references refer to.
pub open spec fn referred<P>(v: Seq<&P>) -> Seq<P> {
    v.map_values(|p: &P| *p)
}

/// A part of a tokenizer, which may be a sequence of parts.
pub trait Part: Sized {
    /// The members of a sequence.
    spec fn members(self) -> Option<Seq<Self>>;

    /// The members of a sequence.
    fn members_of(&self) -> (r: Option<Vec<&Self>>)
        ensures
            match r {
                Some(v) => self.members() == Some(referred(v@)),
                None => self.members() is None,
            },
    ;
}

/// Calls `Tokenizer::get_pre_tokenizer`.
#[verifier::external_body]
fn pre_tokenizer_of(t: &Tokenizer) -> (r: Option<&PreTokenizerWrapper>)
    ensures
        match r {
            Some(p) => pre_tokenizer(*t) == Some(*p),
            None => pre_tokenizer(*t) is None,
        },
{
    t.get_pre_tokenizer()
}

/// Lists what a `PreTokenizerWrapper::Sequence` holds.
#[verifier::external_body]
fn pre_members_of(p: &PreTokenizerWrapper) -> (r: Option<Vec<&PreTokenizerWrapper>>)
    ensures
        match r {
            Some(v) => pre_members(*p) == Some(referred(v@)),
            None => pre_members(*p) is None,
        },
{
    match p {
        PreTokenizerWrapper::Sequence(s) => Some(s.as_ref().iter().collect()),
        _ => None,
    }
}

impl Part for PreTokenizerWrapper {
    open spec fn members(self) -> Option<Seq<PreTokenizerWrapper>> {
        pre_members(self)
    }

    fn members_of(&self) -> (r: Option<Vec<&PreTokenizerWrapper>>) {
        pre_members_of(self)
    }
}

/// Calls `Tokenizer::get_normalizer`.
#[verifier::external_body]
fn normalizer_of(t: &Tokenizer) -> (r: Option<&NormalizerWrapper>)
    ensures
        match r {
            Some(p) => normalizer(*t) == Some(*p),
            None => normalizer(*t) is None,
        },
{
    t.get_normalizer()
}

/// Lists what a `NormalizerWrapper::Sequence` holds.
#[verifier::external_body]
fn norm_members_of(p: &NormalizerWrapper) -> (r: Option<Vec<&NormalizerWrapper>>)
    ensures
        match r {
            Some(v) => norm_members(*p) == Some(referred(v@)),
            None => norm_members(*p) is None,
        },
{
    match p {
        NormalizerWrapper::Sequence(s) => Some(s.as_ref().iter().collect()),
        _ => None,
    }
}

impl Part for NormalizerWrapper {
    open spec fn members(self) -> Option<Seq<NormalizerWrapper>> {
        norm_members(self)
    }

    fn members_of(&self) -> (r: Option<Vec<&NormalizerWrapper>>) {
        norm_members_of(self)
    }
}

/// Calls `Tokenizer::get_post_processor`.
#[verifier::external_body]
fn post_processor_of(t: &Tokenizer) -> (r: Option<&PostProcessorWrapper>)
    ensures
        match r {
            Some(p) => post_processor(*t) == Some(*p),
            None => post_processor(*t) is None,
        },
{
    t.get_post_processor()
}

/// Lists what a `PostProcessorWrapper::Sequence` holds.
#[verifier::external_body]
fn post_members_of(p: &PostProcessorWrapper) -> (r: Option<Vec<&PostProcessorWrapper>>)
    ensures
        match r {
            Some(v) => post_members(*p) == Some(referred(v@)),
            None => post_members(*p) is None,
        },
{
    match p {
        PostProcessorWrapper::Sequence(s) => Some(s.as_ref().iter().collect()),
        _ => None,
    }
}

impl Part for PostProcessorWrapper {
    open spec fn members(self) -> Option<Seq<PostProcessorWrapper>> {
        post_members(self)
    }

    fn members_of(&self) -> (r: Option<Vec<&PostProcessorWrapper>>) {
        post_members_of(self)
    }
}

/// Calls `Tokenizer::get_decoder`.
#[verifier::external_body]
fn decoder_of(t: &Tokenizer) -> (r: Option<&DecoderWrapper>)
    ensures
        match r {
            Some(p) => decoder(*t) == Some(*p),
            None => decoder(*t) is None,
        },
{
    t.get_decoder()
}

/// Lists what a `DecoderWrapper::Sequence` holds.
#[verifier::external_body]
fn decode_members_of(p: &DecoderWrapper) -> (r: Option<Vec<&DecoderWrapper>>)
    ensures
        match r {
            Some(v) => decode_members(*p) == Some(referred(v@)),
            None => decode_members(*p) is None,
        },
{
    match p {
        DecoderWrapper::Sequence(s) => Some(s.get_decoders().iter().collect()),
        _ => None,
    }
}

impl Part for DecoderWrapper {
    open spec fn members(self) -> Option<Seq<DecoderWrapper>> {
        decode_members(self)
    }

    fn members_of(&self) -> (r: Option<Vec<&DecoderWrapper>>) {
        decode_members_of(self)
    }
}

/// Tells the variants of `PreTokenizerWrapper` apart.
#[verifier::external_body]
fn pre_step_of(p: &PreTokenizerWrapper) -> (r: PreStep)
    ensures
        r == pre_step(*p),
{
    match p {
        PreTokenizerWrapper::FixedLength(f) => PreStep::FixedLength(f.length),
        PreTokenizerWrapper::Split(_) => PreStep::Split,
        _ => PreStep::Other,
    }
}

/// Tells the variants of `NormalizerWrapper` apart. What a `Replace` looks for is
/// read from its serialized form, where a literal text stands under `String`.
#[verifier::external_body]
fn norm_step_of(p: &NormalizerWrapper) -> (r: NormStep)
    ensures
        r == norm_step(*p),
{
    match p {
        NormalizerWrapper::Replace(p) => NormStep::Replace(
            serde_json::to_value(p).ok().and_then(|v| v["pattern"]["String"].as_str().map(str::len)),
        ),
        NormalizerWrapper::Prepend(p) => NormStep::Prepend(p.prepend.len()),
        NormalizerWrapper::Precompiled(_) => NormStep::Precompiled,
        _ => NormStep::Other,
    }
}

/// Reads the `single` template of a `TemplateProcessing` through its serialized
/// form, an array of `Piece`.
#[verifier::external_body]
fn template_of(p: &PostProcessorWrapper) -> (r: Option<Vec<TemplatePiece>>)
    ensures
        match r {
            Some(pieces) => template(*p) == Some(pieces@),
            None => template(*p) is None,
        },
{
    let PostProcessorWrapper::Template(x) = p else {
        return None;
    };
    let json = serde_json::to_value(&x.single).unwrap_or_default();
    let pieces: Vec<Piece> = serde_json::from_value(json).unwrap_or_default();
    Some(pieces.iter().map(|p| match p {
        Piece::Sequence { id: Sequence::A, .. } => TemplatePiece::First,
        Piece::Sequence { id: Sequence::B, .. } => TemplatePiece::Second,
        Piece::SpecialToken { .. } => TemplatePiece::Special,
    }).collect())
}

/// Tells the variants of `DecoderWrapper` apart. What a `Replace` looks for is
/// read from its serialized form, where a literal text stands under `String`.
#[verifier::external_body]
fn decode_step_of(p: &DecoderWrapper) -> (r: DecodeStep)
    ensures
        r == decode_step(*p),
{
    match p {
        DecoderWrapper::BPE(_) => DecodeStep::BytePair,
        DecoderWrapper::ByteLevel(_) => DecodeStep::ByteLevel,
        DecoderWrapper::CTC(_) => DecodeStep::Ctc,
        DecoderWrapper::Fuse(_) => DecodeStep::Fuse,
        DecoderWrapper::Strip(s) => DecodeStep::Strip(s.stop),
        DecoderWrapper::Replace(p) => DecodeStep::Replace(
            serde_json::to_value(p).ok().and_then(|v| v["pattern"]["String"].as_str().map(str::len)),
        ),
        _ => DecodeStep::Other,
    }
}

/// Reads the flags of `AddedVocabulary::get_added_tokens_decoder`, by which found
/// tokens take white space. Their order is left open.
#[verifier::external_body]
fn added_flags_of(t: &Tokenizer) -> (r: Vec<(bool, bool)>)
    ensures
        r@.to_set() == added_flags(*t),
{
    let added = t.get_added_vocabulary().get_added_tokens_decoder();
    added.values().map(|a| (a.lstrip, a.rstrip)).collect()
}

/// The texts of pieces.
pub open spec fn pieces(v: Seq<(String, bool)>) -> Seq<(Seq<char>, bool)> {
    v.map_values(|p: (String, bool)| (p.0@, p.1))
}

/// Calls `AddedVocabulary::extract_and_normalize` without a normalizer and lists
/// the pieces with `PreTokenizedString::get_splits`; a piece that is an added
/// token has tokens. Only for texts of control characters of ASCII: every place
/// in such a text is one at which it can be cut, and no token has white space to
/// take.
#[verifier::external_body]
fn added_cuts_of(t: &Tokenizer, text: &str) -> (r: Vec<(String, bool)>)
    requires
        plain(text@),
    ensures
        pieces(r@) == added_cuts(*t, text@),
{
    let cut = t.get_added_vocabulary().extract_and_normalize(None::<&NormalizerWrapper>, text);
    let all = cut.get_splits(OffsetReferential::Original, OffsetType::Byte);
    all.into_iter().map(|(s, _, tokens)| (s.to_string(), tokens.is_some())).collect()
}

/// Looks at the model with `Tokenizer::get_model`: whether it is a byte-pair
/// model whose `dropout` is set. Only such a model draws random numbers.
#[verifier::external_body]
fn drops_merges(t: &Tokenizer) -> (r: bool)
    ensures
        r == merge_dropout(*t),
{
    match t.get_model() {
        ModelWrapper::BPE(m) => m.dropout.is_some(),
        _ => false,
    }
}

/// Calls `Tokenizer::id_to_token`. The outcome is a function of the tokenizer and
/// the token.
#[verifier::external_body]
fn id_text_of(t: &Tokenizer, id: u32) -> (r: Option<String>)
    ensures
        match r {
            Some(s) => id_text(*t, id) == Some(s@),
            None => id_text(*t, id) is None,
        },
{
    t.id_to_token(id)
}

/// Calls `AddedVocabulary::is_special_token`. The outcome is a function of the
/// tokenizer and the text.
#[verifier::external_body]
fn is_special_text(t: &Tokenizer, text: &str) -> (r: bool)
    ensures
        r == special_text(*t, text@),
{
    t.get_added_vocabulary().is_special_token(text)
}

/// Whether the same text always has the same tokens.
pub fn tokenizes_alike(t: &Tokenizer) -> (r: bool)
    ensures
        r == !merge_dropout(*t),
{
    !drops_merges(t)
}

// ── tokens of a text ───────────────────────────────────────────────────────

/// How deep sequences of parts may be nested.
pub const MAX_DEPTH: usize = 128;

/// The parts that a part is made of, in order, with no sequence among them.
/// Nothing where sequences are nested deeper than `depth`.
pub open spec fn leaves<P: Part>(p: P, depth: nat) -> Option<Seq<P>>
    decreases depth, 0nat,
{
    match p.members() {
        None => Some(seq![p]),
        Some(m) => if depth == 0 {
            None
        } else {
            all_leaves(m, (depth - 1) as nat)
        },
    }
}

/// The parts that parts are made of, in order.
pub open spec fn all_leaves<P: Part>(m: Seq<P>, depth: nat) -> Option<Seq<P>>
    decreases depth, m.len(),
{
    if m.len() == 0 {
        Some(Seq::empty())
    } else {
        match (all_leaves(m.drop_last(), depth), leaves(m.last(), depth)) {
            (Some(before), Some(last)) => Some(before + last),
            _ => None,
        }
    }
}

/// The parts that an optional part is made of.
pub open spec fn parts<P: Part>(p: Option<P>) -> Option<Seq<P>> {
    match p {
        None => Some(Seq::empty()),
        Some(x) => leaves(x, MAX_DEPTH as nat),
    }
}

proof fn lemma_unfound<P: Part>(m: Seq<P>, i: int, depth: nat)
    requires
        0 <= i <= m.len(),
        all_leaves(m.take(i), depth) is None,
    ensures
        all_leaves(m, depth) is None,
    decreases m.len() - i,
{
    if i < m.len() {
        assert(m.take(i + 1).drop_last() =~= m.take(i));
        lemma_unfound(m, i + 1, depth);
    } else {
        assert(m.take(i) =~= m);
    }
}

fn leaves_of<'a, P: Part>(p: &'a P, depth: usize) -> (r: Option<Vec<&'a P>>)
    ensures
        match r {
            Some(v) => leaves(*p, depth as nat) == Some(referred(v@)),
            None => leaves(*p, depth as nat) is None,
        },
    decreases depth,
{
    let m = match p.members_of() {
        Some(m) => m,
        None => {
            let mut v: Vec<&'a P> = Vec::new();
            v.push(p);
            assert(referred(v@) =~= seq![*p]);
            return Some(v);
        },
    };
    if depth == 0 {
        return None;
    }
    let ghost all = referred(m@);
    let mut v: Vec<&'a P> = Vec::new();
    let mut i: usize = 0;
    assert(all.take(0) =~= Seq::<P>::empty());
    assert(referred(v@) =~= Seq::<P>::empty());
    while i < m.len()
        invariant
            depth > 0,
            all == referred(m@),
            leaves(*p, depth as nat) == all_leaves(all, (depth - 1) as nat),
            i <= m@.len(),
            all_leaves(all.take(i as int), (depth - 1) as nat) == Some(referred(v@)),
        decreases m@.len() - i,
    {
        assert(all.take(i + 1).drop_last() =~= all.take(i as int));
        assert(all.take(i + 1).last() == *m@[i as int]);
        match leaves_of(m[i], depth - 1) {
            Some(more) => {
                let ghost before = v@;
                let ghost added = more@;
                let mut more = more;
                v.append(&mut more);
                assert(referred(v@) =~= referred(before) + referred(added));
            },
            None => {
                proof {
                    lemma_unfound(all, i + 1, (depth - 1) as nat);
                }
                return None;
            },
        }
        i += 1;
    }
    assert(all.take(i as int) =~= all);
    Some(v)
}

fn parts_of<'a, P: Part>(p: Option<&'a P>) -> (r: Option<Vec<&'a P>>)
    ensures
        ({
            let whole = match p {
                Some(x) => Some(*x),
                None => None,
            };
            match r {
                Some(v) => parts(whole) == Some(referred(v@)),
                None => parts(whole) is None,
            }
        }),
{
    match p {
        Some(x) => leaves_of(x, MAX_DEPTH),
        None => {
            let v: Vec<&'a P> = Vec::new();
            assert(referred(v@) =~= Seq::<P>::empty());
            Some(v)
        },
    }
}

/// Parts of a cut encoding share fewer tokens than they have.
pub open spec fn truncation_ok(p: Option<(usize, usize)>) -> bool {
    match p {
        None => true,
        Some((max, stride)) => max == 0 || stride < max,
    }
}

/// Encodings are not filled up past what a vector can hold.
pub open spec fn padding_ok(p: Option<(Option<usize>, Option<usize>)>) -> bool {
    match p {
        None => true,
        Some((fixed, multiple)) => {
            &&& fixed is Some ==> fixed->0 <= usize::MAX / 256
            &&& multiple is Some ==> multiple->0 <= usize::MAX / 256
        },
    }
}

/// Words have a length. A pattern is refused: it may be any regular expression,
/// and the search for one panics where it gives up.
pub open spec fn pre_ok(s: PreStep) -> bool {
    match s {
        PreStep::FixedLength(n) => n > 0,
        PreStep::Split => false,
        PreStep::Other => true,
    }
}

/// What is replaced or put in front is a text with characters. A regular
/// expression is refused, and so is a precompiled table, which is read without
/// bounds.
pub open spec fn norm_ok(s: NormStep) -> bool {
    match s {
        NormStep::Precompiled => false,
        NormStep::Replace(Some(n)) => n > 0,
        NormStep::Replace(None) => false,
        NormStep::Prepend(n) => n > 0,
        NormStep::Other => true,
    }
}

/// All words are cut in ways that cannot fail.
pub open spec fn all_pre_ok(s: Seq<PreTokenizerWrapper>) -> bool {
    forall|i: int| 0 <= i < s.len() ==> pre_ok(pre_step(#[trigger] s[i]))
}

/// All texts are rewritten in ways that cannot fail.
pub open spec fn all_norm_ok(s: Seq<NormalizerWrapper>) -> bool {
    forall|i: int| 0 <= i < s.len() ==> norm_ok(norm_step(#[trigger] s[i]))
}

/// The template for a single text, if there is one, asks for no second text.
pub open spec fn template_ok(t: Option<Seq<TemplatePiece>>) -> bool {
    match t {
        None => true,
        Some(s) => forall|i: int| 0 <= i < s.len() ==> #[trigger] s[i] != TemplatePiece::Second,
    }
}

/// There is at most one template, and it asks for no second text.
pub open spec fn post_ok(s: Seq<PostProcessorWrapper>) -> bool {
    &&& forall|i: int| 0 <= i < s.len() ==> template_ok(template(#[trigger] s[i]))
    &&& forall|i: int, j: int|
        0 <= i < j < s.len() ==> template(#[trigger] s[i]) is None || template(
            #[trigger] s[j],
        ) is None
}

/// Added tokens do not take white space on both sides.
pub open spec fn added_ok(flags: Set<(bool, bool)>) -> bool {
    ||| forall|f: (bool, bool)| #[trigger] flags.contains(f) ==> !f.0
    ||| forall|f: (bool, bool)| #[trigger] flags.contains(f) ==> !f.1
}

/// Control characters of ASCII that are not white space.
pub open spec fn plain(text: Seq<char>) -> bool {
    forall|i: int| 0 <= i < text.len() ==> '\u{1}' <= #[trigger] text[i] <= '\u{8}'
}

/// No added token is looked for as the empty text, which would be found between
/// any two bytes, even those of one character: it does not come between two
/// control characters.
pub open spec fn none_empty(t: Tokenizer) -> bool {
    added_cuts(t, "\u{1}\u{1}"@) == seq![("\u{1}\u{1}"@, false)]
}

/// Every text can be handed to the tokenizer.
pub open spec fn tokenizable(t: Tokenizer) -> bool {
    &&& truncation_ok(truncation(t))
    &&& padding_ok(padding(t))
    &&& parts(pre_tokenizer(t)) is Some && all_pre_ok(parts(pre_tokenizer(t))->0)
    &&& parts(normalizer(t)) is Some && all_norm_ok(parts(normalizer(t))->0)
    &&& parts(post_processor(t)) is Some && post_ok(parts(post_processor(t))->0)
    &&& added_ok(added_flags(t))
    &&& none_empty(t)
}

fn are_pre_ok(s: &Vec<&PreTokenizerWrapper>) -> (r: bool)
    ensures
        r == all_pre_ok(referred(s@)),
{
    let ghost all = referred(s@);
    let mut i: usize = 0;
    while i < s.len()
        invariant
            i <= s@.len(),
            all == referred(s@),
            forall|j: int| 0 <= j < i ==> pre_ok(pre_step(#[trigger] all[j])),
        decreases s@.len() - i,
    {
        assert(all[i as int] == *s@[i as int]);
        let ok = match pre_step_of(s[i]) {
            PreStep::FixedLength(n) => n > 0,
            PreStep::Split => false,
            PreStep::Other => true,
        };
        if !ok {
            assert(!pre_ok(pre_step(all[i as int])));
            return false;
        }
        i += 1;
    }
    true
}

fn are_norm_ok(s: &Vec<&NormalizerWrapper>) -> (r: bool)
    ensures
        r == all_norm_ok(referred(s@)),
{
    let ghost all = referred(s@);
    let mut i: usize = 0;
    while i < s.len()
        invariant
            i <= s@.len(),
            all == referred(s@),
            forall|j: int| 0 <= j < i ==> norm_ok(norm_step(#[trigger] all[j])),
        decreases s@.len() - i,
    {
        assert(all[i as int] == *s@[i as int]);
        let ok = match norm_step_of(s[i]) {
            NormStep::Precompiled => false,
            NormStep::Replace(Some(n)) => n > 0,
            NormStep::Replace(None) => false,
            NormStep::Prepend(n) => n > 0,
            NormStep::Other => true,
        };
        if !ok {
            assert(!norm_ok(norm_step(all[i as int])));
            return false;
        }
        i += 1;
    }
    true
}

fn is_template_ok(s: &Vec<TemplatePiece>) -> (r: bool)
    ensures
        r == template_ok(Some(s@)),
{
    let mut i: usize = 0;
    while i < s.len()
        invariant
            i <= s@.len(),
            forall|j: int| 0 <= j < i ==> #[trigger] s@[j] != TemplatePiece::Second,
        decreases s@.len() - i,
    {
        if s[i] == TemplatePiece::Second {
            return false;
        }
        i += 1;
    }
    true
}

fn is_post_ok(s: &Vec<&PostProcessorWrapper>) -> (r: bool)
    ensures
        r == post_ok(referred(s@)),
{
    let ghost all = referred(s@);
    let mut found = false;
    let ghost mut first: int = 0;
    let mut i: usize = 0;
    while i < s.len()
        invariant
            i <= s@.len(),
            all == referred(s@),
            forall|j: int| 0 <= j < i ==> template_ok(template(#[trigger] all[j])),
            !found ==> forall|j: int| 0 <= j < i ==> template(#[trigger] all[j]) is None,
            found ==> 0 <= first < i && template(all[first]) is Some && forall|j: int|
                0 <= j < i && j != first ==> template(#[trigger] all[j]) is None,
        decreases s@.len() - i,
    {
        assert(all[i as int] == *s@[i as int]);
        match template_of(s[i]) {
            None => {},
            Some(pieces) => {
                if found || !is_template_ok(&pieces) {
                    assert(found ==> template(all[first]) is Some && template(all[i as int]) is Some);
                    return false;
                }
                found = true;
                proof {
                    first = i as int;
                }
            },
        }
        i += 1;
    }
    true
}

fn is_added_ok(flags: &Vec<(bool, bool)>) -> (r: bool)
    ensures
        r == added_ok(flags@.to_set()),
{
    let ghost set = flags@.to_set();
    let mut left = false;
    let mut right = false;
    let mut i: usize = 0;
    while i < flags.len()
        invariant
            i <= flags@.len(),
            set == flags@.to_set(),
            left ==> exists|f: (bool, bool)| #[trigger] set.contains(f) && f.0,
            right ==> exists|f: (bool, bool)| #[trigger] set.contains(f) && f.1,
            !left ==> forall|j: int| 0 <= j < i ==> !(#[trigger] flags@[j]).0,
            !right ==> forall|j: int| 0 <= j < i ==> !(#[trigger] flags@[j]).1,
        decreases flags@.len() - i,
    {
        let f = flags[i];
        assert(flags@.contains(f));
        assert(set.contains(f));
        if f.0 {
            left = true;
        }
        if f.1 {
            right = true;
        }
        i += 1;
    }
    proof {
        assert forall|f: (bool, bool)| #[trigger] set.contains(f) implies exists|j: int|
            0 <= j < flags@.len() && flags@[j] == f by {
            assert(flags@.contains(f));
        }
    }
    !(left && right)
}

fn is_none_empty(t: &Tokenizer) -> (r: bool)
    ensures
        r == none_empty(*t),
{
    proof {
        reveal_strlit("\u{1}\u{1}");
    }
    let cuts = added_cuts_of(t, "\u{1}\u{1}");
    let ghost found = pieces(cuts@);
    assert(found.len() == cuts@.len());
    if cuts.len() != 1 {
        return false;
    }
    assert(found[0] == (cuts@[0].0@, cuts@[0].1));
    let ok = !cuts[0].1 && same(cuts[0].0.as_str(), "\u{1}\u{1}");
    proof {
        if ok {
            assert(found =~= seq![("\u{1}\u{1}"@, false)]);
        } else {
            assert(seq![("\u{1}\u{1}"@, false)][0] == ("\u{1}\u{1}"@, false));
        }
    }
    ok
}

/// Whether every text can be handed to the tokenizer.
pub fn is_tokenizable(t: &Tokenizer) -> (r: bool)
    ensures
        r == tokenizable(*t),
{
    let cut_ok = match truncation_of(t) {
        None => true,
        Some((max, stride)) => max == 0 || stride < max,
    };
    let filled_ok = match padding_of(t) {
        None => true,
        Some((fixed, multiple)) => (match fixed {
            Some(n) => n <= usize::MAX / 256,
            None => true,
        }) && (match multiple {
            Some(n) => n <= usize::MAX / 256,
            None => true,
        }),
    };
    let pre = parts_of(pre_tokenizer_of(t));
    let norm = parts_of(normalizer_of(t));
    let post = parts_of(post_processor_of(t));
    let added = added_flags_of(t);
    match (pre, norm, post) {
        (Some(pre), Some(norm), Some(post)) => cut_ok && filled_ok && are_pre_ok(&pre)
            && are_norm_ok(&norm) && is_post_ok(&post) && is_added_ok(&added) && is_none_empty(t),
        _ => false,
    }
}

/// The tokens that `Tokenizer::encode` makes of a text, or nothing where it
/// fails.
pub uninterp spec fn token_ids(t: Tokenizer, text: Seq<char>, special: bool) -> Option<Seq<u32>>;

/// Calls `Tokenizer::encode`, without special tokens, and hands out the token
/// numbers, or the text of the error. Unless merges are dropped at random the
/// outcome is a function of the tokenizer, the text and the flag; which tokens a
/// text has is not spelled out.
#[verifier::external_body]
fn encode(t: &Tokenizer, text: &str, special: bool) -> (r: Result<Vec<u32>, String>)
    requires
        !special,
        tokenizable(*t),
    ensures
        !merge_dropout(*t) ==> match r {
            Ok(ids) => token_ids(*t, text@, special) == Some(ids@),
            Err(_) => token_ids(*t, text@, special) is None,
        },
{
    match t.encode(text, special) {
        Ok(e) => Ok(e.get_ids().to_vec()),
        Err(e) => Err(e.to_string()),
    }
}

/// Why a text has no tokens.
#[derive(Debug, PartialEq, Eq)]
pub enum TokenizeError {
    /// The tokenizer is made of parts that texts cannot be handed to.
    Unsupported,
    /// The tokenizer failed, with this message.
    Failed(String),
}

/// The tokens of a text, or nothing where it has none.
pub open spec fn text_tokens(t: Tokenizer, text: Seq<char>) -> Option<Seq<u32>> {
    if tokenizable(t) {
        token_ids(t, text, false)
    } else {
        None
    }
}

/// The tokens of a text.
pub fn tokens_of(t: &Tokenizer, text: &str) -> (r: Result<Vec<u32>, TokenizeError>)
    ensures
        r == Err::<Vec<u32>, TokenizeError>(TokenizeError::Unsupported) <==> !tokenizable(*t),
        !merge_dropout(*t) ==> match r {
            Ok(ids) => text_tokens(*t, text@) == Some(ids@),
            Err(_) => text_tokens(*t, text@) is None,
        },
{
    if !is_tokenizable(t) {
        return Err(TokenizeError::Unsupported);
    }
    match encode(t, text, false) {
        Ok(ids) => Ok(ids),
        Err(e) => Err(TokenizeError::Failed(e)),
    }
}

// ── text of tokens ─────────────────────────────────────────────────────────

/// A token that is not passed over.
pub open spec fn shown(t: Tokenizer, id: u32, skip_special: bool) -> bool {
    match id_text(t, id) {
        None => false,
        Some(s) => !(skip_special && special_text(t, s)),
    }
}

/// Some token is not passed over.
pub open spec fn some_shown(t: Tokenizer, ids: Seq<u32>, skip_special: bool) -> bool {
    exists|i: int| 0 <= i < ids.len() && shown(t, #[trigger] ids[i], skip_special)
}

/// Tokens can be handed to these steps, `some` being whether there are any. A
/// byte-pair step needs one; taking characters off an end is refused, as it fails
/// on tokens that are too short, and so is a regular expression.
pub open spec fn chain_ok(s: Seq<DecoderWrapper>, some: bool) -> bool
    decreases s.len(),
{
    if s.len() == 0 {
        true
    } else {
        let rest = s.drop_first();
        match decode_step(s[0]) {
            DecodeStep::BytePair => some && chain_ok(rest, some),
            DecodeStep::ByteLevel | DecodeStep::Fuse => chain_ok(rest, true),
            DecodeStep::Ctc => chain_ok(rest, false),
            DecodeStep::Strip(stop) => stop == 0 && chain_ok(rest, some),
            DecodeStep::Replace(pattern) => pattern is Some && chain_ok(rest, some),
            DecodeStep::Other => chain_ok(rest, some),
        }
    }
}

/// These tokens can be handed to the tokenizer.
pub open spec fn decodable(t: Tokenizer, ids: Seq<u32>, skip_special: bool) -> bool {
    parts(decoder(t)) is Some && chain_ok(parts(decoder(t))->0, some_shown(t, ids, skip_special))
}

fn is_some_shown(t: &Tokenizer, ids: &[u32], skip_special: bool) -> (r: bool)
    ensures
        r == some_shown(*t, ids@, skip_special),
{
    let mut i: usize = 0;
    while i < ids.len()
        invariant
            i <= ids@.len(),
            forall|j: int| 0 <= j < i ==> !shown(*t, #[trigger] ids@[j], skip_special),
        decreases ids@.len() - i,
    {
        match id_text_of(t, ids[i]) {
            None => {},
            Some(s) => {
                if !(skip_special && is_special_text(t, s.as_str())) {
                    assert(shown(*t, ids@[i as int], skip_special));
                    return true;
                }
            },
        }
        i += 1;
    }
    false
}

fn is_chain_ok(s: &Vec<&DecoderWrapper>, some: bool) -> (r: bool)
    ensures
        r == chain_ok(referred(s@), some),
{
    let ghost all = referred(s@);
    let mut now = some;
    let mut i: usize = 0;
    assert(all.skip(0) =~= all);
    while i < s.len()
        invariant
            i <= s@.len(),
            all == referred(s@),
            chain_ok(all, some) == chain_ok(all.skip(i as int), now),
        decreases s@.len() - i,
    {
        assert(all.skip(i as int).drop_first() =~= all.skip(i + 1));
        assert(all.skip(i as int)[0] == *s@[i as int]);
        let step = decode_step_of(s[i]);
        let ok = match step {
            DecodeStep::BytePair => now,
            DecodeStep::Strip(stop) => stop == 0,
            DecodeStep::Replace(pattern) => pattern.is_some(),
            _ => true,
        };
        if !ok {
            return false;
        }
        match step {
            DecodeStep::ByteLevel | DecodeStep::Fuse => {
                now = true;
            },
            DecodeStep::Ctc => {
                now = false;
            },
            _ => {},
        }
        i += 1;
    }
    true
}

/// Whether these tokens can be handed to the tokenizer.
pub fn is_decodable(t: &Tokenizer, ids: &[u32], skip_special: bool) -> (r: bool)
    ensures
        r == decodable(*t, ids@, skip_special),
{
    match parts_of(decoder_of(t)) {
        Some(s) => {
            let some = is_some_shown(t, ids, skip_special);
            is_chain_ok(&s, some)
        },
        None => false,
    }
}

/// The text that `Tokenizer::decode` makes of tokens, or nothing where it fails.
pub uninterp spec fn decoded(t: Tokenizer, ids: Seq<u32>, skip_special: bool) -> Option<Seq<char>>;

/// Calls `Tokenizer::decode`. The outcome is a function of the tokenizer, the
/// tokens and the flag; which text tokens have is not spelled out.
#[verifier::external_body]
fn decode(t: &Tokenizer, ids: &[u32], skip_special: bool) -> (r: Option<String>)
    requires
        decodable(*t, ids@, skip_special),
    ensures
        match r {
            Some(s) => decoded(*t, ids@, skip_special) == Some(s@),
            None => decoded(*t, ids@, skip_special) is None,
        },
{
    t.decode(ids, skip_special).ok()
}

/// The text of tokens without the special ones, or nothing where they have none
/// or cannot be handed to the tokenizer.
pub open spec fn token_text(t: Tokenizer, ids: Seq<u32>) -> Option<Seq<char>> {
    if decodable(t, ids, true) {
        decoded(t, ids, true)
    } else {
        None
    }
}

/// The text of tokens without the special ones.
pub fn text_of(t: &Tokenizer, ids: &[u32]) -> (r: Option<String>)
    ensures
        match r {
            Some(s) => token_text(*t, ids@) == Some(s@),
            None => token_text(*t, ids@) is None,
        },
{
    if is_decodable(t, ids, true) {
        decode(t, ids, true)
    } else {
        None
    }
}

// ── what these conditions are for ──────────────────────────────────────────

/// A text that can be handed over has the tokens that the tokenizer makes of it,
/// without special ones; tokens that can be handed over have the text that it
/// makes of them, without the special ones.
pub proof fn law_handed_over_whole(t: Tokenizer, text: Seq<char>, ids: Seq<u32>)
    ensures
        tokenizable(t) ==> text_tokens(t, text) == token_ids(t, text, false),
        !tokenizable(t) ==> text_tokens(t, text) is None,
        decodable(t, ids, true) ==> token_text(t, ids) == decoded(t, ids, true),
        !decodable(t, ids, true) ==> token_text(t, ids) is None,
{
}

/// A part that is a sequence of simple parts is those parts, in their order.
pub proof fn law_sequence_is_its_members<P: Part>(p: P, m: Seq<P>, depth: nat)
    requires
        depth > 0,
        p.members() == Some(m),
        forall|i: int| 0 <= i < m.len() ==> (#[trigger] m[i]).members() is None,
    ensures
        leaves(p, depth) == Some(m),
{
    lemma_simple_members(m, (depth - 1) as nat);
}

proof fn lemma_simple_members<P: Part>(m: Seq<P>, depth: nat)
    requires
        forall|i: int| 0 <= i < m.len() ==> (#[trigger] m[i]).members() is None,
    ensures
        all_leaves(m, depth) == Some(m),
    decreases m.len(),
{
    if m.len() == 0 {
        assert(m =~= Seq::<P>::empty());
    } else {
        assert forall|i: int| 0 <= i < m.drop_last().len() implies (
        #[trigger] m.drop_last()[i]).members() is None by {
            assert(m.drop_last()[i] == m[i]);
        }
        lemma_simple_members(m.drop_last(), depth);
        assert(m[m.len() - 1].members() is None);
        assert(leaves(m.last(), depth) == Some(seq![m.last()]));
        assert(all_leaves(m.drop_last(), depth) == Some(m.drop_last()));
        assert(all_leaves(m, depth) == Some(m.drop_last() + seq![m.last()]));
        assert(m.drop_last() + seq![m.last()] =~= m);
    }
}

/// Of a tokenizer with one simple part of each kind: which settings keep texts
/// from it, and that no other does.
pub proof fn law_which_tokenizers_take_texts(
    t: Tokenizer,
    p: PreTokenizerWrapper,
    n: NormalizerWrapper,
    q: PostProcessorWrapper,
)
    requires
        pre_tokenizer(t) == Some(p),
        pre_members(p) is None,
        normalizer(t) == Some(n),
        norm_members(n) is None,
        post_processor(t) == Some(q),
        post_members(q) is None,
    ensures
        tokenizable(t) <==> {
            &&& !(truncation(t) is Some && (truncation(t)->0).0 > 0 && (truncation(t)->0).1 >= (
            truncation(t)->0).0)
            &&& !(padding(t) is Some && (padding(t)->0).0 is Some && (padding(t)->0).0->0
                > usize::MAX / 256)
            &&& !(padding(t) is Some && (padding(t)->0).1 is Some && (padding(t)->0).1->0
                > usize::MAX / 256)
            &&& pre_step(p) != PreStep::Split
            &&& pre_step(p) != PreStep::FixedLength(0)
            &&& norm_step(n) != NormStep::Precompiled
            &&& norm_step(n) != NormStep::Replace(None)
            &&& norm_step(n) != NormStep::Replace(Some(0))
            &&& norm_step(n) != NormStep::Prepend(0)
            &&& !(template(q) is Some && template(q)->0.contains(TemplatePiece::Second))
            &&& !(exists|a: (bool, bool), b: (bool, bool)|
                added_flags(t).contains(a) && added_flags(t).contains(b) && #[trigger] a.0
                    && #[trigger] b.1)
            &&& added_cuts(t, "\u{1}\u{1}"@) == seq![("\u{1}\u{1}"@, false)]
        },
{
    let pre = parts(pre_tokenizer(t))->0;
    let norm = parts(normalizer(t))->0;
    let post = parts(post_processor(t))->0;
    assert(pre == seq![p] && norm == seq![n] && post == seq![q]);
    assert(all_pre_ok(pre) <==> pre_ok(pre_step(p))) by {
        assert(pre[0] == p);
    }
    assert(all_norm_ok(norm) <==> norm_ok(norm_step(n))) by {
        assert(norm[0] == n);
    }
    assert(post_ok(post) <==> template_ok(template(q))) by {
        assert(post[0] == q);
    }
    if template(q) is Some {
        let s = template(q)->0;
        if s.contains(TemplatePiece::Second) {
            let i = choose|i: int| 0 <= i < s.len() && s[i] == TemplatePiece::Second;
            assert(s[i] == TemplatePiece::Second);
        }
    }
    let flags = added_flags(t);
    if !added_ok(flags) {
        let a = choose|f: (bool, bool)| #[trigger] flags.contains(f) && f.0;
        let b = choose|f: (bool, bool)| #[trigger] flags.contains(f) && f.1;
        assert(flags.contains(a) && flags.contains(b) && a.0 && b.1);
    }
}

/// A tokenizer without parts takes any text that its added tokens do not keep
/// from it, and any tokens.
pub proof fn law_bare_tokenizers_are_used(t: Tokenizer, ids: Seq<u32>, skip_special: bool)
    ensures
        decoder(t) is None ==> decodable(t, ids, skip_special),
        truncation(t) is None && padding(t) is None && pre_tokenizer(t) is None && normalizer(
            t,
        ) is None && post_processor(t) is None && added_flags(t) == Set::<(bool, bool)>::empty()
            && added_cuts(t, "\u{1}\u{1}"@) == seq![("\u{1}\u{1}"@, false)] ==> tokenizable(t),
{
}

proof fn lemma_chain_grows(s: Seq<DecoderWrapper>)
    requires
        chain_ok(s, false),
    ensures
        chain_ok(s, true),
    decreases s.len(),
{
    if s.len() > 0 {
        match decode_step(s[0]) {
            DecodeStep::BytePair => {},
            DecodeStep::ByteLevel | DecodeStep::Fuse => {},
            DecodeStep::Ctc => {},
            _ => {
                lemma_chain_grows(s.drop_first());
            },
        }
    }
}

/// Tokens that can be handed over can be handed over with more behind them.
pub proof fn law_longer_answers_decode(
    t: Tokenizer,
    ids: Seq<u32>,
    more: Seq<u32>,
    skip_special: bool,
)
    requires
        decodable(t, ids, skip_special),
    ensures
        decodable(t, ids + more, skip_special),
{
    let all = ids + more;
    let s = parts(decoder(t))->0;
    if some_shown(t, ids, skip_special) {
        let i = choose|i: int| 0 <= i < ids.len() && shown(t, #[trigger] ids[i], skip_special);
        assert(shown(t, all[i], skip_special));
    } else {
        lemma_chain_grows(s);
    }
}

/// Where a token has a text and is no special one, all tokens can be handed over
/// together with it, unless a step takes characters off an end, looks for a
/// regular expression, or puts byte pairs together behind one that may leave
/// none.
pub proof fn law_which_decoders_take_tokens(
    t: Tokenizer,
    s: Seq<DecoderWrapper>,
    ids: Seq<u32>,
    i: int,
)
    requires
        parts(decoder(t)) == Some(s),
        0 <= i < ids.len(),
        id_text(t, ids[i]) is Some,
        !special_text(t, id_text(t, ids[i])->0),
        forall|j: int|
            0 <= j < s.len() ==> {
                let step = decode_step(#[trigger] s[j]);
                &&& step is Strip ==> step == DecodeStep::Strip(0)
                &&& step != DecodeStep::Replace(None)
                &&& step != DecodeStep::Ctc
            },
    ensures
        decodable(t, ids, true),
{
    assert(shown(t, ids[i], true));
    lemma_chain_takes(s);
}

proof fn lemma_chain_takes(s: Seq<DecoderWrapper>)
    requires
        forall|j: int|
            0 <= j < s.len() ==> {
                let step = decode_step(#[trigger] s[j]);
                &&& step is Strip ==> step == DecodeStep::Strip(0)
                &&& step != DecodeStep::Replace(None)
                &&& step != DecodeStep::Ctc
            },
    ensures
        chain_ok(s, true),
    decreases s.len(),
{
    if s.len() > 0 {
        let rest = s.drop_first();
        assert forall|j: int| 0 <= j < rest.len() implies {
            let step = decode_step(#[trigger] rest[j]);
            &&& step is Strip ==> step == DecodeStep::Strip(0)
            &&& step != DecodeStep::Replace(None)
            &&& step != DecodeStep::Ctc
        } by {
            assert(rest[j] == s[j + 1]);
        }
        lemma_chain_takes(rest);
        let step = decode_step(s[0]);
        assert(step is Strip ==> step == DecodeStep::Strip(0));
    }
}

/// Sequences in sequences are taken apart down to 128 of them, and what they are
/// made of stands in its order.
pub proof fn law_sequences_are_taken_apart<P: Part>(
    p: P,
    a: Seq<P>,
    b: Seq<P>,
    x: Seq<P>,
    y: Seq<P>,
)
    requires
        p.members() == Some(a + b),
        all_leaves(a, 127) == Some(x),
        all_leaves(b, 127) == Some(y),
    ensures
        parts(Some(p)) == Some(x + y),
        parts(None::<P>) == Some(Seq::<P>::empty()),
{
    lemma_leaves_join(a, b, 127);
    assert(leaves(p, 128) == all_leaves(a + b, 127));
}

proof fn lemma_leaves_join<P: Part>(a: Seq<P>, b: Seq<P>, depth: nat)
    requires
        all_leaves(a, depth) is Some,
        all_leaves(b, depth) is Some,
    ensures
        all_leaves(a + b, depth) == Some(all_leaves(a, depth)->0 + all_leaves(b, depth)->0),
    decreases b.len(),
{
    let x = all_leaves(a, depth)->0;
    let y = all_leaves(b, depth)->0;
    if b.len() == 0 {
        assert(a + b =~= a);
        assert(x + y =~= x);
    } else {
        let less = b.drop_last();
        assert(all_leaves(less, depth) is Some && leaves(b.last(), depth) is Some);
        lemma_leaves_join(a, less, depth);
        assert((a + b).drop_last() =~= a + less);
        assert((a + b).last() == b.last());
        let z = all_leaves(less, depth)->0;
        let last = leaves(b.last(), depth)->0;
        assert(x + (z + last) =~= (x + z) + last);
    }
}

} // verus!
