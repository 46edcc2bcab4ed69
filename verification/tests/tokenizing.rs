use phi3_mixed_quant::conversation::Conversation;
use phi3_mixed_quant::generation::answer_of;
use phi3_mixed_quant::perplexity::{plan_corpus, CorpusError, EvalPlan, PlanError};
use phi3_mixed_quant::repl::Session;
use phi3_mixed_quant::tokens::{
    is_decodable, is_tokenizable, text_of, tokens_of, TokenizeError,
};
use tokenizers::normalizers::{Lowercase, Sequence};
use tokenizers::{NormalizerWrapper, Tokenizer};

struct Parts {
    truncation: &'static str,
    padding: &'static str,
    added: &'static str,
    normalizer: &'static str,
    pre_tokenizer: &'static str,
    post_processor: &'static str,
    decoder: &'static str,
}

const PLAIN: Parts = Parts {
    truncation: "null",
    padding: "null",
    added: "[]",
    normalizer: "null",
    pre_tokenizer: r#"{"type": "Whitespace"}"#,
    post_processor: "null",
    decoder: "null",
};

fn built(p: Parts) -> Tokenizer {
    let json = format!(
        r#"{{"version": "1.0", "truncation": {}, "padding": {}, "added_tokens": {},
            "normalizer": {}, "pre_tokenizer": {}, "post_processor": {}, "decoder": {},
            "model": {{"type": "WordLevel", "unk_token": "[UNK]",
                "vocab": {{"[UNK]": 0, "one": 1, "two": 2, "three": 3}}}}}}"#,
        p.truncation,
        p.padding,
        p.added,
        p.normalizer,
        p.pre_tokenizer,
        p.post_processor,
        p.decoder
    );
    Tokenizer::from_bytes(json).unwrap()
}

fn cut(stride: usize) -> Tokenizer {
    let t = match stride {
        0 => r#"{"max_length": 2, "strategy": "LongestFirst", "stride": 0}"#,
        1 => r#"{"max_length": 2, "strategy": "LongestFirst", "stride": 1}"#,
        _ => r#"{"max_length": 2, "strategy": "LongestFirst", "stride": 2}"#,
    };
    built(Parts { truncation: t, ..PLAIN })
}

#[test]
fn texts_have_tokens() {
    let t = built(PLAIN);
    assert!(is_tokenizable(&t));
    assert_eq!(tokens_of(&t, "two one four"), Ok(vec![2, 1, 0]));
    assert_eq!(tokens_of(&t, ""), Ok(vec![]));
    assert_eq!(text_of(&t, &[2, 1]).unwrap(), "two one");
    assert_eq!(text_of(&t, &[]).unwrap(), "");
}

#[test]
fn encodings_are_cut_only_where_that_moves_on() {
    assert_eq!(tokens_of(&cut(0), "one two three"), Ok(vec![1, 2]));
    assert_eq!(tokens_of(&cut(1), "one two three"), Ok(vec![1, 2]));
    assert_eq!(tokens_of(&cut(2), "one two three"), Err(TokenizeError::Unsupported));
    let none = built(Parts {
        truncation: r#"{"max_length": 0, "strategy": "LongestFirst", "stride": 5}"#,
        ..PLAIN
    });
    assert_eq!(tokens_of(&none, "one two"), Ok(vec![]));
}

#[test]
fn encodings_are_filled_up_to_what_can_be_held() {
    let four = built(Parts {
        padding: r#"{"strategy": {"Fixed": 4}, "direction": "Right", "pad_to_multiple_of": null,
            "pad_id": 3, "pad_type_id": 0, "pad_token": "three"}"#,
        ..PLAIN
    });
    assert_eq!(tokens_of(&four, "one"), Ok(vec![1, 3, 3, 3]));
    let longest = built(Parts {
        padding: r#"{"strategy": "BatchLongest", "direction": "Right", "pad_to_multiple_of": 2,
            "pad_id": 3, "pad_type_id": 0, "pad_token": "three"}"#,
        ..PLAIN
    });
    assert_eq!(tokens_of(&longest, "one"), Ok(vec![1, 3]));
    let huge = built(Parts {
        padding: r#"{"strategy": {"Fixed": 9000000000000000000}, "direction": "Right",
            "pad_to_multiple_of": null, "pad_id": 3, "pad_type_id": 0, "pad_token": "three"}"#,
        ..PLAIN
    });
    assert_eq!(tokens_of(&huge, "one"), Err(TokenizeError::Unsupported));
}

#[test]
fn words_need_a_length() {
    let three = built(Parts {
        pre_tokenizer: r#"{"type": "FixedLength", "length": 3}"#,
        ..PLAIN
    });
    assert_eq!(tokens_of(&three, "onetwo"), Ok(vec![1, 2]));
    let none = built(Parts {
        pre_tokenizer: r#"{"type": "Sequence", "pretokenizers": [
            {"type": "Whitespace"}, {"type": "FixedLength", "length": 0}]}"#,
        ..PLAIN
    });
    assert_eq!(tokens_of(&none, "one"), Err(TokenizeError::Unsupported));
}

#[test]
fn regular_expressions_are_refused() {
    let text = built(Parts {
        pre_tokenizer: r#"{"type": "CharDelimiterSplit", "delimiter": "-"}"#,
        ..PLAIN
    });
    assert_eq!(tokens_of(&text, "one-two"), Ok(vec![1, 2]));
    let split = built(Parts {
        pre_tokenizer: r#"{"type": "Split", "pattern": {"Regex": "-+"}, "behavior": "Removed",
            "invert": false}"#,
        ..PLAIN
    });
    assert_eq!(tokens_of(&split, "one-two"), Err(TokenizeError::Unsupported));
    let literal = built(Parts {
        normalizer: r#"{"type": "Replace", "pattern": {"String": "1"}, "content": "one"}"#,
        ..PLAIN
    });
    assert_eq!(tokens_of(&literal, "1 two"), Ok(vec![1, 2]));
    let replaced = built(Parts {
        normalizer: r#"{"type": "Replace", "pattern": {"Regex": "1"}, "content": "one"}"#,
        ..PLAIN
    });
    assert!(!is_tokenizable(&replaced));
    let empty = built(Parts {
        normalizer: r#"{"type": "Replace", "pattern": {"String": ""}, "content": "one"}"#,
        ..PLAIN
    });
    assert!(!is_tokenizable(&empty));
}

#[test]
fn what_is_put_in_front_has_characters() {
    let some = built(Parts {
        normalizer: r#"{"type": "Sequence", "normalizers": [
            {"type": "Prepend", "prepend": "one "}, {"type": "Lowercase"}]}"#,
        ..PLAIN
    });
    assert_eq!(tokens_of(&some, "TWO"), Ok(vec![1, 2]));
    let none = built(Parts {
        normalizer: r#"{"type": "Sequence", "normalizers": [
            {"type": "Prepend", "prepend": ""}, {"type": "Lowercase"}]}"#,
        ..PLAIN
    });
    assert_eq!(tokens_of(&none, "ab"), Err(TokenizeError::Unsupported));
}

#[test]
fn parts_may_be_nested() {
    let nested = built(Parts {
        normalizer: r#"{"type": "Sequence", "normalizers": [{"type": "Sequence", "normalizers": [
            {"type": "Prepend", "prepend": "one "}]}, {"type": "Lowercase"}]}"#,
        pre_tokenizer: r#"{"type": "Sequence", "pretokenizers": [{"type": "Sequence",
            "pretokenizers": [{"type": "Whitespace"}]}, {"type": "FixedLength", "length": 3}]}"#,
        decoder: r#"{"type": "Sequence", "decoders": [{"type": "Sequence", "decoders": [
            {"type": "Strip", "content": "o", "start": 0, "stop": 1}]}]}"#,
        ..PLAIN
    });
    assert_eq!(tokens_of(&nested, "TWO"), Ok(vec![1, 2]));
    assert!(text_of(&nested, &[1]).is_none());
}

#[test]
fn parts_nested_too_deep_are_refused() {
    let mut deep: NormalizerWrapper = Lowercase.into();
    for _ in 0..128 {
        deep = Sequence::new(vec![deep]).into();
    }
    let mut t = built(PLAIN);
    t.with_normalizer(Some(deep.clone()));
    assert_eq!(tokens_of(&t, "ONE"), Ok(vec![1]));
    t.with_normalizer(Some(Sequence::new(vec![deep])));
    assert_eq!(tokens_of(&t, "ONE"), Err(TokenizeError::Unsupported));
}

#[test]
fn templates_are_for_one_text() {
    let first = built(Parts {
        post_processor: r#"{"type": "TemplateProcessing",
            "single": [{"SpecialToken": {"id": "[UNK]", "type_id": 0}}, {"Sequence": {"id": "A", "type_id": 0}}],
            "pair": [{"Sequence": {"id": "A", "type_id": 0}}, {"Sequence": {"id": "B", "type_id": 1}}],
            "special_tokens": {"[UNK]": {"id": "[UNK]", "ids": [0], "tokens": ["[UNK]"]}}}"#,
        ..PLAIN
    });
    assert_eq!(tokens_of(&first, "one two"), Ok(vec![1, 2]));
    let second = built(Parts {
        post_processor: r#"{"type": "TemplateProcessing",
            "single": [{"Sequence": {"id": "B", "type_id": 0}}],
            "pair": [{"Sequence": {"id": "A", "type_id": 0}}],
            "special_tokens": {}}"#,
        ..PLAIN
    });
    assert_eq!(tokens_of(&second, "one two"), Err(TokenizeError::Unsupported));
}

#[test]
fn added_tokens_take_white_space_on_one_side() {
    let right = built(Parts {
        added: r#"[{"id": 4, "content": "<e>", "single_word": false, "lstrip": false,
            "rstrip": true, "normalized": false, "special": true}]"#,
        ..PLAIN
    });
    assert_eq!(tokens_of(&right, "one<e>  two"), Ok(vec![1, 4, 2]));
    assert_eq!(text_of(&right, &[1, 4, 2]).unwrap(), "one two");
    let both = built(Parts {
        added: r#"[{"id": 4, "content": "A", "single_word": false, "lstrip": false,
            "rstrip": true, "normalized": false, "special": true},
            {"id": 5, "content": " ", "single_word": false, "lstrip": true,
            "rstrip": false, "normalized": false, "special": true}]"#,
        ..PLAIN
    });
    assert_eq!(tokens_of(&both, "A   "), Err(TokenizeError::Unsupported));
}

const STRIP: &str = r#"{"type": "Strip", "strip_left": true, "strip_right": true}"#;

#[test]
fn added_tokens_are_not_looked_for_as_nothing() {
    let vanishing = built(Parts {
        added: r#"[{"id": 4, "content": "\t", "single_word": false, "lstrip": false,
            "rstrip": false, "normalized": true, "special": false}]"#,
        normalizer: STRIP,
        ..PLAIN
    });
    assert_eq!(tokens_of(&vanishing, "one"), Err(TokenizeError::Unsupported));
    // The first of two equal tokens is looked for, the second is remembered.
    let twice = built(Parts {
        added: r#"[{"id": 4, "content": "\t", "single_word": false, "lstrip": false,
            "rstrip": false, "normalized": true, "special": true},
            {"id": 4, "content": "\t", "single_word": false, "lstrip": false,
            "rstrip": false, "normalized": false, "special": true}]"#,
        normalizer: STRIP,
        ..PLAIN
    });
    assert_eq!(tokens_of(&twice, "é"), Err(TokenizeError::Unsupported));
    let kept = built(Parts {
        added: r#"[{"id": 4, "content": "<e>", "single_word": false, "lstrip": false,
            "rstrip": false, "normalized": true, "special": true}]"#,
        normalizer: STRIP,
        ..PLAIN
    });
    assert_eq!(tokens_of(&kept, " one<e> "), Ok(vec![1, 4]));
}

#[test]
fn tokens_added_under_another_normalizer_count() {
    let mut t = built(Parts {
        added: r#"[{"id": 4, "content": "\t", "single_word": false, "lstrip": false,
            "rstrip": false, "normalized": true, "special": false}]"#,
        normalizer: STRIP,
        ..PLAIN
    });
    t.with_normalizer(None::<NormalizerWrapper>);
    assert_eq!(tokens_of(&t, "é"), Err(TokenizeError::Unsupported));
    t.add_tokens(&[]);
    assert_eq!(tokens_of(&t, "é"), Ok(vec![0]));
}

#[test]
fn decoders_that_fail_on_short_tokens_are_refused() {
    let start = built(Parts {
        decoder: r#"{"type": "Sequence", "decoders": [
            {"type": "Replace", "pattern": {"String": "o"}, "content": "0"},
            {"type": "ByteFallback"}, {"type": "Fuse"},
            {"type": "Strip", "content": "t", "start": 1, "stop": 0}]}"#,
        ..PLAIN
    });
    assert_eq!(text_of(&start, &[2, 1]).unwrap(), "w00ne");
    let stop = built(Parts {
        decoder: r#"{"type": "Strip", "content": "t", "start": 1, "stop": 1}"#,
        ..PLAIN
    });
    assert!(!is_decodable(&stop, &[1], true));
    assert!(text_of(&stop, &[1]).is_none());
    assert_eq!(answer_of(&stop, &[1]), "[DECODE_ERROR]");
}

#[test]
fn byte_pair_decoders_need_a_token() {
    let t = built(Parts {
        added: r#"[{"id": 4, "content": "<e>", "single_word": false, "lstrip": false,
            "rstrip": false, "normalized": false, "special": true}]"#,
        decoder: r#"{"type": "BPEDecoder", "suffix": "e"}"#,
        ..PLAIN
    });
    assert_eq!(text_of(&t, &[1, 2]).unwrap(), "on two");
    assert!(text_of(&t, &[]).is_none());
    // Unknown tokens and special ones are passed over.
    assert!(text_of(&t, &[99, 4]).is_none());
    assert!(is_decodable(&t, &[99, 4], false));
    assert_eq!(answer_of(&t, &[]), "[DECODE_ERROR]");
}

#[test]
fn chats_need_a_tokenizer_that_can_be_used() {
    let t = cut(2);
    let mut c = Conversation::new("one".to_string(), 1);
    c.add_user_message("one two three".to_string());
    assert_eq!(c.apply_sliding_window(&t), Err(TokenizeError::Unsupported));
    assert_eq!(c.messages.len(), 2);
    assert_eq!(Session::new().begin_turn("one", &t).unwrap_err(), TokenizeError::Unsupported);
}

#[test]
fn turns_say_what_was_cut() {
    let t = built(PLAIN);
    let mut s = Session::new();
    assert!(s.begin_turn("one", &t).unwrap().trim.is_none());
    s.conversation.max_history_tokens = 20;
    s.record_answer("two two", 9);
    let trim = s.begin_turn(&"three ".repeat(12), &t).unwrap().trim.unwrap();
    assert_eq!((trim.kept, trim.removed), (2, 2));
}

#[test]
fn corpora_are_planned() {
    let t = built(PLAIN);
    assert_eq!(
        plan_corpus("one two three", &t, Some("2"), None, None, 4096),
        Ok((vec![1, 2, 3], EvalPlan { ctx: 2, stride: 2, max_chunks: None }))
    );
    assert_eq!(
        plan_corpus("one", &t, None, None, None, 4096),
        Err(CorpusError::Plan(PlanError::CorpusTooShort(1)))
    );
    assert_eq!(
        plan_corpus("one", &cut(2), None, None, None, 4096),
        Err(CorpusError::Tokenize(TokenizeError::Unsupported))
    );
}
