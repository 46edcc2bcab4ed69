use phi3_mixed_quant::conversation::{user_turn_prompt, Conversation, MessageRole, Trim, Window};
use phi3_mixed_quant::generation::{
    answer_of, fresh_text, squeeze_logits, GenConfig, Generation, LogitsShape, Phase, Request,
};
use phi3_mixed_quant::repl::{
    read_command, sampling_for_query, Command, SamplingParams, Session, MAX_HISTORY_TOKENS,
    MAX_NEW_TOKENS,
};
use phi3_mixed_quant::tokens::tokenizes_alike;
use tokenizers::Tokenizer;

// One token per word, one per run of punctuation.
fn words() -> Tokenizer {
    let json = r#"{
        "version": "1.0", "truncation": null, "padding": null, "added_tokens": [],
        "normalizer": null, "pre_tokenizer": {"type": "Whitespace"},
        "post_processor": null, "decoder": null,
        "model": {
            "type": "WordLevel",
            "vocab": {"[UNK]": 0, "one": 1, "two": 2, "three": 3, "four": 4, "five": 5},
            "unk_token": "[UNK]"
        }
    }"#;
    Tokenizer::from_bytes(json).unwrap()
}

// Knows one word only and has no stand-in for others.
fn strict() -> Tokenizer {
    let json = r#"{
        "version": "1.0", "truncation": null, "padding": null, "added_tokens": [],
        "normalizer": null, "pre_tokenizer": {"type": "Whitespace"},
        "post_processor": null, "decoder": null,
        "model": {"type": "WordLevel", "vocab": {"one": 1}, "unk_token": "[UNK]"}
    }"#;
    Tokenizer::from_bytes(json).unwrap()
}

fn random() -> Tokenizer {
    let json = r#"{
        "version": "1.0", "truncation": null, "padding": null, "added_tokens": [],
        "normalizer": null, "pre_tokenizer": null, "post_processor": null, "decoder": null,
        "model": {"type": "BPE", "dropout": 0.5, "unk_token": null, "continuing_subword_prefix": null,
            "end_of_word_suffix": null, "fuse_unk": false, "vocab": {"a": 0, "b": 1, "ab": 2},
            "merges": ["a b"]}
    }"#;
    Tokenizer::from_bytes(json).unwrap()
}

fn contents(c: &Conversation) -> Vec<&str> {
    c.messages.iter().map(|m| m.content.as_str()).collect()
}

#[test]
fn prompts_follow_the_chat_format() {
    let mut c = Conversation::new("S".to_string(), 100);
    assert_eq!(c.messages[0].role, MessageRole::System);
    c.add_user_message("hi".to_string());
    c.add_assistant_message("yo".to_string());
    assert_eq!(
        c.format_prompt(),
        "<|system|>\nS<|end|>\n<|user|>\nhi<|end|>\n<|assistant|>\nyo<|end|>\n<|assistant|>\n"
    );
    assert_eq!(user_turn_prompt("q"), "<|user|>\nq<|end|>\n<|assistant|>\n");
}

#[test]
fn later_turns_continue_the_prompt() {
    let mut c = Conversation::new("S".to_string(), 100);
    let mut all = String::new();
    c.add_user_message("a".to_string());
    all.push_str(&c.format_prompt());
    c.add_assistant_message("b".to_string());
    all.push_str("b<|end|>\n");
    c.add_user_message("c".to_string());
    all.push_str(&user_turn_prompt("c"));
    assert_eq!(c.format_prompt(), all);
}

#[test]
fn history_that_fits_stays() {
    let t = words();
    assert!(tokenizes_alike(&t));
    let mut c = Conversation::new("one two".to_string(), 1000);
    c.add_user_message("three".to_string());
    assert_eq!(c.apply_sliding_window(&t), Ok(None));
    assert_eq!(contents(&c), vec!["one two", "three"]);
}

#[test]
fn oldest_messages_leave_first() {
    let t = words();
    let mut c = Conversation::new("one two".to_string(), 6);
    for m in ["one one one", "two two", "three", "four"] {
        c.add_user_message(m.to_string());
    }
    assert_eq!(c.apply_sliding_window(&t), Ok(Some(Trim { kept: 4, removed: 1 })));
    assert_eq!(contents(&c), vec!["one two", "two two", "three", "four"]);
    assert_eq!(c.max_history_tokens, 6);
}

#[test]
fn window_stops_at_the_first_that_does_not_fit() {
    let t = words();
    let mut c = Conversation::new("one two".to_string(), 5);
    for m in ["one", "two two two", "three"] {
        c.add_user_message(m.to_string());
    }
    assert_eq!(c.apply_sliding_window(&t), Ok(Some(Trim { kept: 2, removed: 2 })));
    assert_eq!(contents(&c), vec!["one two", "three"]);
    let mut none = Conversation::new("one two three".to_string(), 2);
    none.add_user_message("".to_string());
    assert_eq!(none.apply_sliding_window(&t), Ok(Some(Trim { kept: 1, removed: 1 })));
}

#[test]
fn untokenizable_history_is_left_alone() {
    let mut c = Conversation::new("one".to_string(), 1);
    c.add_user_message("unknown".to_string());
    assert!(c.apply_sliding_window(&strict()).is_err());
    assert_eq!(contents(&c), vec!["one", "unknown"]);
}

#[test]
fn random_tokenizers_are_known() {
    assert!(!tokenizes_alike(&random()));
    assert!(tokenizes_alike(&strict()));
}

#[test]
fn windows_settle() {
    let t = words();
    let mut c = Conversation::new("one".to_string(), 9);
    for _ in 0..3 {
        c.add_user_message("two three".to_string());
        c.add_assistant_message("four".to_string());
    }
    assert!(c.apply_sliding_window(&t).unwrap().is_some());
    let once: Vec<String> = c.messages.iter().map(|m| m.content.clone()).collect();
    c.apply_sliding_window(&t).unwrap();
    let twice: Vec<String> = c.messages.iter().map(|m| m.content.clone()).collect();
    assert_eq!(once, twice);
}

#[test]
fn windows_take_what_fits() {
    let mut w = Window::new(2, 6);
    assert!(w.take(3));
    assert!(!w.take(2));
    assert!(w.take(1));
    assert!(w.take(0));
    assert!(!w.take(usize::MAX));
    assert_eq!((w.current, w.kept), (6, 3));
}

fn cfg(max_new_tokens: usize, repeat_penalty: f32) -> GenConfig {
    GenConfig { max_new_tokens, repeat_penalty: repeat_penalty.to_bits(), repeat_last_n: 2 }
}

#[test]
fn answers_are_generated_token_by_token() {
    let t = words();
    let mut g = Generation::new(cfg(10, 1.3), 7, 3);
    assert_eq!(g.request(), Request::Prompt { position: 7 });
    assert_eq!(g.sampled(1, &[9], &t), None);
    assert_eq!(
        g.request(),
        Request::Token { token: 1, at: 11, penalized_from: Some(0) }
    );
    assert_eq!(g.sampled(2, &[9], &t), None);
    assert_eq!(g.sampled(3, &[9], &t), None);
    assert_eq!(
        g.request(),
        Request::Token { token: 3, at: 13, penalized_from: Some(1) }
    );
    assert_eq!(g.sampled(4, &[9], &t), Some("one two three four".to_string()));
    assert_eq!(g.sampled(5, &[9], &t), Some(" five".to_string()));
    assert_eq!((g.printed_chars, g.response.as_str()), (23, "one two three four five"));
    assert_eq!(g.sampled(9, &[9], &t), None);
    assert_eq!(g.phase, Phase::Done);
    assert_eq!(g.request(), Request::Nothing);
    assert_eq!(g.generated, vec![1, 2, 3, 4, 5]);
    assert_eq!(g.stats().token_count, 5);
    assert_eq!(g.position, 15);
    assert_eq!(g.sampled(1, &[9], &t), None);
    assert_eq!(g.generated.len(), 5);
}

#[test]
fn first_token_never_ends_an_answer() {
    let t = words();
    let mut g = Generation::new(cfg(2, 1.0), 0, 1);
    g.sampled(9, &[9], &t);
    assert_eq!(g.phase, Phase::Decoding);
    assert_eq!(g.request(), Request::Token { token: 9, at: 2, penalized_from: None });
}

#[test]
fn answers_are_limited() {
    let t = words();
    let mut g = Generation::new(cfg(2, 1.0), 0, 1);
    for token in [1, 2, 3] {
        assert_ne!(g.phase, Phase::Done);
        g.sampled(token, &[], &t);
    }
    assert_eq!(g.phase, Phase::Done);
    assert_eq!(g.stats().token_count, 2);
    let mut none = Generation::new(cfg(0, 1.0), 0, 1);
    none.sampled(1, &[], &t);
    assert_eq!((none.phase, none.position), (Phase::Done, 2));
}

#[test]
fn answers_go_on_from_earlier_tokens() {
    let t = words();
    let mut g =
        Generation::resume(cfg(2, 1.005), 20, 3, vec![1, 2, 3], "one two three".to_string(), 7);
    assert_eq!(g.request(), Request::Prompt { position: 20 });
    assert_eq!(g.sampled(4, &[9], &t), None);
    assert_eq!(g.generated, vec![1, 2, 3, 4]);
    assert_eq!(
        g.request(),
        Request::Token { token: 4, at: 24, penalized_from: Some(2) }
    );
    // The text is streamed from what had been printed on.
    assert_eq!(g.sampled(5, &[9], &t), Some(" three four five".to_string()));
    assert_eq!((g.response.as_str(), g.printed_chars), ("one two three four five", 23));
    assert_eq!(g.sampled(6, &[9], &t).is_some(), answer_of(&t, &[1, 2, 3, 4, 5, 6]).len() > 23);
    assert_eq!((g.phase, g.position, g.stats().token_count), (Phase::Done, 26, 2));
}

#[test]
fn only_new_text_is_printed() {
    assert_eq!(fresh_text("héllo", 2), Some("llo".to_string()));
    assert_eq!(fresh_text("héllo", 5), None);
    assert_eq!(fresh_text("hé", 5), None);
    let t = words();
    assert_eq!(answer_of(&t, &[1, 77, 2]), "one two");
    let mut g = Generation::new(cfg(5, 1.0), 0, 1);
    assert_eq!(g.stream("abc".to_string()), Some("abc".to_string()));
    assert_eq!(g.stream("ab".to_string()), None);
    assert_eq!(g.response, "ab");
    assert_eq!(g.stream("abcd".to_string()), Some("d".to_string()));
}

#[test]
fn logits_are_one_row() {
    assert_eq!(squeeze_logits(&[5]), LogitsShape::Row);
    assert_eq!(squeeze_logits(&[1, 5]), LogitsShape::OnlyRow);
    assert_eq!(squeeze_logits(&[2, 5]), LogitsShape::Unsupported);
    assert_eq!(squeeze_logits(&[1, 1, 5]), LogitsShape::Unsupported);
    assert_eq!(squeeze_logits(&[]), LogitsShape::Unsupported);
}

#[test]
fn commands_are_read() {
    assert!(matches!(read_command("  ExIt \n"), Command::Exit));
    assert!(matches!(read_command("reset"), Command::Reset));
    assert!(matches!(read_command(" \t\n"), Command::Empty));
    assert!(matches!(read_command(" hi there \n"), Command::Query(q) if q == "hi there"));
    assert!(matches!(read_command("exit now"), Command::Query(_)));
}

fn sampling(top_k: usize, top_p: f64, temperature: f64) -> SamplingParams {
    SamplingParams { top_k, top_p: top_p.to_bits(), temperature: temperature.to_bits() }
}

#[test]
fn code_questions_are_sampled_closer() {
    let (chat, chat_cfg) = sampling_for_query("hello");
    assert_eq!(chat, sampling(50, 0.9, 0.6));
    assert_eq!((chat_cfg.repeat_penalty, chat_cfg.repeat_last_n), (1.35f32.to_bits(), 256));
    assert_eq!(chat_cfg.max_new_tokens, MAX_NEW_TOKENS);
    for q in ["some code", "an example", "```", "a function", "for loop", "similar"] {
        let (s, c) = sampling_for_query(q);
        assert_eq!(s, sampling(25, 0.95, 0.35));
        assert_eq!((c.repeat_penalty, c.repeat_last_n), (1.3f32.to_bits(), 128));
    }
    assert_eq!(sampling_for_query("Code").0.top_k, 50);
}

#[test]
fn turns_are_asked_and_remembered() {
    let t = words();
    let mut s = Session::new();
    assert_eq!(s.conversation.max_history_tokens, MAX_HISTORY_TOKENS);
    assert_eq!(s.conversation.system_prompt, "You are a helpful AI assistant.");
    let first = s.begin_turn("one two", &t).unwrap();
    let whole = t.encode(s.conversation.format_prompt(), false).unwrap();
    assert_eq!(first.prompt_tokens, whole.get_ids().to_vec());
    assert_eq!(first.trim, None);
    assert_eq!(first.sampling.top_k, 50);
    assert_eq!(s.finish_turn(&[1, 2, 3], 4, 99, &t), Some("two three".to_string()));
    assert_eq!((s.position, s.is_first_turn), (99, false));
    assert_eq!(s.conversation.messages[2].content, "one two three");
    assert_eq!(s.conversation.messages[2].role, MessageRole::Assistant);
    let second = s.begin_turn("four", &t).unwrap();
    let added = t.encode(user_turn_prompt("four"), false).unwrap();
    assert_eq!(second.prompt_tokens, added.get_ids().to_vec());
    assert_eq!(s.finish_turn(&[4], 100, 120, &t), None);
    assert_eq!(s.conversation.messages.len(), 5);
    s.reset();
    assert_eq!((s.position, s.is_first_turn, s.conversation.messages.len()), (0, true, 1));
    assert!(s.begin_turn("?", &strict()).is_err());
}

#[test]
fn answers_are_remembered_without_white_space() {
    let mut s = Session::new();
    s.record_answer("  an answer \n", 5);
    assert_eq!(s.conversation.messages[1].content, "an answer");
    assert_eq!(s.position, 5);
}
