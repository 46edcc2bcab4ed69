use phi3_mixed_quant::cache::{build_mask, Cache, KvEntry};
use phi3_mixed_quant::cli::{usage, CliArgs};
use phi3_mixed_quant::model::{
    needs_mask, rope_rows, split_gate_up, AttentionDims, LayoutError, Span,
};
use phi3_mixed_quant::perplexity::{
    chunks, env_opt_usize, env_usize, parse_args, plan_eval, target_indices, EvalPlan, PlanError,
};
use phi3_mixed_quant::scratch::{Buf, ScratchPool, POOL_LIMIT};
use phi3_mixed_quant::text::{
    contains, decimal_text, ends_with, joined, lower_is, parse_usize, precedes, same, skipped,
    starts_with, trimmed,
};

fn args(v: &[&str]) -> Vec<String> {
    v.iter().map(|s| s.to_string()).collect()
}

#[test]
fn parses_single_shard() {
    let a = CliArgs::parse_from(&args(&["model.safetensors"])).unwrap();
    assert_eq!(a.shard1, "model.safetensors");
    assert!(a.shard2.is_none());
}

#[test]
fn parses_two_shards() {
    let a = CliArgs::parse_from(&args(&["a.st", "b.st"])).unwrap();
    assert_eq!(a.shard2, Some("b.st".to_string()));
}

#[test]
fn rejects_empty() {
    assert!(CliArgs::parse_from(&Vec::new()).is_err());
}

#[test]
fn usage_names_the_program() {
    let e = CliArgs::parse_from(&Vec::new()).unwrap_err();
    assert!(e.starts_with("Usage: phi3-mixed-quant <packed-model.safetensors>"));
    assert_eq!(e.lines().count(), 3);
    assert_eq!(e, usage());
}

#[test]
fn buffer_is_zeroed_and_sized() {
    let mut pool: ScratchPool<f32> = ScratchPool::new();
    let mut b = pool.take(8, 0.0);
    assert_eq!(b.as_slice().len(), 8);
    assert!(b.as_slice().iter().all(|&x| x == 0.0));
    b.as_mut_slice()[3] = 7.0;
    assert_eq!(b.as_slice()[3], 7.0);
}

#[test]
fn allocations_are_recycled() {
    let mut pool: ScratchPool<f32> = ScratchPool::new();
    let b = pool.take(1024, 0.0);
    let cap = b.capacity();
    pool.give_back(b);
    let b2 = pool.take(1024, 0.0);
    assert!(b2.capacity() >= cap);
    assert_eq!(pool.free.len(), 0);
}

#[test]
fn recycled_buffers_are_zeroed() {
    let mut pool: ScratchPool<u32> = ScratchPool::new();
    let mut b = pool.take(10, 0);
    b.as_mut_slice()[0] = 5;
    pool.give_back(b);
    let c = pool.take(4, 0);
    assert_eq!(c.as_slice(), &[0, 0, 0, 0]);
    assert!(pool.free.is_empty());
}

#[test]
fn pool_is_bounded() {
    let mut pool: ScratchPool<u32> = ScratchPool::new();
    for _ in 0..POOL_LIMIT + 3 {
        pool.give_back(Buf { inner: vec![1, 2, 3] });
    }
    assert_eq!(pool.free.len(), POOL_LIMIT);
    let big = pool.take(1_000_000, 7);
    assert_eq!(big.as_slice().len(), 1_000_000);
    assert_eq!(pool.free.len(), POOL_LIMIT);
}

#[test]
fn masks_hide_later_tokens() {
    assert_eq!(build_mask(3, 3), vec![0, 1, 1, 0, 0, 1, 0, 0, 0]);
    assert_eq!(build_mask(2, 4), vec![0, 0, 0, 1, 0, 0, 0, 0]);
    assert_eq!(build_mask(2, 1), vec![0, 0]);
    assert_eq!(build_mask(1, 5), vec![0; 5]);
}

#[test]
fn masks_are_made_once() {
    let mut c: Cache<u8> = Cache::new(true, 2);
    let a = c.mask_query_kv(2, 3);
    assert_eq!(a, vec![0, 0, 1, 0, 0, 0]);
    assert_eq!(c.mask_query_kv(2, 3), a);
    assert_eq!(c.masks.len(), 1);
    c.mask_query_kv(3, 3);
    assert_eq!(c.masks.len(), 2);
    assert_eq!(c.mask_query_kv(3, 2), vec![0, 1, 0, 0, 0, 0]);
    assert_eq!(c.masks.len(), 3);
    c.reset_for_new_turn();
    assert_eq!(c.masks.len(), 0);
}

#[test]
fn cache_counts_tokens_and_bytes() {
    let mut c: Cache<&str> = Cache::new(true, 3);
    assert_eq!(c.estimate_tokens(), 0);
    assert_eq!(c.memory_bytes(), Some(0));
    c.store(1, KvEntry { k: "k", v: "v", tokens: 5, k_elems: 100, v_elems: 50 });
    c.store(2, KvEntry { k: "k", v: "v", tokens: 3, k_elems: 10, v_elems: 10 });
    assert_eq!(c.estimate_tokens(), 5);
    assert_eq!(c.memory_bytes(), Some(680));
    assert_eq!(c.cached(1).unwrap().k, "k");
    assert!(c.cached(0).is_none());
    c.reset_for_new_turn();
    assert_eq!(c.kvs.len(), 3);
    assert!(c.cached(1).is_none());
    c.store(0, KvEntry { k: "k", v: "v", tokens: 1, k_elems: usize::MAX, v_elems: 0 });
    assert_eq!(c.memory_bytes(), None);
    let mut off: Cache<u8> = Cache::new(false, 1);
    off.store(0, KvEntry { k: 1, v: 2, tokens: 9, k_elems: 1, v_elems: 1 });
    assert!(off.cached(0).is_none());
}

#[test]
fn projections_are_split() {
    let a = AttentionDims { num_attention_heads: 32, num_key_value_heads: 8, head_dim: 96 };
    let s = a.split_qkv(4608).unwrap();
    assert_eq!(s.q, Span { start: 0, len: 3072 });
    assert_eq!(s.k, Span { start: 3072, len: 768 });
    assert_eq!(s.v, Span { start: 3840, len: 768 });
    assert_eq!(a.split_qkv(4607), Err(LayoutError::TooNarrow { have: 4607 }));
    assert_eq!(a.repeats(), 4);
    assert_eq!(a.repeat_kv((1, 8, 7, 96)), Some(((1, 8, 4, 7, 96), (1, 32, 7, 96))));
    assert_eq!(a.repeat_kv((2, 9, 7, 5)), Some(((2, 9, 4, 7, 5), (2, 36, 7, 5))));
    let b = AttentionDims { num_key_value_heads: 32, ..a };
    assert_eq!(b.repeat_kv((1, 32, 7, 96)), None);
    assert_eq!(
        split_gate_up(8, 16),
        Ok((Span { start: 0, len: 8 }, Span { start: 8, len: 8 }))
    );
    assert_eq!(split_gate_up(9, 16), Err(LayoutError::TooNarrow { have: 16 }));
    assert_eq!(rope_rows(10, 5, 15), Ok(Span { start: 10, len: 5 }));
    assert_eq!(
        rope_rows(11, 5, 15),
        Err(LayoutError::PastEnd { index_pos: 11, seq_len: 5 })
    );
    assert!(needs_mask(2));
    assert!(!needs_mask(1));
}

#[test]
fn perplexity_arguments() {
    let a = parse_args(&args(&["m", "c"])).unwrap();
    assert_eq!((a.shard1.as_str(), a.shard2, a.corpus.as_str()), ("m", None, "c"));
    let b = parse_args(&args(&["m", "n", "c"])).unwrap();
    assert_eq!((b.shard2, b.corpus.as_str()), (Some("n".to_string()), "c"));
    assert!(parse_args(&args(&["m"])).is_none());
    assert!(parse_args(&args(&["a", "b", "c", "d"])).is_none());
}

#[test]
fn settings_fall_back() {
    assert_eq!(env_usize(None, 512), 512);
    assert_eq!(env_usize(Some("64"), 512), 64);
    assert_eq!(env_usize(Some("+64"), 512), 64);
    assert_eq!(env_usize(Some(" 64"), 512), 512);
    assert_eq!(env_usize(Some("-1"), 512), 512);
    assert_eq!(env_opt_usize(Some("x")), None);
    assert_eq!(env_opt_usize(Some("18446744073709551616")), None);
    assert_eq!(env_opt_usize(Some("0030")), Some(30));
}

#[test]
fn measurements_are_planned() {
    assert_eq!(
        plan_eval(None, None, None, 4096, 10),
        Ok(EvalPlan { ctx: 512, stride: 512, max_chunks: None })
    );
    assert_eq!(
        plan_eval(Some("9000"), Some("7"), Some("3"), 4096, 10),
        Ok(EvalPlan { ctx: 4096, stride: 7, max_chunks: Some(3) })
    );
    assert_eq!(plan_eval(Some("1"), None, None, 4096, 10), Err(PlanError::ContextTooShort));
    assert_eq!(plan_eval(None, Some("0"), None, 4096, 10), Err(PlanError::ZeroStride));
    assert_eq!(plan_eval(None, None, None, 4096, 1), Err(PlanError::CorpusTooShort(1)));
}

#[test]
fn published_run_scores_its_tokens() {
    let p = plan_eval(Some("2048"), None, Some("30"), 4096, 337_885).unwrap();
    let c = chunks(&p, 337_885);
    assert_eq!(c.len(), 30);
    let scored: usize = c.iter().map(|(a, b)| b - a - 1).sum();
    assert_eq!(scored, 61_410);
    for w in c.windows(2) {
        assert_eq!(w[0].1, w[1].0);
    }
}

#[test]
fn chunks_cover_the_corpus() {
    let p = EvalPlan { ctx: 4, stride: 4, max_chunks: None };
    assert_eq!(chunks(&p, 10), vec![(0, 4), (4, 8), (8, 10)]);
    assert_eq!(chunks(&p, 9), vec![(0, 4), (4, 8)]);
    assert_eq!(chunks(&p, 8), vec![(0, 4), (4, 8)]);
    assert_eq!(chunks(&p, 1), vec![]);
    let o = EvalPlan { ctx: 4, stride: 2, max_chunks: None };
    assert_eq!(chunks(&o, 8), vec![(0, 4), (2, 6), (4, 8)]);
    let z = EvalPlan { ctx: 4, stride: 2, max_chunks: Some(0) };
    assert_eq!(chunks(&z, 8), vec![]);
    let far = EvalPlan { ctx: 4, stride: usize::MAX, max_chunks: None };
    assert_eq!(chunks(&far, 8), vec![(0, 4)]);
}

#[test]
fn targets_are_the_next_tokens() {
    assert_eq!(target_indices(&[5, 1, 2], 10), Ok(vec![1, 12]));
    assert_eq!(target_indices(&[5, 1, 10, 11], 10), Err(10));
    assert_eq!(target_indices(&[99], 10), Ok(vec![]));
}

#[test]
fn texts_are_searched_and_cut() {
    assert!(contains("model.norm.weight", "norm"));
    assert!(contains("x", ""));
    assert!(!contains("nor", "norm"));
    assert!(starts_with("model.x", "model."));
    assert!(ends_with("a.weight", ".weight"));
    assert!(!ends_with("weight", ".weight"));
    assert!(same("a", "a"));
    assert!(!same("a", "ab"));
    assert_eq!(joined("a", "b"), "ab");
    assert_eq!(skipped("héllo", 2), "llo");
    assert_eq!(skipped("ab", 9), "");
    assert!(lower_is("ExIt", "exit"));
    assert!(!lower_is("exit ", "exit"));
    assert_eq!(trimmed(" \t\u{a0}a b\u{2003}\n"), "a b");
    assert_eq!(trimmed("  "), "");
}

#[test]
fn numbers_are_written_and_read() {
    for n in [0usize, 9, 10, 305, 1_000_000, usize::MAX] {
        assert_eq!(decimal_text(n), n.to_string());
        assert_eq!(parse_usize(&decimal_text(n)), Some(n));
    }
    assert_eq!(parse_usize(""), None);
    assert_eq!(parse_usize("+"), None);
    assert_eq!(parse_usize("1a"), None);
}

#[test]
fn texts_are_ordered_by_code_point() {
    for (a, b) in [("", "a"), ("a", "b"), ("a", "ab"), ("Z", "a"), ("z", "é")] {
        assert!(precedes(a, b));
        assert!(!precedes(b, a));
        assert!(a < b);
    }
    assert!(!precedes("a", "a"));
}
