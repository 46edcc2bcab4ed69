use phi3_mixed_quant::container::{TensorEntry, TensorSet};
use phi3_mixed_quant::quantize::{
    choose_q6k_format, choose_quant_format, is_q4k_layer, is_q8k128_layer, is_target_weight,
    layer_id, parse_attention_proj, perm_plan, plan, quantize_k_rows, route_tensor, PermPlan,
    Q6KPolicy, Q8K128Policy, QuantFormat, Routing, RowsError, Skip,
};
use phi3_mixed_quant::types::Dtype;

#[test]
fn default_policy_targets_only_layer0_qkv() {
    assert_eq!(
        choose_quant_format(
            "model.layers.0.self_attn.qkv_proj.weight",
            Q8K128Policy::Layer0Qkv
        ),
        QuantFormat::Q8K128
    );
    assert_eq!(
        choose_quant_format(
            "model.layers.1.self_attn.qkv_proj.weight",
            Q8K128Policy::Layer0Qkv
        ),
        QuantFormat::Q8K
    );
    assert_eq!(
        choose_quant_format(
            "model.layers.0.mlp.down_proj.weight",
            Q8K128Policy::Layer0Qkv
        ),
        QuantFormat::Q4K
    );
}

#[test]
fn q8k_policy_keeps_down_proj_at_q4k() {
    assert_eq!(
        choose_quant_format("model.layers.0.self_attn.o_proj.weight", Q8K128Policy::Q8K),
        QuantFormat::Q8K128
    );
    assert_eq!(
        choose_quant_format("model.layers.0.mlp.down_proj.weight", Q8K128Policy::Q8K),
        QuantFormat::Q4K
    );
}

#[test]
fn targets_are_weights_but_not_embeddings_or_norms() {
    assert!(is_target_weight("model.layers.0.mlp.down_proj.weight"));
    assert!(is_target_weight("lm_head.weight"));
    assert!(!is_target_weight("model.embed_tokens.weight"));
    assert!(!is_target_weight("model.layers.0.input_layernorm.weight"));
    assert!(!is_target_weight("model.layers.0.mlp.down_proj.bias"));
    assert!(is_q4k_layer("model.layers.3.mlp.down_proj.weight"));
    assert!(!is_q4k_layer("model.layers.3.mlp.gate_up_proj.weight"));
}

#[test]
fn layer_numbers_are_read_from_names() {
    assert_eq!(layer_id("model.layers.12.mlp.down_proj.weight"), Some(12));
    assert_eq!(layer_id("model.layers.+7.x"), Some(7));
    assert_eq!(layer_id("model.layers.12"), None);
    assert_eq!(layer_id("model.layers..x"), None);
    assert_eq!(layer_id("model.layers.a.x"), None);
    assert_eq!(layer_id("layers.1.x"), None);
    assert_eq!(layer_id("model.layers.99999999999999999999999.x"), None);
}

#[test]
fn each_policy_covers_its_layers() {
    let qkv3 = "model.layers.3.self_attn.qkv_proj.weight";
    let qkv4 = "model.layers.4.self_attn.qkv_proj.weight";
    let o = "model.layers.9.self_attn.o_proj.weight";
    let gate = "model.layers.9.mlp.gate_up_proj.weight";
    let down = "model.layers.9.mlp.down_proj.weight";
    assert!(!is_q8k128_layer(qkv3, Q8K128Policy::Off));
    assert!(is_q8k128_layer(qkv3, Q8K128Policy::EarlyQkv));
    assert!(!is_q8k128_layer(qkv4, Q8K128Policy::EarlyQkv));
    assert!(is_q8k128_layer(qkv4, Q8K128Policy::Qkv));
    assert!(!is_q8k128_layer(o, Q8K128Policy::Qkv));
    assert!(is_q8k128_layer(o, Q8K128Policy::Attn));
    assert!(!is_q8k128_layer(gate, Q8K128Policy::Attn));
    assert!(is_q8k128_layer(gate, Q8K128Policy::Q8K));
    assert!(!is_q8k128_layer(down, Q8K128Policy::Q8K));
    assert!(is_q8k128_layer(down, Q8K128Policy::All));
}

#[test]
fn policies_are_named_in_any_case() {
    assert_eq!(Q8K128Policy::from_setting(None), Ok(Q8K128Policy::Layer0Qkv));
    assert_eq!(Q8K128Policy::from_setting(Some("OFF")), Ok(Q8K128Policy::Off));
    assert_eq!(Q8K128Policy::from_setting(Some("L0_QKV")), Ok(Q8K128Policy::Layer0Qkv));
    assert_eq!(Q8K128Policy::from_setting(Some("0-3-qkv")), Ok(Q8K128Policy::EarlyQkv));
    assert_eq!(Q8K128Policy::from_setting(Some("all_qkv")), Ok(Q8K128Policy::Qkv));
    assert_eq!(Q8K128Policy::from_setting(Some("Attention")), Ok(Q8K128Policy::Attn));
    assert_eq!(Q8K128Policy::from_setting(Some("non-down")), Ok(Q8K128Policy::Q8K));
    assert_eq!(Q8K128Policy::from_setting(Some("all")), Ok(Q8K128Policy::All));
    assert_eq!(Q8K128Policy::from_setting(Some("some")), Err(()));
    for p in [
        Q8K128Policy::Off,
        Q8K128Policy::Layer0Qkv,
        Q8K128Policy::EarlyQkv,
        Q8K128Policy::Qkv,
        Q8K128Policy::Attn,
        Q8K128Policy::Q8K,
        Q8K128Policy::All,
    ] {
        assert_eq!(Q8K128Policy::from_setting(Some(p.name())), Ok(p));
    }
    assert_eq!(Q8K128Policy::EarlyQkv.name(), "early-qkv");
}

#[test]
fn six_bit_policies_replace_what_they_name() {
    let down = "model.layers.0.mlp.down_proj.weight";
    let o = "model.layers.0.self_attn.o_proj.weight";
    assert_eq!(Q6KPolicy::from_setting(None), Ok(Q6KPolicy::Off));
    assert_eq!(Q6KPolicy::from_setting(Some("Down")), Ok(Q6KPolicy::Down));
    assert_eq!(Q6KPolicy::from_setting(Some("q8k")), Ok(Q6KPolicy::Q8K));
    assert_eq!(Q6KPolicy::from_setting(Some("all")), Ok(Q6KPolicy::All));
    assert_eq!(Q6KPolicy::from_setting(Some("up")), Err(()));
    assert_eq!(choose_q6k_format(down, Q6KPolicy::Off), QuantFormat::Q4K);
    assert_eq!(choose_q6k_format(o, Q6KPolicy::Off), QuantFormat::Q8K);
    assert_eq!(choose_q6k_format(down, Q6KPolicy::Down), QuantFormat::Q6K);
    assert_eq!(choose_q6k_format(o, Q6KPolicy::Down), QuantFormat::Q8K);
    assert_eq!(choose_q6k_format(down, Q6KPolicy::Q8K), QuantFormat::Q4K);
    assert_eq!(choose_q6k_format(o, Q6KPolicy::Q8K), QuantFormat::Q6K);
    assert_eq!(choose_q6k_format(down, Q6KPolicy::All), QuantFormat::Q6K);
}

#[test]
fn policies_agree_when_off() {
    for name in ["model.layers.0.mlp.down_proj.weight", "lm_head.weight"] {
        assert_eq!(
            choose_quant_format(name, Q8K128Policy::Off),
            choose_q6k_format(name, Q6KPolicy::Off)
        );
    }
}

#[test]
fn attention_projections_are_recognized() {
    assert_eq!(
        parse_attention_proj("model.layers.17.self_attn.k_proj.weight"),
        Some((17, "k"))
    );
    assert_eq!(
        parse_attention_proj("model.layers.007.self_attn.o_proj.weight"),
        Some((7, "o"))
    );
    assert_eq!(parse_attention_proj("model.layers.1.self_attn.qkv_proj.weight"), None);
    assert_eq!(parse_attention_proj("model.layers..self_attn.q_proj.weight"), None);
    assert_eq!(parse_attention_proj("model.layers.+1.self_attn.q_proj.weight"), None);
    assert_eq!(parse_attention_proj("model.layers.1.self_attn.q_proj.weights"), None);
    assert_eq!(parse_attention_proj("xmodel.layers.1.self_attn.q_proj.weight"), None);
    assert_eq!(
        parse_attention_proj("model.layers.4294967295.self_attn.v_proj.weight"),
        Some((4294967295, "v"))
    );
    assert_eq!(parse_attention_proj("model.layers.4294967296.self_attn.v_proj.weight"), None);
}

#[test]
fn permutations_are_shared_within_a_layer() {
    assert_eq!(perm_plan("model.layers.2.self_attn.q_proj.weight", false), PermPlan::Keep);
    assert_eq!(perm_plan("model.layers.2.self_attn.o_proj.weight", true), PermPlan::Keep);
    assert_eq!(perm_plan("model.layers.2.self_attn.q_proj.weight", true), PermPlan::Shared(2));
    assert_eq!(perm_plan("model.layers.2.self_attn.v_proj.weight", true), PermPlan::Shared(2));
    assert_eq!(perm_plan("lm_head.weight", true), PermPlan::Own);
}

fn entry(name: &str, shape: Vec<usize>) -> TensorEntry {
    let n: usize = shape.iter().product();
    TensorEntry { name: name.to_string(), dtype: Dtype::F32, shape, data: vec![0u8; 4 * n] }
}

#[test]
fn every_tensor_is_planned_once() {
    let mut set = TensorSet::new();
    set.insert(entry("lm_head.weight", vec![2, 256]));
    set.insert(entry("model.embed_tokens.weight", vec![2, 256]));
    set.insert(entry("model.layers.0.mlp.down_proj.weight", vec![1, 512]));
    set.insert(entry("model.layers.0.mlp.gate_up_proj.weight", vec![1, 100]));
    set.insert(entry("model.layers.0.self_attn.qkv_proj.weight", vec![3, 128]));
    set.insert(entry("x.weight", vec![256]));
    let p = plan(&set, Routing::Q8K128(Q8K128Policy::Layer0Qkv));
    let got: Vec<(usize, usize, usize, QuantFormat)> =
        p.items.iter().map(|i| (i.index, i.rows, i.k, i.format)).collect();
    assert_eq!(
        got,
        vec![
            (0, 2, 256, QuantFormat::Q8K),
            (2, 1, 512, QuantFormat::Q4K),
            (4, 3, 128, QuantFormat::Q8K128),
        ]
    );
    assert_eq!(p.skipped, vec![1, 3, 5]);
    let q = plan(&set, Routing::Q6K(Q6KPolicy::All));
    assert_eq!(q.items.len(), 2);
    assert_eq!(q.items[0].format, QuantFormat::Q6K);
    assert_eq!(q.items.len() + q.skipped.len(), set.entries.len());
}

#[test]
fn skipped_tensors_say_why() {
    assert_eq!(
        route_tensor(&entry("a.weight", vec![3, 100]), QuantFormat::Q8K),
        Err(Skip::Ragged { rows: 3, k: 100, block: 256 })
    );
    assert_eq!(
        route_tensor(&entry("a.weight", vec![3, 128]), QuantFormat::Q8K128),
        Ok((3, 128))
    );
    assert_eq!(
        route_tensor(&entry("a.weight", vec![128]), QuantFormat::Q8K128),
        Err(Skip::NotTarget)
    );
    assert_eq!(
        route_tensor(&entry("norm.weight", vec![3, 128]), QuantFormat::Q8K128),
        Err(Skip::NotTarget)
    );
}

#[test]
fn rows_are_quantized_one_by_one() {
    let data: Vec<i32> = (0..1024).collect();
    let heads = |row: &[i32]| row.chunks(256).map(|c| (c[0], row.len())).collect::<Vec<_>>();
    assert_eq!(
        quantize_k_rows(2, 512, &data, heads),
        Ok(vec![(0, 512), (256, 512), (512, 512), (768, 512)])
    );
    assert_eq!(quantize_k_rows(0, 512, &[], heads), Ok(vec![]));
    assert_eq!(
        quantize_k_rows(2, 100, &data, heads),
        Err(RowsError::KNotMultiple { k: 100 })
    );
    assert_eq!(
        quantize_k_rows(3, 512, &data, heads),
        Err(RowsError::SourceLength { got: 1024, expected: 1536 })
    );
}
