use phi3_mixed_quant::container::{ReadError, TensorEntry, TensorSet, HEADER_LIMIT};
use phi3_mixed_quant::loader::{
    assemble_model, build_model, build_model_multi_shard, layer_tensor, BuildError, ModelError,
    ModelFault,
};
use phi3_mixed_quant::pack::{
    has_final_norm, is_quantized_weight, pack_file, pack_model, Existing, Features, PackFault,
    PackingError, SourceFile,
};
use phi3_mixed_quant::permutation::{write_perm, PermError};
use phi3_mixed_quant::quant_file::{write_unchecked, BlockFormat, FileError};
use phi3_mixed_quant::quant_linear::{
    is_packed_format, ForwardError, LoadFault, QuantBlocks, QuantLinear,
};
use phi3_mixed_quant::types::{Dtype, Phi3Config, WidenError};

fn entry(name: &str, dtype: Dtype, shape: Vec<usize>, data: Vec<u8>) -> TensorEntry {
    TensorEntry { name: name.to_string(), dtype, shape, data }
}

fn raw(name: &str, data: Vec<u8>) -> TensorEntry {
    entry(name, Dtype::U8, vec![data.len()], data)
}

fn meta(name: &str, v: &[i32]) -> TensorEntry {
    let data: Vec<u8> = v.iter().flat_map(|x| x.to_le_bytes()).collect();
    entry(name, Dtype::I32, vec![v.len()], data)
}

fn floats(name: &str, shape: Vec<usize>, x: f32) -> TensorEntry {
    let n: usize = shape.iter().product();
    entry(name, Dtype::F32, shape, x.to_le_bytes().repeat(n))
}

fn set(v: Vec<TensorEntry>) -> TensorSet {
    let mut s = TensorSet::new();
    for e in v {
        s.insert(e);
    }
    s
}

fn blocks(f: BlockFormat, rows: usize, k: usize, seed: u8) -> Vec<u8> {
    let n = rows * (k / f.block_elems()) * f.block_size();
    (0..n).map(|i| (i as u8).wrapping_mul(7).wrapping_add(seed)).collect()
}

fn q4k_fault(v: Vec<TensorEntry>) -> LoadFault {
    let e = QuantLinear::load_q4k_from_packed_safetensors(&set(v), "w", false).unwrap_err();
    assert_eq!(e.name, "w");
    e.fault
}

#[test]
fn q4k_layers_are_loaded() {
    let b = blocks(BlockFormat::Q4K, 3, 512, 1);
    let s = set(vec![raw("w.q4k", b.clone()), meta("w.q4k_meta", &[3, 512])]);
    let l = QuantLinear::load_q4k_from_packed_safetensors(&s, "w", false).unwrap();
    assert_eq!((l.out, l.k, l.name.as_str()), (3, 512, "w"));
    assert!(l.perm.is_none());
    assert!(matches!(&l.blocks, QuantBlocks::Q4K(x) if *x == b));
}

#[test]
fn damaged_q4k_layers_are_refused() {
    let b = blocks(BlockFormat::Q4K, 1, 256, 1);
    assert_eq!(q4k_fault(vec![raw("w.q4k", b.clone())]), LoadFault::MissingMeta);
    assert_eq!(
        q4k_fault(vec![raw("w.q4k_meta", vec![0; 8])]),
        LoadFault::MetaDtype(Dtype::U8)
    );
    assert_eq!(q4k_fault(vec![meta("w.q4k_meta", &[1])]), LoadFault::MetaTooShort);
    assert_eq!(q4k_fault(vec![meta("w.q4k_meta", &[1, 256])]), LoadFault::MissingTensor);
    assert_eq!(
        q4k_fault(vec![
            meta("w.q4k_meta", &[1, 256]),
            entry("w.q4k", Dtype::I8, vec![144], b.clone())
        ]),
        LoadFault::TensorDtype(Dtype::I8)
    );
    assert_eq!(
        q4k_fault(vec![meta("w.q4k_meta", &[2, 256]), raw("w.q4k", b.clone())]),
        LoadFault::SizeMismatch { got: 144, expected: 288 }
    );
    assert!(matches!(
        q4k_fault(vec![meta("w.q4k_meta", &[-1, -1]), raw("w.q4k", b)]),
        LoadFault::SizeMismatch { got: 144, .. }
    ));
}

fn q8k_fault(v: Vec<TensorEntry>) -> LoadFault {
    QuantLinear::load_from_packed_safetensors(&set(v), "w", false).unwrap_err().fault
}

#[test]
fn q8k_layers_are_loaded() {
    let b = blocks(BlockFormat::Q8K, 2, 256, 3);
    let file = write_unchecked(BlockFormat::Q8K, 2, 256, &b);
    let s = set(vec![
        raw("w.q8k", file.clone()),
        meta("w.q8k_meta", &[2, 256, 24]),
        raw("w.perm", write_perm(&(0..256).rev().collect::<Vec<_>>())),
    ]);
    let l = QuantLinear::load_from_packed_safetensors(&s, "w", false).unwrap();
    assert!(matches!(&l.blocks, QuantBlocks::Q8K(x) if *x == b));
    assert!(l.perm.is_none());
    let p = QuantLinear::load_from_packed_safetensors(&s, "w", true).unwrap();
    assert_eq!(p.perm.as_ref().unwrap()[0], 255);
    assert!(p.perm_usable());
    let one = set(vec![raw("w.q8k", file), meta("w.q8k_meta", &[1, 256, 24])]);
    let l1 = QuantLinear::load_from_packed_safetensors(&one, "w", false).unwrap();
    assert!(matches!(&l1.blocks, QuantBlocks::Q8K(x) if x[..] == b[..292]));
}

#[test]
fn damaged_q8k_layers_are_refused() {
    let b = blocks(BlockFormat::Q8K, 1, 256, 3);
    let file = write_unchecked(BlockFormat::Q8K, 1, 256, &b);
    let good = meta("w.q8k_meta", &[1, 256, 24]);
    assert_eq!(q8k_fault(vec![raw("w.q8k", file.clone())]), LoadFault::MissingMeta);
    assert_eq!(
        q8k_fault(vec![raw("w.q8k_meta", vec![0; 12])]),
        LoadFault::MetaDtype(Dtype::U8)
    );
    assert_eq!(q8k_fault(vec![meta("w.q8k_meta", &[1, 256])]), LoadFault::MetaTooShort);
    assert_eq!(q8k_fault(vec![good.duplicate()]), LoadFault::MissingTensor);
    assert_eq!(
        q8k_fault(vec![good.duplicate(), entry("w.q8k", Dtype::I8, vec![1], vec![1])]),
        LoadFault::TensorDtype(Dtype::I8)
    );
    assert_eq!(
        q8k_fault(vec![good.duplicate(), raw("w.q8k", file[..23].to_vec())]),
        LoadFault::NoHeader
    );
    assert_eq!(
        q8k_fault(vec![meta("w.q8k_meta", &[1, 256, 20]), raw("w.q8k", file.clone())]),
        LoadFault::HeaderSize
    );
    let mut bad = file.clone();
    bad[1] = 0;
    assert_eq!(q8k_fault(vec![good.duplicate(), raw("w.q8k", bad)]), LoadFault::BadMagic);
    assert_eq!(
        q8k_fault(vec![meta("w.q8k_meta", &[2, 256, 24]), raw("w.q8k", file.clone())]),
        LoadFault::Truncated
    );
    let s = set(vec![good, raw("w.q8k", file), raw("w.perm", vec![1, 2])]);
    assert_eq!(
        QuantLinear::load_from_packed_safetensors(&s, "w", true).unwrap_err().fault,
        LoadFault::Perm(PermError::TooSmall)
    );
}

fn small_linear(perm: Option<Vec<usize>>) -> QuantLinear {
    QuantLinear {
        blocks: QuantBlocks::Q8K(vec![10, 20]),
        out: 2,
        k: 3,
        name: "l".to_string(),
        perm,
    }
}

fn matmul(dims: (usize, usize, usize), x: &[i32], w: &QuantBlocks) -> Vec<i32> {
    let (b, k, out) = dims;
    let rows = match w {
        QuantBlocks::Q8K(v) => v,
        QuantBlocks::Q4K(v) => v,
    };
    let mut y = Vec::new();
    for i in 0..b {
        for o in 0..out {
            y.push(rows[o] as i32 * x[i * k] + x[i * k + 1]);
        }
    }
    y
}

#[test]
fn layers_are_applied_row_by_row() {
    let l = small_linear(None);
    let mut scratch = Vec::new();
    let x = [1, 2, 3, 4, 5, 6];
    let (y, dims) = l.forward(&[2, 3], &x, &mut scratch, matmul).unwrap();
    assert_eq!((y, dims), (vec![12, 22, 45, 85], vec![2, 2]));
    let (y, dims) = l.forward(&[1, 2, 3], &x, &mut scratch, matmul).unwrap();
    assert_eq!((y, dims), (vec![12, 22, 45, 85], vec![1, 2, 2]));
}

#[test]
fn permuted_layers_permute_their_input() {
    let l = small_linear(Some(vec![2, 0, 1]));
    let mut scratch = vec![0; 3];
    let y = l.forward_2d(1, 3, &[1, 2, 3], &mut scratch, matmul).unwrap();
    assert_eq!(y, vec![31, 61]);
    assert_eq!(scratch, vec![3, 1, 2]);
    let plain = small_linear(None);
    assert_eq!(plain.forward_2d(1, 3, &[3, 1, 2], &mut scratch, matmul).unwrap(), y);
    assert!(!small_linear(Some(vec![0, 1])).perm_usable());
    assert!(!small_linear(Some(vec![0, 1, 3])).perm_usable());
}

#[test]
fn unfit_inputs_are_refused() {
    let l = small_linear(None);
    let mut scratch = Vec::new();
    assert_eq!(
        l.forward(&[1, 4], &[0; 4], &mut scratch, matmul),
        Err(ForwardError::KMismatch { got: 4, expected: 3 })
    );
    assert_eq!(
        l.forward(&[3], &[0; 3], &mut scratch, matmul),
        Err(ForwardError::UnsupportedDims)
    );
    assert_eq!(
        l.forward(&[1, 1, 1, 3], &[0; 3], &mut scratch, matmul),
        Err(ForwardError::UnsupportedDims)
    );
}

fn config() -> Phi3Config {
    Phi3Config {
        hidden_size: 256,
        intermediate_size: 256,
        num_hidden_layers: 2,
        num_attention_heads: 4,
        num_key_value_heads: None,
        max_position_embeddings: 16,
    }
}

fn q8k(name: &str, rows: usize, seed: u8) -> Vec<TensorEntry> {
    let b = blocks(BlockFormat::Q8K, rows, 256, seed);
    vec![
        raw(&format!("{name}.q8k"), write_unchecked(BlockFormat::Q8K, rows, 256, &b)),
        meta(&format!("{name}.q8k_meta"), &[rows as i32, 256, 24]),
    ]
}

fn q4k(name: &str, rows: usize, seed: u8) -> Vec<TensorEntry> {
    vec![
        raw(&format!("{name}.q4k"), blocks(BlockFormat::Q4K, rows, 256, seed)),
        meta(&format!("{name}.q4k_meta"), &[rows as i32, 256]),
    ]
}

fn layer(i: usize) -> Vec<TensorEntry> {
    let mut v = vec![
        floats(&format!("model.layers.{i}.input_layernorm.weight"), vec![256], 1.0),
        floats(&format!("model.layers.{i}.post_attention_layernorm.weight"), vec![256], 2.0),
    ];
    v.extend(q8k(&format!("model.layers.{i}.self_attn.qkv_proj.weight"), 3, 1));
    v.extend(q8k(&format!("model.layers.{i}.self_attn.o_proj.weight"), 1, 2));
    v.extend(q8k(&format!("model.layers.{i}.mlp.gate_up_proj.weight"), 2, 3));
    v.extend(q4k(&format!("model.layers.{i}.mlp.down_proj.weight"), 1, 4));
    v
}

fn whole_model() -> Vec<TensorEntry> {
    let mut v = vec![
        floats("model.embed_tokens.weight", vec![5, 256], 0.5),
        floats("model.norm.weight", vec![256], 3.0),
    ];
    v.extend(layer(0));
    v.extend(layer(1));
    v.extend(q8k("lm_head.weight", 5, 9));
    v
}

fn without(v: Vec<TensorEntry>, name: &str) -> Vec<TensorEntry> {
    v.into_iter().filter(|e| e.name != name).collect()
}

fn model_fault(v: Vec<TensorEntry>) -> (ModelFault, String) {
    let ModelError { fault, tensor } = assemble_model(&set(v), &config(), false).unwrap_err();
    (fault, tensor)
}

#[test]
fn models_are_built_from_container_bytes() {
    let file = set(whole_model()).write().unwrap();
    let m = build_model(&file, &config(), false).ok().unwrap();
    assert_eq!(m.wte.shape, vec![5, 256]);
    assert_eq!(m.wte.bits, vec![0.5f32.to_bits(); 1280]);
    assert_eq!(m.ln_f.bits, vec![3.0f32.to_bits(); 256]);
    assert_eq!(m.blocks.len(), 2);
    let b = &m.blocks[1];
    assert_eq!(b.rms_2, vec![2.0f32.to_bits(); 256]);
    assert_eq!((b.num_attention_heads, b.num_key_value_heads, b.head_dim), (4, 4, 64));
    assert_eq!(b.qkv_proj.name, "model.layers.1.self_attn.qkv_proj.weight");
    assert_eq!(b.o_proj.name, "model.layers.1.self_attn.o_proj.weight");
    assert_eq!(b.gate_up_proj.name, "model.layers.1.mlp.gate_up_proj.weight");
    assert_eq!(b.down_proj.name, "model.layers.1.mlp.down_proj.weight");
    assert_eq!(m.blocks[0].qkv_proj.name, "model.layers.0.self_attn.qkv_proj.weight");
    assert_eq!(m.lm_head.name, "lm_head.weight");
    assert!(matches!(b.down_proj.blocks, QuantBlocks::Q4K(_)));
    assert!(matches!(b.o_proj.blocks, QuantBlocks::Q8K(_)));
    assert_eq!(m.lm_head.out, 5);
    assert!(matches!(
        build_model(b"no container", &config(), false),
        Err(BuildError::Container(_))
    ));
}

#[test]
fn incomplete_models_say_what_is_missing() {
    assert_eq!(
        model_fault(vec![floats("model.norm.weight", vec![256], 1.0)]),
        (ModelFault::NotPacked, String::new())
    );
    assert_eq!(
        model_fault(without(whole_model(), "model.embed_tokens.weight")),
        (ModelFault::MissingTensor, "model.embed_tokens.weight".to_string())
    );
    assert_eq!(
        model_fault(without(whole_model(), "model.norm.weight")),
        (ModelFault::NoFinalNorm, String::new())
    );
    assert_eq!(
        model_fault(without(whole_model(), "model.layers.1.input_layernorm.weight")),
        (ModelFault::MissingTensor, "model.layers.1.input_layernorm.weight".to_string())
    );
    assert_eq!(
        model_fault(without(whole_model(), "model.layers.0.self_attn.o_proj.weight.q8k_meta")),
        (
            ModelFault::Linear(LoadFault::MissingMeta),
            "model.layers.0.self_attn.o_proj.weight".to_string()
        )
    );
    assert_eq!(
        model_fault(without(whole_model(), "lm_head.weight.q8k")),
        (ModelFault::Linear(LoadFault::MissingTensor), "lm_head.weight".to_string())
    );
    let mut narrow = whole_model();
    narrow.push(floats("model.layers.0.input_layernorm.weight", vec![2], 1.0));
    assert_eq!(
        model_fault(narrow),
        (
            ModelFault::Width { got: 2, expected: 256 },
            "model.layers.0.input_layernorm.weight".to_string()
        )
    );
    let mut odd = whole_model();
    odd.push(meta("model.embed_tokens.weight", &[1]));
    assert_eq!(
        model_fault(odd),
        (
            ModelFault::Widen(WidenError::UnsupportedDtype(Dtype::I32)),
            "model.embed_tokens.weight".to_string()
        )
    );
}

#[test]
fn final_norm_goes_by_three_names() {
    let mut v = without(whole_model(), "model.norm.weight");
    v.push(floats("norm.weight", vec![3], 7.0));
    let m = assemble_model(&set(v), &config(), false).unwrap();
    assert_eq!((m.ln_f.bits.len(), m.ln_f.shape), (3, vec![3]));
    let mut v = whole_model();
    v.push(floats("norm.weight", vec![256], 7.0));
    let m = assemble_model(&set(v), &config(), false).unwrap();
    assert_eq!(m.ln_f.bits[0], 3.0f32.to_bits());
}

fn two_shards() -> (Vec<TensorEntry>, Vec<TensorEntry>) {
    let mut a = vec![floats("model.embed_tokens.weight", vec![5, 256], 0.5)];
    a.extend(layer(0));
    let mut b = vec![floats("model.final_layernorm.weight", vec![256], 3.0)];
    b.extend(layer(1));
    b.extend(q4k("lm_head.weight", 5, 9));
    (a, b)
}

#[test]
fn models_are_built_from_two_shards() {
    let (a, b) = two_shards();
    let fa = set(a).write().unwrap();
    let fb = set(b).write().unwrap();
    let m = build_model_multi_shard(&fa, &fb, &config(), false).ok().unwrap();
    assert_eq!(m.blocks.len(), 2);
    assert_eq!(m.ln_f.shape, vec![256]);
    assert!(matches!(m.lm_head.blocks, QuantBlocks::Q4K(_)));
    assert!(build_model_multi_shard(&fb, &fa, &config(), false).is_ok());
    assert!(matches!(
        build_model_multi_shard(&fa, b"x", &config(), false),
        Err(BuildError::Container(_))
    ));
}

fn shard_fault(a: Vec<TensorEntry>, b: Vec<TensorEntry>) -> (ModelFault, String) {
    let fa = set(a).write().unwrap();
    let fb = set(b).write().unwrap();
    match build_model_multi_shard(&fa, &fb, &config(), false) {
        Err(BuildError::Model(e)) => (e.fault, e.tensor),
        _ => panic!("a fault was expected"),
    }
}

#[test]
fn shards_that_lack_something_say_so() {
    let (a, b) = two_shards();
    assert_eq!(
        shard_fault(a, vec![floats("norm.weight", vec![256], 1.0)]),
        (ModelFault::NotPacked, String::new())
    );
    let (a, b2) = two_shards();
    assert_eq!(
        shard_fault(a, without(b2, "model.final_layernorm.weight")),
        (ModelFault::NoFinalNorm, String::new())
    );
    let (a, b3) = two_shards();
    assert_eq!(
        shard_fault(a, without(b3, "lm_head.weight.q4k_meta")),
        (ModelFault::MissingQuantized, "lm_head.weight".to_string())
    );
    let (a, _) = two_shards();
    assert_eq!(
        shard_fault(without(a, "model.embed_tokens.weight"), b),
        (ModelFault::MissingTensor, "model.embed_tokens.weight".to_string())
    );
}

#[test]
fn layer_names_are_numbered() {
    assert_eq!(layer_tensor(31, ".mlp.down_proj.weight"), "model.layers.31.mlp.down_proj.weight");
}

#[test]
fn containers_are_read_back() {
    let s = set(vec![
        floats("a", vec![2, 3], 1.5),
        entry("b", Dtype::BF16, vec![2], vec![1, 2, 3, 4]),
        entry("c", Dtype::I64, vec![0], vec![]),
    ]);
    let back = TensorSet::read(&s.write().unwrap()).ok().unwrap();
    assert_eq!(back.entries.len(), 3);
    for e in &s.entries {
        let t = back.get(&e.name).unwrap();
        assert_eq!((t.dtype, &t.shape, &t.data), (e.dtype, &e.shape, &e.data));
    }
    assert!(back.get("d").is_none());
    assert!(back.has("a"));
    assert!(!back.has_suffix(".q8k"));
    assert!(!is_packed_format(&back));
    assert!(is_packed_format(&set(vec![raw("x.q4k", vec![1])])));
    assert!(TensorSet::read(&[1, 2, 3]).is_err());
}

#[test]
fn every_element_type_is_written() {
    let types = [
        Dtype::BOOL, Dtype::F4, Dtype::F6_E2M3, Dtype::F6_E3M2, Dtype::U8, Dtype::I8,
        Dtype::F8_E5M2, Dtype::F8_E4M3, Dtype::F8_E8M0, Dtype::I16, Dtype::U16, Dtype::F16,
        Dtype::BF16, Dtype::I32, Dtype::U32, Dtype::F32, Dtype::C64, Dtype::F64, Dtype::I64,
        Dtype::U64,
    ];
    // Four elements have a whole number of bytes in every type.
    let bytes = [4, 2, 3, 3, 4, 4, 4, 4, 4, 8, 8, 8, 8, 16, 16, 16, 32, 32, 32, 32];
    for (d, n) in types.into_iter().zip(bytes) {
        let s = set(vec![entry("t", d, vec![4], vec![7; n])]);
        let back = TensorSet::read(&s.write().unwrap()).unwrap();
        let t = back.get("t").unwrap();
        assert_eq!((t.dtype, &t.shape, &t.data), (d, &vec![4], &vec![7; n]));
    }
}

#[test]
fn header_takes_no_more_than_its_room() {
    // Names whose every character is escaped, long labels and long dimensions.
    let wide = usize::MAX;
    let s = set(vec![
        entry("\u{1}\u{2}\u{3}", Dtype::F6_E2M3, vec![0, wide], vec![]),
        entry("\"\\\u{1f}", Dtype::F8_E4M3, vec![0; 40], vec![]),
        entry("\u{10ffff}", Dtype::F8_E8M0, vec![0, wide, wide, wide, wide], vec![]),
    ]);
    let file = s.write().unwrap();
    let header = u64::from_le_bytes(file[..8].try_into().unwrap());
    let room: usize =
        s.entries.iter().map(|e| 6 * e.name.chars().count() + 21 * e.shape.len() + 100).sum();
    assert!(header <= room as u64 + 16);
    assert_eq!(TensorSet::read(&file).unwrap().entries.len(), 3);
}

#[test]
fn headers_past_the_limit_are_not_written() {
    let name = "n".repeat(HEADER_LIMIT as usize);
    let s = TensorSet { entries: vec![entry(&name, Dtype::U8, vec![1], vec![1])] };
    assert!(matches!(s.write(), Err(safetensors::SafeTensorError::HeaderTooLarge)));
}

// A file that is nothing but a header.
fn bare(header: &str) -> Vec<u8> {
    let mut file = (header.len() as u64).to_le_bytes().to_vec();
    file.extend_from_slice(header.as_bytes());
    file
}

#[test]
fn headers_that_declare_too_much_are_refused() {
    // Eight tensors that together end where a machine word does.
    let size = (1u64 << 61) - 1;
    let entries: Vec<String> = (0..8u64)
        .map(|i| {
            format!(
                r#""t{i}":{{"dtype":"U8","shape":[{size}],"data_offsets":[{},{}]}}"#,
                i * size,
                (i + 1) * size
            )
        })
        .collect();
    let header = format!("{{{}}}", entries.join(","));
    assert!(matches!(TensorSet::read(&bare(&header)), Err(ReadError::TooLong)));
    let one = r#"{"t":{"dtype":"U8","shape":[9],"data_offsets":[0,9]}}"#;
    assert!(matches!(TensorSet::read(&bare(one)), Err(ReadError::Container(_))));
    assert!(matches!(TensorSet::read(&bare("{")), Err(ReadError::Container(_))));
    assert_eq!(TensorSet::read(&bare("{}")).unwrap().entries.len(), 0);
    assert!(matches!(TensorSet::read(&[255; 9]), Err(ReadError::Container(_))));
}

#[test]
fn inserting_again_replaces() {
    let s = set(vec![raw("a", vec![1]), raw("b", vec![2]), raw("a", vec![3, 4])]);
    assert_eq!(s.entries.len(), 2);
    assert_eq!(s.get("a").unwrap().data, vec![3, 4]);
}

const PLAIN: Features = Features { experimental_perm: false, experimental_q8k128: false };
const ALL: Features = Features { experimental_perm: true, experimental_q8k128: true };

fn file(name: &str, data: Vec<u8>) -> SourceFile {
    SourceFile { name: name.to_string(), data }
}

fn original() -> TensorSet {
    set(vec![
        floats("a.weight", vec![2, 256], 1.0),
        floats("b.weight", vec![1, 256], 2.0),
        floats("c.weight", vec![1, 4], 2.5),
        floats("model.norm.weight", vec![4], 3.0),
        floats("model.embed_tokens.weight", vec![1, 4], 4.0),
    ])
}

#[test]
fn packed_weights_are_loaded_as_written() {
    let ba = blocks(BlockFormat::Q4K, 2, 256, 5);
    let bb = blocks(BlockFormat::Q8K, 1, 256, 6);
    let perm: Vec<usize> = (0..256).rev().collect();
    let files = vec![
        file("a.weight.q4k", write_unchecked(BlockFormat::Q4K, 2, 256, &ba)),
        file("b.weight.q8k", write_unchecked(BlockFormat::Q8K, 1, 256, &bb)),
        file("b.weight.perm", write_perm(&perm)),
    ];
    let packed = pack_file(&original().write().unwrap(), &files, ALL).ok().unwrap();
    assert_eq!((packed.packer.quantized, packed.packer.preserved, packed.packer.perms), (2, 3, 1));
    let back = TensorSet::read(&packed.file).ok().unwrap();
    assert_eq!(back.entries.len(), 8);
    assert!(has_final_norm(&back));
    assert!(back.get("a.weight").is_none());
    assert_eq!(back.get("c.weight").unwrap().data, 2.5f32.to_le_bytes().repeat(4));
    let a = QuantLinear::load_q4k_from_packed_safetensors(&back, "a.weight", true).unwrap();
    assert!(matches!(&a.blocks, QuantBlocks::Q4K(x) if *x == ba));
    assert_eq!((a.out, a.k), (2, 256));
    let b = QuantLinear::load_from_packed_safetensors(&back, "b.weight", true).unwrap();
    assert!(matches!(&b.blocks, QuantBlocks::Q8K(x) if *x == bb));
    assert_eq!(b.perm, Some(perm));
    assert_eq!(a.perm, None);
    let embedded = back.get("model.embed_tokens.weight").unwrap();
    assert_eq!((&embedded.shape, &embedded.data), (&vec![1, 4], &4.0f32.to_le_bytes().repeat(4)));
    // Permutations are switched on and there is none.
    let bare = pack_file(&original().write().unwrap(), &files[..2].iter().map(copy).collect(), ALL);
    let back = TensorSet::read(&bare.ok().unwrap().file).ok().unwrap();
    let b = QuantLinear::load_from_packed_safetensors(&back, "b.weight", true).unwrap();
    assert!(matches!(&b.blocks, QuantBlocks::Q8K(x) if *x == bb));
    assert_eq!(b.perm, None);
}

fn copy(f: &SourceFile) -> SourceFile {
    file(&f.name, f.data.clone())
}

#[test]
fn every_format_is_packed() {
    for (f, ext) in [(BlockFormat::Q6K, "q6k"), (BlockFormat::Q8K128, "q8k128")] {
        let b = blocks(f, 1, 256, 1);
        let files = vec![file(&format!("b.weight.{ext}"), write_unchecked(f, 1, 256, &b))];
        let p = pack_model(&original(), &files, ALL).unwrap();
        assert_eq!(p.set.get(&format!("b.weight.{ext}")).unwrap().data, b);
        let m = p.set.get(&format!("b.weight.{ext}_meta")).unwrap();
        assert_eq!((m.dtype, &m.shape), (Dtype::I32, &vec![2]));
        assert_eq!(m.data, [1, 0, 0, 0, 0, 1, 0, 0]);
        assert_eq!((p.quantized, p.preserved), (1, 4));
    }
}

#[test]
fn switched_off_parts_are_skipped() {
    let bb = blocks(BlockFormat::Q8K, 1, 256, 6);
    let files = vec![
        file("a.weight.q8k128", vec![1, 2, 3]),
        file("b.weight.q8k", write_unchecked(BlockFormat::Q8K, 1, 256, &bb)),
        file("b.weight.perm", vec![0]),
    ];
    let p = pack_model(&original(), &files, PLAIN).unwrap();
    assert_eq!((p.perms, p.perms_skipped, p.q8k128_skipped), (0, 1, 1));
    assert_eq!((p.quantized, p.preserved), (1, 4));
    assert!(p.set.has("a.weight"));
}

fn pack_fault(files: Vec<SourceFile>) -> (PackFault, String) {
    let e = pack_model(&original(), &files, ALL).unwrap_err();
    (e.fault, e.name)
}

#[test]
fn unclear_or_damaged_files_are_not_packed() {
    let bb = blocks(BlockFormat::Q8K, 1, 256, 6);
    let good = write_unchecked(BlockFormat::Q8K, 1, 256, &bb);
    let both = Existing { q8k128: false, q4k: true, q6k: false, q8k: true };
    assert_eq!(
        pack_fault(vec![file("b.weight.q4k", vec![]), file("b.weight.q8k", vec![])]),
        (PackFault::Multiple(both), "b.weight".to_string())
    );
    assert_eq!(both.names(), vec!["Q4K", "Q8K"]);
    assert_eq!(
        pack_fault(vec![file("b.weight.q6k", vec![0; 3])]),
        (PackFault::File(BlockFormat::Q6K, FileError::TooSmall), "b.weight".to_string())
    );
    assert_eq!(
        pack_fault(vec![file("b.weight.q8k", good), file("b.weight.perm", vec![0; 9])]),
        (PackFault::Perm(PermError::BadMagic), "b.weight".to_string())
    );
    assert!(matches!(pack_file(b"?", &vec![], ALL), Err(PackingError::Read(_))));
    assert!(matches!(
        pack_file(&original().write().unwrap(), &vec![file("a.weight.q4k", vec![])], ALL),
        Err(PackingError::Weight(_))
    ));
}

#[test]
fn one_form_is_chosen() {
    let none = Existing { q8k128: false, q4k: false, q6k: false, q8k: false };
    assert_eq!(none.single(), Ok(None));
    assert_eq!(Existing { q6k: true, ..none }.single(), Ok(Some(BlockFormat::Q6K)));
    assert_eq!(Existing { q8k128: true, ..none }.single(), Ok(Some(BlockFormat::Q8K128)));
    let three = Existing { q8k128: true, q4k: true, q6k: true, q8k: false };
    assert_eq!(three.single(), Err(three));
    assert_eq!(three.names(), vec!["Q8K128", "Q4K", "Q6K"]);
}

#[test]
fn embeddings_and_norms_are_preserved() {
    assert!(is_quantized_weight("model.layers.0.mlp.down_proj.weight"));
    assert!(!is_quantized_weight("model.embed_tokens.weight"));
    assert!(!is_quantized_weight("word_embedding.weight"));
    assert!(!is_quantized_weight("model.norm.weight"));
    assert!(!is_quantized_weight("lm_head.bias"));
}
