//! Assembling the weights of a model from packed containers.

use vstd::prelude::*;
use vstd::string::*;

use crate::bytes::copied;
use crate::container::{
    container_tensors, elems, labelled, sized, unreadable, ReadError, TensorEntry, TensorRecord,
    TensorSet,
};
use crate::quant_linear::{
    is_packed_format, packed, perm_spec, q4k_spec, q8k_spec, LinearView, LoadError, LoadFault,
    QuantLinear,
};
use crate::text::{decimal, decimal_text, joined};
use crate::types::{
    float_width, law_widening_goes_one_by_one, tensor_to_f32, widened_at, Phi3Config, WidenError,
};

verus! {

/// A tensor of single-precision numbers, given by their bits.
#[derive(Debug)]
pub struct FloatTensor {
    pub bits: Vec<u32>,
    pub shape: Vec<usize>,
}

/// The weights of one transformer layer.
#[derive(Debug)]
pub struct LayerWeights {
    pub rms_1: Vec<u32>,
    pub rms_2: Vec<u32>,
    pub qkv_proj: QuantLinear,
    pub o_proj: QuantLinear,
    pub gate_up_proj: QuantLinear,
    pub down_proj: QuantLinear,
    pub num_attention_heads: usize,
    pub num_key_value_heads: usize,
    pub head_dim: usize,
    pub intermediate_size: usize,
}

/// The weights of a model.
#[derive(Debug)]
pub struct ModelWeights {
    pub wte: FloatTensor,
    pub blocks: Vec<LayerWeights>,
    pub ln_f: FloatTensor,
    pub lm_head: QuantLinear,
}

/// What a layer holds.
#[verifier::ext_equal]
pub struct LayerView {
    pub rms_1: Seq<u32>,
    pub rms_2: Seq<u32>,
    pub qkv_proj: LinearView,
    pub o_proj: LinearView,
    pub gate_up_proj: LinearView,
    pub down_proj: LinearView,
}

/// What a model holds.
#[verifier::ext_equal]
pub struct ModelView {
    pub wte: (Seq<u32>, Seq<usize>),
    pub blocks: Seq<LayerView>,
    pub ln_f: (Seq<u32>, Seq<usize>),
    pub lm_head: LinearView,
}

/// Why a model could not be assembled.
#[derive(Debug, Clone, Copy, PartialEq, Eq, Structural)]
pub enum ModelFault {
    /// A container holds no quantized weights.
    NotPacked,
    /// There is no such tensor.
    MissingTensor,
    /// There is no such quantized weight.
    MissingQuantized,
    /// The tensor's numbers cannot be widened.
    Widen(WidenError),
    /// The tensor is not as long as the model is wide.
    Width { got: usize, expected: usize },
    /// There is no final normalization.
    NoFinalNorm,
    /// A quantized layer could not be loaded.
    Linear(LoadFault),
}

/// A fault and the tensor that it is about.
#[derive(Debug)]
pub struct ModelError {
    pub fault: ModelFault,
    pub tensor: String,
}

/// A fault with the name of its tensor.
pub type Failure = (ModelFault, Seq<char>);

/// One container, or two of which the first is asked first.
pub struct Shards<'a> {
    pub first: &'a TensorSet,
    pub second: Option<&'a TensorSet>,
}

/// What one or two containers hold.
#[verifier::ext_equal]
pub struct ShardsView {
    pub first: Map<Seq<char>, TensorRecord>,
    pub second: Option<Map<Seq<char>, TensorRecord>>,
}

impl<'a> View for Shards<'a> {
    type V = ShardsView;

    open spec fn view(&self) -> ShardsView {
        ShardsView {
            first: self.first@,
            second: match self.second {
                Some(s) => Some(s@),
                None => None,
            },
        }
    }
}

impl<'a> Shards<'a> {
    /// The containers are well formed.
    pub open spec fn wf(&self) -> bool {
        &&& self.first.wf()
        &&& match self.second {
            Some(s) => s.wf(),
            None => true,
        }
    }
}

impl ShardsView {
    /// The tensor of this name, from the first container that has it.
    pub open spec fn find(self, name: Seq<char>) -> Option<TensorRecord> {
        if self.first.dom().contains(name) {
            Some(self.first[name])
        } else {
            match self.second {
                Some(m) => if m.dom().contains(name) {
                    Some(m[name])
                } else {
                    None
                },
                None => None,
            }
        }
    }

    /// Whether a second container has a tensor of this name.
    pub open spec fn second_has(self, name: Seq<char>) -> bool {
        match self.second {
            Some(m) => m.dom().contains(name),
            None => false,
        }
    }
}

/// The numbers of a tensor, as single-precision bits.
pub open spec fn float_bits(t: TensorRecord) -> Seq<u32> {
    Seq::new(
        (t.data.len() as int / float_width(t.dtype)->0) as nat,
        |i: int| widened_at(t.data, t.dtype, i) as u32,
    )
}

/// The numbers of the tensor `name`.
pub open spec fn floats_spec(s: ShardsView, name: Seq<char>) -> Result<Seq<u32>, Failure> {
    match s.find(name) {
        None => Err((ModelFault::MissingTensor, name)),
        Some(t) => if float_width(t.dtype) is None {
            Err((ModelFault::Widen(WidenError::UnsupportedDtype(t.dtype)), name))
        } else {
            Ok(float_bits(t))
        },
    }
}

/// The numbers of the tensor `name`, which are to be `width` many.
pub open spec fn vector_spec(s: ShardsView, name: Seq<char>, width: usize) -> Result<
    Seq<u32>,
    Failure,
> {
    match floats_spec(s, name) {
        Err(e) => Err(e),
        Ok(v) => if v.len() == width {
            Ok(v)
        } else {
            Err((ModelFault::Width { got: v.len() as usize, expected: width }, name))
        },
    }
}

/// A layer's fault as the model's.
pub open spec fn as_linear(r: Result<LinearView, LoadFault>, name: Seq<char>) -> Result<
    LinearView,
    Failure,
> {
    match r {
        Ok(l) => Ok(l),
        Err(f) => Err((ModelFault::Linear(f), name)),
    }
}

/// The quantized weight `name`. A Q4K weight is preferred to a Q8K one, and
/// within a format the first container to the second.
pub open spec fn quant_spec(s: ShardsView, name: Seq<char>, perm: bool) -> Result<
    LinearView,
    Failure,
> {
    if s.first.dom().contains(name + ".q4k_meta"@) {
        as_linear(q4k_spec(s.first, name, perm), name)
    } else if s.second_has(name + ".q4k_meta"@) {
        as_linear(q4k_spec(s.second->0, name, perm), name)
    } else if s.second is None || s.first.dom().contains(name + ".q8k_meta"@) {
        as_linear(q8k_spec(s.first, name, perm), name)
    } else if s.second_has(name + ".q8k_meta"@) {
        as_linear(q8k_spec(s.second->0, name, perm), name)
    } else {
        Err((ModelFault::MissingQuantized, name))
    }
}

/// The name of a tensor of layer `i`.
pub open spec fn layer_name(i: nat, tail: Seq<char>) -> Seq<char> {
    "model.layers."@ + decimal(i) + tail
}

/// The weights of layer `i`, or what fails first.
#[verifier::opaque]
pub open spec fn layer_spec(s: ShardsView, c: Phi3Config, i: nat, perm: bool) -> Result<
    LayerView,
    Failure,
> {
    match vector_spec(s, layer_name(i, ".input_layernorm.weight"@), c.hidden_size) {
        Err(e) => Err(e),
        Ok(rms_1) => match vector_spec(
            s,
            layer_name(i, ".post_attention_layernorm.weight"@),
            c.hidden_size,
        ) {
            Err(e) => Err(e),
            Ok(rms_2) => match quant_spec(s, layer_name(i, ".self_attn.qkv_proj.weight"@), perm) {
                Err(e) => Err(e),
                Ok(qkv_proj) => match quant_spec(
                    s,
                    layer_name(i, ".self_attn.o_proj.weight"@),
                    perm,
                ) {
                    Err(e) => Err(e),
                    Ok(o_proj) => match quant_spec(
                        s,
                        layer_name(i, ".mlp.gate_up_proj.weight"@),
                        perm,
                    ) {
                        Err(e) => Err(e),
                        Ok(gate_up_proj) => match quant_spec(
                            s,
                            layer_name(i, ".mlp.down_proj.weight"@),
                            perm,
                        ) {
                            Err(e) => Err(e),
                            Ok(down_proj) => Ok(
                                LayerView {
                                    rms_1,
                                    rms_2,
                                    qkv_proj,
                                    o_proj,
                                    gate_up_proj,
                                    down_proj,
                                },
                            ),
                        },
                    },
                },
            },
        },
    }
}

/// The weights of the first `n` layers, or what fails first.
pub open spec fn layers_spec(s: ShardsView, c: Phi3Config, n: nat, perm: bool) -> Result<
    Seq<LayerView>,
    Failure,
>
    decreases n,
{
    if n == 0 {
        Ok(Seq::empty())
    } else {
        match layers_spec(s, c, (n - 1) as nat, perm) {
            Err(e) => Err(e),
            Ok(v) => match layer_spec(s, c, (n - 1) as nat, perm) {
                Err(e) => Err(e),
                Ok(l) => Ok(v.push(l)),
            },
        }
    }
}

impl View for LayerWeights {
    type V = LayerView;

    open spec fn view(&self) -> LayerView {
        LayerView {
            rms_1: self.rms_1@,
            rms_2: self.rms_2@,
            qkv_proj: self.qkv_proj@,
            o_proj: self.o_proj@,
            gate_up_proj: self.gate_up_proj@,
            down_proj: self.down_proj@,
        }
    }
}

impl LayerWeights {
    /// The layer has the dimensions of the configuration.
    pub open spec fn shaped(&self, c: Phi3Config) -> bool {
        &&& self.num_attention_heads == c.num_attention_heads
        &&& self.num_key_value_heads == c.kv_heads()
        &&& self.head_dim == c.hidden_size as int / c.num_attention_heads as int
        &&& self.intermediate_size == c.intermediate_size
    }

    /// The quantized weights are called as in layer `i`.
    pub open spec fn named(&self, i: nat) -> bool {
        &&& self.qkv_proj.name@ == layer_name(i, ".self_attn.qkv_proj.weight"@)
        &&& self.o_proj.name@ == layer_name(i, ".self_attn.o_proj.weight"@)
        &&& self.gate_up_proj.name@ == layer_name(i, ".mlp.gate_up_proj.weight"@)
        &&& self.down_proj.name@ == layer_name(i, ".mlp.down_proj.weight"@)
    }

    /// The normalizations are the numbers of the tensors that are called so in
    /// layer `i`.
    pub open spec fn normalizes(&self, s: ShardsView, i: nat) -> bool {
        let first = s.find("model.layers."@ + decimal(i) + ".input_layernorm.weight"@);
        let second = s.find("model.layers."@ + decimal(i) + ".post_attention_layernorm.weight"@);
        &&& first is Some
        &&& second is Some
        &&& self.rms_1@ == float_bits(first->0)
        &&& self.rms_2@ == float_bits(second->0)
    }
}

/// What the layers hold.
pub open spec fn layer_views(v: Seq<LayerWeights>) -> Seq<LayerView> {
    v.map_values(|l: LayerWeights| l@)
}

impl View for ModelWeights {
    type V = ModelView;

    open spec fn view(&self) -> ModelView {
        ModelView {
            wte: (self.wte.bits@, self.wte.shape@),
            blocks: layer_views(self.blocks@),
            ln_f: (self.ln_f.bits@, self.ln_f.shape@),
            lm_head: self.lm_head@,
        }
    }
}

/// `r` is the failure `e`.
pub open spec fn fails<T>(r: Result<T, ModelError>, e: Failure) -> bool {
    r is Err && r->Err_0.fault == e.0 && r->Err_0.tensor@ == e.1
}

fn failure<T>(fault: ModelFault, tensor: &str) -> (r: Result<T, ModelError>)
    ensures
        fails(r, (fault, tensor@)),
{
    Err(ModelError { fault, tensor: tensor.to_owned() })
}

/// The name of a tensor of layer `i`.
pub fn layer_tensor(i: usize, tail: &str) -> (r: String)
    ensures
        r@ == layer_name(i as nat, tail@),
{
    let number = decimal_text(i);
    let head = joined("model.layers.", number.as_str());
    joined(head.as_str(), tail)
}

impl<'a> Shards<'a> {
    /// The tensor of this name.
    fn find(&self, name: &str) -> (r: Option<&'a TensorEntry>)
        requires
            self.wf(),
        ensures
            match r {
                Some(t) => self@.find(name@) == Some(t.record()) && t.valid(),
                None => self@.find(name@) is None,
            },
    {
        match self.first.get(name) {
            Some(t) => Some(t),
            None => match self.second {
                Some(s) => s.get(name),
                None => None,
            },
        }
    }

    /// The numbers of the tensor `name`.
    fn load_tensor(&self, name: &str) -> (r: Result<Vec<u32>, ModelError>)
        requires
            self.wf(),
        ensures
            match r {
                Ok(v) => floats_spec(self@, name@) == Ok::<Seq<u32>, Failure>(v@),
                Err(e) => floats_spec(self@, name@) is Err && fails(
                    r,
                    floats_spec(self@, name@)->Err_0,
                ),
            },
    {
        match self.find(name) {
            Some(t) => widen_entry(t, name),
            None => failure(ModelFault::MissingTensor, name),
        }
    }

    /// The numbers of the tensor `name`, which are to be `width` many.
    fn load_vector(&self, name: &str, width: usize) -> (r: Result<Vec<u32>, ModelError>)
        requires
            self.wf(),
        ensures
            match r {
                Ok(v) => vector_spec(self@, name@, width) == Ok::<Seq<u32>, Failure>(v@),
                Err(e) => vector_spec(self@, name@, width) is Err && fails(
                    r,
                    vector_spec(self@, name@, width)->Err_0,
                ),
            },
    {
        match self.load_tensor(name) {
            Ok(v) => if v.len() == width {
                Ok(v)
            } else {
                failure(ModelFault::Width { got: v.len(), expected: width }, name)
            },
            Err(e) => Err(e),
        }
    }

    /// The quantized weight `name`.
    pub fn load_quant(&self, name: &str, perm: bool) -> (r: Result<QuantLinear, ModelError>)
        requires
            self.wf(),
        ensures
            match r {
                Ok(l) => quant_spec(self@, name@, perm) == Ok::<LinearView, Failure>(l@) && l.name@
                    == name@,
                Err(e) => quant_spec(self@, name@, perm) is Err && fails(
                    r,
                    quant_spec(self@, name@, perm)->Err_0,
                ),
            },
    {
        let q4k_meta = joined(name, ".q4k_meta");
        let q8k_meta = joined(name, ".q8k_meta");
        if self.first.has(q4k_meta.as_str()) {
            return linear(QuantLinear::load_q4k_from_packed_safetensors(self.first, name, perm));
        }
        let second = match self.second {
            Some(s) => s,
            None => {
                return linear(QuantLinear::load_from_packed_safetensors(self.first, name, perm));
            },
        };
        if second.has(q4k_meta.as_str()) {
            return linear(QuantLinear::load_q4k_from_packed_safetensors(second, name, perm));
        }
        if self.first.has(q8k_meta.as_str()) {
            return linear(QuantLinear::load_from_packed_safetensors(self.first, name, perm));
        }
        if second.has(q8k_meta.as_str()) {
            return linear(QuantLinear::load_from_packed_safetensors(second, name, perm));
        }
        failure(ModelFault::MissingQuantized, name)
    }

    /// The weights of layer `i`.
    fn load_layer(&self, config: &Phi3Config, i: usize, perm: bool) -> (r: Result<
        LayerWeights,
        ModelError,
    >)
        requires
            self.wf(),
            config.num_attention_heads > 0,
        ensures
            match r {
                Ok(l) => layer_spec(self@, *config, i as nat, perm) == Ok::<LayerView, Failure>(
                    l@,
                ) && l.shaped(*config) && l.named(i as nat) && l.normalizes(self@, i as nat),
                Err(e) => layer_spec(self@, *config, i as nat, perm) is Err && fails(
                    r,
                    layer_spec(self@, *config, i as nat, perm)->Err_0,
                ),
            },
    {
        reveal(layer_spec);
        let rms_1 = match self.load_vector(
            layer_tensor(i, ".input_layernorm.weight").as_str(),
            config.hidden_size,
        ) {
            Ok(v) => v,
            Err(e) => {
                return Err(e);
            },
        };
        let rms_2 = match self.load_vector(
            layer_tensor(i, ".post_attention_layernorm.weight").as_str(),
            config.hidden_size,
        ) {
            Ok(v) => v,
            Err(e) => {
                return Err(e);
            },
        };
        let qkv_proj = match self.load_quant(
            layer_tensor(i, ".self_attn.qkv_proj.weight").as_str(),
            perm,
        ) {
            Ok(l) => l,
            Err(e) => {
                return Err(e);
            },
        };
        let o_proj = match self.load_quant(
            layer_tensor(i, ".self_attn.o_proj.weight").as_str(),
            perm,
        ) {
            Ok(l) => l,
            Err(e) => {
                return Err(e);
            },
        };
        let gate_up_proj = match self.load_quant(
            layer_tensor(i, ".mlp.gate_up_proj.weight").as_str(),
            perm,
        ) {
            Ok(l) => l,
            Err(e) => {
                return Err(e);
            },
        };
        let down_proj = match self.load_quant(
            layer_tensor(i, ".mlp.down_proj.weight").as_str(),
            perm,
        ) {
            Ok(l) => l,
            Err(e) => {
                return Err(e);
            },
        };
        Ok(
            LayerWeights {
                rms_1,
                rms_2,
                qkv_proj,
                o_proj,
                gate_up_proj,
                down_proj,
                num_attention_heads: config.num_attention_heads,
                num_key_value_heads: config.num_key_value_heads(),
                head_dim: config.head_dim(),
                intermediate_size: config.intermediate_size,
            },
        )
    }

    /// The weights of all layers.
    pub fn load_blocks(&self, config: &Phi3Config, perm: bool) -> (r: Result<
        Vec<LayerWeights>,
        ModelError,
    >)
        requires
            self.wf(),
            config.num_hidden_layers > 0 ==> config.num_attention_heads > 0,
        ensures
            match r {
                Ok(v) => {
                    &&& layers_spec(self@, *config, config.num_hidden_layers as nat, perm) == Ok::<
                        Seq<LayerView>,
                        Failure,
                    >(layer_views(v@))
                    &&& forall|i: int|
                        0 <= i < v@.len() ==> (#[trigger] v@[i]).shaped(*config) && v@[i].named(
                            i as nat,
                        ) && v@[i].normalizes(self@, i as nat)
                },
                Err(e) => {
                    let s = layers_spec(self@, *config, config.num_hidden_layers as nat, perm);
                    s is Err && fails(r, s->Err_0)
                },
            },
    {
        let n: usize = config.num_hidden_layers;
        let mut v: Vec<LayerWeights> = Vec::new();
        let mut i: usize = 0;
        assert(layer_views(v@) =~= Seq::<LayerView>::empty());
        while i < n
            invariant
                self.wf(),
                n == config.num_hidden_layers,
                n > 0 ==> config.num_attention_heads > 0,
                i <= n,
                layers_spec(self@, *config, i as nat, perm) == Ok::<Seq<LayerView>, Failure>(
                    layer_views(v@),
                ),
                v@.len() == i,
                forall|j: int|
                    0 <= j < v@.len() ==> (#[trigger] v@[j]).shaped(*config) && v@[j].named(
                        j as nat,
                    ) && v@[j].normalizes(self@, j as nat),
            decreases n - i,
        {
            match self.load_layer(config, i, perm) {
                Ok(l) => {
                    let ghost before = v@;
                    v.push(l);
                    proof {
                        assert(layer_views(v@) =~= layer_views(before).push(l@));
                        lemma_next_layer(self@, *config, i as nat, perm, layer_views(before), l@);
                    }
                },
                Err(e) => {
                    proof {
                        lemma_failed_layer(self@, *config, i as nat, n as nat, perm);
                    }
                    return Err(e);
                },
            }
            i += 1;
        }
        Ok(v)
    }
}

/// One more layer goes behind those before it.
proof fn lemma_next_layer(
    s: ShardsView,
    c: Phi3Config,
    i: nat,
    perm: bool,
    v: Seq<LayerView>,
    l: LayerView,
)
    requires
        layers_spec(s, c, i, perm) == Ok::<Seq<LayerView>, Failure>(v),
        layer_spec(s, c, i, perm) == Ok::<LayerView, Failure>(l),
    ensures
        layers_spec(s, c, i + 1, perm) == Ok::<Seq<LayerView>, Failure>(v.push(l)),
{
}

/// The failure of one layer is the failure of all.
proof fn lemma_failed_layer(s: ShardsView, c: Phi3Config, i: nat, n: nat, perm: bool)
    requires
        i < n,
        layers_spec(s, c, i, perm) is Ok,
        layer_spec(s, c, i, perm) is Err,
    ensures
        layers_spec(s, c, n, perm) is Err,
        layers_spec(s, c, n, perm)->Err_0 == layer_spec(s, c, i, perm)->Err_0,
    decreases n,
{
    if n > i + 1 {
        lemma_failed_layer(s, c, i, (n - 1) as nat, perm);
    }
}

fn widen_entry(t: &TensorEntry, name: &str) -> (r: Result<Vec<u32>, ModelError>)
    ensures
        match r {
            Ok(v) => float_width(t.dtype) is Some && v@ == float_bits(t.record()),
            Err(e) => float_width(t.dtype) is None && fails(
                r,
                (ModelFault::Widen(WidenError::UnsupportedDtype(t.dtype)), name@),
            ),
        },
{
    match tensor_to_f32(t.data.as_slice(), t.dtype) {
        Ok(v) => {
            assert(v@ =~= float_bits(t.record()));
            Ok(v)
        },
        Err(e) => failure(ModelFault::Widen(e), name),
    }
}

fn linear(r: Result<QuantLinear, LoadError>) -> (s: Result<
    QuantLinear,
    ModelError,
>)
    ensures
        match r {
            Ok(l) => s == Ok::<QuantLinear, ModelError>(l),
            Err(e) => fails(s, (ModelFault::Linear(e.fault), e.name@)),
        },
{
    match r {
        Ok(l) => Ok(l),
        Err(e) => Err(ModelError { fault: ModelFault::Linear(e.fault), tensor: e.name }),
    }
}

// ── whole models ───────────────────────────────────────────────────────────

/// The embedding matrix and its shape.
pub open spec fn embedding_spec(s: ShardsView) -> Result<(Seq<u32>, Seq<usize>), Failure> {
    match floats_spec(s, "model.embed_tokens.weight"@) {
        Err(e) => Err(e),
        Ok(v) => Ok((v, s.find("model.embed_tokens.weight"@)->0.shape)),
    }
}

/// The name under which a container holds the final normalization.
pub open spec fn norm_name(m: Map<Seq<char>, TensorRecord>) -> Option<Seq<char>> {
    if m.dom().contains("model.norm.weight"@) {
        Some("model.norm.weight"@)
    } else if m.dom().contains("model.final_layernorm.weight"@) {
        Some("model.final_layernorm.weight"@)
    } else if m.dom().contains("norm.weight"@) {
        Some("norm.weight"@)
    } else {
        None
    }
}

/// The final normalization of a model in one container, with its shape.
pub open spec fn norm_spec(m: Map<Seq<char>, TensorRecord>) -> Result<
    (Seq<u32>, Seq<usize>),
    Failure,
> {
    match norm_name(m) {
        None => Err((ModelFault::NoFinalNorm, Seq::empty())),
        Some(name) => match floats_spec(ShardsView { first: m, second: None }, name) {
            Err(e) => Err(e),
            Ok(v) => Ok((v, m[name].shape)),
        },
    }
}

/// The first of the names of the final normalization whose numbers can be
/// loaded from either container.
pub open spec fn shard_norm_name(s: ShardsView) -> Option<Seq<char>> {
    if floats_spec(s, "model.norm.weight"@) is Ok {
        Some("model.norm.weight"@)
    } else if floats_spec(s, "model.final_layernorm.weight"@) is Ok {
        Some("model.final_layernorm.weight"@)
    } else if floats_spec(s, "norm.weight"@) is Ok {
        Some("norm.weight"@)
    } else {
        None
    }
}

/// The final normalization of a model in two containers: as wide as the model.
pub open spec fn shard_norm_spec(s: ShardsView, width: usize) -> Result<
    (Seq<u32>, Seq<usize>),
    Failure,
> {
    match shard_norm_name(s) {
        None => Err((ModelFault::NoFinalNorm, Seq::empty())),
        Some(name) => match vector_spec(s, name, width) {
            Err(e) => Err(e),
            Ok(v) => Ok((v, seq![width])),
        },
    }
}

/// The layers and the output head that go with the embedding and the final
/// normalization.
pub open spec fn model_with(
    s: ShardsView,
    c: Phi3Config,
    perm: bool,
    wte: Result<(Seq<u32>, Seq<usize>), Failure>,
    ln_f: Result<(Seq<u32>, Seq<usize>), Failure>,
    lm_head: Result<LinearView, Failure>,
) -> Result<ModelView, Failure> {
    match wte {
        Err(e) => Err(e),
        Ok(wte) => match ln_f {
            Err(e) => Err(e),
            Ok(ln_f) => match layers_spec(s, c, c.num_hidden_layers as nat, perm) {
                Err(e) => Err(e),
                Ok(blocks) => match lm_head {
                    Err(e) => Err(e),
                    Ok(lm_head) => Ok(ModelView { wte, blocks, ln_f, lm_head }),
                },
            },
        },
    }
}

/// The model that one container holds, or what fails first. The output head is
/// a Q8K weight.
pub open spec fn model_spec(m: Map<Seq<char>, TensorRecord>, c: Phi3Config, perm: bool) -> Result<
    ModelView,
    Failure,
> {
    let s = ShardsView { first: m, second: None };
    if !packed(m) {
        Err((ModelFault::NotPacked, Seq::empty()))
    } else {
        model_with(
            s,
            c,
            perm,
            embedding_spec(s),
            norm_spec(m),
            as_linear(q8k_spec(m, "lm_head.weight"@, perm), "lm_head.weight"@),
        )
    }
}

/// The model that two containers hold, or what fails first.
pub open spec fn shard_model_spec(
    m1: Map<Seq<char>, TensorRecord>,
    m2: Map<Seq<char>, TensorRecord>,
    c: Phi3Config,
    perm: bool,
) -> Result<ModelView, Failure> {
    let s = ShardsView { first: m1, second: Some(m2) };
    if !packed(m1) || !packed(m2) {
        Err((ModelFault::NotPacked, Seq::empty()))
    } else {
        model_with(
            s,
            c,
            perm,
            embedding_spec(s),
            shard_norm_spec(s, c.hidden_size),
            quant_spec(s, "lm_head.weight"@, perm),
        )
    }
}

/// `r` is what `s` says.
pub open spec fn assembled(
    r: Result<ModelWeights, ModelError>,
    s: Result<ModelView, Failure>,
    c: Phi3Config,
) -> bool {
    match r {
        Ok(m) => {
            &&& s == Ok::<ModelView, Failure>(m@)
            &&& forall|i: int|
                0 <= i < m.blocks@.len() ==> (#[trigger] m.blocks@[i]).shaped(c)
                    && m.blocks@[i].named(i as nat)
            &&& m.lm_head.name@ == "lm_head.weight"@
        },
        Err(_) => s is Err && fails(r, s->Err_0),
    }
}

impl<'a> Shards<'a> {
    /// The tensor `name` with its shape.
    fn load_shaped(&self, name: &str) -> (r: Result<FloatTensor, ModelError>)
        requires
            self.wf(),
        ensures
            match r {
                Ok(t) => floats_spec(self@, name@) == Ok::<Seq<u32>, Failure>(t.bits@) && t.shape@
                    == self@.find(name@)->0.shape,
                Err(e) => floats_spec(self@, name@) is Err && fails(
                    r,
                    floats_spec(self@, name@)->Err_0,
                ),
            },
    {
        match self.find(name) {
            Some(t) => match widen_entry(t, name) {
                Ok(bits) => Ok(FloatTensor { bits, shape: copied(t.shape.as_slice()) }),
                Err(e) => Err(e),
            },
            None => failure(ModelFault::MissingTensor, name),
        }
    }

    /// The first of the names of the final normalization whose numbers can be
    /// loaded.
    fn norm_name(&self) -> (r: Option<&'static str>)
        requires
            self.wf(),
        ensures
            match r {
                Some(name) => shard_norm_name(self@) == Some(name@),
                None => shard_norm_name(self@) is None,
            },
    {
        if self.load_tensor("model.norm.weight").is_ok() {
            Some("model.norm.weight")
        } else if self.load_tensor("model.final_layernorm.weight").is_ok() {
            Some("model.final_layernorm.weight")
        } else if self.load_tensor("norm.weight").is_ok() {
            Some("norm.weight")
        } else {
            None
        }
    }
}

/// Assembles a model from one container.
pub fn assemble_model(set: &TensorSet, config: &Phi3Config, perm: bool) -> (r: Result<
    ModelWeights,
    ModelError,
>)
    requires
        set.wf(),
        config.num_hidden_layers > 0 ==> config.num_attention_heads > 0,
    ensures
        assembled(r, model_spec(set@, *config, perm), *config),
        r is Ok ==> forall|i: int|
            0 <= i < r->Ok_0.blocks@.len() ==> (#[trigger] r->Ok_0.blocks@[i]).normalizes(
                ShardsView { first: set@, second: None },
                i as nat,
            ),
{
    if !is_packed_format(set) {
        proof {
            reveal_strlit("");
            assert(""@ =~= Seq::<char>::empty());
        }
        return failure(ModelFault::NotPacked, "");
    }
    let shards = Shards { first: set, second: None };
    let wte = match shards.load_shaped("model.embed_tokens.weight") {
        Ok(t) => t,
        Err(e) => {
            return Err(e);
        },
    };
    let norm: &str = if set.has("model.norm.weight") {
        "model.norm.weight"
    } else if set.has("model.final_layernorm.weight") {
        "model.final_layernorm.weight"
    } else if set.has("norm.weight") {
        "norm.weight"
    } else {
        proof {
            reveal_strlit("");
            assert(""@ =~= Seq::<char>::empty());
        }
        return failure(ModelFault::NoFinalNorm, "");
    };
    let ln_f = match shards.load_shaped(norm) {
        Ok(t) => t,
        Err(e) => {
            return Err(e);
        },
    };
    let blocks = match shards.load_blocks(config, perm) {
        Ok(v) => v,
        Err(e) => {
            return Err(e);
        },
    };
    match linear(QuantLinear::load_from_packed_safetensors(set, "lm_head.weight", perm)) {
        Ok(lm_head) => Ok(ModelWeights { wte, blocks, ln_f, lm_head }),
        Err(e) => Err(e),
    }
}

/// Assembles a model from two containers, of which the first is asked first.
pub fn assemble_model_multi_shard(
    set1: &TensorSet,
    set2: &TensorSet,
    config: &Phi3Config,
    perm: bool,
) -> (r: Result<ModelWeights, ModelError>)
    requires
        set1.wf(),
        set2.wf(),
        config.num_hidden_layers > 0 ==> config.num_attention_heads > 0,
    ensures
        assembled(r, shard_model_spec(set1@, set2@, *config, perm), *config),
        r is Ok ==> forall|i: int|
            0 <= i < r->Ok_0.blocks@.len() ==> (#[trigger] r->Ok_0.blocks@[i]).normalizes(
                ShardsView { first: set1@, second: Some(set2@) },
                i as nat,
            ),
{
    proof {
        reveal_strlit("");
        assert(""@ =~= Seq::<char>::empty());
    }
    if !is_packed_format(set1) || !is_packed_format(set2) {
        return failure(ModelFault::NotPacked, "");
    }
    let shards = Shards { first: set1, second: Some(set2) };
    let wte = match shards.load_shaped("model.embed_tokens.weight") {
        Ok(t) => t,
        Err(e) => {
            return Err(e);
        },
    };
    let norm: &str = match shards.norm_name() {
        Some(name) => name,
        None => {
            return failure(ModelFault::NoFinalNorm, "");
        },
    };
    let ln_f = match shards.load_vector(norm, config.hidden_size) {
        Ok(bits) => {
            let mut shape: Vec<usize> = Vec::new();
            shape.push(config.hidden_size);
            assert(shape@ =~= seq![config.hidden_size]);
            FloatTensor { bits, shape }
        },
        Err(e) => {
            return Err(e);
        },
    };
    let blocks = match shards.load_blocks(config, perm) {
        Ok(v) => v,
        Err(e) => {
            return Err(e);
        },
    };
    match shards.load_quant("lm_head.weight", perm) {
        Ok(lm_head) => Ok(ModelWeights { wte, blocks, ln_f, lm_head }),
        Err(e) => Err(e),
    }
}

/// Why a model could not be built from files.
pub enum BuildError {
    /// A file cannot be read.
    Container(ReadError),
    /// The containers do not hold a model.
    Model(ModelError),
}

/// Builds a model from the bytes of a packed container.
pub fn build_model(file: &[u8], config: &Phi3Config, perm: bool) -> (r: Result<
    ModelWeights,
    BuildError,
>)
    requires
        config.num_hidden_layers > 0 ==> config.num_attention_heads > 0,
    ensures
        match r {
            Err(BuildError::Container(e)) => unreadable(file@, e),
            Err(BuildError::Model(e)) => exists|m: Map<Seq<char>, TensorRecord>|
                {
                    &&& container_tensors(file@) == Some(#[trigger] labelled(m))
                    &&& assembled(
                        Err::<ModelWeights, ModelError>(e),
                        model_spec(m, *config, perm),
                        *config,
                    )
                },
            Ok(w) => exists|m: Map<Seq<char>, TensorRecord>|
                {
                    &&& container_tensors(file@) == Some(#[trigger] labelled(m))
                    &&& assembled(
                        Ok::<ModelWeights, ModelError>(w),
                        model_spec(m, *config, perm),
                        *config,
                    )
                },
        },
{
    let set = match TensorSet::read(file) {
        Ok(s) => s,
        Err(e) => {
            return Err(BuildError::Container(e));
        },
    };
    assert(container_tensors(file@) == Some(labelled(set@)));
    match assemble_model(&set, config, perm) {
        Ok(w) => Ok(w),
        Err(e) => Err(BuildError::Model(e)),
    }
}

/// Builds a model from the bytes of two packed containers.
pub fn build_model_multi_shard(
    file1: &[u8],
    file2: &[u8],
    config: &Phi3Config,
    perm: bool,
) -> (r: Result<ModelWeights, BuildError>)
    requires
        config.num_hidden_layers > 0 ==> config.num_attention_heads > 0,
    ensures
        match r {
            Err(BuildError::Container(e)) => unreadable(file1@, e) || unreadable(file2@, e),
            Err(BuildError::Model(e)) => exists|
                m1: Map<Seq<char>, TensorRecord>,
                m2: Map<Seq<char>, TensorRecord>,
            |
                {
                    &&& container_tensors(file1@) == Some(#[trigger] labelled(m1))
                    &&& container_tensors(file2@) == Some(#[trigger] labelled(m2))
                    &&& assembled(
                        Err::<ModelWeights, ModelError>(e),
                        shard_model_spec(m1, m2, *config, perm),
                        *config,
                    )
                },
            Ok(w) => exists|m1: Map<Seq<char>, TensorRecord>, m2: Map<Seq<char>, TensorRecord>|
                {
                    &&& container_tensors(file1@) == Some(#[trigger] labelled(m1))
                    &&& container_tensors(file2@) == Some(#[trigger] labelled(m2))
                    &&& assembled(
                        Ok::<ModelWeights, ModelError>(w),
                        shard_model_spec(m1, m2, *config, perm),
                        *config,
                    )
                },
        },
{
    let set1 = match TensorSet::read(file1) {
        Ok(s) => s,
        Err(e) => {
            return Err(BuildError::Container(e));
        },
    };
    let set2 = match TensorSet::read(file2) {
        Ok(s) => s,
        Err(e) => {
            return Err(BuildError::Container(e));
        },
    };
    assert(container_tensors(file1@) == Some(labelled(set1@)));
    assert(container_tensors(file2@) == Some(labelled(set2@)));
    match assemble_model_multi_shard(&set1, &set2, config, perm) {
        Ok(w) => Ok(w),
        Err(e) => Err(BuildError::Model(e)),
    }
}

// ── what loading promises ──────────────────────────────────────────────────

/// The numbers of a tensor are as many as its shape has places.
pub proof fn law_numbers_fill_the_shape(t: TensorRecord)
    requires
        sized(t.dtype, t.shape, t.data.len()),
        float_width(t.dtype) is Some,
    ensures
        float_bits(t).len() == elems(t.shape),
{
    let e = elems(t.shape) as int;
    let w = float_width(t.dtype)->0;
    assert(t.data.len() == e * w) by (nonlinear_arith)
        requires
            e * (8 * w) == 8 * t.data.len(),
    ;
    assert(t.data.len() as int / w == e) by (nonlinear_arith)
        requires
            t.data.len() == e * w,
            w > 0,
    ;
}

/// No model is loaded from shards of which neither has a final normalization.
pub proof fn law_no_model_without_norm(
    m1: Map<Seq<char>, TensorRecord>,
    m2: Map<Seq<char>, TensorRecord>,
    c: Phi3Config,
    perm: bool,
)
    requires
        norm_name(m1) is None,
        norm_name(m2) is None,
    ensures
        shard_model_spec(m1, m2, c, perm) is Err,
        model_spec(m1, c, perm) is Err,
{
}

/// The containers share no name.
pub open spec fn apart(m1: Map<Seq<char>, TensorRecord>, m2: Map<Seq<char>, TensorRecord>) -> bool {
    forall|name: Seq<char>| !(#[trigger] m1.dom().contains(name) && m2.dom().contains(name))
}

/// Container `m` has nothing of the quantized weight `name`.
pub open spec fn lacks_weight(m: Map<Seq<char>, TensorRecord>, name: Seq<char>) -> bool {
    &&& !m.dom().contains(name + ".q4k_meta"@)
    &&& !m.dom().contains(name + ".q4k"@)
    &&& !m.dom().contains(name + ".q8k_meta"@)
    &&& !m.dom().contains(name + ".q8k"@)
    &&& !m.dom().contains(name + ".perm"@)
}

/// Everything of the quantized weight `name` is in one of the containers.
pub open spec fn weight_together(
    m1: Map<Seq<char>, TensorRecord>,
    m2: Map<Seq<char>, TensorRecord>,
    name: Seq<char>,
) -> bool {
    lacks_weight(m1, name) || lacks_weight(m2, name)
}

/// The quantized weights of layer `i` are each in one of the containers.
pub open spec fn layer_together(
    m1: Map<Seq<char>, TensorRecord>,
    m2: Map<Seq<char>, TensorRecord>,
    i: nat,
) -> bool {
    &&& weight_together(m1, m2, layer_name(i, ".self_attn.qkv_proj.weight"@))
    &&& weight_together(m1, m2, layer_name(i, ".self_attn.o_proj.weight"@))
    &&& weight_together(m1, m2, layer_name(i, ".mlp.gate_up_proj.weight"@))
    &&& weight_together(m1, m2, layer_name(i, ".mlp.down_proj.weight"@))
}

/// One container with all that two hold.
pub open spec fn joint(m1: Map<Seq<char>, TensorRecord>, m2: Map<Seq<char>, TensorRecord>) -> Map<
    Seq<char>,
    TensorRecord,
> {
    m1.union_prefer_right(m2)
}

proof fn lemma_find_joint(
    m1: Map<Seq<char>, TensorRecord>,
    m2: Map<Seq<char>, TensorRecord>,
    name: Seq<char>,
)
    requires
        apart(m1, m2),
    ensures
        (ShardsView { first: m1, second: Some(m2) }).find(name) == (ShardsView {
            first: joint(m1, m2),
            second: None,
        }).find(name),
{
    assert(!(m1.dom().contains(name) && m2.dom().contains(name)));
}

proof fn lemma_quant_joint(
    m1: Map<Seq<char>, TensorRecord>,
    m2: Map<Seq<char>, TensorRecord>,
    name: Seq<char>,
    perm: bool,
)
    requires
        apart(m1, m2),
        weight_together(m1, m2, name),
        quant_spec(ShardsView { first: joint(m1, m2), second: None }, name, perm) is Ok,
    ensures
        quant_spec(ShardsView { first: m1, second: Some(m2) }, name, perm) == quant_spec(
            ShardsView { first: joint(m1, m2), second: None },
            name,
            perm,
        ),
{
    let j = joint(m1, m2);
    let m = if lacks_weight(m1, name) {
        m2
    } else {
        m1
    };
    assert(agree_on(m, j, name + ".q4k_meta"@));
    assert(agree_on(m, j, name + ".q4k"@));
    assert(agree_on(m, j, name + ".q8k_meta"@));
    assert(agree_on(m, j, name + ".q8k"@));
    assert(agree_on(m, j, name + ".perm"@));
    assert(perm_spec(m, name, perm) == perm_spec(j, name, perm));
    assert(m.dom().contains(name + ".q4k_meta"@) ==> q4k_spec(m, name, perm) == q4k_spec(
        j,
        name,
        perm,
    ));
    assert(m.dom().contains(name + ".q8k_meta"@) ==> q8k_spec(m, name, perm) == q8k_spec(
        j,
        name,
        perm,
    ));
}

spec fn agree_on(
    a: Map<Seq<char>, TensorRecord>,
    b: Map<Seq<char>, TensorRecord>,
    key: Seq<char>,
) -> bool {
    &&& a.dom().contains(key) == b.dom().contains(key)
    &&& a.dom().contains(key) ==> a[key] == b[key]
}

/// How a model is spread over two containers does not change its layers: where
/// they load from one container with everything, they load alike from two, as
/// long as no tensor is in both and no quantized weight is torn apart.
pub proof fn law_shards_load_alike(
    m1: Map<Seq<char>, TensorRecord>,
    m2: Map<Seq<char>, TensorRecord>,
    c: Phi3Config,
    n: nat,
    perm: bool,
)
    requires
        apart(m1, m2),
        forall|i: nat| i < n ==> #[trigger] layer_together(m1, m2, i),
        layers_spec(ShardsView { first: joint(m1, m2), second: None }, c, n, perm) is Ok,
    ensures
        layers_spec(ShardsView { first: m1, second: Some(m2) }, c, n, perm) == layers_spec(
            ShardsView { first: joint(m1, m2), second: None },
            c,
            n,
            perm,
        ),
    decreases n,
{
    if n > 0 {
        let i = (n - 1) as nat;
        law_shards_load_alike(m1, m2, c, i, perm);
        assert(layer_together(m1, m2, i));
        reveal(layer_spec);
        lemma_find_joint(m1, m2, layer_name(i, ".input_layernorm.weight"@));
        lemma_find_joint(m1, m2, layer_name(i, ".post_attention_layernorm.weight"@));
        lemma_quant_joint(m1, m2, layer_name(i, ".self_attn.qkv_proj.weight"@), perm);
        lemma_quant_joint(m1, m2, layer_name(i, ".self_attn.o_proj.weight"@), perm);
        lemma_quant_joint(m1, m2, layer_name(i, ".mlp.gate_up_proj.weight"@), perm);
        lemma_quant_joint(m1, m2, layer_name(i, ".mlp.down_proj.weight"@), perm);
    }
}

/// The tensor of a name is the first container's, else the second's.
pub proof fn law_first_container_first(s: ShardsView, name: Seq<char>)
    ensures
        s.first.dom().contains(name) ==> s.find(name) == Some(s.first[name]),
        !s.first.dom().contains(name) && s.second is Some && s.second->0.dom().contains(name)
            ==> s.find(name) == Some(s.second->0[name]),
        !s.first.dom().contains(name) && (s.second is None || !s.second->0.dom().contains(name))
            ==> s.find(name) is None,
{
}

/// The numbers of a tensor in two pieces are those of the first and then those of
/// the second.
pub proof fn law_numbers_of_two_pieces(a: TensorRecord, b: TensorRecord, both: TensorRecord)
    requires
        float_width(a.dtype) is Some,
        b.dtype == a.dtype,
        both.dtype == a.dtype,
        both.data == a.data + b.data,
        a.data.len() as int % float_width(a.dtype)->0 == 0,
    ensures
        float_bits(both) == float_bits(a) + float_bits(b),
{
    let w = float_width(a.dtype)->0;
    let n = a.data.len() as int / w;
    assert(both.data.len() as int / w == n + b.data.len() as int / w);
    assert forall|i: int| 0 <= i < float_bits(both).len() implies #[trigger] float_bits(both)[i]
        == (float_bits(a) + float_bits(b))[i] by {
        if i < n {
            law_widening_goes_one_by_one(a.data, b.data, i);
        } else {
            law_widening_goes_one_by_one(a.data, b.data, i - n);
        }
    }
    assert(float_bits(both) =~= float_bits(a) + float_bits(b));
}

/// A quantized weight comes whole from one container. It has four bits where
/// either container has a Q4K weight of the name, and comes from the second only
/// where the first has none of the name in that format.
pub proof fn law_weight_comes_from_one_container(s: ShardsView, name: Seq<char>, perm: bool)
    requires
        quant_spec(s, name, perm) is Ok,
    ensures
        ({
            let l = quant_spec(s, name, perm)->Ok_0;
            let four = s.first.dom().contains(name + ".q4k_meta"@) || s.second is Some
                && s.second->0.dom().contains(name + ".q4k_meta"@);
            &&& four ==> l.q4k && {
                ||| q4k_spec(s.first, name, perm) == Ok::<LinearView, LoadFault>(l)
                ||| s.second is Some && !s.first.dom().contains(name + ".q4k_meta"@) && q4k_spec(
                    s.second->0,
                    name,
                    perm,
                ) == Ok::<LinearView, LoadFault>(l)
            }
            &&& !four ==> !l.q4k && {
                ||| q8k_spec(s.first, name, perm) == Ok::<LinearView, LoadFault>(l)
                ||| s.second is Some && !s.first.dom().contains(name + ".q8k_meta"@) && q8k_spec(
                    s.second->0,
                    name,
                    perm,
                ) == Ok::<LinearView, LoadFault>(l)
            }
        }),
{
}

/// A quantized weight is owed where the container that is to give it does.
pub proof fn law_weight_is_owed(s: ShardsView, name: Seq<char>, perm: bool)
    ensures
        q4k_spec(s.first, name, perm) is Ok ==> quant_spec(s, name, perm) is Ok,
        s.second is Some && !s.first.dom().contains(name + ".q4k_meta"@) && q4k_spec(
            s.second->0,
            name,
            perm,
        ) is Ok ==> quant_spec(s, name, perm) is Ok,
        !s.first.dom().contains(name + ".q4k_meta"@) && !(s.second is Some
            && s.second->0.dom().contains(name + ".q4k_meta"@)) && q8k_spec(
            s.first,
            name,
            perm,
        ) is Ok ==> quant_spec(s, name, perm) is Ok,
        s.second is Some && !s.first.dom().contains(name + ".q4k_meta"@)
            && !s.second->0.dom().contains(name + ".q4k_meta"@) && !s.first.dom().contains(
            name + ".q8k_meta"@,
        ) && q8k_spec(s.second->0, name, perm) is Ok ==> quant_spec(s, name, perm) is Ok,
{
}

/// Each layer holds what the containers have under its own names: two
/// normalizations as wide as the model, one from before and one from after the
/// attention, and four quantized weights.
pub proof fn law_layer_holds_its_own_tensors(
    s: ShardsView,
    c: Phi3Config,
    n: nat,
    perm: bool,
    i: nat,
)
    requires
        i < n,
        layers_spec(s, c, n, perm) is Ok,
    ensures
        layers_spec(s, c, n, perm)->Ok_0.len() == n,
        ({
            let l = layers_spec(s, c, n, perm)->Ok_0[i as int];
            let layer = "model.layers."@ + decimal(i);
            let before = s.find(layer + ".input_layernorm.weight"@);
            let after = s.find(layer + ".post_attention_layernorm.weight"@);
            &&& before is Some
            &&& float_width(before->0.dtype) is Some
            &&& l.rms_1 == float_bits(before->0)
            &&& l.rms_1.len() == c.hidden_size
            &&& after is Some
            &&& float_width(after->0.dtype) is Some
            &&& l.rms_2 == float_bits(after->0)
            &&& l.rms_2.len() == c.hidden_size
            &&& quant_spec(s, layer + ".self_attn.qkv_proj.weight"@, perm) == Ok::<
                LinearView,
                Failure,
            >(l.qkv_proj)
            &&& quant_spec(s, layer + ".self_attn.o_proj.weight"@, perm) == Ok::<
                LinearView,
                Failure,
            >(l.o_proj)
            &&& quant_spec(s, layer + ".mlp.gate_up_proj.weight"@, perm) == Ok::<
                LinearView,
                Failure,
            >(l.gate_up_proj)
            &&& quant_spec(s, layer + ".mlp.down_proj.weight"@, perm) == Ok::<LinearView, Failure>(
                l.down_proj,
            )
        }),
    decreases n,
{
    lemma_layer_count(s, c, n, perm);
    if i < n - 1 {
        law_layer_holds_its_own_tensors(s, c, (n - 1) as nat, perm, i);
    } else {
        lemma_layer_count(s, c, i, perm);
        reveal(layer_spec);
    }
}

proof fn lemma_layer_count(s: ShardsView, c: Phi3Config, n: nat, perm: bool)
    requires
        layers_spec(s, c, n, perm) is Ok,
    ensures
        layers_spec(s, c, n, perm)->Ok_0.len() == n,
    decreases n,
{
    if n > 0 {
        lemma_layer_count(s, c, (n - 1) as nat, perm);
    }
}

/// A loaded model has all its layers, and in each the normalizations are the
/// numbers of the tensors of that layer's names, from the first container that
/// has them. The embedding and the final normalization are the numbers and the
/// shapes of tensors too, and the head is the weight of its name.
pub proof fn law_model_holds_its_tensors(
    m: Map<Seq<char>, TensorRecord>,
    c: Phi3Config,
    perm: bool,
    w: ModelWeights,
)
    requires
        assembled(Ok::<ModelWeights, ModelError>(w), model_spec(m, c, perm), c),
    ensures
        w.blocks@.len() == c.num_hidden_layers,
        forall|i: int|
            0 <= i < w.blocks@.len() ==> {
                let layer = "model.layers."@ + decimal(i as nat);
                let l = #[trigger] w.blocks@[i];
                let before = layer + ".input_layernorm.weight"@;
                let after = layer + ".post_attention_layernorm.weight"@;
                &&& m.dom().contains(before)
                &&& l.rms_1@ == float_bits(m[before])
                &&& m.dom().contains(after)
                &&& l.rms_2@ == float_bits(m[after])
                &&& l.qkv_proj.name@ == layer + ".self_attn.qkv_proj.weight"@
                &&& l.o_proj.name@ == layer + ".self_attn.o_proj.weight"@
                &&& l.gate_up_proj.name@ == layer + ".mlp.gate_up_proj.weight"@
                &&& l.down_proj.name@ == layer + ".mlp.down_proj.weight"@
                &&& l.num_attention_heads == c.num_attention_heads
                &&& l.num_key_value_heads == c.kv_heads()
                &&& l.head_dim == c.hidden_size as int / c.num_attention_heads as int
                &&& l.intermediate_size == c.intermediate_size
            },
        m.dom().contains("model.embed_tokens.weight"@),
        w.wte.bits@ == float_bits(m["model.embed_tokens.weight"@]),
        w.wte.shape@ == m["model.embed_tokens.weight"@].shape,
        m.dom().contains("model.norm.weight"@) ==> w.ln_f.bits@ == float_bits(
            m["model.norm.weight"@],
        ) && w.ln_f.shape@ == m["model.norm.weight"@].shape,
        !m.dom().contains("model.norm.weight"@) && m.dom().contains(
            "model.final_layernorm.weight"@,
        ) ==> w.ln_f.bits@ == float_bits(m["model.final_layernorm.weight"@]) && w.ln_f.shape@
            == m["model.final_layernorm.weight"@].shape,
        !m.dom().contains("model.norm.weight"@) && !m.dom().contains(
            "model.final_layernorm.weight"@,
        ) ==> m.dom().contains("norm.weight"@) && w.ln_f.bits@ == float_bits(m["norm.weight"@])
            && w.ln_f.shape@ == m["norm.weight"@].shape,
        w.lm_head.name@ == "lm_head.weight"@,
        q8k_spec(m, "lm_head.weight"@, perm) == Ok::<LinearView, LoadFault>(w.lm_head@),
{
    let s = ShardsView { first: m, second: None };
    let n = c.num_hidden_layers as nat;
    lemma_layer_count(s, c, n, perm);
    assert(w@.blocks == layers_spec(s, c, n, perm)->Ok_0);
    assert forall|i: int| 0 <= i < w.blocks@.len() implies {
        let layer = "model.layers."@ + decimal(i as nat);
        let l = #[trigger] w.blocks@[i];
        let before = layer + ".input_layernorm.weight"@;
        let after = layer + ".post_attention_layernorm.weight"@;
        &&& m.dom().contains(before)
        &&& l.rms_1@ == float_bits(m[before])
        &&& m.dom().contains(after)
        &&& l.rms_2@ == float_bits(m[after])
        &&& l.shaped(c)
        &&& l.named(i as nat)
    } by {
        law_layer_holds_its_own_tensors(s, c, n, perm, i as nat);
        assert(w@.blocks[i] == w.blocks@[i]@);
    }
}

/// What holds of a model from one container holds of one from two, the first
/// being asked first: its layers' normalizations, embedding, final normalization
/// and head are what the containers have under these names.
pub proof fn law_sharded_model_holds_its_tensors(
    m1: Map<Seq<char>, TensorRecord>,
    m2: Map<Seq<char>, TensorRecord>,
    c: Phi3Config,
    perm: bool,
    w: ModelWeights,
)
    requires
        assembled(Ok::<ModelWeights, ModelError>(w), shard_model_spec(m1, m2, c, perm), c),
    ensures
        w.blocks@.len() == c.num_hidden_layers,
        ({
            let s = ShardsView { first: m1, second: Some(m2) };
            let embed = s.find("model.embed_tokens.weight"@);
            &&& forall|i: int|
                0 <= i < w.blocks@.len() ==> {
                    let layer = "model.layers."@ + decimal(i as nat);
                    let l = #[trigger] w.blocks@[i];
                    let before = s.find(layer + ".input_layernorm.weight"@);
                    let after = s.find(layer + ".post_attention_layernorm.weight"@);
                    &&& before is Some
                    &&& l.rms_1@ == float_bits(before->0)
                    &&& after is Some
                    &&& l.rms_2@ == float_bits(after->0)
                    &&& l.qkv_proj.name@ == layer + ".self_attn.qkv_proj.weight"@
                    &&& l.o_proj.name@ == layer + ".self_attn.o_proj.weight"@
                    &&& l.gate_up_proj.name@ == layer + ".mlp.gate_up_proj.weight"@
                    &&& l.down_proj.name@ == layer + ".mlp.down_proj.weight"@
                }
            &&& embed is Some
            &&& w.wte.bits@ == float_bits(embed->0)
            &&& w.wte.shape@ == embed->0.shape
            &&& w.ln_f.shape@ == seq![c.hidden_size]
            &&& w.ln_f.bits@.len() == c.hidden_size
            &&& {
                ||| s.find("model.norm.weight"@) is Some && w.ln_f.bits@ == float_bits(
                    s.find("model.norm.weight"@)->0,
                )
                ||| floats_spec(s, "model.norm.weight"@) is Err && s.find(
                    "model.final_layernorm.weight"@,
                ) is Some && w.ln_f.bits@ == float_bits(s.find("model.final_layernorm.weight"@)->0)
                ||| floats_spec(s, "model.norm.weight"@) is Err && floats_spec(
                    s,
                    "model.final_layernorm.weight"@,
                ) is Err && s.find("norm.weight"@) is Some && w.ln_f.bits@ == float_bits(
                    s.find("norm.weight"@)->0,
                )
            }
            &&& w.lm_head.name@ == "lm_head.weight"@
            &&& quant_spec(s, "lm_head.weight"@, perm) == Ok::<LinearView, Failure>(w.lm_head@)
        }),
{
    let s = ShardsView { first: m1, second: Some(m2) };
    let n = c.num_hidden_layers as nat;
    lemma_layer_count(s, c, n, perm);
    assert(w@.blocks == layers_spec(s, c, n, perm)->Ok_0);
    assert forall|i: int| 0 <= i < w.blocks@.len() implies {
        let layer = "model.layers."@ + decimal(i as nat);
        let l = #[trigger] w.blocks@[i];
        let before = s.find(layer + ".input_layernorm.weight"@);
        let after = s.find(layer + ".post_attention_layernorm.weight"@);
        &&& before is Some
        &&& l.rms_1@ == float_bits(before->0)
        &&& after is Some
        &&& l.rms_2@ == float_bits(after->0)
        &&& l.named(i as nat)
    } by {
        law_layer_holds_its_own_tensors(s, c, n, perm, i as nat);
        assert(w@.blocks[i] == w.blocks@[i]@);
    }
}

/// The quantized weights of a layer of a loaded model are those of its names.
pub proof fn law_model_multiplies_by_its_weights(
    s: ShardsView,
    c: Phi3Config,
    perm: bool,
    w: ModelWeights,
    i: int,
)
    requires
        layers_spec(s, c, c.num_hidden_layers as nat, perm) == Ok::<Seq<LayerView>, Failure>(
            layer_views(w.blocks@),
        ),
        0 <= i < w.blocks@.len(),
    ensures
        ({
            let layer = "model.layers."@ + decimal(i as nat);
            let l = w.blocks@[i];
            &&& quant_spec(s, layer + ".self_attn.qkv_proj.weight"@, perm) == Ok::<
                LinearView,
                Failure,
            >(l.qkv_proj@)
            &&& quant_spec(s, layer + ".self_attn.o_proj.weight"@, perm) == Ok::<
                LinearView,
                Failure,
            >(l.o_proj@)
            &&& quant_spec(s, layer + ".mlp.gate_up_proj.weight"@, perm) == Ok::<
                LinearView,
                Failure,
            >(l.gate_up_proj@)
            &&& quant_spec(s, layer + ".mlp.down_proj.weight"@, perm) == Ok::<LinearView, Failure>(
                l.down_proj@,
            )
        }),
{
    let n = c.num_hidden_layers as nat;
    lemma_layer_count(s, c, n, perm);
    assert(layer_views(w.blocks@).len() == w.blocks@.len());
    law_layer_holds_its_own_tensors(s, c, n, perm, i as nat);
    assert(layer_views(w.blocks@)[i] == w.blocks@[i]@);
}

/// The containers have all of layer `i`.
pub open spec fn layer_there(s: ShardsView, c: Phi3Config, i: nat, perm: bool) -> bool {
    let layer = "model.layers."@ + decimal(i);
    let before = s.find(layer + ".input_layernorm.weight"@);
    let after = s.find(layer + ".post_attention_layernorm.weight"@);
    &&& before is Some && float_width(before->0.dtype) is Some && float_bits(before->0).len()
        == c.hidden_size
    &&& after is Some && float_width(after->0.dtype) is Some && float_bits(after->0).len()
        == c.hidden_size
    &&& quant_spec(s, layer + ".self_attn.qkv_proj.weight"@, perm) is Ok
    &&& quant_spec(s, layer + ".self_attn.o_proj.weight"@, perm) is Ok
    &&& quant_spec(s, layer + ".mlp.gate_up_proj.weight"@, perm) is Ok
    &&& quant_spec(s, layer + ".mlp.down_proj.weight"@, perm) is Ok
}

/// Layers load wherever all that they are made of is there, however many they
/// are, and only there.
pub proof fn law_complete_layers_load(s: ShardsView, c: Phi3Config, n: nat, perm: bool)
    ensures
        layers_spec(s, c, n, perm) is Ok <==> forall|i: nat|
            i < n ==> #[trigger] layer_there(s, c, i, perm),
    decreases n,
{
    if n > 0 {
        let last = (n - 1) as nat;
        law_complete_layers_load(s, c, last, perm);
        reveal(layer_spec);
        assert(layer_spec(s, c, last, perm) is Ok <==> layer_there(s, c, last, perm));
    }
}

/// A packed container with all layers, an embedding, a final normalization and a
/// head loads as a model, and so do two packed ones together.
pub proof fn law_complete_models_load(
    m1: Map<Seq<char>, TensorRecord>,
    m2: Map<Seq<char>, TensorRecord>,
    c: Phi3Config,
    perm: bool,
)
    ensures
        ({
            let s = ShardsView { first: m1, second: None };
            let embed = "model.embed_tokens.weight"@;
            let complete = {
                &&& packed(m1)
                &&& m1.dom().contains(embed) && float_width(m1[embed].dtype) is Some
                &&& m1.dom().contains("model.norm.weight"@) && float_width(
                    m1["model.norm.weight"@].dtype,
                ) is Some
                &&& forall|i: nat|
                    i < c.num_hidden_layers ==> #[trigger] layer_there(s, c, i, perm)
                &&& q8k_spec(m1, "lm_head.weight"@, perm) is Ok
            };
            complete ==> model_spec(m1, c, perm) is Ok
        }),
        ({
            let s = ShardsView { first: m1, second: Some(m2) };
            let embed = s.find("model.embed_tokens.weight"@);
            let norm = s.find("model.norm.weight"@);
            let complete = {
                &&& packed(m1)
                &&& packed(m2)
                &&& embed is Some && float_width(embed->0.dtype) is Some
                &&& norm is Some && float_width(norm->0.dtype) is Some && float_bits(norm->0).len()
                    == c.hidden_size
                &&& forall|i: nat|
                    i < c.num_hidden_layers ==> #[trigger] layer_there(s, c, i, perm)
                &&& quant_spec(s, "lm_head.weight"@, perm) is Ok
            };
            complete ==> shard_model_spec(m1, m2, c, perm) is Ok
        }),
{
    let n = c.num_hidden_layers as nat;
    law_complete_layers_load(ShardsView { first: m1, second: None }, c, n, perm);
    law_complete_layers_load(ShardsView { first: m1, second: Some(m2) }, c, n, perm);
}

/// A failure says what is wrong, and with which tensor.
pub proof fn law_failures_are_about_their_tensor(
    s: ShardsView,
    name: Seq<char>,
    width: usize,
    perm: bool,
    r: Result<ModelWeights, ModelError>,
    e: Failure,
)
    ensures
        fails(r, e) ==> r is Err && r->Err_0.fault == e.0 && r->Err_0.tensor@ == e.1,
        vector_spec(s, name, width) is Err ==> vector_spec(s, name, width)->Err_0.1 == name,
        quant_spec(s, name, perm) is Err ==> quant_spec(s, name, perm)->Err_0.1 == name,
        vector_spec(s, name, width) is Err ==> match vector_spec(s, name, width)->Err_0.0 {
            ModelFault::MissingTensor => s.find(name) is None,
            ModelFault::Widen(_) => s.find(name) is Some && float_width(
                s.find(name)->0.dtype,
            ) is None,
            ModelFault::Width { got, expected } => s.find(name) is Some && expected == width
                && float_bits(s.find(name)->0).len() != width && got == float_bits(
                s.find(name)->0,
            ).len() as usize,
            _ => false,
        },
        quant_spec(s, name, perm) is Err ==> match quant_spec(s, name, perm)->Err_0.0 {
            ModelFault::MissingQuantized => s.find(name + ".q4k_meta"@) is None && s.find(
                name + ".q8k_meta"@,
            ) is None,
            ModelFault::Linear(_) => true,
            _ => false,
        },
{
}

/// Containers, layers and models are seen as they are.
pub proof fn law_weights_are_seen_whole(s: Shards, l: LayerWeights, w: ModelWeights, i: int)
    requires
        0 <= i < w.blocks@.len(),
    ensures
        s@.first == s.first@,
        s.second is None ==> s@.second is None,
        s.second is Some ==> s@.second == Some(s.second->0@),
        l@.rms_1 == l.rms_1@,
        l@.rms_2 == l.rms_2@,
        l@.qkv_proj == l.qkv_proj@,
        l@.o_proj == l.o_proj@,
        l@.gate_up_proj == l.gate_up_proj@,
        l@.down_proj == l.down_proj@,
        w@.wte == (w.wte.bits@, w.wte.shape@),
        w@.ln_f == (w.ln_f.bits@, w.ln_f.shape@),
        w@.lm_head == w.lm_head@,
        w@.blocks.len() == w.blocks@.len(),
        w@.blocks[i] == w.blocks@[i]@,
{
}

} // verus!
