//! Linear layers whose weights are quantized blocks, as they come out of a
//! packed container.

use vstd::prelude::*;
use vstd::string::*;

use crate::bytes::{copied, copy_range, le32, read_le32};
use crate::container::{elems, law_elements_multiply, TensorRecord, TensorSet};
use crate::permutation::{
    apply_permutation_into, law_permuted_cell, parse_perm, perm_fault, permuted, stored_indices, PermError,
};
use crate::text::{ends_with_seq, joined, law_found_is_there, law_found_where_it_stands};
use crate::types::{
    Dtype, HEADER_SIZE, MAGIC_Q8K, Q4K_BLOCK_SIZE, Q8K_BLOCK_SIZE, QK_K,
};

verus! {

/// Whether a container holds quantized weights that a model can be loaded from.
pub open spec fn packed(m: Map<Seq<char>, TensorRecord>) -> bool {
    exists|name: Seq<char>| #[trigger]
        m.dom().contains(name) && (ends_with_seq(name, ".q8k"@) || ends_with_seq(name, ".q4k"@))
}

/// Whether a container holds quantized weights that a model can be loaded from.
pub fn is_packed_format(set: &TensorSet) -> (r: bool)
    ensures
        r == packed(set@),
{
    set.has_suffix(".q8k") || set.has_suffix(".q4k")
}

/// The raw weight blocks of one layer, row by row.
#[derive(Debug)]
pub enum QuantBlocks {
    Q8K(Vec<u8>),
    Q4K(Vec<u8>),
}

/// A linear layer with quantized weights.
#[derive(Debug)]
pub struct QuantLinear {
    pub blocks: QuantBlocks,
    pub out: usize,
    pub k: usize,
    pub name: String,
    pub perm: Option<Vec<usize>>,
}

/// What a linear layer holds.
#[verifier::ext_equal]
pub struct LinearView {
    pub q4k: bool,
    pub blocks: Seq<u8>,
    pub out: int,
    pub k: int,
    pub perm: Option<Seq<usize>>,
}

/// Why a layer could not be loaded.
#[derive(Debug, Clone, Copy, PartialEq, Eq, Structural)]
pub enum LoadFault {
    /// There is no metadata tensor.
    MissingMeta,
    /// The metadata are not 32-bit integers.
    MetaDtype(Dtype),
    /// The metadata hold too few numbers.
    MetaTooShort,
    /// There is no weight tensor.
    MissingTensor,
    /// The weights are not bytes.
    TensorDtype(Dtype),
    /// The weights are shorter than their header.
    NoHeader,
    /// The header has another length than headers have.
    HeaderSize,
    /// The magic number of the weights is another.
    BadMagic,
    /// The weights end before the last block that their dimensions ask for.
    Truncated,
    /// The weights are not as long as their dimensions say.
    SizeMismatch { got: usize, expected: u128 },
    /// The permutation cannot be read.
    Perm(PermError),
}

/// A fault and the layer that it was found in.
#[derive(Debug)]
pub struct LoadError {
    pub fault: LoadFault,
    pub name: String,
}

/// A stored 32-bit number taken as a size: a negative one becomes enormous.
pub open spec fn signed_size(u: int) -> int {
    if u < 0x8000_0000 {
        u
    } else {
        usize::MAX + 1 - (0x1_0000_0000 - u)
    }
}

fn size_of_signed(u: u32) -> (r: usize)
    ensures
        r == signed_size(u as int),
{
    if u < 0x8000_0000 {
        u as usize
    } else {
        usize::MAX - (0xFFFF_FFFF - u) as usize
    }
}

/// The permutation that goes with a layer: none while `enabled` is off.
pub open spec fn perm_spec(
    m: Map<Seq<char>, TensorRecord>,
    name: Seq<char>,
    enabled: bool,
) -> Result<Option<Seq<usize>>, LoadFault> {
    if enabled && m.dom().contains(name + ".perm"@) {
        let data = m[name + ".perm"@].data;
        match perm_fault(data) {
            Some(e) => Err(LoadFault::Perm(e)),
            None => Ok(Some(stored_indices(data))),
        }
    } else {
        Ok(None)
    }
}

/// What loading the Q4K layer `name` gives: the blocks with the dimensions that
/// the metadata hold, or the first fault.
pub open spec fn q4k_spec(
    m: Map<Seq<char>, TensorRecord>,
    name: Seq<char>,
    enabled: bool,
) -> Result<LinearView, LoadFault> {
    let meta = m[name + ".q4k_meta"@];
    let weights = m[name + ".q4k"@];
    let out = signed_size(le32(meta.data, 0));
    let k = signed_size(le32(meta.data, 4));
    let expected = out * (k / QK_K as int) * Q4K_BLOCK_SIZE;
    if !m.dom().contains(name + ".q4k_meta"@) {
        Err(LoadFault::MissingMeta)
    } else if meta.dtype != Dtype::I32 {
        Err(LoadFault::MetaDtype(meta.dtype))
    } else if meta.data.len() < 8 {
        Err(LoadFault::MetaTooShort)
    } else if !m.dom().contains(name + ".q4k"@) {
        Err(LoadFault::MissingTensor)
    } else if weights.dtype != Dtype::U8 {
        Err(LoadFault::TensorDtype(weights.dtype))
    } else if weights.data.len() != expected {
        Err(
            LoadFault::SizeMismatch {
                got: weights.data.len() as usize,
                expected: expected as u128,
            },
        )
    } else {
        match perm_spec(m, name, enabled) {
            Err(e) => Err(e),
            Ok(perm) => Ok(LinearView { q4k: true, blocks: weights.data, out, k, perm }),
        }
    }
}

/// The block bytes that a Q8K layer of these dimensions has.
pub open spec fn q8k_len(out: int, k: int) -> int {
    out * (k / QK_K as int) * Q8K_BLOCK_SIZE
}

/// What loading the Q8K layer `name` gives: the blocks after the header with the
/// dimensions that the metadata hold, or the first fault.
pub open spec fn q8k_spec(
    m: Map<Seq<char>, TensorRecord>,
    name: Seq<char>,
    enabled: bool,
) -> Result<LinearView, LoadFault> {
    let meta = m[name + ".q8k_meta"@];
    let weights = m[name + ".q8k"@];
    let out = signed_size(le32(meta.data, 0));
    let k = signed_size(le32(meta.data, 4));
    let blocks = weights.data.subrange(HEADER_SIZE as int, HEADER_SIZE + q8k_len(out, k));
    if !m.dom().contains(name + ".q8k_meta"@) {
        Err(LoadFault::MissingMeta)
    } else if meta.dtype != Dtype::I32 {
        Err(LoadFault::MetaDtype(meta.dtype))
    } else if meta.data.len() < 12 {
        Err(LoadFault::MetaTooShort)
    } else if !m.dom().contains(name + ".q8k"@) {
        Err(LoadFault::MissingTensor)
    } else if weights.dtype != Dtype::U8 {
        Err(LoadFault::TensorDtype(weights.dtype))
    } else if weights.data.len() < signed_size(le32(meta.data, 8)) {
        Err(LoadFault::NoHeader)
    } else if le32(meta.data, 8) != HEADER_SIZE {
        Err(LoadFault::HeaderSize)
    } else if le32(weights.data, 0) != MAGIC_Q8K {
        Err(LoadFault::BadMagic)
    } else if HEADER_SIZE + q8k_len(out, k) > weights.data.len() {
        Err(LoadFault::Truncated)
    } else {
        match perm_spec(m, name, enabled) {
            Err(e) => Err(e),
            Ok(perm) => Ok(LinearView { q4k: false, blocks, out, k, perm }),
        }
    }
}

/// `r` is what `s` says, for the layer `name`.
pub open spec fn loaded(
    r: Result<QuantLinear, LoadError>,
    s: Result<LinearView, LoadFault>,
    name: Seq<char>,
) -> bool {
    match r {
        Ok(l) => s == Ok::<LinearView, LoadFault>(l@) && l.name@ == name,
        Err(e) => s == Err::<LinearView, LoadFault>(e.fault) && e.name@ == name,
    }
}

impl View for QuantLinear {
    type V = LinearView;

    open spec fn view(&self) -> LinearView {
        LinearView {
            q4k: self.blocks is Q4K,
            blocks: match self.blocks {
                QuantBlocks::Q8K(b) => b@,
                QuantBlocks::Q4K(b) => b@,
            },
            out: self.out as int,
            k: self.k as int,
            perm: match self.perm {
                Some(p) => Some(p@),
                None => None,
            },
        }
    }
}

fn fault(f: LoadFault, name: &str) -> (r: Result<QuantLinear, LoadError>)
    ensures
        r is Err,
        r->Err_0.fault == f,
        r->Err_0.name@ == name@,
{
    Err(LoadError { fault: f, name: name.to_owned() })
}

/// How many blocks a weight matrix has, and how that compares with `limit`.
proof fn lemma_blocks(out: int, per_row: int)
    requires
        0 <= out <= u64::MAX,
        0 <= per_row <= u64::MAX / 256,
    ensures
        0 <= out * per_row <= 0x100_0000_0000_0000_0000_0000_0000_0000,
{
    assert(0 <= out * per_row <= 0x1_0000_0000_0000_0000 * 0x100_0000_0000_0000) by (nonlinear_arith)
        requires
            0 <= out <= 0x1_0000_0000_0000_0000,
            0 <= per_row <= 0x100_0000_0000_0000,
    ;
}

impl QuantLinear {
    /// Reads the permutation of a layer, if reading permutations is enabled.
    fn load_perm(set: &TensorSet, name: &str, enabled: bool) -> (r: Result<
        Option<Vec<usize>>,
        LoadFault,
    >)
        requires
            set.wf(),
        ensures
            match r {
                Ok(Some(p)) => perm_spec(set@, name@, enabled) == Ok::<
                    Option<Seq<usize>>,
                    LoadFault,
                >(Some(p@)),
                Ok(None) => perm_spec(set@, name@, enabled) == Ok::<Option<Seq<usize>>, LoadFault>(
                    None,
                ),
                Err(e) => perm_spec(set@, name@, enabled) == Err::<Option<Seq<usize>>, LoadFault>(
                    e,
                ),
            },
    {
        if !enabled {
            return Ok(None);
        }
        let perm_name = joined(name, ".perm");
        match set.get(perm_name.as_str()) {
            Some(t) => match parse_perm(t.data.as_slice()) {
                Ok(p) => Ok(Some(p)),
                Err(e) => Err(LoadFault::Perm(e)),
            },
            None => Ok(None),
        }
    }

    /// Loads the Q8K layer `name` from a packed container: blocks behind a
    /// header in `name.q8k`, dimensions and header length in `name.q8k_meta`,
    /// and where that is enabled a permutation in `name.perm`.
    pub fn load_from_packed_safetensors(set: &TensorSet, name: &str, perm_enabled: bool) -> (r:
        Result<QuantLinear, LoadError>)
        requires
            set.wf(),
        ensures
            loaded(r, q8k_spec(set@, name@, perm_enabled), name@),
    {
        let q8k_name = joined(name, ".q8k");
        let meta_name = joined(name, ".q8k_meta");
        let meta = match set.get(meta_name.as_str()) {
            Some(t) => t,
            None => {
                return fault(LoadFault::MissingMeta, name);
            },
        };
        if meta.dtype != Dtype::I32 {
            return fault(LoadFault::MetaDtype(meta.dtype), name);
        }
        let md = meta.data.as_slice();
        if md.len() < 12 {
            return fault(LoadFault::MetaTooShort, name);
        }
        let out: usize = size_of_signed(read_le32(md, 0));
        let k: usize = size_of_signed(read_le32(md, 4));
        let header_size: usize = size_of_signed(read_le32(md, 8));
        let weights = match set.get(q8k_name.as_str()) {
            Some(t) => t,
            None => {
                return fault(LoadFault::MissingTensor, name);
            },
        };
        if weights.dtype != Dtype::U8 {
            return fault(LoadFault::TensorDtype(weights.dtype), name);
        }
        let data = weights.data.as_slice();
        if data.len() < header_size {
            return fault(LoadFault::NoHeader, name);
        }
        if header_size != HEADER_SIZE {
            return fault(LoadFault::HeaderSize, name);
        }
        if read_le32(data, 0) != MAGIC_Q8K {
            return fault(LoadFault::BadMagic, name);
        }
        let per_row: usize = k / QK_K;
        proof {
            lemma_blocks(out as int, per_row as int);
        }
        let total: u128 = out as u128 * per_row as u128;
        if total > ((data.len() - HEADER_SIZE) / Q8K_BLOCK_SIZE) as u128 {
            return fault(LoadFault::Truncated, name);
        }
        let total_blocks: usize = total as usize;
        let blocks = copy_range(data, header_size, header_size + total_blocks * Q8K_BLOCK_SIZE);
        match Self::load_perm(set, name, perm_enabled) {
            Ok(perm) => {
                let l = QuantLinear {
                    blocks: QuantBlocks::Q8K(blocks),
                    out,
                    k,
                    name: name.to_owned(),
                    perm,
                };
                Ok(l)
            },
            Err(e) => fault(e, name),
        }
    }

    /// Loads the Q4K layer `name` from a packed container: raw blocks in
    /// `name.q4k`, dimensions in `name.q4k_meta`, and where that is enabled a
    /// permutation in `name.perm`.
    pub fn load_q4k_from_packed_safetensors(set: &TensorSet, name: &str, perm_enabled: bool) -> (r:
        Result<QuantLinear, LoadError>)
        requires
            set.wf(),
        ensures
            loaded(r, q4k_spec(set@, name@, perm_enabled), name@),
    {
        let q4k_name = joined(name, ".q4k");
        let meta_name = joined(name, ".q4k_meta");
        let meta = match set.get(meta_name.as_str()) {
            Some(t) => t,
            None => {
                return fault(LoadFault::MissingMeta, name);
            },
        };
        if meta.dtype != Dtype::I32 {
            return fault(LoadFault::MetaDtype(meta.dtype), name);
        }
        let md = meta.data.as_slice();
        if md.len() < 8 {
            return fault(LoadFault::MetaTooShort, name);
        }
        let out: usize = size_of_signed(read_le32(md, 0));
        let k: usize = size_of_signed(read_le32(md, 4));
        let weights = match set.get(q4k_name.as_str()) {
            Some(t) => t,
            None => {
                return fault(LoadFault::MissingTensor, name);
            },
        };
        if weights.dtype != Dtype::U8 {
            return fault(LoadFault::TensorDtype(weights.dtype), name);
        }
        let per_row: usize = k / QK_K;
        proof {
            lemma_blocks(out as int, per_row as int);
        }
        let expected: u128 = out as u128 * per_row as u128 * Q4K_BLOCK_SIZE as u128;
        let got: usize = weights.data.len();
        if got as u128 != expected {
            return fault(LoadFault::SizeMismatch { got, expected }, name);
        }
        let blocks = copied(weights.data.as_slice());
        match Self::load_perm(set, name, perm_enabled) {
            Ok(perm) => {
                let l = QuantLinear {
                    blocks: QuantBlocks::Q4K(blocks),
                    out,
                    k,
                    name: name.to_owned(),
                    perm,
                };
                Ok(l)
            },
            Err(e) => fault(e, name),
        }
    }
}

/// A loaded layer has the blocks of all its rows, no more and no fewer.
pub proof fn law_loaded_blocks_fill_the_layer(
    m: Map<Seq<char>, TensorRecord>,
    name: Seq<char>,
    enabled: bool,
)
    ensures
        q4k_spec(m, name, enabled) is Ok ==> {
            let l = q4k_spec(m, name, enabled)->Ok_0;
            l.q4k && l.blocks.len() == l.out * (l.k / QK_K as int) * Q4K_BLOCK_SIZE
        },
        q8k_spec(m, name, enabled) is Ok ==> {
            let l = q8k_spec(m, name, enabled)->Ok_0;
            !l.q4k && l.blocks.len() == l.out * (l.k / QK_K as int) * Q8K_BLOCK_SIZE
        },
{
    if q8k_spec(m, name, enabled) is Ok {
        let l = q8k_spec(m, name, enabled)->Ok_0;
        assert(q8k_len(l.out, l.k) >= 0) by (nonlinear_arith)
            requires
                l.out >= 0,
                l.k / QK_K as int >= 0,
        ;
    }
}

/// While permutations are switched off, a stored permutation changes nothing.
pub proof fn law_disabled_perm_is_ignored(
    m: Map<Seq<char>, TensorRecord>,
    name: Seq<char>,
    stored: TensorRecord,
)
    ensures
        q8k_spec(m.insert(name + ".perm"@, stored), name, false) == q8k_spec(m, name, false),
        q4k_spec(m.insert(name + ".perm"@, stored), name, false) == q4k_spec(m, name, false),
{
    reveal_strlit(".perm");
    reveal_strlit(".q8k");
    reveal_strlit(".q8k_meta");
    reveal_strlit(".q4k");
    reveal_strlit(".q4k_meta");
    let p = name + ".perm"@;
    assert(p.last() == 'm');
    assert((name + ".q8k"@).last() == 'k');
    assert((name + ".q4k"@).last() == 'k');
    assert((name + ".q8k_meta"@).last() == 'a');
    assert((name + ".q4k_meta"@).last() == 'a');
}

// ── applying a layer ───────────────────────────────────────────────────────

/// Why a layer cannot be applied to an input.
#[derive(Debug, Clone, Copy, PartialEq, Eq, Structural)]
pub enum ForwardError {
    /// The input has neither two nor three dimensions.
    UnsupportedDims,
    /// The input's rows are not as long as the layer's.
    KMismatch { got: usize, expected: usize },
}

impl QuantLinear {
    /// The permutation, if there is one, picks columns of the layer.
    pub open spec fn perm_fits(&self) -> bool {
        match self.perm {
            Some(p) => {
                &&& p@.len() == self.k
                &&& forall|i: int| 0 <= i < self.k ==> #[trigger] p@[i] < self.k
            },
            None => true,
        }
    }

    /// Whether the permutation picks columns of the layer.
    pub fn perm_usable(&self) -> (r: bool)
        ensures
            r == self.perm_fits(),
    {
        match &self.perm {
            Some(p) => {
                if p.len() != self.k {
                    return false;
                }
                let mut i: usize = 0;
                while i < p.len()
                    invariant
                        self.perm == Some(*p),
                        i <= p@.len(),
                        p@.len() == self.k,
                        forall|j: int| 0 <= j < i ==> #[trigger] p@[j] < self.k,
                    decreases p@.len() - i,
                {
                    if p[i] >= self.k {
                        return false;
                    }
                    i += 1;
                }
                true
            },
            None => true,
        }
    }

    /// What the weights are multiplied with: the input rows, their columns in
    /// the order in which the weights are stored.
    pub open spec fn fed<T>(&self, raw: Seq<T>) -> Seq<T> {
        match self.perm {
            Some(p) => permuted(raw, self.k as int, p@),
            None => raw,
        }
    }

    /// `y` is what `matmul` makes of `b` input rows and the weights.
    pub open spec fn applied<T, R, M: Fn((usize, usize, usize), &[T], &QuantBlocks) -> R>(
        &self,
        b: usize,
        raw: Seq<T>,
        matmul: M,
        y: R,
    ) -> bool {
        exists|x: &[T]|
            #[trigger] x@ == self.fed(raw) && call_ensures(
                matmul,
                ((b, self.k, self.out), x, &self.blocks),
                y,
            )
    }

    /// Applies the layer to `b` rows of `k_in` columns. `matmul` gets the
    /// dimensions `(b, k, out)`, the input and the blocks. A permuted copy of
    /// the input, where one is needed, is made in `scratch`.
    pub fn forward_2d<T: Copy, R, M: Fn((usize, usize, usize), &[T], &QuantBlocks) -> R>(
        &self,
        b: usize,
        k_in: usize,
        raw: &[T],
        scratch: &mut Vec<T>,
        matmul: M,
    ) -> (r: Result<R, ForwardError>)
        requires
            raw@.len() == b * k_in,
            self.perm is Some ==> old(scratch)@.len() == raw@.len(),
            self.perm_fits(),
            forall|x: &[T]|
                x@.len() == b * self.k ==> #[trigger] call_requires(
                    matmul,
                    ((b, self.k, self.out), x, &self.blocks),
                ),
        ensures
            match r {
                Ok(y) => k_in == self.k && self.applied(b, raw@, matmul, y),
                Err(e) => k_in != self.k && e == (ForwardError::KMismatch {
                    got: k_in,
                    expected: self.k,
                }),
            },
            final(scratch)@.len() == old(scratch)@.len(),
    {
        if k_in != self.k {
            return Err(ForwardError::KMismatch { got: k_in, expected: self.k });
        }
        match &self.perm {
            Some(p) => {
                apply_permutation_into(raw, b, self.k, p.as_slice(), scratch);
                let x = scratch.as_slice();
                let y = matmul((b, self.k, self.out), x, &self.blocks);
                assert(x@ == self.fed(raw@) && call_ensures(
                    matmul,
                    ((b, self.k, self.out), x, &self.blocks),
                    y,
                ));
                Ok(y)
            },
            None => {
                let y = matmul((b, self.k, self.out), raw, &self.blocks);
                assert(raw@ == self.fed(raw@) && call_ensures(
                    matmul,
                    ((b, self.k, self.out), raw, &self.blocks),
                    y,
                ));
                Ok(y)
            },
        }
    }

    /// The dimensions of what the layer makes of an input with dimensions
    /// `dims`: the last one becomes the layer's output width.
    pub open spec fn out_dims(&self, dims: Seq<usize>) -> Seq<usize> {
        dims.update(dims.len() - 1, self.out)
    }

    /// How many rows an input with dimensions `dims` has.
    pub open spec fn flat_rows(dims: Seq<usize>) -> int {
        if dims.len() == 2 {
            dims[0] as int
        } else {
            dims[0] * dims[1]
        }
    }

    /// Applies the layer to an input of two or three dimensions, row by row.
    /// Returns what `matmul` made of the flattened input, and the dimensions of
    /// the result.
    pub fn forward<T: Copy, R, M: Fn((usize, usize, usize), &[T], &QuantBlocks) -> R>(
        &self,
        dims: &[usize],
        raw: &[T],
        scratch: &mut Vec<T>,
        matmul: M,
    ) -> (r: Result<(R, Vec<usize>), ForwardError>)
        requires
            dims@.len() == 2 || dims@.len() == 3 ==> {
                &&& QuantLinear::flat_rows(dims@) <= usize::MAX
                &&& raw@.len() == QuantLinear::flat_rows(dims@) * dims@.last()
            },
            self.perm is Some ==> old(scratch)@.len() == raw@.len(),
            self.perm_fits(),
            forall|b: usize, x: &[T]|
                x@.len() == b * self.k ==> #[trigger] call_requires(
                    matmul,
                    ((b, self.k, self.out), x, &self.blocks),
                ),
        ensures
            match r {
                Ok((y, od)) => {
                    &&& dims@.len() == 2 || dims@.len() == 3
                    &&& dims@.last() == self.k
                    &&& od@ == self.out_dims(dims@)
                    &&& self.applied(QuantLinear::flat_rows(dims@) as usize, raw@, matmul, y)
                },
                Err(e) => if dims@.len() == 2 || dims@.len() == 3 {
                    &&& dims@.last() != self.k
                    &&& e == (ForwardError::KMismatch { got: dims@.last(), expected: self.k })
                } else {
                    e == ForwardError::UnsupportedDims
                },
            },
    {
        if dims.len() == 2 {
            let y = match self.forward_2d(dims[0], dims[1], raw, scratch, matmul) {
                Ok(y) => y,
                Err(e) => {
                    return Err(e);
                },
            };
            let mut od: Vec<usize> = Vec::new();
            od.push(dims[0]);
            od.push(self.out);
            assert(od@ =~= self.out_dims(dims@));
            Ok((y, od))
        } else if dims.len() == 3 {
            let rows: usize = dims[0] * dims[1];
            let y = match self.forward_2d(rows, dims[2], raw, scratch, matmul) {
                Ok(y) => y,
                Err(e) => {
                    return Err(e);
                },
            };
            let mut od: Vec<usize> = Vec::new();
            od.push(dims[0]);
            od.push(dims[1]);
            od.push(self.out);
            assert(od@ =~= self.out_dims(dims@));
            Ok((y, od))
        } else {
            Err(ForwardError::UnsupportedDims)
        }
    }
}

/// A layer with a permutation makes of an input what the same layer without one
/// makes of the permuted input, cell `j` of whose row `r` is the cell of that row
/// that the permutation names.
pub proof fn law_permuted_layer<T, R, M: Fn((usize, usize, usize), &[T], &QuantBlocks) -> R>(
    layer: QuantLinear,
    plain: QuantLinear,
    b: usize,
    raw: Seq<T>,
    matmul: M,
    y: R,
    r: int,
    j: int,
)
    requires
        layer.perm is Some,
        layer.perm_fits(),
        plain.perm is None,
        plain.blocks == layer.blocks,
        plain.k == layer.k,
        plain.out == layer.out,
        raw.len() == b * layer.k,
        0 <= r < b,
        0 <= j < layer.k,
    ensures
        layer.applied(b, raw, matmul, y) == plain.applied(
            b,
            permuted(raw, layer.k as int, layer.perm->0@),
            matmul,
            y,
        ),
        permuted(raw, layer.k as int, layer.perm->0@).len() == raw.len(),
        permuted(raw, layer.k as int, layer.perm->0@)[r * layer.k + j] == raw[r * layer.k
            + layer.perm->0@[j]],
{
    law_permuted_cell(raw, b as int, layer.k as int, layer.perm->0@, r, j);
    assert(layer.fed(raw) == plain.fed(permuted(raw, layer.k as int, layer.perm->0@)));
}

/// A container is packed where a name in it ends in `.q8k` or `.q4k`.
pub proof fn law_packed_by_a_name(m: Map<Seq<char>, TensorRecord>, a: Seq<char>)
    ensures
        m.dom().contains(a + ".q8k"@) || m.dom().contains(a + ".q4k"@) ==> packed(m),
        packed(m) ==> exists|b: Seq<char>|
            m.dom().contains(#[trigger] (b + ".q8k"@)) || m.dom().contains(b + ".q4k"@),
{
    law_found_where_it_stands(a, ".q8k"@, seq![]);
    law_found_where_it_stands(a, ".q4k"@, seq![]);
    if packed(m) {
        let name = choose|name: Seq<char>| #[trigger]
            m.dom().contains(name) && (ends_with_seq(name, ".q8k"@) || ends_with_seq(
                name,
                ".q4k"@,
            ));
        law_found_is_there(name, ".q8k"@);
        law_found_is_there(name, ".q4k"@);
        if ends_with_seq(name, ".q8k"@) {
            let b = choose|b: Seq<char>| name == #[trigger] (b + ".q8k"@);
            assert(m.dom().contains(b + ".q8k"@));
        } else {
            let b = choose|b: Seq<char>| name == #[trigger] (b + ".q4k"@);
            let c = b + ".q8k"@;
            assert(m.dom().contains(b + ".q4k"@));
        }
    }
}

/// A Q8K layer is the bytes behind the header of `name.q8k`, as many as the rows
/// and columns of `name.q8k_meta` ask for, and it loads wherever these are there.
pub proof fn law_q8k_layer_is_its_tensors(
    m: Map<Seq<char>, TensorRecord>,
    name: Seq<char>,
    enabled: bool,
)
    ensures
        ({
            let meta = m[name + ".q8k_meta"@];
            let data = m[name + ".q8k"@].data;
            let out = le32(meta.data, 0);
            let k = le32(meta.data, 4);
            let len = out * (k / 256) * 292;
            let there = {
                &&& m.dom().contains(name + ".q8k_meta"@)
                &&& meta.dtype == Dtype::I32
                &&& meta.data.len() >= 12
                &&& le32(meta.data, 8) == 24
                &&& m.dom().contains(name + ".q8k"@)
                &&& m[name + ".q8k"@].dtype == Dtype::U8
                &&& data.len() >= 24
                &&& le32(data, 0) == 0x4B51_3838
            };
            &&& q8k_spec(m, name, enabled) is Ok ==> there
            &&& q8k_spec(m, name, enabled) is Ok && out < 0x8000_0000 && k < 0x8000_0000 ==> {
                let l = q8k_spec(m, name, enabled)->Ok_0;
                &&& 24 + len <= data.len()
                &&& !l.q4k
                &&& l.out == out
                &&& l.k == k
                &&& l.blocks == data.subrange(24, 24 + len)
                &&& !enabled || !m.dom().contains(name + ".perm"@) ==> l.perm is None
                &&& enabled && m.dom().contains(name + ".perm"@) ==> l.perm == Some(
                    stored_indices(m[name + ".perm"@].data),
                )
            }
            &&& there && out < 0x8000_0000 && k < 0x8000_0000 && 24 + len <= data.len() && (
            !enabled || !m.dom().contains(name + ".perm"@)) ==> q8k_spec(m, name, enabled) is Ok
            &&& there && out < 0x8000_0000 && k < 0x8000_0000 && 24 + len <= data.len()
                && perm_fault(m[name + ".perm"@].data) is None ==> q8k_spec(m, name, enabled) is Ok
        }),
{
}

/// A Q4K layer is all the bytes of `name.q4k`, exactly as many as the rows and
/// columns of `name.q4k_meta` ask for, and it loads wherever these are there.
pub proof fn law_q4k_layer_is_its_tensors(
    m: Map<Seq<char>, TensorRecord>,
    name: Seq<char>,
    enabled: bool,
)
    ensures
        ({
            let meta = m[name + ".q4k_meta"@];
            let data = m[name + ".q4k"@].data;
            let out = le32(meta.data, 0);
            let k = le32(meta.data, 4);
            let there = {
                &&& m.dom().contains(name + ".q4k_meta"@)
                &&& meta.dtype == Dtype::I32
                &&& meta.data.len() >= 8
                &&& m.dom().contains(name + ".q4k"@)
                &&& m[name + ".q4k"@].dtype == Dtype::U8
            };
            &&& q4k_spec(m, name, enabled) is Ok ==> there
            &&& q4k_spec(m, name, enabled) is Ok && out < 0x8000_0000 && k < 0x8000_0000 ==> {
                let l = q4k_spec(m, name, enabled)->Ok_0;
                &&& l.q4k
                &&& l.out == out
                &&& l.k == k
                &&& l.blocks == data
                &&& data.len() == out * (k / 256) * 144
                &&& !enabled || !m.dom().contains(name + ".perm"@) ==> l.perm is None
                &&& enabled && m.dom().contains(name + ".perm"@) ==> l.perm == Some(
                    stored_indices(m[name + ".perm"@].data),
                )
            }
            &&& there && out < 0x8000_0000 && k < 0x8000_0000 && data.len() == out * (k / 256)
                * 144 && (!enabled || !m.dom().contains(name + ".perm"@) || perm_fault(
                m[name + ".perm"@].data,
            ) is None) ==> q4k_spec(m, name, enabled) is Ok
        }),
{
}

/// The weights are multiplied with the input itself, or, where there is a
/// permutation, with its rows, each column taken from where the permutation says.
pub proof fn law_layer_is_fed_its_input<T, R, M: Fn(
    (usize, usize, usize),
    &[T],
    &QuantBlocks,
) -> R>(layer: QuantLinear, b: usize, raw: Seq<T>, matmul: M, y: R)
    requires
        layer.perm_fits(),
        raw.len() == b * layer.k,
        layer.applied(b, raw, matmul, y),
    ensures
        exists|x: &[T]|
            {
                &&& #[trigger] call_ensures(
                    matmul,
                    ((b, layer.k, layer.out), x, &layer.blocks),
                    y,
                )
                &&& x@.len() == raw.len()
                &&& layer.perm is None ==> x@ == raw
                &&& layer.perm is Some ==> forall|r: int, j: int|
                    0 <= r < b && 0 <= j < layer.k ==> #[trigger] x@[r * layer.k + j] == raw[r
                        * layer.k + layer.perm->0@[j]]
            },
{
    let x = choose|x: &[T]|
        #[trigger] x@ == layer.fed(raw) && call_ensures(
            matmul,
            ((b, layer.k, layer.out), x, &layer.blocks),
            y,
        );
    assert(call_ensures(matmul, ((b, layer.k, layer.out), x, &layer.blocks), y));
    if layer.perm is Some {
        let p = layer.perm->0@;
        assert forall|r: int, j: int| 0 <= r < b && 0 <= j < layer.k implies #[trigger] x@[r
            * layer.k + j] == raw[r * layer.k + p[j]] by {
            law_permuted_cell(raw, b as int, layer.k as int, p, r, j);
        }
    }
}

/// The result of a layer has the input's dimensions but for the last, which is
/// the layer's width, and the rows that are multiplied are all the input has.
pub proof fn law_dimensions_of_the_result(layer: QuantLinear, dims: Seq<usize>, i: int)
    requires
        dims.len() == 2 || dims.len() == 3,
        0 <= i < dims.len(),
    ensures
        layer.out_dims(dims).len() == dims.len(),
        layer.out_dims(dims).last() == layer.out,
        i < dims.len() - 1 ==> layer.out_dims(dims)[i] == dims[i],
        QuantLinear::flat_rows(dims) * dims.last() == elems(dims),
{
    let first = seq![dims[0]];
    let second = seq![dims[1]];
    law_elements_multiply(first, second, dims[0]);
    law_elements_multiply(first, second, dims[1]);
    if dims.len() == 2 {
        assert(dims =~= first + second);
    } else {
        let third = seq![dims[2]];
        law_elements_multiply(first + second, third, dims[2]);
        assert(dims =~= first + second + third);
    }
}

/// A fault says what of a layer is missing or wrong.
pub proof fn law_faults_of_layers(m: Map<Seq<char>, TensorRecord>, name: Seq<char>, enabled: bool)
    ensures
        q8k_spec(m, name, enabled) is Err ==> match q8k_spec(m, name, enabled)->Err_0 {
            LoadFault::MissingMeta => !m.dom().contains(name + ".q8k_meta"@),
            LoadFault::MetaDtype(d) => d == m[name + ".q8k_meta"@].dtype && d != Dtype::I32,
            LoadFault::MetaTooShort => m[name + ".q8k_meta"@].data.len() < 12,
            LoadFault::MissingTensor => !m.dom().contains(name + ".q8k"@),
            LoadFault::TensorDtype(d) => d == m[name + ".q8k"@].dtype && d != Dtype::U8,
            LoadFault::NoHeader => m[name + ".q8k"@].data.len() < signed_size(
                le32(m[name + ".q8k_meta"@].data, 8),
            ),
            LoadFault::HeaderSize => le32(m[name + ".q8k_meta"@].data, 8) != 24,
            LoadFault::BadMagic => le32(m[name + ".q8k"@].data, 0) != 0x4B51_3838,
            LoadFault::Truncated => {
                let meta = m[name + ".q8k_meta"@].data;
                let out = signed_size(le32(meta, 0));
                let k = signed_size(le32(meta, 4));
                24 + out * (k / 256) * 292 > m[name + ".q8k"@].data.len()
            },
            LoadFault::SizeMismatch { .. } => false,
            LoadFault::Perm(e) => enabled && perm_fault(m[name + ".perm"@].data) == Some(e),
        },
        q4k_spec(m, name, enabled) is Err ==> match q4k_spec(m, name, enabled)->Err_0 {
            LoadFault::MissingMeta => !m.dom().contains(name + ".q4k_meta"@),
            LoadFault::MetaDtype(d) => d == m[name + ".q4k_meta"@].dtype && d != Dtype::I32,
            LoadFault::MetaTooShort => m[name + ".q4k_meta"@].data.len() < 8,
            LoadFault::MissingTensor => !m.dom().contains(name + ".q4k"@),
            LoadFault::TensorDtype(d) => d == m[name + ".q4k"@].dtype && d != Dtype::U8,
            LoadFault::SizeMismatch { got, .. } => got == m[name + ".q4k"@].data.len() as usize,
            LoadFault::Perm(e) => enabled && perm_fault(m[name + ".perm"@].data) == Some(e),
            _ => false,
        },
{
}

/// A stored size below two to the thirty-first is that size; one above is past
/// all but the largest numbers of the machine.
pub proof fn law_stored_sizes(u: int)
    requires
        0 <= u <= 0xFFFF_FFFF,
    ensures
        u < 0x8000_0000 ==> signed_size(u) == u,
        u >= 0x8000_0000 ==> usize::MAX - 0x8000_0000 < signed_size(u) <= usize::MAX,
        u == 0xFFFF_FFFF ==> signed_size(u) == usize::MAX,
{
}

/// A layer is seen as it is, with all its blocks, its dimensions and its
/// permutation; and what was loaded is what was to be, under its name.
pub proof fn law_layer_is_seen_whole(
    l: QuantLinear,
    s: Result<LinearView, LoadFault>,
    name: Seq<char>,
)
    ensures
        l.blocks is Q8K ==> !l@.q4k && l@.blocks == l.blocks->Q8K_0@,
        l.blocks is Q4K ==> l@.q4k && l@.blocks == l.blocks->Q4K_0@,
        l@.out == l.out,
        l@.k == l.k,
        l.perm is None <==> l@.perm is None,
        l.perm is Some ==> l@.perm == Some(l.perm->0@),
        loaded(Ok(l), s, name) ==> s == Ok::<LinearView, LoadFault>(l@) && l.name@ == name,
{
}

/// A permutation can be used where it names a column of the layer for each of
/// them.
pub proof fn law_which_permutations_fit(l: QuantLinear)
    ensures
        l.perm is None ==> l.perm_fits(),
        l.perm is Some ==> (l.perm_fits() <==> l.perm->0@.len() == l.k && forall|i: int|
            0 <= i < l.perm->0@.len() ==> #[trigger] l.perm->0@[i] < l.k),
{
}

} // verus!
