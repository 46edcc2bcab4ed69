//! Packing quantized weights together with the tensors that stay as they are
//! into one container.

use safetensors::SafeTensorError;
use vstd::prelude::*;
use vstd::string::*;

use crate::bytes::{
    copied, law_le32_bytes_round_trip, law_le32_round_trip, le32, le32_bytes, push_le32,
};
use crate::container::{
    addressable, by_name, container_tensors, distinct, elems, header_room, labelled, sized,
    storable_name, unreadable, ReadError, TensorEntry, TensorRecord, TensorSet, HEADER_LIMIT,
};
use crate::loader::norm_name;
use crate::permutation::{check_perm, law_perm_round_trip, perm_bytes, perm_fault, PermError};
use crate::quant_file::{
    file_bytes, file_header, law_read_of_written, read_q8k_file, read_raw_quant_file, read_spec,
    storable, write_blocks, BlockFormat, FileError,
};
use crate::quant_linear::{q4k_spec, q8k_spec, LinearView, LoadFault};
use crate::quantize::{
    is_layer_part, law_layer_weight_names, layer_weight, lemma_layer_letters,
};
use crate::text::{
    all_digits, contains, contains_seq, ends_with, ends_with_seq, joined, law_found_is_there,
    law_found_where_it_stands, lemma_found_at, same,
};
use crate::types::{
    header_bytes, law_header_bytes_round_trip, law_header_fields, law_header_round_trip, Dtype,
    Q8KHeader, HEADER_SIZE,
};

verus! {

/// Parts of the program that are switched on.
#[derive(Debug, Clone, Copy, PartialEq, Eq, Structural)]
pub struct Features {
    pub experimental_perm: bool,
    pub experimental_q8k128: bool,
}

/// A weight is replaced by its quantized form unless it is an embedding or a
/// normalization.
pub open spec fn quantized_weight(name: Seq<char>) -> bool {
    &&& ends_with_seq(name, ".weight"@)
    &&& !contains_seq(name, "embed"@)
    &&& !contains_seq(name, "norm"@)
}

/// Whether a weight is replaced by its quantized form.
pub fn is_quantized_weight(name: &str) -> (r: bool)
    ensures
        r == quantized_weight(name@),
{
    if !ends_with(name, ".weight") {
        return false;
    }
    if contains(name, "embed") || contains(name, "norm") {
        return false;
    }
    true
}

// ── files at hand ──────────────────────────────────────────────────────────

/// A file of the directory with the quantized weights.
#[derive(Debug)]
pub struct SourceFile {
    pub name: String,
    pub data: Vec<u8>,
}

/// The contents of the first file of this name.
pub open spec fn file_in(files: Seq<SourceFile>, name: Seq<char>) -> Option<Seq<u8>>
    decreases files.len(),
{
    if files.len() == 0 {
        None
    } else if files[0].name@ == name {
        Some(files[0].data@)
    } else {
        file_in(files.drop_first(), name)
    }
}

/// Every file is short enough for its length in bits to be a number of the
/// machine.
pub open spec fn countable(files: Seq<SourceFile>) -> bool {
    forall|i: int| 0 <= i < files.len() ==> 8 * (#[trigger] files[i]).data@.len() <= usize::MAX
}

fn find_file<'a>(files: &'a Vec<SourceFile>, name: &str) -> (r: Option<&'a Vec<u8>>)
    ensures
        match r {
            Some(d) => file_in(files@, name@) == Some(d@) && (countable(files@) ==> 8 * d@.len()
                <= usize::MAX),
            None => file_in(files@, name@) is None,
        },
{
    let mut i: usize = 0;
    assert(files@.skip(0) =~= files@);
    while i < files.len()
        invariant
            i <= files@.len(),
            file_in(files@, name@) == file_in(files@.skip(i as int), name@),
        decreases files@.len() - i,
    {
        assert(files@.skip(i as int)[0] == files@[i as int]);
        assert(files@.skip(i as int).drop_first() =~= files@.skip(i + 1));
        if same(files[i].name.as_str(), name) {
            return Some(&files[i].data);
        }
        i += 1;
    }
    None
}

// ── choosing a format ──────────────────────────────────────────────────────

/// Which quantized forms of a weight exist. Q8K128 counts where it is enabled.
#[derive(Debug, Clone, Copy, PartialEq, Eq, Structural)]
pub struct Existing {
    pub q8k128: bool,
    pub q4k: bool,
    pub q6k: bool,
    pub q8k: bool,
}

impl Existing {
    /// How many forms exist.
    pub open spec fn count(self) -> int {
        (if self.q8k128 { 1int } else { 0 }) + (if self.q4k { 1int } else { 0 }) + (if self.q6k {
            1int
        } else {
            0
        }) + (if self.q8k { 1int } else { 0 })
    }

    /// Whether this form exists.
    pub open spec fn has(self, f: BlockFormat) -> bool {
        match f {
            BlockFormat::Q8K128 => self.q8k128,
            BlockFormat::Q4K => self.q4k,
            BlockFormat::Q6K => self.q6k,
            BlockFormat::Q8K => self.q8k,
        }
    }

    /// The one form that exists, if any does. More than one is an error.
    pub fn single(self) -> (r: Result<Option<BlockFormat>, Existing>)
        ensures
            match r {
                Err(e) => self.count() > 1 && e == self,
                Ok(Some(f)) => self.count() == 1 && self.has(f),
                Ok(None) => self.count() == 0,
            },
    {
        let n: u8 = self.q8k128 as u8 + self.q4k as u8 + self.q6k as u8 + self.q8k as u8;
        if n > 1 {
            return Err(self);
        }
        if self.q8k128 {
            Ok(Some(BlockFormat::Q8K128))
        } else if self.q4k {
            Ok(Some(BlockFormat::Q4K))
        } else if self.q6k {
            Ok(Some(BlockFormat::Q6K))
        } else if self.q8k {
            Ok(Some(BlockFormat::Q8K))
        } else {
            Ok(None)
        }
    }

    /// The names of the forms that exist.
    pub open spec fn labels(self) -> Seq<Seq<char>> {
        one_if(self.q8k128, "Q8K128"@) + one_if(self.q4k, "Q4K"@) + one_if(self.q6k, "Q6K"@)
            + one_if(self.q8k, "Q8K"@)
    }

    /// The names of the forms that exist.
    pub fn names(self) -> (r: Vec<&'static str>)
        ensures
            r@.map_values(|s: &'static str| s@) == self.labels(),
    {
        let mut r: Vec<&'static str> = Vec::new();
        if self.q8k128 {
            r.push("Q8K128");
        }
        if self.q4k {
            r.push("Q4K");
        }
        if self.q6k {
            r.push("Q6K");
        }
        if self.q8k {
            r.push("Q8K");
        }
        assert(r@.map_values(|s: &'static str| s@) =~= self.labels());
        r
    }
}

/// `label` alone, or nothing.
pub open spec fn one_if(there: bool, label: Seq<char>) -> Seq<Seq<char>> {
    if there {
        seq![label]
    } else {
        Seq::empty()
    }
}

/// What is appended to a weight's name for its blocks in this format.
pub open spec fn suffix(f: BlockFormat) -> Seq<char> {
    match f {
        BlockFormat::Q8K128 => ".q8k128"@,
        BlockFormat::Q4K => ".q4k"@,
        BlockFormat::Q6K => ".q6k"@,
        BlockFormat::Q8K => ".q8k"@,
    }
}

/// What is appended to a weight's name for the dimensions of its blocks.
pub open spec fn meta_suffix(f: BlockFormat) -> Seq<char> {
    match f {
        BlockFormat::Q8K128 => ".q8k128_meta"@,
        BlockFormat::Q4K => ".q4k_meta"@,
        BlockFormat::Q6K => ".q6k_meta"@,
        BlockFormat::Q8K => ".q8k_meta"@,
    }
}

/// What is appended to a weight's name for its blocks in this format.
pub fn suffix_of(f: BlockFormat) -> (r: &'static str)
    ensures
        r@ == suffix(f),
{
    match f {
        BlockFormat::Q8K128 => ".q8k128",
        BlockFormat::Q4K => ".q4k",
        BlockFormat::Q6K => ".q6k",
        BlockFormat::Q8K => ".q8k",
    }
}

fn meta_suffix_of(f: BlockFormat) -> (r: &'static str)
    ensures
        r@ == meta_suffix(f),
{
    match f {
        BlockFormat::Q8K128 => ".q8k128_meta",
        BlockFormat::Q4K => ".q4k_meta",
        BlockFormat::Q6K => ".q6k_meta",
        BlockFormat::Q8K => ".q8k_meta",
    }
}

/// The quantized forms of the weight `name` that are at hand.
pub open spec fn existing_forms(
    files: Seq<SourceFile>,
    name: Seq<char>,
    features: Features,
) -> Existing {
    Existing {
        q8k128: features.experimental_q8k128 && file_in(files, name + ".q8k128"@) is Some,
        q4k: file_in(files, name + ".q4k"@) is Some,
        q6k: file_in(files, name + ".q6k"@) is Some,
        q8k: file_in(files, name + ".q8k"@) is Some,
    }
}

// ── packing ────────────────────────────────────────────────────────────────

/// Why a weight could not be packed.
#[derive(Debug, Clone, Copy, PartialEq, Eq, Structural)]
pub enum PackFault {
    /// The weight exists in more than one quantized form.
    Multiple(Existing),
    /// The file with the blocks cannot be read.
    File(BlockFormat, FileError),
    /// The file with the permutation cannot be read.
    Perm(PermError),
}

/// A fault and the weight that it is about.
#[derive(Debug)]
pub struct PackError {
    pub fault: PackFault,
    pub name: String,
}

/// What has been packed, and how many of what.
#[derive(Debug)]
pub struct Packer {
    pub set: TensorSet,
    pub quantized: usize,
    pub preserved: usize,
    pub perms: usize,
    pub perms_skipped: usize,
    pub q8k128_skipped: usize,
}

/// What has been packed, and how many of what.
#[verifier::ext_equal]
pub struct PackView {
    pub tensors: Map<Seq<char>, TensorRecord>,
    pub quantized: int,
    pub preserved: int,
    pub perms: int,
    pub perms_skipped: int,
    pub q8k128_skipped: int,
}

impl View for Packer {
    type V = PackView;

    open spec fn view(&self) -> PackView {
        PackView {
            tensors: self.set@,
            quantized: self.quantized as int,
            preserved: self.preserved as int,
            perms: self.perms as int,
            perms_skipped: self.perms_skipped as int,
            q8k128_skipped: self.q8k128_skipped as int,
        }
    }
}

/// Raw bytes as a tensor.
pub open spec fn raw_record(data: Seq<u8>) -> TensorRecord {
    TensorRecord { dtype: Dtype::U8, shape: seq![data.len() as usize], data }
}

/// Two dimensions as a tensor.
pub open spec fn dims_record(h: Q8KHeader) -> TensorRecord {
    TensorRecord {
        dtype: Dtype::I32,
        shape: seq![2usize],
        data: le32_bytes(h.out as int) + le32_bytes(h.k as int),
    }
}

/// Two dimensions and the header length as a tensor.
pub open spec fn dims_and_header_record(h: Q8KHeader) -> TensorRecord {
    TensorRecord {
        dtype: Dtype::I32,
        shape: seq![3usize],
        data: le32_bytes(h.out as int) + le32_bytes(h.k as int) + le32_bytes(HEADER_SIZE as int),
    }
}

/// The blocks of a weight and their dimensions. Of a Q8K weight the header
/// comes along with the blocks.
pub open spec fn with_blocks(
    m: Map<Seq<char>, TensorRecord>,
    name: Seq<char>,
    f: BlockFormat,
    blocks: Seq<u8>,
    h: Q8KHeader,
) -> Map<Seq<char>, TensorRecord> {
    if f == BlockFormat::Q8K {
        m.insert(name + suffix(f), raw_record(header_bytes(h) + blocks)).insert(
            name + meta_suffix(f),
            dims_and_header_record(h),
        )
    } else {
        m.insert(name + suffix(f), raw_record(blocks)).insert(
            name + meta_suffix(f),
            dims_record(h),
        )
    }
}

/// A tensor is kept as it is.
pub open spec fn preserve_step(v: PackView, name: Seq<char>, t: TensorRecord) -> PackView {
    PackView { tensors: v.tensors.insert(name, t), preserved: v.preserved + 1, ..v }
}

/// The permutation that goes with a Q8K weight is packed, or counted where
/// permutations are switched off.
pub open spec fn perm_step(
    v: PackView,
    name: Seq<char>,
    files: Seq<SourceFile>,
    features: Features,
) -> Result<PackView, PackFault> {
    match file_in(files, name + ".perm"@) {
        None => Ok(v),
        Some(data) => if !features.experimental_perm {
            Ok(PackView { perms_skipped: v.perms_skipped + 1, ..v })
        } else {
            match perm_fault(data) {
                Some(e) => Err(PackFault::Perm(e)),
                None => Ok(
                    PackView {
                        tensors: v.tensors.insert(name + ".perm"@, raw_record(data)),
                        perms: v.perms + 1,
                        ..v
                    },
                ),
            }
        },
    }
}

/// A weight is replaced by its blocks in the format `f`.
pub open spec fn replace_step(
    v: PackView,
    name: Seq<char>,
    f: BlockFormat,
    files: Seq<SourceFile>,
    features: Features,
) -> Result<PackView, PackFault> {
    match read_spec(file_in(files, name + suffix(f))->0, f) {
        Err(e) => Err(PackFault::File(f, e)),
        Ok((blocks, h)) => {
            let w = PackView {
                tensors: with_blocks(v.tensors, name, f, blocks, h),
                quantized: v.quantized + 1,
                ..v
            };
            if f == BlockFormat::Q8K {
                perm_step(w, name, files, features)
            } else {
                Ok(w)
            }
        },
    }
}

/// What becomes of one tensor.
pub open spec fn pack_step(
    v: PackView,
    name: Seq<char>,
    t: TensorRecord,
    files: Seq<SourceFile>,
    features: Features,
) -> Result<PackView, PackFault> {
    if !quantized_weight(name) {
        Ok(preserve_step(v, name, t))
    } else {
        let forms = existing_forms(files, name, features);
        let w = if !features.experimental_q8k128 && file_in(files, name + ".q8k128"@) is Some {
            PackView { q8k128_skipped: v.q8k128_skipped + 1, ..v }
        } else {
            v
        };
        if forms.count() > 1 {
            Err(PackFault::Multiple(forms))
        } else if forms.q8k128 {
            replace_step(w, name, BlockFormat::Q8K128, files, features)
        } else if forms.q4k {
            replace_step(w, name, BlockFormat::Q4K, files, features)
        } else if forms.q6k {
            replace_step(w, name, BlockFormat::Q6K, files, features)
        } else if forms.q8k {
            replace_step(w, name, BlockFormat::Q8K, files, features)
        } else {
            Ok(preserve_step(w, name, t))
        }
    }
}

/// Nothing packed yet.
pub open spec fn nothing_packed() -> PackView {
    PackView {
        tensors: Map::empty(),
        quantized: 0,
        preserved: 0,
        perms: 0,
        perms_skipped: 0,
        q8k128_skipped: 0,
    }
}

/// What becomes of the first `n` tensors, or the first fault with the weight
/// that it is about.
pub open spec fn pack_spec(
    e: Seq<TensorEntry>,
    n: int,
    files: Seq<SourceFile>,
    features: Features,
) -> Result<PackView, (PackFault, Seq<char>)>
    decreases n,
{
    if n <= 0 {
        Ok(nothing_packed())
    } else {
        match pack_spec(e, n - 1, files, features) {
            Err(f) => Err(f),
            Ok(v) => match pack_step(v, e[n - 1].name@, e[n - 1].record(), files, features) {
                Err(f) => Err((f, e[n - 1].name@)),
                Ok(w) => Ok(w),
            },
        }
    }
}

proof fn lemma_row_sized(dtype: Dtype, n: usize, bytes: nat)
    requires
        n * dtype.spec_bits() <= usize::MAX,
        n * dtype.spec_bits() == 8 * bytes,
    ensures
        sized(dtype, seq![n], bytes),
{
    let s = seq![n];
    assert(s.take(1) =~= s);
    assert(s.drop_last() =~= Seq::<usize>::empty());
    assert(elems(Seq::<usize>::empty()) == 1);
    assert(elems(s) == 1 * n);
    assert forall|i: int| 0 <= i <= s.len() implies #[trigger] elems(s.take(i)) <= usize::MAX by {
        if i == 0 {
            assert(s.take(i) =~= Seq::<usize>::empty());
        }
    }
}

proof fn lemma_raw_sized(n: usize)
    requires
        8 * n <= usize::MAX,
    ensures
        sized(Dtype::U8, seq![n], n as nat),
{
    assert(Dtype::U8.spec_bits() == 8);
    assert(n * 8 == 8 * n);
    lemma_row_sized(Dtype::U8, n, n as nat);
}

proof fn lemma_dims_sized(n: usize)
    requires
        n <= 3,
    ensures
        sized(Dtype::I32, seq![n], (4 * n) as nat),
{
    assert(Dtype::I32.spec_bits() == 32);
    assert(n * 32 == 8 * (4 * n) && n * 32 <= usize::MAX);
    lemma_row_sized(Dtype::I32, n, (4 * n) as nat);
}

proof fn lemma_extended_storable(name: Seq<char>, tail: Seq<char>)
    requires
        tail.len() > 0,
        tail.last() != '_',
    ensures
        storable_name(name + tail),
{
    reveal_strlit("__metadata__");
    assert((name + tail).last() == tail.last());
    assert("__metadata__"@.last() == '_');
}

proof fn lemma_suffixes_storable(name: Seq<char>, f: BlockFormat)
    ensures
        storable_name(name + suffix(f)),
        storable_name(name + meta_suffix(f)),
        storable_name(name + ".perm"@),
{
    reveal_strlit(".q8k128");
    reveal_strlit(".q4k");
    reveal_strlit(".q6k");
    reveal_strlit(".q8k");
    reveal_strlit(".q8k128_meta");
    reveal_strlit(".q4k_meta");
    reveal_strlit(".q6k_meta");
    reveal_strlit(".q8k_meta");
    reveal_strlit(".perm");
    lemma_extended_storable(name, suffix(f));
    lemma_extended_storable(name, meta_suffix(f));
    lemma_extended_storable(name, ".perm"@);
}

fn raw_entry(name: String, data: Vec<u8>) -> (e: TensorEntry)
    requires
        storable_name(name@),
        8 * data@.len() <= usize::MAX,
    ensures
        e.valid(),
        e.name@ == name@,
        e.record() == raw_record(data@),
{
    let mut shape: Vec<usize> = Vec::new();
    shape.push(data.len());
    proof {
        lemma_raw_sized(data@.len() as usize);
        assert(shape@ =~= seq![data@.len() as usize]);
    }
    TensorEntry { name, dtype: Dtype::U8, shape, data }
}

fn dims_entry(name: String, h: &Q8KHeader, with_header: bool) -> (e: TensorEntry)
    requires
        storable_name(name@),
    ensures
        e.valid(),
        e.name@ == name@,
        e.record() == (if with_header {
            dims_and_header_record(*h)
        } else {
            dims_record(*h)
        }),
{
    let mut data: Vec<u8> = Vec::new();
    push_le32(&mut data, h.out);
    push_le32(&mut data, h.k);
    let mut shape: Vec<usize> = Vec::new();
    if with_header {
        push_le32(&mut data, HEADER_SIZE as u32);
        shape.push(3);
        proof {
            lemma_dims_sized(3);
            assert(shape@ =~= seq![3usize]);
            assert(data@ =~= dims_and_header_record(*h).data);
        }
    } else {
        shape.push(2);
        proof {
            lemma_dims_sized(2);
            assert(shape@ =~= seq![2usize]);
            assert(data@ =~= dims_record(*h).data);
        }
    }
    TensorEntry { name, dtype: Dtype::I32, shape, data }
}

impl Packer {
    /// The packed tensors are well formed.
    pub open spec fn wf(&self) -> bool {
        self.set.wf()
    }

    /// Nothing packed yet.
    pub fn new() -> (p: Packer)
        ensures
            p.wf(),
            p@ == nothing_packed(),
    {
        Packer {
            set: TensorSet::new(),
            quantized: 0,
            preserved: 0,
            perms: 0,
            perms_skipped: 0,
            q8k128_skipped: 0,
        }
    }

    /// No counter is past `n`.
    pub open spec fn counted(&self, n: int) -> bool {
        &&& self.quantized <= n
        &&& self.preserved <= n
        &&& self.perms <= n
        &&& self.perms_skipped <= n
        &&& self.q8k128_skipped <= n
    }

    fn preserve(&mut self, t: &TensorEntry)
        requires
            old(self).wf(),
            t.valid(),
            old(self).preserved < usize::MAX,
        ensures
            final(self).wf(),
            final(self)@ == preserve_step(old(self)@, t.name@, t.record()),
    {
        self.set.insert(t.duplicate());
        self.preserved = self.preserved + 1;
    }

    fn pack_perm(&mut self, name: &str, files: &Vec<SourceFile>, features: Features) -> (r: Result<
        (),
        PackFault,
    >)
        requires
            old(self).wf(),
            countable(files@),
            old(self).perms < usize::MAX,
            old(self).perms_skipped < usize::MAX,
        ensures
            final(self).wf(),
            match r {
                Ok(_) => perm_step(old(self)@, name@, files@, features) == Ok::<
                    PackView,
                    PackFault,
                >(final(self)@),
                Err(e) => perm_step(old(self)@, name@, files@, features) == Err::<
                    PackView,
                    PackFault,
                >(e),
            },
    {
        let perm_name = joined(name, ".perm");
        match find_file(files, perm_name.as_str()) {
            None => Ok(()),
            Some(data) => {
                if !features.experimental_perm {
                    self.perms_skipped = self.perms_skipped + 1;
                    return Ok(());
                }
                match check_perm(data.as_slice()) {
                    Err(e) => Err(PackFault::Perm(e)),
                    Ok(_) => {
                        proof {
                            lemma_suffixes_storable(name@, BlockFormat::Q8K);
                        }
                        self.set.insert(raw_entry(perm_name, copied(data.as_slice())));
                        self.perms = self.perms + 1;
                        Ok(())
                    },
                }
            },
        }
    }

    fn replace(
        &mut self,
        name: &str,
        f: BlockFormat,
        files: &Vec<SourceFile>,
        features: Features,
    ) -> (r: Result<(), PackFault>)
        requires
            old(self).wf(),
            countable(files@),
            file_in(files@, name@ + suffix(f)) is Some,
            old(self).quantized < usize::MAX,
            old(self).perms < usize::MAX,
            old(self).perms_skipped < usize::MAX,
        ensures
            final(self).wf(),
            match r {
                Ok(_) => replace_step(old(self)@, name@, f, files@, features) == Ok::<
                    PackView,
                    PackFault,
                >(final(self)@),
                Err(e) => replace_step(old(self)@, name@, f, files@, features) == Err::<
                    PackView,
                    PackFault,
                >(e),
            },
    {
        let blocks_name = joined(name, suffix_of(f));
        let meta_name = joined(name, meta_suffix_of(f));
        proof {
            lemma_suffixes_storable(name@, f);
        }
        let file = match find_file(files, blocks_name.as_str()) {
            Some(d) => d,
            None => {
                assert(false);
                return Ok(());
            },
        };
        let ghost before = self@;
        match f {
            BlockFormat::Q8K => {
                let (blocks, h) = match read_q8k_file(file.as_slice()) {
                    Ok(x) => x,
                    Err(e) => {
                        return Err(PackFault::File(f, e));
                    },
                };
                let full = write_blocks(&h, blocks.as_slice());
                proof {
                    law_header_round_trip(h, blocks@);
                    assert(full@.len() == file@.len());
                }
                self.set.insert(raw_entry(blocks_name, full));
                self.set.insert(dims_entry(meta_name, &h, true));
                self.quantized = self.quantized + 1;
                assert(self@ == (PackView {
                    tensors: with_blocks(before.tensors, name@, f, blocks@, h),
                    quantized: before.quantized + 1,
                    ..before
                }));
                self.pack_perm(name, files, features)
            },
            _ => {
                let (blocks, _, _) = match read_raw_quant_file(file.as_slice(), f) {
                    Ok(x) => x,
                    Err(e) => {
                        return Err(PackFault::File(f, e));
                    },
                };
                let h = Q8KHeader::from_bytes(file.as_slice());
                self.set.insert(raw_entry(blocks_name, blocks));
                self.set.insert(dims_entry(meta_name, &h, false));
                self.quantized = self.quantized + 1;
                Ok(())
            },
        }
    }

    /// Packs one tensor: a weight in its quantized form where there is one,
    /// anything else as it is.
    pub fn pack_tensor(
        &mut self,
        t: &TensorEntry,
        files: &Vec<SourceFile>,
        features: Features,
    ) -> (r: Result<(), PackFault>)
        requires
            old(self).wf(),
            t.valid(),
            countable(files@),
            old(self).counted(usize::MAX - 1),
        ensures
            final(self).wf(),
            match r {
                Ok(_) => pack_step(old(self)@, t.name@, t.record(), files@, features) == Ok::<
                    PackView,
                    PackFault,
                >(final(self)@),
                Err(e) => pack_step(old(self)@, t.name@, t.record(), files@, features) == Err::<
                    PackView,
                    PackFault,
                >(e),
            },
    {
        let name = t.name.as_str();
        if !is_quantized_weight(name) {
            self.preserve(t);
            return Ok(());
        }
        let q8k128_there = find_file(files, joined(name, ".q8k128").as_str()).is_some();
        let forms = Existing {
            q8k128: features.experimental_q8k128 && q8k128_there,
            q4k: find_file(files, joined(name, ".q4k").as_str()).is_some(),
            q6k: find_file(files, joined(name, ".q6k").as_str()).is_some(),
            q8k: find_file(files, joined(name, ".q8k").as_str()).is_some(),
        };
        assert(forms == existing_forms(files@, name@, features));
        if !features.experimental_q8k128 && q8k128_there {
            self.q8k128_skipped = self.q8k128_skipped + 1;
        }
        match forms.single() {
            Err(e) => Err(PackFault::Multiple(e)),
            Ok(Some(f)) => self.replace(name, f, files, features),
            Ok(None) => {
                self.preserve(t);
                Ok(())
            },
        }
    }
}

/// The container holds the final normalization under one of its names.
pub open spec fn final_norm(m: Map<Seq<char>, TensorRecord>) -> bool {
    ||| m.dom().contains("model.norm.weight"@)
    ||| m.dom().contains("model.final_layernorm.weight"@)
    ||| m.dom().contains("norm.weight"@)
}

/// Whether the final normalization is there, without which a model will not
/// run.
pub fn has_final_norm(set: &TensorSet) -> (r: bool)
    ensures
        r == final_norm(set@),
{
    set.has("model.norm.weight") || set.has("model.final_layernorm.weight") || set.has(
        "norm.weight",
    )
}

/// One step counts at most one more of anything.
proof fn lemma_step_counts(
    v: PackView,
    name: Seq<char>,
    t: TensorRecord,
    files: Seq<SourceFile>,
    features: Features,
)
    requires
        pack_step(v, name, t, files, features) is Ok,
    ensures
        ({
            let w = pack_step(v, name, t, files, features)->Ok_0;
            &&& v.quantized <= w.quantized <= v.quantized + 1
            &&& v.preserved <= w.preserved <= v.preserved + 1
            &&& v.perms <= w.perms <= v.perms + 1
            &&& v.perms_skipped <= w.perms_skipped <= v.perms_skipped + 1
            &&& v.q8k128_skipped <= w.q8k128_skipped <= v.q8k128_skipped + 1
            &&& w.quantized + w.preserved == v.quantized + v.preserved + 1
        }),
{
}

/// A fault that comes early is the fault of the whole.
proof fn lemma_early_fault(
    e: Seq<TensorEntry>,
    i: int,
    n: int,
    files: Seq<SourceFile>,
    features: Features,
)
    requires
        0 <= i <= n,
        pack_spec(e, i, files, features) is Err,
    ensures
        pack_spec(e, n, files, features) == pack_spec(e, i, files, features),
    decreases n,
{
    if i < n {
        lemma_early_fault(e, i, n - 1, files, features);
    }
}

/// Packs all tensors of a model, one after the other.
pub fn pack_model(set: &TensorSet, files: &Vec<SourceFile>, features: Features) -> (r: Result<
    Packer,
    PackError,
>)
    requires
        set.wf(),
        countable(files@),
    ensures
        ({
            let s = pack_spec(set.entries@, set.entries@.len() as int, files@, features);
            match r {
                Ok(p) => p.wf() && s == Ok::<PackView, (PackFault, Seq<char>)>(p@),
                Err(e) => s == Err::<PackView, (PackFault, Seq<char>)>((e.fault, e.name@)),
            }
        }),
{
    let mut p = Packer::new();
    let n: usize = set.entries.len();
    let mut i: usize = 0;
    while i < n
        invariant
            set.wf(),
            countable(files@),
            n == set.entries@.len(),
            i <= n,
            p.wf(),
            p.counted(i as int),
            pack_spec(set.entries@, i as int, files@, features) == Ok::<
                PackView,
                (PackFault, Seq<char>),
            >(p@),
        decreases n - i,
    {
        let ghost before = p@;
        let t = &set.entries[i];
        match p.pack_tensor(t, files, features) {
            Ok(_) => {
                proof {
                    lemma_step_counts(before, t.name@, t.record(), files@, features);
                    assert(pack_spec(set.entries@, i + 1, files@, features) == Ok::<
                        PackView,
                        (PackFault, Seq<char>),
                    >(p@));
                }
            },
            Err(fault) => {
                proof {
                    assert(pack_spec(set.entries@, i + 1, files@, features) == Err::<
                        PackView,
                        (PackFault, Seq<char>),
                    >((fault, t.name@)));
                    lemma_early_fault(set.entries@, i + 1, n as int, files@, features);
                }
                return Err(PackError { fault, name: t.name.clone() });
            },
        }
        i += 1;
    }
    Ok(p)
}

/// Why a model could not be packed.
pub enum PackingError {
    /// The model cannot be read.
    Read(ReadError),
    /// The packed tensors could not be written.
    Write(SafeTensorError),
    /// A weight could not be packed.
    Weight(PackError),
}

/// A packed model: the container's bytes, and what went into it.
pub struct PackedModel {
    pub file: Vec<u8>,
    pub packer: Packer,
}

/// Packs a stored model into a new container. Where the original cannot be read
/// or a weight cannot be packed that is the error; what is written holds the
/// packed tensors. Writing fails only where their header could be longer than a
/// container's may be.
pub fn pack_file(original: &[u8], files: &Vec<SourceFile>, features: Features) -> (r: Result<
    PackedModel,
    PackingError,
>)
    requires
        countable(files@),
    ensures
        match r {
            Ok(m) => {
                &&& addressable(m.file@)
                &&& container_tensors(m.file@) == Some(labelled(m.packer@.tensors))
                &&& exists|e: Seq<TensorEntry>|
                    {
                        &&& distinct(e)
                        &&& container_tensors(original@) == Some(labelled(by_name(e)))
                        &&& #[trigger] pack_spec(e, e.len() as int, files@, features) == Ok::<
                            PackView,
                            (PackFault, Seq<char>),
                        >(m.packer@)
                    }
            },
            Err(PackingError::Weight(f)) => exists|e: Seq<TensorEntry>|
                {
                    &&& distinct(e)
                    &&& container_tensors(original@) == Some(labelled(by_name(e)))
                    &&& #[trigger] pack_spec(e, e.len() as int, files@, features) == Err::<
                        PackView,
                        (PackFault, Seq<char>),
                    >((f.fault, f.name@))
                },
            Err(PackingError::Read(e)) => unreadable(original@, e),
            Err(PackingError::Write(_)) => exists|e: Seq<TensorEntry>, s: Seq<TensorEntry>|
                {
                    &&& distinct(e)
                    &&& container_tensors(original@) == Some(labelled(by_name(e)))
                    &&& #[trigger] pack_spec(e, e.len() as int, files@, features) is Ok
                    &&& distinct(s)
                    &&& by_name(s) == pack_spec(e, e.len() as int, files@, features)->Ok_0.tensors
                    &&& #[trigger] header_room(s, s.len() as int) > HEADER_LIMIT
                },
        },
{
    let set = match TensorSet::read(original) {
        Ok(s) => s,
        Err(e) => {
            return Err(PackingError::Read(e));
        },
    };
    let ghost e = set.entries@;
    assert(container_tensors(original@) == Some(labelled(by_name(e))));
    match pack_model(&set, files, features) {
        Ok(packer) => {
            assert(pack_spec(e, e.len() as int, files@, features) == Ok::<
                PackView,
                (PackFault, Seq<char>),
            >(packer@));
            match packer.set.write() {
                Ok(file) => Ok(PackedModel { file, packer }),
                Err(f) => {
                    let ghost s = packer.set.entries@;
                    assert(by_name(s) == packer@.tensors);
                    assert(header_room(s, s.len() as int) > HEADER_LIMIT);
                    Err(PackingError::Write(f))
                },
            }
        },
        Err(f) => Err(PackingError::Weight(f)),
    }
}

// ── what packing keeps ─────────────────────────────────────────────────────

/// Packing the tensor `name` may write the tensor `key`.
pub open spec fn touches(name: Seq<char>, key: Seq<char>) -> bool {
    ||| key == name
    ||| key == name + ".perm"@
    ||| exists|f: BlockFormat| key == name + #[trigger] suffix(f)
    ||| exists|f: BlockFormat| key == name + #[trigger] meta_suffix(f)
}

/// Two sets of tensors agree on `key`.
pub open spec fn agree(
    a: Map<Seq<char>, TensorRecord>,
    b: Map<Seq<char>, TensorRecord>,
    key: Seq<char>,
) -> bool {
    &&& a.dom().contains(key) == b.dom().contains(key)
    &&& a.dom().contains(key) ==> a[key] == b[key]
}

/// Packing a tensor leaves alone every name but its own and its own with a
/// suffix.
pub proof fn law_step_keeps_others(
    v: PackView,
    name: Seq<char>,
    t: TensorRecord,
    files: Seq<SourceFile>,
    features: Features,
    key: Seq<char>,
)
    requires
        pack_step(v, name, t, files, features) is Ok,
        !touches(name, key),
    ensures
        agree(v.tensors, pack_step(v, name, t, files, features)->Ok_0.tensors, key),
{
    assert(key != name + suffix(BlockFormat::Q8K128));
    assert(key != name + suffix(BlockFormat::Q4K));
    assert(key != name + suffix(BlockFormat::Q6K));
    assert(key != name + suffix(BlockFormat::Q8K));
    assert(key != name + meta_suffix(BlockFormat::Q8K128));
    assert(key != name + meta_suffix(BlockFormat::Q4K));
    assert(key != name + meta_suffix(BlockFormat::Q6K));
    assert(key != name + meta_suffix(BlockFormat::Q8K));
}

proof fn lemma_kept(
    e: Seq<TensorEntry>,
    i: int,
    n: int,
    files: Seq<SourceFile>,
    features: Features,
    key: Seq<char>,
)
    requires
        0 <= i <= n,
        pack_spec(e, n, files, features) is Ok,
        forall|j: int| i <= j < n ==> !touches((#[trigger] e[j]).name@, key),
    ensures
        pack_spec(e, i, files, features) is Ok,
        agree(
            pack_spec(e, i, files, features)->Ok_0.tensors,
            pack_spec(e, n, files, features)->Ok_0.tensors,
            key,
        ),
    decreases n,
{
    if i < n {
        lemma_kept(e, i, n - 1, files, features, key);
        let v = pack_spec(e, n - 1, files, features)->Ok_0;
        law_step_keeps_others(v, e[n - 1].name@, e[n - 1].record(), files, features, key);
    }
}

/// Tensors that are not quantized are in the packed container as they were in
/// the model: embeddings, norms, and weights of which there is no quantized form.
/// No later tensor may claim the name.
pub proof fn law_unquantized_kept(
    e: Seq<TensorEntry>,
    i: int,
    files: Seq<SourceFile>,
    features: Features,
)
    requires
        0 <= i < e.len(),
        !quantized_weight(e[i].name@) || existing_forms(files, e[i].name@, features).count() == 0,
        forall|j: int| i < j < e.len() ==> !touches((#[trigger] e[j]).name@, e[i].name@),
        pack_spec(e, e.len() as int, files, features) is Ok,
    ensures
        ({
            let m = pack_spec(e, e.len() as int, files, features)->Ok_0.tensors;
            m.dom().contains(e[i].name@) && m[e[i].name@] == e[i].record()
        }),
{
    lemma_kept(e, i + 1, e.len() as int, files, features, e[i].name@);
    assert(pack_spec(e, i + 1, files, features) is Ok);
}

/// Every tensor of the model is packed in one way: as it is or quantized.
pub proof fn law_every_tensor_counted(
    e: Seq<TensorEntry>,
    n: int,
    files: Seq<SourceFile>,
    features: Features,
)
    requires
        0 <= n <= e.len(),
        pack_spec(e, n, files, features) is Ok,
    ensures
        ({
            let v = pack_spec(e, n, files, features)->Ok_0;
            v.quantized + v.preserved == n
        }),
    decreases n,
{
    if n > 0 {
        law_every_tensor_counted(e, n - 1, files, features);
        let v = pack_spec(e, n - 1, files, features)->Ok_0;
        lemma_step_counts(v, e[n - 1].name@, e[n - 1].record(), files, features);
    }
}

proof fn lemma_names_apart(name: Seq<char>)
    ensures
        name + ".q4k"@ != name + ".q4k_meta"@,
        name + ".q8k"@ != name + ".q8k_meta"@,
        name + ".q8k"@ != name + ".perm"@,
        name + ".q8k_meta"@ != name + ".perm"@,
        name + ".q4k"@ != name + ".perm"@,
        name + ".q4k_meta"@ != name + ".perm"@,
{
    reveal_strlit(".q4k");
    reveal_strlit(".q4k_meta");
    reveal_strlit(".q8k");
    reveal_strlit(".q8k_meta");
    reveal_strlit(".perm");
    assert((name + ".q4k"@).len() != (name + ".perm"@).len());
    assert((name + ".q4k_meta"@).len() != (name + ".perm"@).len());
    assert((name + ".q4k"@).len() != (name + ".q4k_meta"@).len());
    assert((name + ".q8k"@).len() != (name + ".q8k_meta"@).len());
    assert((name + ".q8k"@).len() != (name + ".perm"@).len());
    assert((name + ".q8k_meta"@).len() != (name + ".perm"@).len());
}

/// No tensor but the one at `i` may write `key` when it is packed.
pub open spec fn unclaimed(e: Seq<TensorEntry>, i: int, key: Seq<char>) -> bool {
    forall|j: int| 0 <= j < e.len() && j != i ==> !touches((#[trigger] e[j]).name@, key)
}

proof fn lemma_unclaimed(
    e: Seq<TensorEntry>,
    i: int,
    files: Seq<SourceFile>,
    features: Features,
    key: Seq<char>,
)
    requires
        0 <= i < e.len(),
        unclaimed(e, i, key),
        pack_spec(e, e.len() as int, files, features) is Ok,
        pack_spec(e, i, files, features) is Ok && pack_spec(e, i + 1, files, features) is Ok ==> agree(
            pack_spec(e, i, files, features)->Ok_0.tensors,
            pack_spec(e, i + 1, files, features)->Ok_0.tensors,
            key,
        ),
    ensures
        !pack_spec(e, e.len() as int, files, features)->Ok_0.tensors.dom().contains(key),
{
    lemma_kept(e, i + 1, e.len() as int, files, features, key);
    lemma_kept(e, 0, i, files, features, key);
    assert(pack_spec(e, 0, files, features)->Ok_0.tensors =~= Map::empty());
}

proof fn lemma_q4k_loads(
    m: Map<Seq<char>, TensorRecord>,
    name: Seq<char>,
    rows: usize,
    k: usize,
    blocks: Seq<u8>,
    enabled: bool,
)
    requires
        m.dom().contains(name + ".q4k"@),
        m.dom().contains(name + ".q4k_meta"@),
        m[name + ".q4k"@] == raw_record(blocks),
        m[name + ".q4k_meta"@] == dims_record(file_header(BlockFormat::Q4K, rows, k)),
        storable(BlockFormat::Q4K, rows, k, blocks),
        rows <= i32::MAX,
        k <= i32::MAX,
        enabled ==> !m.dom().contains(name + ".perm"@),
    ensures
        q4k_spec(m, name, enabled) == Ok::<LinearView, LoadFault>(
            LinearView { q4k: true, blocks, out: rows as int, k: k as int, perm: None },
        ),
{
    let meta = dims_record(file_header(BlockFormat::Q4K, rows, k)).data;
    let none = Seq::<u8>::empty();
    law_le32_round_trip(none, rows as int, le32_bytes(k as int));
    assert(meta =~= none + le32_bytes(rows as int) + le32_bytes(k as int));
    law_le32_round_trip(le32_bytes(rows as int), k as int, none);
    assert(meta =~= le32_bytes(rows as int) + le32_bytes(k as int) + none);
}

/// What a quantizer wrote of a Q4K weight, a model loads from the packed
/// container: the same blocks and dimensions, and no permutation, whether or not
/// permutations are looked for. No other tensor may claim the names that the
/// weight is packed under, and the dimensions fit in signed 32-bit numbers.
pub proof fn law_q4k_written_packed_loaded(
    e: Seq<TensorEntry>,
    i: int,
    files: Seq<SourceFile>,
    features: Features,
    rows: usize,
    k: usize,
    blocks: Seq<u8>,
    enabled: bool,
)
    requires
        0 <= i < e.len(),
        quantized_weight(e[i].name@),
        existing_forms(files, e[i].name@, features).count() == 1,
        file_in(files, e[i].name@ + ".q4k"@) == Some(
            file_bytes(BlockFormat::Q4K, rows, k, blocks),
        ),
        storable(BlockFormat::Q4K, rows, k, blocks),
        rows <= i32::MAX,
        k <= i32::MAX,
        forall|j: int|
            i < j < e.len() ==> !touches((#[trigger] e[j]).name@, e[i].name@ + ".q4k"@)
                && !touches(e[j].name@, e[i].name@ + ".q4k_meta"@),
        enabled ==> unclaimed(e, i, e[i].name@ + ".perm"@),
        pack_spec(e, e.len() as int, files, features) is Ok,
    ensures
        q4k_spec(
            pack_spec(e, e.len() as int, files, features)->Ok_0.tensors,
            e[i].name@,
            enabled,
        ) == Ok::<LinearView, LoadFault>(
            LinearView { q4k: true, blocks, out: rows as int, k: k as int, perm: None },
        ),
{
    let name = e[i].name@;
    let n = e.len() as int;
    let f = BlockFormat::Q4K;
    law_read_of_written(f, rows, k, blocks);
    let h = file_header(f, rows, k);
    lemma_kept(e, i + 1, n, files, features, name + ".q4k"@);
    lemma_kept(e, i + 1, n, files, features, name + ".q4k_meta"@);
    lemma_names_apart(name);
    let forms = existing_forms(files, name, features);
    assert(forms.q4k && !forms.q8k128 && !forms.q6k && !forms.q8k);
    let before = pack_spec(e, i, files, features)->Ok_0;
    let after = pack_spec(e, i + 1, files, features)->Ok_0;
    assert(after.tensors == with_blocks(before.tensors, name, f, blocks, h));
    if enabled {
        lemma_unclaimed(e, i, files, features, name + ".perm"@);
    }
    lemma_q4k_loads(pack_spec(e, n, files, features)->Ok_0.tensors, name, rows, k, blocks, enabled);
}

proof fn lemma_q8k_loads(
    m: Map<Seq<char>, TensorRecord>,
    name: Seq<char>,
    rows: usize,
    k: usize,
    blocks: Seq<u8>,
    perm: Option<Seq<usize>>,
    enabled: bool,
)
    requires
        m.dom().contains(name + ".q8k"@),
        m.dom().contains(name + ".q8k_meta"@),
        m[name + ".q8k"@] == raw_record(
            header_bytes(file_header(BlockFormat::Q8K, rows, k)) + blocks,
        ),
        m[name + ".q8k_meta"@] == dims_and_header_record(file_header(BlockFormat::Q8K, rows, k)),
        storable(BlockFormat::Q8K, rows, k, blocks),
        rows <= i32::MAX,
        k <= i32::MAX,
        perm is Some ==> {
            &&& enabled
            &&& m.dom().contains(name + ".perm"@)
            &&& m[name + ".perm"@].data == perm_bytes(perm->0)
            &&& indices_fit(perm->0)
        },
        perm is None && enabled ==> !m.dom().contains(name + ".perm"@),
    ensures
        q8k_spec(m, name, enabled) == Ok::<LinearView, LoadFault>(
            LinearView { q4k: false, blocks, out: rows as int, k: k as int, perm },
        ),
{
    let h = file_header(BlockFormat::Q8K, rows, k);
    if perm is Some {
        law_perm_round_trip(perm->0);
    }
    let data = header_bytes(h) + blocks;
    let meta = dims_and_header_record(h).data;
    let none = Seq::<u8>::empty();
    let b0 = le32_bytes(rows as int);
    let b1 = le32_bytes(k as int);
    let b2 = le32_bytes(HEADER_SIZE as int);
    law_le32_round_trip(none, rows as int, b1 + b2);
    assert(meta =~= none + b0 + (b1 + b2));
    law_le32_round_trip(b0, k as int, b2);
    law_le32_round_trip(b0 + b1, HEADER_SIZE as int, none);
    assert(meta =~= b0 + b1 + b2 + none);
    law_header_round_trip(h, blocks);
    assert(le32(data, 0) == h.magic);
    assert(data.subrange(HEADER_SIZE as int, data.len() as int) =~= blocks);
}

/// A permutation can be stored.
pub open spec fn indices_fit(p: Seq<usize>) -> bool {
    &&& p.len() <= u32::MAX
    &&& forall|c: int| 0 <= c < p.len() ==> #[trigger] p[c] <= u32::MAX
}

/// What a quantizer wrote of a Q8K weight, a model loads from the packed
/// container: the same blocks and dimensions, and the permutation that was
/// stored beside it, if one was and permutations are switched on both where the
/// model is packed and where it is loaded. No other tensor may claim the names
/// that the weight is packed under, and the dimensions fit in signed 32-bit
/// numbers.
pub proof fn law_q8k_written_packed_loaded(
    e: Seq<TensorEntry>,
    i: int,
    files: Seq<SourceFile>,
    features: Features,
    rows: usize,
    k: usize,
    blocks: Seq<u8>,
    perm: Option<Seq<usize>>,
    enabled: bool,
)
    requires
        0 <= i < e.len(),
        quantized_weight(e[i].name@),
        existing_forms(files, e[i].name@, features).count() == 1,
        file_in(files, e[i].name@ + ".q8k"@) == Some(
            file_bytes(BlockFormat::Q8K, rows, k, blocks),
        ),
        storable(BlockFormat::Q8K, rows, k, blocks),
        rows <= i32::MAX,
        k <= i32::MAX,
        match perm {
            Some(p) => indices_fit(p) && file_in(files, e[i].name@ + ".perm"@) == Some(
                perm_bytes(p),
            ),
            None => file_in(files, e[i].name@ + ".perm"@) is None,
        },
        forall|j: int|
            i < j < e.len() ==> !touches((#[trigger] e[j]).name@, e[i].name@ + ".q8k"@)
                && !touches(e[j].name@, e[i].name@ + ".q8k_meta"@) && !touches(
                e[j].name@,
                e[i].name@ + ".perm"@,
            ),
        enabled && !(features.experimental_perm && perm is Some) ==> unclaimed(
            e,
            i,
            e[i].name@ + ".perm"@,
        ),
        pack_spec(e, e.len() as int, files, features) is Ok,
    ensures
        q8k_spec(
            pack_spec(e, e.len() as int, files, features)->Ok_0.tensors,
            e[i].name@,
            enabled,
        ) == Ok::<LinearView, LoadFault>(
            LinearView {
                q4k: false,
                blocks,
                out: rows as int,
                k: k as int,
                perm: if enabled && features.experimental_perm {
                    perm
                } else {
                    None
                },
            },
        ),
{
    let name = e[i].name@;
    let n = e.len() as int;
    let f = BlockFormat::Q8K;
    law_read_of_written(f, rows, k, blocks);
    let h = file_header(f, rows, k);
    lemma_kept(e, i + 1, n, files, features, name + ".q8k"@);
    lemma_kept(e, i + 1, n, files, features, name + ".q8k_meta"@);
    lemma_kept(e, i + 1, n, files, features, name + ".perm"@);
    lemma_names_apart(name);
    let forms = existing_forms(files, name, features);
    assert(forms.q8k && !forms.q8k128 && !forms.q6k && !forms.q4k);
    if perm is Some {
        law_perm_round_trip(perm->0);
    }
    let before = pack_spec(e, i, files, features)->Ok_0;
    let after = pack_spec(e, i + 1, files, features)->Ok_0;
    assert(after.tensors.dom().contains(name + ".q8k"@) && after.tensors[name + ".q8k"@]
        == raw_record(header_bytes(h) + blocks));
    assert(after.tensors.dom().contains(name + ".q8k_meta"@) && after.tensors[name + ".q8k_meta"@]
        == dims_and_header_record(h));
    let packed = if features.experimental_perm {
        perm
    } else {
        None
    };
    if enabled && packed is None {
        lemma_unclaimed(e, i, files, features, name + ".perm"@);
    }
    lemma_q8k_loads(
        pack_spec(e, n, files, features)->Ok_0.tensors,
        name,
        rows,
        k,
        blocks,
        if enabled {
            packed
        } else {
            None
        },
        enabled,
    );
}

// ── what packing does with a weight ────────────────────────────────────────

/// A file is found by its name, wherever it stands: the first one of the name;
/// and none is found only where none has the name.
pub proof fn law_files_are_found(files: Seq<SourceFile>, name: Seq<char>)
    ensures
        match file_in(files, name) {
            Some(data) => exists|i: int|
                {
                    &&& 0 <= i < files.len()
                    &&& (#[trigger] files[i]).name@ == name
                    &&& files[i].data@ == data
                    &&& forall|j: int| 0 <= j < i ==> (#[trigger] files[j]).name@ != name
                },
            None => forall|j: int| 0 <= j < files.len() ==> (#[trigger] files[j]).name@ != name,
        },
    decreases files.len(),
{
    if files.len() > 0 && files[0].name@ != name {
        let rest = files.drop_first();
        law_files_are_found(rest, name);
        if let Some(data) = file_in(files, name) {
            let i = choose|i: int|
                {
                    &&& 0 <= i < rest.len()
                    &&& (#[trigger] rest[i]).name@ == name
                    &&& rest[i].data@ == data
                    &&& forall|j: int| 0 <= j < i ==> (#[trigger] rest[j]).name@ != name
                };
            assert(files[i + 1] == rest[i]);
            assert forall|j: int| 0 <= j < i + 1 implies (#[trigger] files[j]).name@ != name by {
                if j > 0 {
                    assert(rest[j - 1] == files[j]);
                }
            }
        } else {
            assert forall|j: int| 0 <= j < files.len() implies (#[trigger] files[j]).name@
                != name by {
                if j > 0 {
                    assert(rest[j - 1] == files[j]);
                }
            }
        }
    }
}

/// A weight is replaced where its name ends in `.weight` and holds neither
/// `embed` nor `norm`, and only there.
pub proof fn law_which_weights_are_replaced(name: Seq<char>)
    ensures
        quantized_weight(name) <==> {
            &&& exists|a: Seq<char>| name == #[trigger] (a + ".weight"@)
            &&& forall|a: Seq<char>, b: Seq<char>| name != #[trigger] (a + "embed"@ + b)
            &&& forall|a: Seq<char>, b: Seq<char>| name != #[trigger] (a + "norm"@ + b)
        },
{
    law_found_is_there(name, ".weight"@);
    law_found_is_there(name, "embed"@);
    law_found_is_there(name, "norm"@);
    assert forall|a: Seq<char>| name == #[trigger] (a + ".weight"@) implies ends_with_seq(
        name,
        ".weight"@,
    ) by {
        law_found_where_it_stands(a, ".weight"@, seq![]);
    }
    assert forall|a: Seq<char>, b: Seq<char>| name == #[trigger] (a + "embed"@
        + b) implies contains_seq(name, "embed"@) by {
        law_found_where_it_stands(a, "embed"@, b);
    }
    assert forall|a: Seq<char>, b: Seq<char>| name == #[trigger] (a + "norm"@
        + b) implies contains_seq(name, "norm"@) by {
        law_found_where_it_stands(a, "norm"@, b);
    }
}

/// The weights that a model multiplies by are replaced: the four of each layer,
/// and the head.
pub proof fn law_model_weights_are_replaced(d: Seq<char>, part: Seq<char>)
    requires
        d.len() > 0,
        all_digits(d),
        part == "self_attn.qkv_proj"@ || part == "self_attn.o_proj"@ || part
            == "mlp.gate_up_proj"@ || part == "mlp.down_proj"@,
    ensures
        quantized_weight("model.layers."@ + d + "."@ + part + ".weight"@),
        quantized_weight("lm_head.weight"@),
{
    law_layer_weight_names(d, part);
    law_found_where_it_stands("model.layers."@ + d + "."@ + part, ".weight"@, seq![]);
    lemma_no_embedding(d, part);
    lemma_head_replaced();
}

proof fn lemma_no_embedding(d: Seq<char>, part: Seq<char>)
    requires
        all_digits(d),
        is_layer_part(part),
    ensures
        !contains_seq(layer_weight(d, part), "embed"@),
{
    let name = layer_weight(d, part);
    reveal_strlit("embed");
    if contains_seq(name, "embed"@) {
        let i = lemma_found_at(name, "embed"@);
        assert(name[i + 2] == "embed"@[2]);
        lemma_layer_letters(d, part, i + 2);
    }
}

proof fn lemma_head_replaced()
    ensures
        quantized_weight("lm_head.weight"@),
{
    reveal_strlit("embed");
    reveal_strlit("lm_head.weight");
    reveal_strlit(".weight");
    reveal_strlit("norm");
    let head = "lm_head.weight"@;
    if contains_seq(head, "embed"@) {
        let i = lemma_found_at(head, "embed"@);
        assert(head[i + 2] == "embed"@[2]);
    }
    if contains_seq(head, "norm"@) {
        let i = lemma_found_at(head, "norm"@);
        assert(head[i + 0] == "norm"@[0]);
    }
    assert(head.subrange(7, 14) =~= ".weight"@);
}

/// What stands behind a weight's name where its blocks are.
pub open spec fn blocks_tail(f: BlockFormat) -> (Seq<char>, Seq<char>) {
    match f {
        BlockFormat::Q8K128 => (".q8k128"@, ".q8k128_meta"@),
        BlockFormat::Q4K => (".q4k"@, ".q4k_meta"@),
        BlockFormat::Q6K => (".q6k"@, ".q6k_meta"@),
        BlockFormat::Q8K => (".q8k"@, ".q8k_meta"@),
    }
}

proof fn lemma_tails_apart(name: Seq<char>, f: BlockFormat)
    ensures
        suffix(f) == blocks_tail(f).0,
        meta_suffix(f) == blocks_tail(f).1,
        name + blocks_tail(f).0 != name + blocks_tail(f).1,
        name + blocks_tail(f).0 != name + ".perm"@,
        name + blocks_tail(f).1 != name + ".perm"@,
        name + blocks_tail(f).0 != name,
        name + blocks_tail(f).1 != name,
        name + ".perm"@ != name,
{
    reveal_strlit(".q8k128");
    reveal_strlit(".q4k");
    reveal_strlit(".q6k");
    reveal_strlit(".q8k");
    reveal_strlit(".q8k128_meta");
    reveal_strlit(".q4k_meta");
    reveal_strlit(".q6k_meta");
    reveal_strlit(".q8k_meta");
    reveal_strlit(".perm");
    assert((name + blocks_tail(f).0).len() != (name + blocks_tail(f).1).len());
    assert((name + blocks_tail(f).0).len() != (name + ".perm"@).len());
    assert((name + blocks_tail(f).1).len() != (name + ".perm"@).len());
    assert((name + blocks_tail(f).0).len() != name.len());
    assert((name + blocks_tail(f).1).len() != name.len());
    assert((name + ".perm"@).len() != name.len());
}

/// A weight of which one quantized form is at hand is packed as the file has it:
/// the blocks, with the header where they are Q8K, as bytes, and the rows and
/// columns, as the header has them, as numbers. The weight itself is not packed.
pub proof fn law_weight_is_packed_as_its_file(
    v: PackView,
    name: Seq<char>,
    t: TensorRecord,
    f: BlockFormat,
    files: Seq<SourceFile>,
    features: Features,
)
    requires
        quantized_weight(name),
        file_in(files, name + blocks_tail(f).0) is Some,
        f == BlockFormat::Q8K128 ==> features.experimental_q8k128,
        forall|g: BlockFormat|
            g != f && (g == BlockFormat::Q8K128 ==> features.experimental_q8k128) ==> file_in(
                files,
                name + (#[trigger] blocks_tail(g)).0,
            ) is None,
        pack_step(v, name, t, files, features) is Ok,
    ensures
        ({
            let file = file_in(files, name + blocks_tail(f).0)->0;
            let w = pack_step(v, name, t, files, features)->Ok_0;
            let blocks = w.tensors[name + blocks_tail(f).0];
            let dims = w.tensors[name + blocks_tail(f).1];
            &&& w.tensors.dom().contains(name + blocks_tail(f).0)
            &&& w.tensors.dom().contains(name + blocks_tail(f).1)
            &&& blocks.dtype == Dtype::U8
            &&& f == BlockFormat::Q8K ==> blocks.data == file
            &&& f != BlockFormat::Q8K ==> blocks.data == file.skip(24)
            &&& blocks.shape == seq![blocks.data.len() as usize]
            &&& dims.dtype == Dtype::I32
            &&& f == BlockFormat::Q8K ==> dims.data == file.subrange(8, 16) + le32_bytes(24)
                && dims.shape == seq![3usize]
            &&& f != BlockFormat::Q8K ==> dims.data == file.subrange(8, 16) && dims.shape
                == seq![2usize]
            &&& w.tensors.dom().contains(name) == v.tensors.dom().contains(name)
            &&& w.quantized == v.quantized + 1
            &&& w.preserved == v.preserved
        }),
{
    let w = if !features.experimental_q8k128 && file_in(files, name + ".q8k128"@) is Some {
        PackView { q8k128_skipped: v.q8k128_skipped + 1, ..v }
    } else {
        v
    };
    assert(f != BlockFormat::Q8K128 && features.experimental_q8k128 ==> file_in(
        files,
        name + blocks_tail(BlockFormat::Q8K128).0,
    ) is None);
    assert(f != BlockFormat::Q4K ==> file_in(files, name + blocks_tail(BlockFormat::Q4K).0) is None);
    assert(f != BlockFormat::Q6K ==> file_in(files, name + blocks_tail(BlockFormat::Q6K).0) is None);
    assert(f != BlockFormat::Q8K ==> file_in(files, name + blocks_tail(BlockFormat::Q8K).0) is None);
    let forms = existing_forms(files, name, features);
    assert(forms.count() == 1 && forms.has(f));
    assert(pack_step(v, name, t, files, features) == replace_step(w, name, f, files, features));
    lemma_replaced(w, name, f, files, features);
}

proof fn lemma_replaced(
    v: PackView,
    name: Seq<char>,
    f: BlockFormat,
    files: Seq<SourceFile>,
    features: Features,
)
    requires
        file_in(files, name + blocks_tail(f).0) is Some,
        replace_step(v, name, f, files, features) is Ok,
    ensures
        ({
            let file = file_in(files, name + blocks_tail(f).0)->0;
            let w = replace_step(v, name, f, files, features)->Ok_0;
            let blocks = w.tensors[name + blocks_tail(f).0];
            let dims = w.tensors[name + blocks_tail(f).1];
            &&& w.tensors.dom().contains(name + blocks_tail(f).0)
            &&& w.tensors.dom().contains(name + blocks_tail(f).1)
            &&& f == BlockFormat::Q8K ==> blocks == raw_record(file)
            &&& f != BlockFormat::Q8K ==> blocks == raw_record(file.skip(24))
            &&& dims.dtype == Dtype::I32
            &&& f == BlockFormat::Q8K ==> dims.data == file.subrange(8, 16) + le32_bytes(24)
                && dims.shape == seq![3usize]
            &&& f != BlockFormat::Q8K ==> dims.data == file.subrange(8, 16) && dims.shape
                == seq![2usize]
            &&& w.tensors.dom().contains(name) == v.tensors.dom().contains(name)
            &&& w.quantized == v.quantized + 1
            &&& w.preserved == v.preserved
        }),
{
    let file = file_in(files, name + blocks_tail(f).0)->0;
    lemma_tails_apart(name, f);
    assert(read_spec(file, f) is Ok);
    let (blocks, h) = read_spec(file, f)->Ok_0;
    law_header_fields(file);
    law_header_bytes_round_trip(file);
    law_le32_bytes_round_trip(file, 8);
    law_le32_bytes_round_trip(file, 12);
    assert(header_bytes(h) + blocks =~= file);
    assert(le32_bytes(h.out as int) + le32_bytes(h.k as int) =~= file.subrange(8, 16));
}

/// A permutation goes with a Q8K weight, byte by byte, where permutations are
/// switched on, and is counted and left out where they are not.
pub proof fn law_permutation_is_packed(
    v: PackView,
    name: Seq<char>,
    files: Seq<SourceFile>,
    features: Features,
)
    requires
        perm_step(v, name, files, features) is Ok,
    ensures
        ({
            let stored = file_in(files, name + ".perm"@);
            let w = perm_step(v, name, files, features)->Ok_0;
            &&& stored is Some && features.experimental_perm ==> {
                &&& w.tensors.dom().contains(name + ".perm"@)
                &&& w.tensors[name + ".perm"@].data == stored->0
                &&& w.tensors[name + ".perm"@].dtype == Dtype::U8
                &&& w.perms == v.perms + 1
                &&& w.perms_skipped == v.perms_skipped
            }
            &&& stored is Some && !features.experimental_perm ==> {
                &&& w.tensors == v.tensors
                &&& w.perms == v.perms
                &&& w.perms_skipped == v.perms_skipped + 1
            }
            &&& stored is None ==> w == v
        }),
{
}

/// A weight is refused where it is at hand in two forms, where the file of its
/// one form cannot be read, or the permutation that goes with it cannot; and
/// nowhere else. Forms with 128-wide blocks count where they are switched on.
pub proof fn law_which_weights_are_refused(
    v: PackView,
    name: Seq<char>,
    t: TensorRecord,
    files: Seq<SourceFile>,
    features: Features,
)
    ensures
        ({
            let wide = features.experimental_q8k128 && file_in(files, name + ".q8k128"@) is Some;
            let q4k = file_in(files, name + ".q4k"@);
            let q6k = file_in(files, name + ".q6k"@);
            let q8k = file_in(files, name + ".q8k"@);
            let perm = file_in(files, name + ".perm"@);
            pack_step(v, name, t, files, features) is Err <==> quantized_weight(name) && {
                ||| wide && q4k is Some
                ||| wide && q6k is Some
                ||| wide && q8k is Some
                ||| q4k is Some && q6k is Some
                ||| q4k is Some && q8k is Some
                ||| q6k is Some && q8k is Some
                ||| wide && read_spec(
                    file_in(files, name + ".q8k128"@)->0,
                    BlockFormat::Q8K128,
                ) is Err
                ||| q4k is Some && read_spec(q4k->0, BlockFormat::Q4K) is Err
                ||| q6k is Some && read_spec(q6k->0, BlockFormat::Q6K) is Err
                ||| q8k is Some && read_spec(q8k->0, BlockFormat::Q8K) is Err
                ||| q8k is Some && perm is Some && features.experimental_perm && perm_fault(
                    perm->0,
                ) is Some
            }
        }),
{
}

/// A tensor that is not replaced, or of which no quantized form is at hand, is
/// packed as it is.
pub proof fn law_other_tensors_are_packed_as_they_are(
    v: PackView,
    name: Seq<char>,
    t: TensorRecord,
    files: Seq<SourceFile>,
    features: Features,
)
    requires
        !quantized_weight(name) || file_in(files, name + ".q4k"@) is None && file_in(
            files,
            name + ".q6k"@,
        ) is None && file_in(files, name + ".q8k"@) is None && (!features.experimental_q8k128
            || file_in(files, name + ".q8k128"@) is None),
    ensures
        pack_step(v, name, t, files, features) is Ok,
        ({
            let w = pack_step(v, name, t, files, features)->Ok_0;
            &&& w.tensors == v.tensors.insert(name, t)
            &&& w.preserved == v.preserved + 1
            &&& w.quantized == v.quantized
        }),
{
}

/// A fault is about the first tensor that could not be packed, and says its name.
pub proof fn law_fault_names_its_weight(
    e: Seq<TensorEntry>,
    n: int,
    files: Seq<SourceFile>,
    features: Features,
)
    requires
        0 <= n <= e.len(),
        pack_spec(e, n, files, features) is Err,
    ensures
        exists|i: int|
            {
                let name = (#[trigger] e[i]).name@;
                let before = pack_spec(e, i, files, features);
                &&& 0 <= i < n
                &&& before is Ok
                &&& pack_spec(e, n, files, features)->Err_0.1 == name
                &&& pack_step(before->Ok_0, name, e[i].record(), files, features) == Err::<
                    PackView,
                    PackFault,
                >(pack_spec(e, n, files, features)->Err_0.0)
            },
    decreases n,
{
    if pack_spec(e, n - 1, files, features) is Err {
        law_fault_names_its_weight(e, n - 1, files, features);
        let i = choose|i: int|
            {
                let name = (#[trigger] e[i]).name@;
                let before = pack_spec(e, i, files, features);
                &&& 0 <= i < n - 1
                &&& before is Ok
                &&& pack_spec(e, n - 1, files, features)->Err_0.1 == name
                &&& pack_step(before->Ok_0, name, e[i].record(), files, features) == Err::<
                    PackView,
                    PackFault,
                >(pack_spec(e, n - 1, files, features)->Err_0.0)
            };
        assert(e[i].name@ == pack_spec(e, n, files, features)->Err_0.1);
    } else {
        assert(e[n - 1].name@ == pack_spec(e, n, files, features)->Err_0.1);
    }
}

/// The forms at hand are named, one name for each.
pub proof fn law_forms_are_named(forms: Existing)
    ensures
        forms.labels().len() == forms.count(),
        forms.q8k128 ==> forms.labels().contains("Q8K128"@),
        forms.q4k ==> forms.labels().contains("Q4K"@),
        forms.q6k ==> forms.labels().contains("Q6K"@),
        forms.q8k ==> forms.labels().contains("Q8K"@),
{
    let a = one_if(forms.q8k128, "Q8K128"@);
    let b = one_if(forms.q4k, "Q4K"@);
    let c = one_if(forms.q6k, "Q6K"@);
    let d = one_if(forms.q8k, "Q8K"@);
    let all = a + b + c + d;
    if forms.q8k128 {
        assert(all[0] == "Q8K128"@);
    }
    if forms.q4k {
        assert(all[a.len() as int] == "Q4K"@);
    }
    if forms.q6k {
        assert(all[(a.len() + b.len()) as int] == "Q6K"@);
    }
    if forms.q8k {
        assert(all[(a.len() + b.len() + c.len()) as int] == "Q8K"@);
    }
}

/// What has been packed is seen as it is.
pub proof fn law_packed_is_seen_whole(p: Packer)
    ensures
        p@.tensors == p.set@,
        p@.quantized == p.quantized,
        p@.preserved == p.preserved,
        p@.perms == p.perms,
        p@.perms_skipped == p.perms_skipped,
        p@.q8k128_skipped == p.q8k128_skipped,
{
}

/// The final normalization is there exactly where loading a model finds it.
pub proof fn law_final_norm_is_the_one_that_loads(m: Map<Seq<char>, TensorRecord>)
    ensures
        final_norm(m) <==> norm_name(m) is Some,
        final_norm(m) ==> m.dom().contains(norm_name(m)->0),
{
}

} // verus!
