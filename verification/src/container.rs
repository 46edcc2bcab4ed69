//! Named tensors and the SafeTensors container that stores them.

use safetensors::tensor::{Metadata, SafeTensors, TensorView};
use safetensors::SafeTensorError;
use vstd::prelude::*;
use vstd::slice::slice_subrange;
use vstd::string::*;

use crate::bytes::{copied, le32, read_le32};
use crate::text::{ends_with, ends_with_seq, same};
use crate::types::{law_labels_distinct, Dtype};

verus! {

// ── tensors as plain values ────────────────────────────────────────────────

/// A stored tensor: element type, shape and raw bytes.
#[verifier::ext_equal]
pub struct TensorRecord {
    pub dtype: Dtype,
    pub shape: Seq<usize>,
    pub data: Seq<u8>,
}

/// A named stored tensor.
#[derive(Debug)]
pub struct TensorEntry {
    pub name: String,
    pub dtype: Dtype,
    pub shape: Vec<usize>,
    pub data: Vec<u8>,
}

/// The number of elements of a tensor with this shape.
pub open spec fn elems(shape: Seq<usize>) -> nat
    decreases shape.len(),
{
    if shape.len() == 0 {
        1
    } else {
        elems(shape.drop_last()) * shape.last() as nat
    }
}

/// A shape, an element type and a byte count that belong together: counting the
/// elements, dimension by dimension, and then the bits stays within a machine
/// word, and the bytes are exactly those of the elements.
pub open spec fn sized(dtype: Dtype, shape: Seq<usize>, len: nat) -> bool {
    &&& forall|n: int| 0 <= n <= shape.len() ==> #[trigger] elems(shape.take(n)) <= usize::MAX
    &&& elems(shape) * dtype.spec_bits() <= usize::MAX
    &&& elems(shape) * dtype.spec_bits() == 8 * len
}

/// A name under which the container stores a tensor; it keeps one name for
/// itself.
pub open spec fn storable_name(name: Seq<char>) -> bool {
    name != "__metadata__"@
}

impl TensorEntry {
    /// The tensor without its name.
    pub open spec fn record(&self) -> TensorRecord {
        TensorRecord { dtype: self.dtype, shape: self.shape@, data: self.data@ }
    }

    /// The parts of this tensor belong together and its name can be stored.
    pub open spec fn valid(&self) -> bool {
        &&& storable_name(self.name@)
        &&& sized(self.dtype, self.shape@, self.data@.len())
    }

    /// A copy of this tensor.
    pub fn duplicate(&self) -> (r: TensorEntry)
        ensures
            r.name@ == self.name@,
            r.record() == self.record(),
    {
        TensorEntry {
            name: self.name.clone(),
            dtype: self.dtype,
            shape: copied(self.shape.as_slice()),
            data: copied(self.data.as_slice()),
        }
    }
}

/// Tensors by name.
#[derive(Debug)]
pub struct TensorSet {
    pub entries: Vec<TensorEntry>,
}

/// Some tensor of `e` is called `name`.
pub open spec fn named(e: Seq<TensorEntry>, name: Seq<char>) -> bool {
    exists|i: int| 0 <= i < e.len() && (#[trigger] e[i]).name@ == name
}

/// The position of a tensor of `e` called `name`.
pub open spec fn slot(e: Seq<TensorEntry>, name: Seq<char>) -> int {
    choose|i: int| 0 <= i < e.len() && (#[trigger] e[i]).name@ == name
}

/// No two tensors of `e` share a name.
pub open spec fn distinct(e: Seq<TensorEntry>) -> bool {
    forall|i: int, j: int|
        0 <= i < j < e.len() ==> (#[trigger] e[i]).name@ != (#[trigger] e[j]).name@
}

/// The tensors of `e` by name.
pub open spec fn by_name(e: Seq<TensorEntry>) -> Map<Seq<char>, TensorRecord> {
    Map::new(|name: Seq<char>| named(e, name), |name: Seq<char>| e[slot(e, name)].record())
}

impl View for TensorSet {
    type V = Map<Seq<char>, TensorRecord>;

    open spec fn view(&self) -> Map<Seq<char>, TensorRecord> {
        by_name(self.entries@)
    }
}

proof fn lemma_by_name(e: Seq<TensorEntry>, i: int)
    requires
        distinct(e),
        0 <= i < e.len(),
    ensures
        by_name(e).dom().contains(e[i].name@),
        by_name(e)[e[i].name@] == e[i].record(),
{
    let name = e[i].name@;
    assert(named(e, name));
    let s = slot(e, name);
    assert(0 <= s < e.len() && e[s].name@ == name);
    if s < i {
        assert(e[s].name@ != e[i].name@);
    } else if i < s {
        assert(e[i].name@ != e[s].name@);
    }
}

impl TensorSet {
    /// Names are distinct and every tensor is valid.
    pub open spec fn wf(&self) -> bool {
        &&& distinct(self.entries@)
        &&& forall|i: int| 0 <= i < self.entries@.len() ==> (#[trigger] self.entries@[i]).valid()
    }

    /// No tensors.
    pub fn new() -> (s: TensorSet)
        ensures
            s.wf(),
            s@ == Map::<Seq<char>, TensorRecord>::empty(),
    {
        let s = TensorSet { entries: Vec::new() };
        assert(s@ =~= Map::<Seq<char>, TensorRecord>::empty());
        s
    }

    /// The position of the tensor called `name`.
    fn find(&self, name: &str) -> (r: Option<usize>)
        ensures
            match r {
                Some(i) => i < self.entries@.len() && self.entries@[i as int].name@ == name@,
                None => !named(self.entries@, name@),
            },
    {
        let mut i: usize = 0;
        while i < self.entries.len()
            invariant
                i <= self.entries@.len(),
                forall|j: int| 0 <= j < i ==> (#[trigger] self.entries@[j]).name@ != name@,
            decreases self.entries@.len() - i,
        {
            if same(self.entries[i].name.as_str(), name) {
                return Some(i);
            }
            i += 1;
        }
        None
    }

    /// The tensor called `name`.
    pub fn get(&self, name: &str) -> (r: Option<&TensorEntry>)
        requires
            self.wf(),
        ensures
            match r {
                Some(e) => {
                    &&& self@.dom().contains(name@)
                    &&& e.record() == self@[name@]
                    &&& e.name@ == name@
                    &&& e.valid()
                },
                None => !self@.dom().contains(name@),
            },
    {
        match self.find(name) {
            Some(i) => {
                proof {
                    lemma_by_name(self.entries@, i as int);
                }
                Some(&self.entries[i])
            },
            None => None,
        }
    }

    /// Whether a tensor is called `name`.
    pub fn has(&self, name: &str) -> (r: bool)
        ensures
            r == self@.dom().contains(name@),
    {
        match self.find(name) {
            Some(i) => {
                assert(named(self.entries@, name@));
                true
            },
            None => false,
        }
    }

    /// Whether the name of some tensor ends with `suffix`.
    pub fn has_suffix(&self, suffix: &str) -> (r: bool)
        ensures
            r == exists|name: Seq<char>| #[trigger]
                self@.dom().contains(name) && ends_with_seq(name, suffix@),
    {
        let mut i: usize = 0;
        while i < self.entries.len()
            invariant
                i <= self.entries@.len(),
                forall|j: int|
                    0 <= j < i ==> !ends_with_seq((#[trigger] self.entries@[j]).name@, suffix@),
            decreases self.entries@.len() - i,
        {
            if ends_with(self.entries[i].name.as_str(), suffix) {
                assert(named(self.entries@, self.entries@[i as int].name@));
                assert(self@.dom().contains(self.entries@[i as int].name@));
                return true;
            }
            i += 1;
        }
        assert forall|name: Seq<char>| #[trigger] self@.dom().contains(name) implies !ends_with_seq(
            name,
            suffix@,
        ) by {
            assert(named(self.entries@, name));
            let s = slot(self.entries@, name);
            assert(self.entries@[s].name@ == name);
        }
        false
    }

    /// Adds a tensor, in place of one of the same name.
    pub fn insert(&mut self, e: TensorEntry)
        requires
            old(self).wf(),
            e.valid(),
        ensures
            final(self).wf(),
            final(self)@ == old(self)@.insert(e.name@, e.record()),
    {
        let ghost before = self.entries@;
        let ghost name = e.name@;
        let ghost rec = e.record();
        let ghost added = e;
        match self.find(e.name.as_str()) {
            Some(i) => {
                self.entries.set(i, e);
                proof {
                    let now = self.entries@;
                    assert(now == before.update(i as int, added));
                    assert(distinct(now)) by {
                        assert forall|a: int, b: int| 0 <= a < b < now.len() implies (
                        #[trigger] now[a]).name@ != (#[trigger] now[b]).name@ by {
                            assert(before[a].name@ != before[b].name@);
                        }
                    }
                    assert forall|n: Seq<char>| named(now, n) == (named(before, n) || n == name) by {
                        if named(now, n) {
                            let s = slot(now, n);
                            if s != i {
                                assert(before[s].name@ == n);
                            }
                        }
                        if named(before, n) {
                            let s = slot(before, n);
                            assert(now[s].name@ == n);
                        }
                        assert(now[i as int].name@ == name);
                    }
                    lemma_by_name(now, i as int);
                    assert forall|n: Seq<char>| named(before, n) && n != name implies #[trigger] by_name(
                        now,
                    )[n] == by_name(before)[n] by {
                        let s = slot(before, n);
                        assert(s != i);
                        assert(now[s].name@ == n);
                        lemma_by_name(now, s);
                        lemma_by_name(before, s);
                    }
                    assert(by_name(now) =~= by_name(before).insert(name, rec));
                }
            },
            None => {
                self.entries.push(e);
                proof {
                    let now = self.entries@;
                    let i = before.len() as int;
                    assert(now == before.push(added));
                    assert(distinct(now)) by {
                        assert forall|a: int, b: int| 0 <= a < b < now.len() implies (
                        #[trigger] now[a]).name@ != (#[trigger] now[b]).name@ by {
                            assert(before[a] == now[a]);
                        }
                    }
                    assert forall|n: Seq<char>| named(now, n) == (named(before, n) || n == name) by {
                        if named(now, n) {
                            let s = slot(now, n);
                            if s != i {
                                assert(before[s].name@ == n);
                            }
                        }
                        if named(before, n) {
                            let s = slot(before, n);
                            assert(now[s].name@ == n);
                        }
                        assert(now[i].name@ == name);
                    }
                    lemma_by_name(now, i);
                    assert forall|n: Seq<char>| named(before, n) && n != name implies #[trigger] by_name(
                        now,
                    )[n] == by_name(before)[n] by {
                        let s = slot(before, n);
                        assert(now[s].name@ == n);
                        lemma_by_name(now, s);
                        lemma_by_name(before, s);
                    }
                    assert(by_name(now) =~= by_name(before).insert(name, rec));
                }
            },
        }
    }
}

// ── the container ──────────────────────────────────────────────────────────

/// The error type of the SafeTensors container.
#[verifier::external_type_specification]
#[verifier::external_body]
pub struct ExSafeTensorError(SafeTensorError);

/// A named tensor as the container describes it, its element type by label.
#[derive(Debug)]
pub struct RawTensor {
    pub name: String,
    pub label: String,
    pub shape: Vec<usize>,
    pub data: Vec<u8>,
}

/// Label, shape and bytes of each tensor that a container file holds, by name;
/// `None` for bytes that are no container file.
pub uninterp spec fn container_tensors(file: Seq<u8>) -> Option<
    Map<Seq<char>, (Seq<char>, Seq<usize>, Seq<u8>)>,
>;

/// Label, shape and bytes of each tensor of `m`.
pub open spec fn labelled(m: Map<Seq<char>, TensorRecord>) -> Map<
    Seq<char>,
    (Seq<char>, Seq<usize>, Seq<u8>),
> {
    m.map_values(|r: TensorRecord| (r.dtype.spec_label(), r.shape, r.data))
}

/// No two tensors of `v` share a name.
pub open spec fn raw_distinct(v: Seq<RawTensor>) -> bool {
    forall|i: int, j: int|
        0 <= i < j < v.len() ==> (#[trigger] v[i]).name@ != (#[trigger] v[j]).name@
}

/// `m` holds the tensors of `v`, by name, and no others.
pub open spec fn raw_holds(
    v: Seq<RawTensor>,
    m: Map<Seq<char>, (Seq<char>, Seq<usize>, Seq<u8>)>,
) -> bool {
    &&& forall|i: int|
        0 <= i < v.len() ==> m.dom().contains((#[trigger] v[i]).name@) && m[v[i].name@] == (
            v[i].label@,
            v[i].shape@,
            v[i].data@,
        )
    &&& forall|name: Seq<char>| #[trigger]
        m.dom().contains(name) ==> exists|i: int|
            0 <= i < v.len() && (#[trigger] v[i]).name@ == name
}

/// The label is that of an element type, with which shape and bytes belong
/// together, and the name can be stored.
pub open spec fn raw_valid(t: RawTensor) -> bool {
    &&& storable_name(t.name@)
    &&& exists|d: Dtype| #[trigger] d.spec_label() == t.label@ && sized(d, t.shape@, t.data@.len())
}

/// Bytes that the header of a container may have.
pub const HEADER_LIMIT: u64 = 100_000_000;

/// Bytes that a tensor takes in the header at most. A character of the name
/// takes up to six, escaped; a dimension and each of the two offsets up to
/// twenty digits; and the rest is punctuation, keys and the label.
pub open spec fn header_share(name: Seq<char>, dims: nat) -> nat {
    6 * name.len() + 21 * dims + 100
}

/// Bytes that the header of a container with the first `n` of `e` has at most.
pub open spec fn header_room(e: Seq<TensorEntry>, n: int) -> nat
    decreases n,
{
    if n <= 0 {
        16
    } else {
        header_room(e, n - 1) + header_share(e[n - 1].name@, e[n - 1].shape@.len())
    }
}

/// Bytes that the header of a container with the first `n` of `v` has at most.
pub open spec fn raw_room(v: Seq<RawTensor>, n: int) -> nat
    decreases n,
{
    if n <= 0 {
        16
    } else {
        raw_room(v, n - 1) + header_share(v[n - 1].name@, v[n - 1].shape@.len())
    }
}

proof fn lemma_raw_room(e: Seq<TensorEntry>, v: Seq<RawTensor>, n: int)
    requires
        0 <= n <= e.len(),
        n <= v.len(),
        forall|j: int|
            0 <= j < n ==> {
                &&& (#[trigger] v[j]).name@ == e[j].name@
                &&& v[j].shape@ == e[j].shape@
            },
    ensures
        raw_room(v, n) == header_room(e, n),
    decreases n,
{
    if n > 0 {
        lemma_raw_room(e, v, n - 1);
        assert(v[n - 1].name@ == e[n - 1].name@);
    }
}

/// Where the last tensor ends, counted from the end of the header, that a header
/// declares; `None` for bytes that are no valid header.
pub uninterp spec fn declared_end(header: Seq<u8>) -> Option<usize>;

/// The length of the header that a container file states at its beginning.
pub open spec fn header_len(file: Seq<u8>) -> int {
    le32(file, 0) + 0x1_0000_0000 * le32(file, 4)
}

/// The file is long enough for a header that is not too long.
pub open spec fn has_header(file: Seq<u8>) -> bool {
    &&& file.len() >= 8
    &&& header_len(file) <= HEADER_LIMIT
    &&& 8 + header_len(file) <= file.len()
}

/// What the header declares can be counted in a machine word from the beginning
/// of the file.
pub open spec fn addressable(file: Seq<u8>) -> bool {
    has_header(file) ==> match declared_end(file.subrange(8, 8 + header_len(file))) {
        Some(end) => 8 + header_len(file) + end <= usize::MAX,
        None => true,
    }
}

/// Parses a header as `safetensors::tensor::Metadata`, with
/// `serde_json::from_slice`, and hands out `Metadata::data_len`. The outcome is a
/// function of the bytes; which headers are valid is not spelled out.
#[verifier::external_body]
fn declared_end_of(header: &[u8]) -> (r: Option<usize>)
    ensures
        r == declared_end(header@),
{
    serde_json::from_slice::<Metadata>(header).ok().map(|m| m.data_len())
}

/// Whether what the header declares can be counted in a machine word.
fn is_addressable(file: &[u8]) -> (r: bool)
    ensures
        r == addressable(file@),
{
    if file.len() < 8 {
        return true;
    }
    let low: u32 = read_le32(file, 0);
    let high: u32 = read_le32(file, 4);
    if high > 0 || low as u64 > HEADER_LIMIT {
        return true;
    }
    let n: usize = low as usize;
    if n > file.len() - 8 {
        return true;
    }
    let header = slice_subrange(file, 8, 8 + n);
    match declared_end_of(header) {
        Some(end) => end <= usize::MAX - 8 - n,
        None => true,
    }
}

/// `safetensors::SafeTensors::deserialize`, every tensor handed out. Claimed:
/// it succeeds on container files alone and hands out each of their tensors
/// once, labelled with one of the known element types; the bytes of a tensor
/// are those of its shape and element type, and none is called
/// `__metadata__`, the key that the header keeps for itself.
#[verifier::external_body]
fn deserialize_raw(file: &[u8]) -> (r: Result<Vec<RawTensor>, SafeTensorError>)
    requires
        addressable(file@),
    ensures
        match r {
            Ok(v) => {
                &&& container_tensors(file@) is Some
                &&& raw_holds(v@, container_tensors(file@)->0)
                &&& raw_distinct(v@)
                &&& forall|i: int| 0 <= i < v@.len() ==> raw_valid(#[trigger] v@[i])
            },
            Err(_) => container_tensors(file@) is None,
        },
{
    let tensors = SafeTensors::deserialize(file)?;
    Ok(
        tensors.iter().map(
            |(name, t)| RawTensor {
                name: name.to_string(),
                label: t.dtype().to_string(),
                shape: t.shape().to_vec(),
                data: t.data().to_vec(),
            },
        ).collect(),
    )
}

/// `safetensors::serialize`, with no free-form metadata. Claimed: where it
/// succeeds, the bytes are a container file that holds exactly these tensors and
/// whose header declares no more than the file has, and it fails only where the header is longer than a container's may be, which
/// it is not while there is room for the longest form of every entry. How long
/// the header is, to the byte, is not spelled out.
#[verifier::external_body]
fn serialize_raw(tensors: &Vec<RawTensor>) -> (r: Result<Vec<u8>, SafeTensorError>)
    requires
        raw_distinct(tensors@),
        forall|i: int| 0 <= i < tensors@.len() ==> raw_valid(#[trigger] tensors@[i]),
    ensures
        match r {
            Ok(file) => addressable(file@) && container_tensors(file@) is Some && raw_holds(
                tensors@,
                container_tensors(file@)->0,
            ),
            Err(_) => raw_room(tensors@, tensors@.len() as int) > HEADER_LIMIT,
        },
{
    let mut views = Vec::new();
    for t in tensors {
        let dtype = serde_json::from_value(t.label.as_str().into())?;
        views.push((t.name.as_str(), TensorView::new(dtype, t.shape.clone(), &t.data)?));
    }
    safetensors::serialize(views, None)
}

/// Why a file could not be read.
#[derive(Debug)]
pub enum ReadError {
    /// It is no container.
    Container(SafeTensorError),
    /// Its header declares more than a machine word can count.
    TooLong,
}

/// The reason for which this file cannot be read.
pub open spec fn unreadable(file: Seq<u8>, e: ReadError) -> bool {
    match e {
        ReadError::Container(_) => addressable(file) && container_tensors(file) is None,
        ReadError::TooLong => !addressable(file),
    }
}

impl TensorSet {
    /// Reads a container file.
    pub fn read(file: &[u8]) -> (r: Result<TensorSet, ReadError>)
        ensures
            match r {
                Ok(set) => set.wf() && addressable(file@) && container_tensors(file@) == Some(
                    labelled(set@),
                ),
                Err(e) => unreadable(file@, e),
            },
    {
        if !is_addressable(file) {
            return Err(ReadError::TooLong);
        }
        let raw = match deserialize_raw(file) {
            Ok(v) => v,
            Err(e) => {
                return Err(ReadError::Container(e));
            },
        };
        let mut entries: Vec<TensorEntry> = Vec::new();
        let mut rest = raw;
        let ghost all = rest@;
        while rest.len() > 0
            invariant
                raw_distinct(all),
                forall|i: int| 0 <= i < all.len() ==> raw_valid(#[trigger] all[i]),
                rest@ == all.take(rest@.len() as int),
                rest@.len() + entries@.len() == all.len(),
                forall|j: int|
                    0 <= j < entries@.len() ==> {
                        let t = all[all.len() - 1 - j];
                        let e = #[trigger] entries@[j];
                        &&& e.name@ == t.name@
                        &&& e.dtype.spec_label() == t.label@
                        &&& e.shape@ == t.shape@
                        &&& e.data@ == t.data@
                        &&& e.valid()
                    },
            decreases rest@.len(),
        {
            let ghost t0 = rest@.last();
            match rest.pop() {
                Some(t) => {
                    assert(t == all[rest@.len() as int]);
                    assert(raw_valid(t));
                    assert(rest@ =~= all.take(rest@.len() as int));
                    match Dtype::from_label(t.label.as_str()) {
                        Some(dtype) => {
                            proof {
                                let d = choose|d: Dtype| #[trigger]
                                    d.spec_label() == t.label@ && sized(
                                        d,
                                        t.shape@,
                                        t.data@.len(),
                                    );
                                law_labels_distinct(d, dtype);
                            }
                            entries.push(
                                TensorEntry { name: t.name, dtype, shape: t.shape, data: t.data },
                            );
                        },
                        None => {
                            assert(false);
                        },
                    }
                },
                None => {},
            }
        }
        let set = TensorSet { entries };
        proof {
            let e = set.entries@;
            let m = container_tensors(file@)->0;
            let n = all.len() as int;
            assert(distinct(e)) by {
                assert forall|i: int, j: int| 0 <= i < j < e.len() implies (
                #[trigger] e[i]).name@ != (#[trigger] e[j]).name@ by {
                    assert(all[n - 1 - j].name@ != all[n - 1 - i].name@);
                }
            }
            assert forall|name: Seq<char>| #[trigger] labelled(set@).dom().contains(name)
                == m.dom().contains(name) by {
                if named(e, name) {
                    let s = slot(e, name);
                    assert(all[n - 1 - s].name@ == name);
                }
                if m.dom().contains(name) {
                    let i = choose|i: int| 0 <= i < all.len() && (#[trigger] all[i]).name@ == name;
                    assert(e[n - 1 - i].name@ == name);
                    assert(named(e, name));
                }
            }
            assert forall|name: Seq<char>| #[trigger] m.dom().contains(name) implies labelled(
                set@,
            )[name] == m[name] by {
                let i = choose|i: int| 0 <= i < all.len() && (#[trigger] all[i]).name@ == name;
                assert(e[n - 1 - i].name@ == name);
                lemma_by_name(e, n - 1 - i);
            }
            assert(labelled(set@) =~= m);
        }
        Ok(set)
    }

    /// The bytes of a container file with these tensors. They are written unless
    /// the header could be longer than a container's may be.
    pub fn write(&self) -> (r: Result<Vec<u8>, SafeTensorError>)
        requires
            self.wf(),
        ensures
            match r {
                Ok(file) => addressable(file@) && container_tensors(file@) == Some(labelled(self@)),
                Err(_) => header_room(self.entries@, self.entries@.len() as int) > HEADER_LIMIT,
            },
    {
        let mut raw: Vec<RawTensor> = Vec::new();
        let mut i: usize = 0;
        while i < self.entries.len()
            invariant
                self.wf(),
                i <= self.entries@.len(),
                raw@.len() == i,
                forall|j: int|
                    0 <= j < i ==> {
                        let e = self.entries@[j];
                        let t = #[trigger] raw@[j];
                        &&& e.name@ == t.name@
                        &&& e.dtype.spec_label() == t.label@
                        &&& e.shape@ == t.shape@
                        &&& e.data@ == t.data@
                    },
            decreases self.entries@.len() - i,
        {
            let copy = self.entries[i].duplicate();
            let label = copy.dtype.label().to_owned();
            raw.push(RawTensor { name: copy.name, label, shape: copy.shape, data: copy.data });
            i += 1;
        }
        let ghost e = self.entries@;
        proof {
            assert forall|a: int, b: int| 0 <= a < b < raw@.len() implies (
            #[trigger] raw@[a]).name@ != (#[trigger] raw@[b]).name@ by {
                assert(e[a].name@ != e[b].name@);
            }
            assert forall|a: int| 0 <= a < raw@.len() implies raw_valid(#[trigger] raw@[a]) by {
                assert(e[a].valid());
                assert(e[a].dtype.spec_label() == raw@[a].label@);
            }
        }
        let r = serialize_raw(&raw);
        proof {
            lemma_raw_room(e, raw@, e.len() as int);
            if r is Ok {
                let m = container_tensors(r->Ok_0@)->0;
                assert forall|name: Seq<char>| #[trigger] labelled(self@).dom().contains(name)
                    == m.dom().contains(name) by {
                    if named(e, name) {
                        let s = slot(e, name);
                        assert(raw@[s].name@ == name);
                    }
                    if m.dom().contains(name) {
                        let a = choose|a: int|
                            0 <= a < raw@.len() && (#[trigger] raw@[a]).name@ == name;
                        assert(e[a].name@ == name);
                        assert(named(e, name));
                    }
                }
                assert forall|name: Seq<char>| #[trigger] m.dom().contains(name) implies labelled(
                    self@,
                )[name] == m[name] by {
                    let a = choose|a: int| 0 <= a < raw@.len() && (#[trigger] raw@[a]).name@ == name;
                    lemma_by_name(e, a);
                    assert(raw@[a].name@ == e[a].name@);
                }
                assert(labelled(self@) =~= m);
            }
        }
        r
    }
}

/// A written file can be read, and reading it gives back every tensor, with its
/// element type, shape and bytes.
pub proof fn law_read_of_written_container(
    written: Map<Seq<char>, TensorRecord>,
    read: Map<Seq<char>, TensorRecord>,
    file: Seq<u8>,
)
    requires
        addressable(file),
        container_tensors(file) == Some(labelled(written)),
        container_tensors(file) == Some(labelled(read)),
    ensures
        forall|e: ReadError| !unreadable(file, e),
        read == written,
{
    assert(labelled(written) == labelled(read));
    assert forall|name: Seq<char>| #[trigger] read.dom().contains(name) == written.dom().contains(
        name,
    ) by {
        assert(labelled(written).dom().contains(name) == labelled(read).dom().contains(name));
    }
    assert forall|name: Seq<char>| #[trigger] read.dom().contains(name) implies read[name]
        == written[name] by {
        assert(labelled(written)[name] == labelled(read)[name]);
        law_labels_distinct(read[name].dtype, written[name].dtype);
    }
    assert(read =~= written);
}

// ── what these functions are for ───────────────────────────────────────────

/// The elements of a shape are the product of its dimensions.
pub proof fn law_elements_multiply(a: Seq<usize>, b: Seq<usize>, n: usize)
    ensures
        elems(a + b) == elems(a) * elems(b),
        elems(seq![n]) == n,
    decreases b.len(),
{
    assert(seq![n].drop_last() =~= Seq::<usize>::empty());
    assert(elems(Seq::<usize>::empty()) == 1);
    assert(1 * (n as nat) == n);
    if b.len() == 0 {
        assert(a + b =~= a);
        assert(elems(a) * 1 == elems(a));
    } else {
        law_elements_multiply(a, b.drop_last(), n);
        assert((a + b).drop_last() =~= a + b.drop_last());
        assert((a + b).last() == b.last());
        let x = elems(a);
        let y = elems(b.drop_last());
        let z = b.last() as nat;
        assert((x * y) * z == x * (y * z)) by (nonlinear_arith);
    }
}

/// A tensor is found by its name, wherever it stands, and only tensors are
/// found.
pub proof fn law_found_by_name(e: Seq<TensorEntry>, i: int, name: Seq<char>)
    requires
        distinct(e),
        0 <= i < e.len(),
    ensures
        by_name(e).dom().contains(e[i].name@),
        by_name(e)[e[i].name@] == e[i].record(),
        by_name(e).dom().contains(name) ==> exists|j: int|
            0 <= j < e.len() && (#[trigger] e[j]).name@ == name,
{
    lemma_by_name(e, i);
}

/// In a container file a tensor keeps its name, shape and bytes; its element type
/// stands by its label.
pub proof fn law_labelled_keeps_tensors(m: Map<Seq<char>, TensorRecord>, name: Seq<char>)
    ensures
        labelled(m).dom().contains(name) <==> m.dom().contains(name),
        m.dom().contains(name) ==> labelled(m)[name] == (
            m[name].dtype.spec_label(),
            m[name].shape,
            m[name].data,
        ),
{
}

/// A file is too long where it has room for its header, of at most a hundred
/// million bytes, and what the header declares does not fit in a machine word
/// behind it; and nowhere else. The header's length stands in the first eight
/// bytes, the lowest first.
pub proof fn law_which_files_are_too_long(file: Seq<u8>, e: ReadError)
    ensures
        ({
            let n = le32(file, 0) + 0x1_0000_0000 * le32(file, 4);
            let end = declared_end(file.subrange(8, 8 + n));
            let too_long = {
                &&& file.len() >= 8
                &&& n <= 100_000_000
                &&& 8 + n <= file.len()
                &&& end is Some
                &&& 8 + n + end->0 > usize::MAX
            };
            &&& addressable(file) <==> !too_long
            &&& unreadable(file, e) && e is TooLong ==> too_long
            &&& unreadable(file, e) && e is Container ==> !too_long && container_tensors(
                file,
            ) is None
        }),
{
}

/// The bytes of a tensor are as many as its elements, each of its bits, take.
pub proof fn law_bytes_of_a_tensor(dtype: Dtype, shape: Seq<usize>, len: nat)
    requires
        sized(dtype, shape, len),
    ensures
        8 * len == elems(shape) * dtype.spec_bits(),
        elems(shape) <= usize::MAX,
{
    assert(shape.take(shape.len() as int) =~= shape);
    assert(elems(shape.take(shape.len() as int)) <= usize::MAX);
}

/// A tensor is seen as it is, with its element type, its shape and all its bytes.
pub proof fn law_tensor_is_seen_whole(e: TensorEntry)
    ensures
        e.record().dtype == e.dtype,
        e.record().shape == e.shape@,
        e.record().data == e.data@,
{
}

} // verus!
