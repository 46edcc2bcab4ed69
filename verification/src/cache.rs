//! What is remembered between runs of the model: keys and values of the tokens
//! seen so far, and attention masks.

use std::collections::HashMap;
use vstd::prelude::*;

use crate::bytes::copied;

verus! {

/// The keys and values that a layer has cached. `T` is whatever holds them;
/// `tokens` is for how many tokens they are, and the rest how many numbers.
#[derive(Debug)]
pub struct KvEntry<T> {
    pub k: T,
    pub v: T,
    pub tokens: usize,
    pub k_elems: usize,
    pub v_elems: usize,
}

/// Cached keys, values and masks. Masks are found by their numbers of queries and
/// keys, taken together as one number.
#[derive(Debug)]
pub struct Cache<T> {
    pub masks: HashMap<u128, Vec<u8>>,
    pub use_kv_cache: bool,
    pub kvs: Vec<Option<KvEntry<T>>>,
}

/// Whether the key at `j` is hidden from the query at `i`: it is later than the
/// query, the last query being as late as the last key.
pub open spec fn hidden(q_len: int, kv_len: int, i: int, j: int) -> bool {
    let offset = if kv_len > q_len {
        kv_len - q_len
    } else {
        0
    };
    j > offset + i
}

/// The mask of `q_len` queries over `kv_len` keys, row by row: one where the key
/// is hidden.
pub open spec fn mask_of(q_len: int, kv_len: int) -> Seq<u8> {
    Seq::new(
        (q_len * kv_len) as nat,
        |c: int|
            if hidden(q_len, kv_len, c / kv_len, c % kv_len) {
                1u8
            } else {
                0u8
            },
    )
}

/// What the lower half of a mask's number counts up to.
pub const HALF: u128 = 0x1_0000_0000_0000_0000;

/// Numbers of queries and keys as one number.
pub open spec fn mask_key(q_len: usize, kv_len: usize) -> u128 {
    (q_len * HALF + kv_len) as u128
}

fn key_of(q_len: usize, kv_len: usize) -> (key: u128)
    ensures
        key == mask_key(q_len, kv_len),
        key / HALF == q_len,
        key % HALF == kv_len,
{
    q_len as u128 * HALF + kv_len as u128
}

/// Masks of different numbers of queries or keys have different numbers.
pub proof fn law_mask_keys_differ(q1: usize, kv1: usize, q2: usize, kv2: usize)
    requires
        mask_key(q1, kv1) == mask_key(q2, kv2),
    ensures
        q1 == q2,
        kv1 == kv2,
{
}

proof fn lemma_cell_parts(i: int, j: int, w: int)
    requires
        0 <= i,
        0 <= j < w,
    ensures
        (i * w + j) / w == i,
        (i * w + j) % w == j,
{
    vstd::arithmetic::div_mod::lemma_fundamental_div_mod_converse(i * w + j, w, i, j);
}

/// The mask of `q_len` queries over `kv_len` keys.
pub fn build_mask(q_len: usize, kv_len: usize) -> (m: Vec<u8>)
    requires
        q_len * kv_len <= usize::MAX,
    ensures
        m@ == mask_of(q_len as int, kv_len as int),
{
    let offset: usize = if kv_len > q_len { kv_len - q_len } else { 0 };
    let mut m: Vec<u8> = Vec::new();
    let mut i: usize = 0;
    assert(0 * kv_len == 0) by (nonlinear_arith);
    while i < q_len
        invariant
            q_len * kv_len <= usize::MAX,
            offset == (if kv_len > q_len {
                kv_len - q_len
            } else {
                0
            }),
            i <= q_len,
            m@.len() == i * kv_len,
            forall|c: int|
                0 <= c < m@.len() ==> #[trigger] m@[c] == mask_of(q_len as int, kv_len as int)[c],
        decreases q_len - i,
    {
        proof {
            assert(i * kv_len + kv_len <= q_len * kv_len) by (nonlinear_arith)
                requires
                    i < q_len,
                    0 <= kv_len,
            ;
        }
        let mut j: usize = 0;
        while j < kv_len
            invariant
                i < q_len,
                i * kv_len + kv_len <= q_len * kv_len,
                offset == (if kv_len > q_len {
                    kv_len - q_len
                } else {
                    0
                }),
                j <= kv_len,
                m@.len() == i * kv_len + j,
                forall|c: int|
                    0 <= c < m@.len() ==> #[trigger] m@[c] == mask_of(
                        q_len as int,
                        kv_len as int,
                    )[c],
            decreases kv_len - j,
        {
            let bit: u8 = if j > offset + i { 1 } else { 0 };
            proof {
                lemma_cell_parts(i as int, j as int, kv_len as int);
                assert(bit == mask_of(q_len as int, kv_len as int)[i * kv_len + j]);
            }
            m.push(bit);
            j += 1;
        }
        proof {
            assert((i + 1) * kv_len == i * kv_len + kv_len) by (nonlinear_arith);
        }
        i += 1;
    }
    assert(m@ =~= mask_of(q_len as int, kv_len as int));
    m
}

/// No query sees a later token, each sees its own and all earlier ones, and the
/// last sees everything.
pub proof fn law_mask_is_causal(q_len: int, kv_len: int, i: int, j: int)
    requires
        0 <= i < q_len <= kv_len,
        0 <= j < kv_len,
    ensures
        0 <= i * kv_len + j < mask_of(q_len, kv_len).len(),
        mask_of(q_len, kv_len)[i * kv_len + j] == (if j > (kv_len - q_len) + i {
            1u8
        } else {
            0u8
        }),
        i == q_len - 1 ==> mask_of(q_len, kv_len)[i * kv_len + j] == 0,
{
    lemma_cell_parts(i, j, kv_len);
    assert(0 <= i * kv_len && i * kv_len + kv_len <= q_len * kv_len) by (nonlinear_arith)
        requires
            0 <= i < q_len,
            0 < kv_len,
    ;
}

/// Queries that come after `done` others see of their own keys what they would
/// see if all were asked at once.
pub proof fn law_mask_of_later_queries(done: int, q_len: int, i: int, j: int)
    requires
        0 <= done,
        0 <= i < q_len,
        0 <= j < done + q_len,
    ensures
        hidden(q_len, done + q_len, i, j) == hidden(done + q_len, done + q_len, done + i, j),
{
}

/// The largest number of cached tokens among the first `n` layers.
pub open spec fn most_tokens<T>(kvs: Seq<Option<KvEntry<T>>>, n: int) -> int
    decreases n,
{
    if n <= 0 {
        0
    } else {
        let before = most_tokens(kvs, n - 1);
        match kvs[n - 1] {
            Some(e) => if e.tokens > before {
                e.tokens as int
            } else {
                before
            },
            None => before,
        }
    }
}

/// The bytes that the cached numbers of the first `n` layers take, at four bytes
/// each.
pub open spec fn kv_bytes<T>(kvs: Seq<Option<KvEntry<T>>>, n: int) -> int
    decreases n,
{
    if n <= 0 {
        0
    } else {
        kv_bytes(kvs, n - 1) + match kvs[n - 1] {
            Some(e) => 4 * e.k_elems + 4 * e.v_elems,
            None => 0,
        }
    }
}

proof fn lemma_kv_bytes_grow<T>(kvs: Seq<Option<KvEntry<T>>>, m: int, n: int)
    requires
        0 <= m <= n,
    ensures
        0 <= kv_bytes(kvs, m) <= kv_bytes(kvs, n),
    decreases n,
{
    if m < n {
        lemma_kv_bytes_grow(kvs, m, n - 1);
    } else if n > 0 {
        lemma_kv_bytes_grow(kvs, n - 1, n - 1);
    }
}

fn no_entries<T>(n: usize) -> (v: Vec<Option<KvEntry<T>>>)
    ensures
        v@.len() == n,
        forall|i: int| 0 <= i < n ==> (#[trigger] v@[i]) is None,
{
    let mut v: Vec<Option<KvEntry<T>>> = Vec::new();
    let mut i: usize = 0;
    while i < n
        invariant
            i <= n,
            v@.len() == i,
            forall|j: int| 0 <= j < i ==> (#[trigger] v@[j]) is None,
        decreases n - i,
    {
        v.push(None);
        i += 1;
    }
    v
}

impl<T> Cache<T> {
    /// Every mask is the one for its numbers of queries and keys.
    pub open spec fn wf(&self) -> bool {
        forall|key: u128| #[trigger]
            self.masks@.dom().contains(key) ==> self.masks@[key]@ == mask_of(
                (key / HALF) as int,
                (key % HALF) as int,
            )
    }

    /// A mask for these numbers of queries and keys has been made.
    pub open spec fn has_mask(&self, q_len: usize, kv_len: usize) -> bool {
        self.masks@.dom().contains(mask_key(q_len, kv_len))
    }

    /// No layer has anything cached.
    pub open spec fn empty(&self, layers: int) -> bool {
        &&& self.kvs@.len() == layers
        &&& forall|i: int| 0 <= i < layers ==> (#[trigger] self.kvs@[i]) is None
        &&& self.masks@ == Map::<u128, Vec<u8>>::empty()
    }

    /// An empty cache for `num_layers` layers.
    pub fn new(use_kv_cache: bool, num_layers: usize) -> (c: Cache<T>)
        ensures
            c.wf(),
            c.empty(num_layers as int),
            c.use_kv_cache == use_kv_cache,
    {
        broadcast use vstd::std_specs::hash::group_hash_axioms;

        Cache { masks: HashMap::new(), use_kv_cache, kvs: no_entries(num_layers) }
    }

    /// The mask of `q_len` queries over `kv_len` keys. It is made once.
    pub fn mask_query_kv(&mut self, q_len: usize, kv_len: usize) -> (m: Vec<u8>)
        requires
            old(self).wf(),
            q_len * kv_len <= usize::MAX,
        ensures
            final(self).wf(),
            m@ == mask_of(q_len as int, kv_len as int),
            final(self).kvs == old(self).kvs,
            final(self).use_kv_cache == old(self).use_kv_cache,
            old(self).has_mask(q_len, kv_len) ==> final(self).masks@ == old(self).masks@,
            !old(self).has_mask(q_len, kv_len) ==> {
                &&& final(self).has_mask(q_len, kv_len)
                &&& final(self).masks@ == old(self).masks@.insert(
                    mask_key(q_len, kv_len),
                    final(self).masks@[mask_key(q_len, kv_len)],
                )
            },
    {
        broadcast use vstd::std_specs::hash::group_hash_axioms;

        let key: u128 = key_of(q_len, kv_len);
        if let Some(mask) = self.masks.get(&key) {
            return copied(mask.as_slice());
        }
        let mask = build_mask(q_len, kv_len);
        let m = copied(mask.as_slice());
        self.masks.insert(key, mask);
        m
    }

    /// Forgets everything but how many layers there are.
    pub fn reset_for_new_turn(&mut self)
        ensures
            final(self).wf(),
            final(self).empty(old(self).kvs@.len() as int),
            final(self).use_kv_cache == old(self).use_kv_cache,
    {
        broadcast use vstd::std_specs::hash::group_hash_axioms;

        let n: usize = self.kvs.len();
        self.kvs = no_entries(n);
        self.masks.clear();
    }

    /// What layer `i` has cached.
    pub fn cached(&self, i: usize) -> (r: Option<&KvEntry<T>>)
        requires
            i < self.kvs@.len(),
        ensures
            match r {
                Some(e) => self.kvs@[i as int] == Some(*e),
                None => self.kvs@[i as int] is None,
            },
    {
        match &self.kvs[i] {
            Some(e) => Some(e),
            None => None,
        }
    }

    /// Caches the keys and values of layer `i`, if caching is on.
    pub fn store(&mut self, i: usize, e: KvEntry<T>)
        requires
            old(self).wf(),
            i < old(self).kvs@.len(),
        ensures
            final(self).wf(),
            final(self).masks == old(self).masks,
            final(self).use_kv_cache == old(self).use_kv_cache,
            final(self).kvs@ == (if old(self).use_kv_cache {
                old(self).kvs@.update(i as int, Some(e))
            } else {
                old(self).kvs@
            }),
    {
        if self.use_kv_cache {
            self.kvs.set(i, Some(e));
        }
    }

    /// How many tokens are cached: the most of any layer.
    pub fn estimate_tokens(&self) -> (n: usize)
        ensures
            n == most_tokens(self.kvs@, self.kvs@.len() as int),
    {
        let len: usize = self.kvs.len();
        let mut most: usize = 0;
        let mut i: usize = 0;
        while i < len
            invariant
                len == self.kvs@.len(),
                i <= len,
                most == most_tokens(self.kvs@, i as int),
            decreases len - i,
        {
            match &self.kvs[i] {
                Some(e) => {
                    if e.tokens > most {
                        most = e.tokens;
                    }
                },
                None => {},
            }
            i += 1;
        }
        most
    }

    /// The bytes that the cached numbers take; nothing where that is no number of
    /// the machine.
    pub fn memory_bytes(&self) -> (r: Option<usize>)
        ensures
            match r {
                Some(n) => n == kv_bytes(self.kvs@, self.kvs@.len() as int),
                None => kv_bytes(self.kvs@, self.kvs@.len() as int) > usize::MAX,
            },
    {
        let len: usize = self.kvs.len();
        let mut total: usize = 0;
        let mut i: usize = 0;
        while i < len
            invariant
                len == self.kvs@.len(),
                i <= len,
                total == kv_bytes(self.kvs@, i as int),
            decreases len - i,
        {
            proof {
                lemma_kv_bytes_grow(self.kvs@, i + 1, len as int);
            }
            match &self.kvs[i] {
                Some(e) => {
                    let sum: u128 = total as u128 + 4 * (e.k_elems as u128) + 4 * (
                    e.v_elems as u128);
                    if sum > usize::MAX as u128 {
                        return None;
                    }
                    total = sum as usize;
                },
                None => {},
            }
            i += 1;
        }
        Some(total)
    }
}

/// A cell of the mask hides a key from a query exactly where it is later, counted
/// from the end where there are more keys than queries and from the beginning
/// where there are not.
pub proof fn law_mask_cells(q_len: int, kv_len: int, i: int, j: int)
    requires
        0 <= i < q_len,
        0 <= j < kv_len,
    ensures
        mask_of(q_len, kv_len).len() == q_len * kv_len,
        0 <= i * kv_len + j < q_len * kv_len,
        q_len <= kv_len ==> (mask_of(q_len, kv_len)[i * kv_len + j] == 1 <==> kv_len - j < q_len
            - i),
        q_len > kv_len ==> (mask_of(q_len, kv_len)[i * kv_len + j] == 1 <==> i < j),
        mask_of(q_len, kv_len)[i * kv_len + j] <= 1,
{
    lemma_cell_parts(i, j, kv_len);
    assert(0 <= i * kv_len && i * kv_len + kv_len <= q_len * kv_len) by (nonlinear_arith)
        requires
            0 <= i < q_len,
            0 < kv_len,
    ;
}

/// The most tokens are no fewer than any layer has, and some layer has them
/// unless there are none.
pub proof fn law_most_tokens_are_some_layers<T>(kvs: Seq<Option<KvEntry<T>>>, n: int)
    requires
        0 <= n <= kvs.len(),
    ensures
        forall|i: int|
            0 <= i < n && (#[trigger] kvs[i]) is Some ==> kvs[i]->0.tokens <= most_tokens(kvs, n),
        most_tokens(kvs, n) == 0 || exists|i: int|
            0 <= i < n && (#[trigger] kvs[i]) is Some && kvs[i]->0.tokens == most_tokens(kvs, n),
        most_tokens(kvs, n) >= 0,
    decreases n,
{
    if n > 0 {
        law_most_tokens_are_some_layers(kvs, n - 1);
        let before = most_tokens(kvs, n - 1);
        if kvs[n - 1] is Some && kvs[n - 1]->0.tokens > before {
            assert(kvs[n - 1]->0.tokens == most_tokens(kvs, n));
        } else if before != 0 {
            let i = choose|i: int|
                0 <= i < n - 1 && (#[trigger] kvs[i]) is Some && kvs[i]->0.tokens == before;
            assert(kvs[i]->0.tokens == most_tokens(kvs, n));
        }
    }
}

/// The bytes of layers are those of the first ones and those of the others, and
/// one layer's are four for each number of its keys and values.
pub proof fn law_bytes_of_layers<T>(
    a: Seq<Option<KvEntry<T>>>,
    b: Seq<Option<KvEntry<T>>>,
    e: KvEntry<T>,
)
    ensures
        kv_bytes(a + b, (a + b).len() as int) == kv_bytes(a, a.len() as int) + kv_bytes(
            b,
            b.len() as int,
        ),
        kv_bytes(seq![Some(e)], 1) == 4 * (e.k_elems + e.v_elems),
        kv_bytes(seq![None::<KvEntry<T>>], 1) == 0,
{
    assert(kv_bytes(seq![Some(e)], 0) == 0);
    assert(kv_bytes(seq![None::<KvEntry<T>>], 0) == 0);
    lemma_bytes_joined(a, b, b.len() as int);
}

proof fn lemma_bytes_joined<T>(a: Seq<Option<KvEntry<T>>>, b: Seq<Option<KvEntry<T>>>, n: int)
    requires
        0 <= n <= b.len(),
    ensures
        kv_bytes(a + b, a.len() + n) == kv_bytes(a, a.len() as int) + kv_bytes(b, n),
    decreases n,
{
    if n > 0 {
        lemma_bytes_joined(a, b, n - 1);
        assert((a + b)[a.len() + n - 1] == b[n - 1]);
    } else {
        lemma_bytes_of_first(a, b, a.len() as int);
    }
}

proof fn lemma_bytes_of_first<T>(a: Seq<Option<KvEntry<T>>>, b: Seq<Option<KvEntry<T>>>, n: int)
    requires
        0 <= n <= a.len(),
    ensures
        kv_bytes(a + b, n) == kv_bytes(a, n),
    decreases n,
{
    if n > 0 {
        lemma_bytes_of_first(a, b, n - 1);
        assert((a + b)[n - 1] == a[n - 1]);
    }
}

} // verus!
