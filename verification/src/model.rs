//! How the tensors of the transformer are laid out: which part of a projection
//! is what, and which head attends with which keys.

use vstd::prelude::*;

verus! {

/// A run of columns: where it starts and how long it is.
#[derive(Debug, Clone, Copy, PartialEq, Eq, Structural)]
pub struct Span {
    pub start: usize,
    pub len: usize,
}

/// The columns of queries, keys and values in a joint projection.
#[derive(Debug, Clone, Copy, PartialEq, Eq, Structural)]
pub struct QkvSpans {
    pub q: Span,
    pub k: Span,
    pub v: Span,
}

/// Why a layer cannot be run.
#[derive(Debug, Clone, Copy, PartialEq, Eq, Structural)]
pub enum LayoutError {
    /// A projection has fewer columns than its parts need.
    TooNarrow { have: usize },
    /// The positions reach past the last that there is.
    PastEnd { index_pos: usize, seq_len: usize },
}

/// The heads of an attention layer.
#[derive(Debug, Clone, Copy, PartialEq, Eq, Structural)]
pub struct AttentionDims {
    pub num_attention_heads: usize,
    pub num_key_value_heads: usize,
    pub head_dim: usize,
}

/// The run from `start` on of this length.
pub open spec fn span(start: int, len: int) -> Span {
    Span { start: start as usize, len: len as usize }
}

impl AttentionDims {
    /// Columns of the queries.
    pub open spec fn q_size(self) -> int {
        self.num_attention_heads * self.head_dim
    }

    /// Columns of the keys, and of the values.
    pub open spec fn kv_size(self) -> int {
        self.num_key_value_heads * self.head_dim
    }

    /// Splits a joint projection of `columns` columns: queries first, then keys,
    /// then values. Columns after these are not used.
    pub fn split_qkv(self, columns: usize) -> (r: Result<QkvSpans, LayoutError>)
        ensures
            match r {
                Ok(s) => {
                    &&& self.q_size() + 2 * self.kv_size() <= columns
                    &&& s == (QkvSpans {
                        q: span(0, self.q_size()),
                        k: span(self.q_size(), self.kv_size()),
                        v: span(self.q_size() + self.kv_size(), self.kv_size()),
                    })
                },
                Err(e) => {
                    &&& self.q_size() + 2 * self.kv_size() > columns
                    &&& e == (LayoutError::TooNarrow { have: columns })
                },
            },
    {
        proof {
            lemma_size(self.num_attention_heads, self.head_dim);
            lemma_size(self.num_key_value_heads, self.head_dim);
        }
        let q: u128 = self.num_attention_heads as u128 * self.head_dim as u128;
        let kv: u128 = self.num_key_value_heads as u128 * self.head_dim as u128;
        let all: u128 = columns as u128;
        if q > all || kv > all || q + 2 * kv > all {
            return Err(LayoutError::TooNarrow { have: columns });
        }
        let q_size: usize = q as usize;
        let kv_size: usize = kv as usize;
        Ok(
            QkvSpans {
                q: Span { start: 0, len: q_size },
                k: Span { start: q_size, len: kv_size },
                v: Span { start: q_size + kv_size, len: kv_size },
            },
        )
    }

    /// How many attention heads share a key and value head.
    pub fn repeats(self) -> (n: usize)
        requires
            self.num_key_value_heads > 0,
        ensures
            n == self.num_attention_heads as int / self.num_key_value_heads as int,
    {
        self.num_attention_heads / self.num_key_value_heads
    }

    /// The dimensions of keys or values before and after they are repeated for
    /// the heads that share them. Nothing where they stay as they are.
    pub fn repeat_kv(self, dims: (usize, usize, usize, usize)) -> (r: Option<
        ((usize, usize, usize, usize, usize), (usize, usize, usize, usize)),
    >)
        requires
            self.num_key_value_heads > 0,
            dims.1 * (self.num_attention_heads as int / self.num_key_value_heads as int)
                <= usize::MAX,
        ensures
            ({
                let n = self.num_attention_heads as int / self.num_key_value_heads as int;
                match r {
                    None => n == 1,
                    Some((wide, flat)) => {
                        &&& n != 1
                        &&& wide == (dims.0, dims.1, n as usize, dims.2, dims.3)
                        &&& flat == (dims.0, (dims.1 * n) as usize, dims.2, dims.3)
                    },
                }
            }),
    {
        let n: usize = self.repeats();
        if n == 1 {
            return None;
        }
        let (b, heads, seq, width) = dims;
        proof {
            assert(0 <= heads * n) by (nonlinear_arith)
                requires
                    0 <= heads,
                    0 <= n,
            ;
        }
        Some(((b, heads, n, seq, width), (b, heads * n, seq, width)))
    }
}

proof fn lemma_size(a: usize, b: usize)
    ensures
        0 <= a * b <= 0xFFFF_FFFF_FFFF_FFFF * 0xFFFF_FFFF_FFFF_FFFF,
{
    assert(0 <= a * b <= 0xFFFF_FFFF_FFFF_FFFF * 0xFFFF_FFFF_FFFF_FFFF) by (nonlinear_arith)
        requires
            0 <= a <= 0xFFFF_FFFF_FFFF_FFFF,
            0 <= b <= 0xFFFF_FFFF_FFFF_FFFF,
    ;
}

/// Queries, keys and values do not overlap and leave no gap.
pub proof fn law_qkv_spans_adjoin(a: AttentionDims, columns: int)
    requires
        a.q_size() + 2 * a.kv_size() <= columns <= usize::MAX,
    ensures
        ({
            let q = span(0, a.q_size());
            let k = span(a.q_size(), a.kv_size());
            let v = span(a.q_size() + a.kv_size(), a.kv_size());
            &&& q.start + q.len == k.start
            &&& k.start + k.len == v.start
            &&& v.start + v.len <= columns
        }),
{
    lemma_size(a.num_attention_heads, a.head_dim);
    lemma_size(a.num_key_value_heads, a.head_dim);
}

/// The two halves of the joint projection of a feed-forward layer.
pub fn split_gate_up(hidden_size: usize, columns: usize) -> (r: Result<(Span, Span), LayoutError>)
    ensures
        match r {
            Ok((gate, up)) => {
                &&& 2 * hidden_size <= columns
                &&& gate == (Span { start: 0, len: hidden_size })
                &&& up == (Span { start: hidden_size, len: hidden_size })
            },
            Err(e) => 2 * hidden_size > columns && e == (LayoutError::TooNarrow { have: columns }),
        },
{
    if hidden_size > columns || columns - hidden_size < hidden_size {
        return Err(LayoutError::TooNarrow { have: columns });
    }
    Ok(
        (
            Span { start: 0, len: hidden_size },
            Span { start: hidden_size, len: hidden_size },
        ),
    )
}

/// The rows of the position tables for `seq_len` tokens from `index_pos` on.
pub fn rope_rows(index_pos: usize, seq_len: usize, max_seq_len: usize) -> (r: Result<
    Span,
    LayoutError,
>)
    ensures
        match r {
            Ok(s) => index_pos + seq_len <= max_seq_len && s == (Span {
                start: index_pos,
                len: seq_len,
            }),
            Err(e) => index_pos + seq_len > max_seq_len && e == (LayoutError::PastEnd {
                index_pos,
                seq_len,
            }),
        },
{
    if index_pos > max_seq_len || max_seq_len - index_pos < seq_len {
        return Err(LayoutError::PastEnd { index_pos, seq_len });
    }
    Ok(Span { start: index_pos, len: seq_len })
}

/// Whether queries are masked: a single one sees every key.
pub fn needs_mask(seq_len: usize) -> (r: bool)
    ensures
        r == (seq_len != 1),
{
    seq_len != 1
}

/// The mask of a single query over at least one key hides nothing, so leaving it
/// out changes nothing.
pub proof fn law_single_query_needs_no_mask(kv_len: int, j: int)
    requires
        1 <= kv_len,
        0 <= j < kv_len,
    ensures
        !crate::cache::hidden(1, kv_len, 0, j),
{
}

/// Queries have the columns of every attention head, and keys and values those of
/// every key/value head; a run of columns is where and as long as it is said to
/// be.
pub proof fn law_heads_have_their_columns(a: AttentionDims, head: int, start: int, len: int)
    ensures
        a.q_size() == a.num_attention_heads * a.head_dim,
        a.kv_size() == a.num_key_value_heads * a.head_dim,
        0 <= head < a.num_attention_heads ==> 0 <= head * a.head_dim && head * a.head_dim
            + a.head_dim <= a.q_size(),
        0 <= head < a.num_key_value_heads ==> 0 <= head * a.head_dim && head * a.head_dim
            + a.head_dim <= a.kv_size(),
        0 <= start <= usize::MAX && 0 <= len <= usize::MAX ==> span(start, len).start == start
            && span(start, len).len == len,
{
    let d = a.head_dim as int;
    let q = a.num_attention_heads as int;
    let kv = a.num_key_value_heads as int;
    if 0 <= head < q {
        assert(0 <= head * d && head * d + d <= q * d) by (nonlinear_arith)
            requires
                0 <= head < q,
                0 <= d,
        ;
    }
    if 0 <= head < kv {
        assert(0 <= head * d && head * d + d <= kv * d) by (nonlinear_arith)
            requires
                0 <= head < kv,
                0 <= d,
        ;
    }
}

/// Gate and up are the first two runs of the hidden size, in this order, whenever
/// there are that many columns.
pub proof fn law_gate_before_up(
    hidden_size: usize,
    columns: usize,
    r: Result<(Span, Span), LayoutError>,
)
    requires
        call_ensures(split_gate_up, (hidden_size, columns), r),
    ensures
        r is Ok <==> 2 * hidden_size <= columns,
        r is Ok ==> {
            let (gate, up) = r->Ok_0;
            &&& gate.start == 0
            &&& gate.start + gate.len == up.start
            &&& gate.len == up.len
            &&& gate.len == hidden_size
        },
{
}

/// Queries, keys and values follow one another from the first column on, with the
/// columns of their heads, whenever there are that many columns.
pub proof fn law_queries_keys_values(
    a: AttentionDims,
    columns: usize,
    r: Result<QkvSpans, LayoutError>,
)
    requires
        call_ensures(AttentionDims::split_qkv, (a, columns), r),
    ensures
        r is Ok <==> (a.num_attention_heads + 2 * a.num_key_value_heads) * a.head_dim <= columns,
        r is Ok ==> {
            let s = r->Ok_0;
            &&& s.q.start == 0
            &&& s.q.len == a.num_attention_heads * a.head_dim
            &&& s.k.start == s.q.len
            &&& s.k.len == a.num_key_value_heads * a.head_dim
            &&& s.v.start == s.k.start + s.k.len
            &&& s.v.len == s.k.len
        },
{
    let h = a.num_attention_heads as int;
    let kv = a.num_key_value_heads as int;
    let d = a.head_dim as int;
    assert((h + 2 * kv) * d == h * d + 2 * (kv * d)) by (nonlinear_arith);
    lemma_size(a.num_attention_heads, a.head_dim);
    lemma_size(a.num_key_value_heads, a.head_dim);
}

/// The rows of the position tables are those of the tokens' own positions, and
/// there are none past the end.
pub proof fn law_rows_are_the_positions(
    index_pos: usize,
    seq_len: usize,
    max_seq_len: usize,
    r: Result<Span, LayoutError>,
)
    requires
        call_ensures(rope_rows, (index_pos, seq_len, max_seq_len), r),
    ensures
        r is Ok <==> index_pos + seq_len <= max_seq_len,
        r is Ok ==> r->Ok_0.start == index_pos && r->Ok_0.start + r->Ok_0.len == index_pos + seq_len,
{
}

/// Repeated keys have a head for each attention head, where these are a multiple
/// of their own, and are left as they are where there are as many.
pub proof fn law_keys_are_repeated_for_every_head(
    a: AttentionDims,
    dims: (usize, usize, usize, usize),
    r: Option<((usize, usize, usize, usize, usize), (usize, usize, usize, usize))>,
)
    requires
        a.num_key_value_heads > 0,
        a.num_attention_heads as int % a.num_key_value_heads as int == 0,
        dims.1 == a.num_key_value_heads,
        call_ensures(AttentionDims::repeat_kv, (a, dims), r),
    ensures
        r is None <==> a.num_attention_heads == a.num_key_value_heads,
        r is Some ==> {
            let (wide, flat) = r->0;
            &&& flat.1 == a.num_attention_heads
            &&& flat.0 == dims.0 && flat.2 == dims.2 && flat.3 == dims.3
            &&& wide.1 * wide.2 == a.num_attention_heads
            &&& wide.0 == dims.0 && wide.1 == dims.1 && wide.3 == dims.2 && wide.4 == dims.3
        },
{
    let h = a.num_attention_heads as int;
    let kv = a.num_key_value_heads as int;
    vstd::arithmetic::div_mod::lemma_fundamental_div_mod(h, kv);
    let n = h / kv;
    assert(h == kv * n);
    assert(0 <= n <= h) by (nonlinear_arith)
        requires
            h == kv * n,
            kv > 0,
            h >= 0,
    ;
    assert(n == 1 <==> h == kv) by (nonlinear_arith)
        requires
            h == kv * n,
            kv > 0,
    ;
}

} // verus!
