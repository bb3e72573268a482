//! The model: an embedding table, a stack of attention layers, an
//! unembedding matrix, and the operations over them — parameter counting,
//! seeded random initialization, context validation and embedding lookup,
//! per-head attention scores, attention-weighted layer evaluation, and the
//! unembedding projection that turns a context's final embedding into
//! per-token logits. Normalizing scores or logits into distributions is
//! real-valued (softmax) and stays with the caller.

use vstd::prelude::*;

use crate::error::GptError;
use crate::matrix::Matrix;
use crate::matrix::add_grid;
use crate::matrix::entries_in_range;
use crate::matrix::lemma_scale_grid_range;
use crate::matrix::lemma_sums_fit_from_range;
use crate::matrix::scale_grid;
use crate::matrix::zero_grid;
use crate::matrix::lemma_dots_fit_from_range;
use crate::matrix::lemma_mul_grid_range;
use crate::matrix::mul_grid;
use crate::matrix::rect;
use crate::matrix::transpose_grid;
use crate::rng::rng_from_seed;
use crate::rng::rng_next;

verus! {

/// Weights are fixed-point fractions of this scale: a stored scalar `s`
/// stands for the real weight `s / WEIGHT_SCALE`. Random initialization
/// draws every weight from `[0, WEIGHT_SCALE)`, i.e. uniformly from the
/// unit interval in steps of `1 / WEIGHT_SCALE`.
pub const WEIGHT_SCALE: i64 = 1024;

/// The dimension constants of a model, fixed for its lifetime.
#[derive(Clone, Copy, Debug, PartialEq, Eq, Structural)]
pub struct Dims {
    /// Vocabulary size: number of distinct token ids.
    pub tokens: usize,
    /// Context window length: token ids per prediction.
    pub context_size: usize,
    /// Dimension of a token's embedding vector.
    pub embed_dim: usize,
    /// Per-head dimension of the key/query/value space.
    pub query_dim: usize,
    /// Attention heads per layer.
    pub num_heads: usize,
    /// Number of layers.
    pub num_layers: usize,
}

/// The closed-form number of trainable scalars: the embedding table, the
/// four per-head attention matrices across all heads and layers, and the
/// unembedding matrix.
pub open spec fn param_count(d: Dims) -> int {
    d.tokens * d.embed_dim + 4 * d.embed_dim * d.query_dim * d.num_heads * d.num_layers
        + d.tokens * d.embed_dim
}

/// An upper bound on any entry of a key or query projection of an
/// embedding: a dot product of `embed_dim` pairs of weights below
/// `WEIGHT_SCALE`.
pub open spec fn proj_bound(d: Dims) -> int {
    d.embed_dim * WEIGHT_SCALE * WEIGHT_SCALE
}

/// Dimensions a model can be built with: every count positive, and small
/// enough that each weight matrix can be laid out in memory, the parameter
/// count fits a `usize`, a dot product of two weight rows fits the 64-bit
/// scalar type, and so does an attention score (a dot product of two
/// projected rows).
pub open spec fn dims_valid(d: Dims) -> bool {
    &&& 1 <= d.tokens
    &&& 1 <= d.context_size
    &&& 1 <= d.embed_dim
    &&& 1 <= d.query_dim
    &&& 1 <= d.num_heads
    &&& 1 <= d.num_layers
    &&& d.embed_dim * d.tokens <= usize::MAX
    &&& d.query_dim * d.embed_dim <= usize::MAX
    &&& d.embed_dim * d.query_dim <= usize::MAX
    &&& param_count(d) <= usize::MAX
    &&& proj_bound(d) <= i64::MAX
    &&& d.query_dim * (proj_bound(d) + 1) * (proj_bound(d) + 1) <= i64::MAX
}

/// A matrix of model weights: well-formed, of the given dimensions, with
/// every entry drawn from `[0, WEIGHT_SCALE)`.
pub open spec fn wf_weight_matrix(m: Matrix, w: int, h: int) -> bool {
    &&& m.well_formed()
    &&& m.spec_width() == w
    &&& m.spec_height() == h
    &&& entries_in_range(m@, WEIGHT_SCALE as int)
}

/// One attention head's learned transform: key and query projections from
/// embedding space into the query space, and a value up/down projection
/// pair through it.
pub struct Head {
    /// Maps the query space up to embedding space.
    pub key: Matrix,
    /// Projects an embedding down into the query space.
    pub query: Matrix,
    /// Value up-projection, shaped like `key`.
    pub value_u: Matrix,
    /// Value down-projection, shaped like `query`.
    pub value_d: Matrix,
}

impl Head {
    /// All four matrices are weight matrices of the shapes fixed by the
    /// model dimensions.
    pub open spec fn well_formed(&self, d: Dims) -> bool {
        &&& wf_weight_matrix(self.key, d.query_dim as int, d.embed_dim as int)
        &&& wf_weight_matrix(self.query, d.embed_dim as int, d.query_dim as int)
        &&& wf_weight_matrix(self.value_u, d.query_dim as int, d.embed_dim as int)
        &&& wf_weight_matrix(self.value_d, d.embed_dim as int, d.query_dim as int)
    }

    /// The matrix of raw attention scores for a sequence of context
    /// embeddings: entry (x, y) is the score of query position y against
    /// key position x. Scaling the scores (by the reciprocal square root
    /// of the query dimension) and normalizing each row into attention
    /// weights are the caller's steps: both are real-valued.
    pub fn scores(&self, d: Dims, embeddings: &Vec<Matrix>) -> (s: Matrix)
        requires
            dims_valid(d),
            self.well_formed(d),
            embeddings@.len() * embeddings@.len() <= usize::MAX,
            forall|k: int|
                0 <= k < embeddings@.len() ==> wf_weight_matrix(
                    #[trigger] embeddings@[k],
                    1,
                    d.embed_dim as int,
                ),
        ensures
            s.well_formed(),
            s.spec_width() == embeddings@.len(),
            s.spec_height() == embeddings@.len(),
            forall|i: int, j: int|
                0 <= i < embeddings@.len() && 0 <= j < embeddings@.len() ==> #[trigger] s@[i][j]
                    == raw_score(*self, embeddings@[i], embeddings@[j], d),
    {
        let n = embeddings.len();
        let mut s = Matrix::new_zeroed(n, n);
        proof {
            s.lemma_view_rect();
        }
        let mut i: usize = 0;
        while i < n
            invariant
                dims_valid(d),
                self.well_formed(d),
                n == embeddings@.len(),
                forall|k: int|
                    0 <= k < n ==> wf_weight_matrix(
                        #[trigger] embeddings@[k],
                        1,
                        d.embed_dim as int,
                    ),
                s.well_formed(),
                s.spec_width() == n,
                s.spec_height() == n,
                rect(s@, n as int, n as int),
                i <= n,
                forall|ii: int, jj: int|
                    0 <= ii < i && 0 <= jj < n ==> #[trigger] s@[ii][jj] == raw_score(
                        *self,
                        embeddings@[ii],
                        embeddings@[jj],
                        d,
                    ),
            decreases n - i,
        {
            let ei = &embeddings[i];
            proof {
                self.query.lemma_view_rect();
                ei.lemma_view_rect();
                lemma_dots_fit_from_range(
                    self.query@,
                    ei@,
                    d.embed_dim as int,
                    d.query_dim as int,
                    1,
                    WEIGHT_SCALE as int,
                    WEIGHT_SCALE as int,
                );
            }
            let qi = match self.query.mul(ei) {
                Ok(m) => m,
                Err(_) => {
                    proof {
                        assert(false);
                    }
                    Matrix::new_zeroed(0, 0)
                },
            };
            proof {
                lemma_grid_entries_below(
                    self.query@,
                    ei@,
                    d.embed_dim as int,
                    d.query_dim as int,
                    1,
                    WEIGHT_SCALE as int,
                    WEIGHT_SCALE as int,
                );
            }
            let mut j: usize = 0;
            while j < n
                invariant
                    dims_valid(d),
                    self.well_formed(d),
                    n == embeddings@.len(),
                    forall|k: int|
                        0 <= k < n ==> wf_weight_matrix(
                            #[trigger] embeddings@[k],
                            1,
                            d.embed_dim as int,
                        ),
                    s.well_formed(),
                    s.spec_width() == n,
                    s.spec_height() == n,
                    rect(s@, n as int, n as int),
                    i < n,
                    j <= n,
                    qi.well_formed(),
                    qi.spec_width() == 1,
                    qi.spec_height() == d.query_dim,
                    rect(qi@, 1, d.query_dim as int),
                    qi@ == query_col(*self, embeddings@[i as int], d),
                    entries_in_range(qi@, proj_bound(d) + 1),
                    forall|ii: int, jj: int|
                        0 <= ii < i && 0 <= jj < n ==> #[trigger] s@[ii][jj] == raw_score(
                            *self,
                            embeddings@[ii],
                            embeddings@[jj],
                            d,
                        ),
                    forall|jj: int|
                        0 <= jj < j ==> #[trigger] s@[i as int][jj] == raw_score(
                            *self,
                            embeddings@[i as int],
                            embeddings@[jj],
                            d,
                        ),
                decreases n - j,
            {
                let tej = embeddings[j].transpose();
                proof {
                    self.key.lemma_view_rect();
                    embeddings[j as int].lemma_view_rect();
                    assert forall|yy: int, xx: int|
                        0 <= yy < tej@.len() && 0 <= xx < tej@[yy].len() implies 0
                        <= #[trigger] tej@[yy][xx] < WEIGHT_SCALE as int by {
                        assert(tej@[yy][xx] == embeddings@[j as int]@[xx][yy]);
                    }
                    assert(rect(tej@, d.embed_dim as int, 1)) by {
                        tej.lemma_view_rect();
                    }
                    lemma_dots_fit_from_range(
                        tej@,
                        self.key@,
                        d.embed_dim as int,
                        1,
                        d.query_dim as int,
                        WEIGHT_SCALE as int,
                        WEIGHT_SCALE as int,
                    );
                }
                let kj = match tej.mul(&self.key) {
                    Ok(m) => m,
                    Err(_) => {
                        proof {
                            assert(false);
                        }
                        Matrix::new_zeroed(0, 0)
                    },
                };
                proof {
                    lemma_grid_entries_below(
                        tej@,
                        self.key@,
                        d.embed_dim as int,
                        1,
                        d.query_dim as int,
                        WEIGHT_SCALE as int,
                        WEIGHT_SCALE as int,
                    );
                    assert(kj@ == key_row(*self, embeddings@[j as int], d));
                    lemma_dots_fit_from_range(
                        kj@,
                        qi@,
                        d.query_dim as int,
                        1,
                        1,
                        proj_bound(d) + 1,
                        proj_bound(d) + 1,
                    );
                }
                let sm = match kj.mul(&qi) {
                    Ok(m) => m,
                    Err(_) => {
                        proof {
                            assert(false);
                        }
                        Matrix::new_zeroed(0, 0)
                    },
                };
                let v = match sm.get(0, 0) {
                    Ok(v) => v,
                    Err(_) => {
                        proof {
                            assert(false);
                        }
                        0
                    },
                };
                proof {
                    assert(v == raw_score(*self, embeddings@[i as int], embeddings@[j as int], d));
                }
                let ghost prev = s@;
                s.put(j, i, v);
                proof {
                    s.lemma_view_rect();
                    assert forall|ii: int, jj: int| 0 <= ii < i && 0 <= jj < n implies #[trigger] s@[ii][jj]
                        == raw_score(*self, embeddings@[ii], embeddings@[jj], d) by {
                        assert(s@[ii] == prev[ii]);
                    }
                    assert forall|jj: int| 0 <= jj < j + 1 implies #[trigger] s@[i as int][jj]
                        == raw_score(*self, embeddings@[i as int], embeddings@[jj], d) by {
                        assert(s@[i as int] == prev[i as int].update(j as int, v as int));
                        if jj < j {
                            assert(s@[i as int][jj] == prev[i as int][jj]);
                        }
                    }
                }
                j = j + 1;
            }
            i = i + 1;
        }
        s
    }
}

/// The key row of an embedding under a head: the embedding's transpose
/// mapped through `key`, a row vector in the query space.
pub open spec fn key_row(h: Head, e: Matrix, d: Dims) -> Seq<Seq<int>> {
    mul_grid(
        transpose_grid(e@, 1, d.embed_dim as int),
        h.key@,
        d.query_dim as int,
        d.embed_dim as nat,
    )
}

/// The query column of an embedding under a head: the embedding mapped
/// through `query`, a column vector in the query space.
pub open spec fn query_col(h: Head, e: Matrix, d: Dims) -> Seq<Seq<int>> {
    mul_grid(h.query@, e@, 1, d.embed_dim as nat)
}

/// The raw (unnormalized) attention score of query position `i` against
/// key position `j`: the key row of `ej` dotted with the query column
/// of `ei`.
pub open spec fn raw_score(h: Head, ei: Matrix, ej: Matrix, d: Dims) -> int {
    mul_grid(key_row(h, ej, d), query_col(h, ei, d), 1, d.query_dim as nat)[0][0]
}

/// The product of two grids with entries in `[0, ba)` and `[0, bb)` is
/// rectangular and its entries lie below `inner * ba * bb + 1`.
proof fn lemma_grid_entries_below(
    a: Seq<Seq<int>>,
    b: Seq<Seq<int>>,
    inner: int,
    h: int,
    out_w: int,
    ba: int,
    bb: int,
)
    requires
        0 < ba,
        0 < bb,
        0 <= out_w,
        rect(a, inner, h),
        rect(b, out_w, inner),
        entries_in_range(a, ba),
        entries_in_range(b, bb),
    ensures
        rect(mul_grid(a, b, out_w, inner as nat), out_w, h),
        entries_in_range(mul_grid(a, b, out_w, inner as nat), inner * ba * bb + 1),
{
    lemma_mul_grid_range(a, b, inner, h, out_w, ba, bb);
    let g = mul_grid(a, b, out_w, inner as nat);
    assert forall|y: int| 0 <= y < h implies (#[trigger] g[y]).len() == out_w by {}
    assert forall|y: int, x: int|
        0 <= y < g.len() && 0 <= x < g[y].len() implies 0 <= #[trigger] g[y][x] < inner * ba * bb
        + 1 by {
        assert(0 <= mul_grid(a, b, out_w, inner as nat)[y][x] <= inner * ba * bb);
    }
}

/// The embeddings of a context stacked as rows: row `j` is the transpose
/// of embedding vector `j`.
pub open spec fn stacked_rows(es: Seq<Matrix>, embed: int) -> Seq<Seq<int>> {
    Seq::new(es.len(), |j: int| Seq::new(embed as nat, |x: int| es[j]@[x][0]))
}

/// The value rows of a context under a head: row `j` is embedding row `j`
/// projected through `value_u` into the query space.
pub open spec fn value_rows(h: Head, erow: Seq<Seq<int>>, d: Dims) -> Seq<Seq<int>> {
    mul_grid(erow, h.value_u@, d.query_dim as int, d.embed_dim as nat)
}

/// One head's contribution to every context position, in embedding space
/// and back at the embeddings' fixed-point scale: the attention-weighted
/// sums of the value rows, projected through `value_d`, divided by
/// `WEIGHT_SCALE` cubed (one factor for the weights, one for each value
/// projection).
pub open spec fn head_contribution(h: Head, erow: Seq<Seq<int>>, w: Matrix, d: Dims) -> Seq<
    Seq<int>,
> {
    scale_grid(
        mul_grid(
            mul_grid(w@, value_rows(h, erow, d), d.query_dim as int, erow.len()),
            h.value_d@,
            d.embed_dim as int,
            d.query_dim as nat,
        ),
        WEIGHT_SCALE * WEIGHT_SCALE * WEIGHT_SCALE,
    )
}

/// An upper bound on any entry of the attention-weighted sum of value
/// rows over `n` context positions.
pub open spec fn agg_bound(d: Dims, n: int) -> int {
    n * (WEIGHT_SCALE + 1) * (proj_bound(d) + 1)
}

/// An upper bound on any entry of a head's contribution before rescaling.
pub open spec fn contrib_bound(d: Dims, n: int) -> int {
    d.query_dim * (agg_bound(d, n) + 1) * WEIGHT_SCALE
}

/// A strict upper bound on any entry of a head's rescaled contribution.
pub open spec fn contrib_scaled_bound(d: Dims, n: int) -> int {
    contrib_bound(d, n) / (WEIGHT_SCALE * WEIGHT_SCALE * WEIGHT_SCALE) + 1
}

/// One transformer block: a fixed-size collection of attention heads.
pub struct Layer {
    /// The heads of this layer, `num_heads` of them.
    pub heads: Vec<Head>,
}

/// The summed contributions of the first `k` heads of a layer to the
/// stacked context rows `erow`, head `i` weighted by the attention
/// weight matrix `ws[i]`.
pub open spec fn contributions_sum(
    l: Layer,
    erow: Seq<Seq<int>>,
    ws: Seq<Matrix>,
    d: Dims,
    k: nat,
) -> Seq<Seq<int>>
    decreases k,
{
    if k == 0 {
        zero_grid(d.embed_dim as int, erow.len() as int)
    } else {
        add_grid(
            contributions_sum(l, erow, ws, d, (k - 1) as nat),
            head_contribution(l.heads@[k - 1], erow, ws[k - 1], d),
        )
    }
}

/// The context embeddings stacked into one matrix: row `j` is the
/// transpose of embedding vector `j`.
fn stack_embedding_rows(d: Dims, embeddings: &Vec<Matrix>) -> (m: Matrix)
    requires
        dims_valid(d),
        d.embed_dim * embeddings@.len() <= usize::MAX,
        forall|k: int|
            0 <= k < embeddings@.len() ==> wf_weight_matrix(
                #[trigger] embeddings@[k],
                1,
                d.embed_dim as int,
            ),
    ensures
        m.well_formed(),
        m.spec_width() == d.embed_dim,
        m.spec_height() == embeddings@.len(),
        m@ == stacked_rows(embeddings@, d.embed_dim as int),
        entries_in_range(m@, WEIGHT_SCALE as int),
{
    let n = embeddings.len();
    let e = d.embed_dim;
    let mut m = Matrix::new_zeroed(e, n);
    proof {
        m.lemma_view_rect();
    }
    let mut j: usize = 0;
    while j < n
        invariant
            n == embeddings@.len(),
            e == d.embed_dim,
            forall|k: int|
                0 <= k < n ==> wf_weight_matrix(#[trigger] embeddings@[k], 1, e as int),
            m.well_formed(),
            m.spec_width() == e,
            m.spec_height() == n,
            rect(m@, e as int, n as int),
            j <= n,
            forall|jj: int, xx: int|
                0 <= jj < j && 0 <= xx < e ==> #[trigger] m@[jj][xx] == embeddings@[jj]@[xx][0],
        decreases n - j,
    {
        let ev = &embeddings[j];
        let mut x: usize = 0;
        while x < e
            invariant
                n == embeddings@.len(),
                e == d.embed_dim,
                forall|k: int|
                    0 <= k < n ==> wf_weight_matrix(#[trigger] embeddings@[k], 1, e as int),
                m.well_formed(),
                m.spec_width() == e,
                m.spec_height() == n,
                rect(m@, e as int, n as int),
                j < n,
                x <= e,
                ev == &embeddings@[j as int],
                ev.well_formed(),
                ev.spec_width() == 1,
                ev.spec_height() == e,
                forall|jj: int, xx: int|
                    0 <= jj < j && 0 <= xx < e ==> #[trigger] m@[jj][xx] == embeddings@[jj]@[xx][0],
                forall|xx: int|
                    0 <= xx < x ==> #[trigger] m@[j as int][xx] == embeddings@[j as int]@[xx][0],
            decreases e - x,
        {
            let v = match ev.get(0, x) {
                Ok(v) => v,
                Err(_) => {
                    proof {
                        assert(false);
                    }
                    0
                },
            };
            let ghost prev = m@;
            m.put(x, j, v);
            proof {
                m.lemma_view_rect();
                assert forall|jj: int, xx: int| 0 <= jj < j && 0 <= xx < e implies #[trigger] m@[jj][xx]
                    == embeddings@[jj]@[xx][0] by {
                    assert(m@[jj] == prev[jj]);
                }
                assert forall|xx: int| 0 <= xx < x + 1 implies #[trigger] m@[j as int][xx]
                    == embeddings@[j as int]@[xx][0] by {
                    assert(m@[j as int] == prev[j as int].update(x as int, v as int));
                    if xx < x {
                        assert(m@[j as int][xx] == prev[j as int][xx]);
                    }
                }
            }
            x = x + 1;
        }
        j = j + 1;
    }
    proof {
        assert forall|jj: int| 0 <= jj < n implies m@[jj] =~= stacked_rows(
            embeddings@,
            e as int,
        )[jj] by {}
        assert(m@ =~= stacked_rows(embeddings@, e as int));
        assert forall|yy: int, xx: int|
            0 <= yy < m@.len() && 0 <= xx < m@[yy].len() implies 0 <= #[trigger] m@[yy][xx]
            < WEIGHT_SCALE as int by {
            embeddings@[yy].lemma_view_rect();
            assert(m@[yy][xx] == embeddings@[yy]@[xx][0]);
        }
    }
    m
}

impl Layer {
    /// Exactly `num_heads` heads, each well-formed.
    pub open spec fn well_formed(&self, d: Dims) -> bool {
        &&& self.heads@.len() == d.num_heads
        &&& forall|i: int|
            0 <= i < self.heads@.len() ==> (#[trigger] self.heads@[i]).well_formed(d)
    }

    /// One pass of this layer over a context: every head's
    /// attention-weighted contribution is added residually onto each
    /// position's embedding. The caller supplies one attention weight
    /// matrix per head — entry (x, y) weighting key position x for query
    /// position y, as a fixed-point fraction of `WEIGHT_SCALE` — normally
    /// a quantization of the row-softmax of that head's scores. Row y of
    /// the result is the updated embedding of position y.
    pub fn evaluate(&self, d: Dims, embeddings: &Vec<Matrix>, weights: &Vec<Matrix>) -> (r: Matrix)
        requires
            dims_valid(d),
            self.well_formed(d),
            d.embed_dim * embeddings@.len() <= usize::MAX,
            forall|k: int|
                0 <= k < embeddings@.len() ==> wf_weight_matrix(
                    #[trigger] embeddings@[k],
                    1,
                    d.embed_dim as int,
                ),
            weights@.len() == d.num_heads,
            forall|k: int|
                0 <= k < weights@.len() ==> (#[trigger] weights@[k]).well_formed()
                    && weights@[k].spec_width() == embeddings@.len() && weights@[k].spec_height()
                    == embeddings@.len() && entries_in_range(
                    weights@[k]@,
                    WEIGHT_SCALE as int + 1,
                ),
            agg_bound(d, embeddings@.len() as int) <= i64::MAX,
            contrib_bound(d, embeddings@.len() as int) <= i64::MAX,
            WEIGHT_SCALE + d.num_heads * contrib_scaled_bound(d, embeddings@.len() as int)
                <= i64::MAX,
        ensures
            r.well_formed(),
            r.spec_width() == d.embed_dim,
            r.spec_height() == embeddings@.len(),
            r@ == add_grid(
                stacked_rows(embeddings@, d.embed_dim as int),
                contributions_sum(
                    *self,
                    stacked_rows(embeddings@, d.embed_dim as int),
                    weights@,
                    d,
                    d.num_heads as nat,
                ),
            ),
    {
        let n = embeddings.len();
        let ghost sb = contrib_scaled_bound(d, n as int);
        let erow = stack_embedding_rows(d, embeddings);
        let ghost eg = erow@;
        let mut acc = Matrix::new_zeroed(d.embed_dim, n);
        proof {
            acc.lemma_view_rect();
            assert(acc@ == contributions_sum(*self, eg, weights@, d, 0));
            assert forall|yy: int, xx: int|
                0 <= yy < acc@.len() && 0 <= xx < acc@[yy].len() implies 0 <= #[trigger] acc@[yy][xx]
                < 0 * sb + 1 by {}
        }
        let nh = self.heads.len();
        let mut k: usize = 0;
        while k < nh
            invariant
                dims_valid(d),
                self.well_formed(d),
                n == embeddings@.len(),
                eg == stacked_rows(embeddings@, d.embed_dim as int),
                erow.well_formed(),
                erow.spec_width() == d.embed_dim,
                erow.spec_height() == n,
                erow@ == eg,
                rect(eg, d.embed_dim as int, n as int),
                entries_in_range(eg, WEIGHT_SCALE as int),
                weights@.len() == d.num_heads,
                forall|kk: int|
                    0 <= kk < weights@.len() ==> (#[trigger] weights@[kk]).well_formed()
                        && weights@[kk].spec_width() == n && weights@[kk].spec_height() == n
                        && entries_in_range(weights@[kk]@, WEIGHT_SCALE as int + 1),
                nh == d.num_heads,
                sb == contrib_scaled_bound(d, n as int),
                agg_bound(d, n as int) <= i64::MAX,
                contrib_bound(d, n as int) <= i64::MAX,
                WEIGHT_SCALE + d.num_heads * sb <= i64::MAX,
                k <= nh,
                acc.well_formed(),
                acc.spec_width() == d.embed_dim,
                acc.spec_height() == n,
                acc@ == contributions_sum(*self, eg, weights@, d, k as nat),
                entries_in_range(acc@, k * sb + 1),
            decreases nh - k,
        {
            let head = &self.heads[k];
            let wk = &weights[k];
            proof {
                head.value_u.lemma_view_rect();
                lemma_dots_fit_from_range(
                    eg,
                    head.value_u@,
                    d.embed_dim as int,
                    n as int,
                    d.query_dim as int,
                    WEIGHT_SCALE as int,
                    WEIGHT_SCALE as int,
                );
            }
            let v = match erow.mul(&head.value_u) {
                Ok(m) => m,
                Err(_) => {
                    proof {
                        assert(false);
                    }
                    Matrix::new_zeroed(0, 0)
                },
            };
            proof {
                lemma_grid_entries_below(
                    eg,
                    head.value_u@,
                    d.embed_dim as int,
                    n as int,
                    d.query_dim as int,
                    WEIGHT_SCALE as int,
                    WEIGHT_SCALE as int,
                );
                assert(v@ == value_rows(*head, eg, d));
                wk.lemma_view_rect();
                lemma_dots_fit_from_range(
                    wk@,
                    v@,
                    n as int,
                    n as int,
                    d.query_dim as int,
                    WEIGHT_SCALE as int + 1,
                    proj_bound(d) + 1,
                );
            }
            let a = match wk.mul(&v) {
                Ok(m) => m,
                Err(_) => {
                    proof {
                        assert(false);
                    }
                    Matrix::new_zeroed(0, 0)
                },
            };
            proof {
                lemma_grid_entries_below(
                    wk@,
                    v@,
                    n as int,
                    n as int,
                    d.query_dim as int,
                    WEIGHT_SCALE as int + 1,
                    proj_bound(d) + 1,
                );
                head.value_d.lemma_view_rect();
                lemma_dots_fit_from_range(
                    a@,
                    head.value_d@,
                    d.query_dim as int,
                    n as int,
                    d.embed_dim as int,
                    agg_bound(d, n as int) + 1,
                    WEIGHT_SCALE as int,
                );
            }
            let c = match a.mul(&head.value_d) {
                Ok(m) => m,
                Err(_) => {
                    proof {
                        assert(false);
                    }
                    Matrix::new_zeroed(0, 0)
                },
            };
            proof {
                lemma_grid_entries_below(
                    a@,
                    head.value_d@,
                    d.query_dim as int,
                    n as int,
                    d.embed_dim as int,
                    agg_bound(d, n as int) + 1,
                    WEIGHT_SCALE as int,
                );
                c.lemma_view_rect();
                assert forall|yy: int, xx: int|
                    0 <= yy < c@.len() && 0 <= xx < c@[yy].len() implies 0 <= #[trigger] c@[yy][xx]
                    < i64::MAX as int + 1 by {
                    assert(0 <= c@[yy][xx] < contrib_bound(d, n as int) + 1);
                }
            }
            let sc = c.scale_down(WEIGHT_SCALE * WEIGHT_SCALE * WEIGHT_SCALE);
            proof {
                assert(sc@ == head_contribution(self.heads@[k as int], eg, weights@[k as int], d));
                lemma_scale_grid_range(
                    c@,
                    (WEIGHT_SCALE * WEIGHT_SCALE * WEIGHT_SCALE) as int,
                    d.embed_dim as int,
                    n as int,
                    contrib_bound(d, n as int) + 1,
                );
                sc.lemma_view_rect();
                assert forall|yy: int, xx: int|
                    0 <= yy < sc@.len() && 0 <= xx < sc@[yy].len() implies 0 <= #[trigger] sc@[yy][xx]
                    < sb by {
                    assert(sc@[yy][xx] == c@[yy][xx] / (
                    (WEIGHT_SCALE * WEIGHT_SCALE * WEIGHT_SCALE) as int));
                    vstd::arithmetic::div_mod::lemma_div_is_ordered(
                        c@[yy][xx],
                        contrib_bound(d, n as int),
                        (WEIGHT_SCALE * WEIGHT_SCALE * WEIGHT_SCALE) as int,
                    );
                    vstd::arithmetic::div_mod::lemma_div_pos_is_pos(
                        c@[yy][xx],
                        (WEIGHT_SCALE * WEIGHT_SCALE * WEIGHT_SCALE) as int,
                    );
                }
                acc.lemma_view_rect();
                assert((k + 1) * sb == k * sb + sb && (k + 1) * sb <= nh * sb && 1 <= sb)
                    by (nonlinear_arith)
                    requires
                        0 <= k,
                        k + 1 <= nh,
                        sb == contrib_scaled_bound(d, n as int),
                        1 <= sb,
                ;
                lemma_sums_fit_from_range(
                    acc@,
                    sc@,
                    d.embed_dim as int,
                    n as int,
                    k * sb + 1,
                    sb,
                );
            }
            let acc2 = match acc.add(&sc) {
                Ok(m) => m,
                Err(_) => {
                    proof {
                        assert(false);
                    }
                    Matrix::new_zeroed(0, 0)
                },
            };
            proof {
                assert(acc2@ == contributions_sum(*self, eg, weights@, d, (k + 1) as nat));
                acc2.lemma_view_rect();
                assert forall|yy: int, xx: int|
                    0 <= yy < acc2@.len() && 0 <= xx < acc2@[yy].len() implies 0
                    <= #[trigger] acc2@[yy][xx] < (k + 1) * sb + 1 by {
                    assert(acc2@[yy][xx] == acc@[yy][xx] + sc@[yy][xx]);
                }
            }
            acc = acc2;
            k = k + 1;
        }
        proof {
            acc.lemma_view_rect();
            assert(nh * sb == d.num_heads * sb) by (nonlinear_arith)
                requires nh == d.num_heads;
            lemma_sums_fit_from_range(
                eg,
                acc@,
                d.embed_dim as int,
                n as int,
                WEIGHT_SCALE as int,
                nh as int * sb + 1,
            );
        }
        let r = match erow.add(&acc) {
            Ok(m) => m,
            Err(_) => {
                proof {
                    assert(false);
                }
                Matrix::new_zeroed(0, 0)
            },
        };
        r
    }
}

/// The model: one embedding vector per vocabulary token, a stack of
/// attention layers, and the unembedding matrix mapping a final embedding
/// back to per-token logits. Weights are created once at construction and
/// never mutated; inference is read-only.
pub struct GptModel {
    dims: Dims,
    embedding: Vec<Matrix>,
    unembedding: Matrix,
    layers: Vec<Layer>,
}

impl GptModel {
    /// The dimension constants this model was built with.
    pub closed spec fn spec_dims(&self) -> Dims {
        self.dims
    }

    /// The embedding table: one column vector per token id.
    pub closed spec fn spec_embedding(&self) -> Seq<Matrix> {
        self.embedding@
    }

    /// The unembedding matrix.
    pub closed spec fn spec_unembedding(&self) -> Matrix {
        self.unembedding
    }

    /// The layer stack.
    pub closed spec fn spec_layers(&self) -> Seq<Layer> {
        self.layers@
    }

    /// The structural invariant: valid dimensions, one well-formed
    /// embedding vector per token, a well-formed unembedding matrix, and
    /// `num_layers` well-formed layers, with all shapes agreeing with the
    /// dimension constants.
    pub closed spec fn well_formed(&self) -> bool {
        &&& dims_valid(self.dims)
        &&& self.embedding@.len() == self.dims.tokens
        &&& forall|i: int|
            0 <= i < self.embedding@.len() ==> wf_weight_matrix(
                #[trigger] self.embedding@[i],
                1,
                self.dims.embed_dim as int,
            )
        &&& wf_weight_matrix(
            self.unembedding,
            self.dims.embed_dim as int,
            self.dims.tokens as int,
        )
        &&& self.layers@.len() == self.dims.num_layers
        &&& forall|i: int|
            0 <= i < self.layers@.len() ==> (#[trigger] self.layers@[i]).well_formed(self.dims)
    }

    /// The dimension constants, as a value.
    pub fn dims(&self) -> (d: Dims)
        ensures
            d == self.spec_dims(),
    {
        self.dims
    }

    /// The unembedding matrix.
    pub fn unembedding(&self) -> (m: &Matrix)
        ensures
            *m == self.spec_unembedding(),
    {
        &self.unembedding
    }

    /// The embedding vector of a token id; `InvalidToken` exactly when the
    /// id is not in the vocabulary.
    pub fn embedding_vector(&self, token: usize) -> (r: Result<&Matrix, GptError>)
        requires
            self.well_formed(),
        ensures
            match r {
                Ok(m) => token < self.spec_dims().tokens && *m == self.spec_embedding()[token as int],
                Err(e) => e == GptError::InvalidToken && token >= self.spec_dims().tokens,
            },
    {
        if token < self.dims.tokens {
            Ok(&self.embedding[token])
        } else {
            Err(GptError::InvalidToken)
        }
    }

    /// A layer of the stack; `IndexOutOfRange` exactly when the index is
    /// not below `num_layers`.
    pub fn layer(&self, i: usize) -> (r: Result<&Layer, GptError>)
        requires
            self.well_formed(),
        ensures
            match r {
                Ok(l) => i < self.spec_dims().num_layers && *l == self.spec_layers()[i as int],
                Err(e) => e == GptError::IndexOutOfRange && i >= self.spec_dims().num_layers,
            },
    {
        if i < self.layers.len() {
            Ok(&self.layers[i])
        } else {
            Err(GptError::IndexOutOfRange)
        }
    }

    /// The number of trainable scalar parameters, by the closed form
    /// `TOKENS*EMBED + (4*EMBED*QUERY)*HEADS*LAYERS + TOKENS*EMBED`.
    pub fn parameters(&self) -> (n: usize)
        requires
            self.well_formed(),
        ensures
            n == param_count(self.spec_dims()),
    {
        let t = self.dims.tokens;
        let e = self.dims.embed_dim;
        let q = self.dims.query_dim;
        let h = self.dims.num_heads;
        let l = self.dims.num_layers;
        proof {
            assert(0 <= t * e && t * e <= param_count(self.dims) && 4 * e <= 4 * e * q * h * l
                && 4 * e * q <= 4 * e * q * h * l && 4 * e * q * h <= 4 * e * q * h * l && 0 <= 4
                * e * q * h * l && 4 * e * q * h * l <= param_count(self.dims))
                by (nonlinear_arith)
                requires
                    1 <= t,
                    1 <= e,
                    1 <= q,
                    1 <= h,
                    1 <= l,
                    param_count(self.dims) == t * e + 4 * e * q * h * l + t * e,
            ;
        }
        t * e + 4 * e * q * h * l + t * e
    }
}

/// Decides `dims_valid` at run time, with every product and sum checked.
pub fn check_dims(d: &Dims) -> (b: bool)
    ensures
        b == dims_valid(*d),
{
    if d.tokens == 0 || d.context_size == 0 || d.embed_dim == 0 || d.query_dim == 0
        || d.num_heads == 0 || d.num_layers == 0 {
        return false;
    }
    let t = d.tokens as u128;
    let e = d.embed_dim as u128;
    let q = d.query_dim as u128;
    let h = d.num_heads as u128;
    let l = d.num_layers as u128;
    let max = usize::MAX as u128;
    proof {
        assert(0 <= (t as int) * (e as int) && 0 <= 4 * (e as int) * (q as int) && 4 * (e as int)
            <= 4 * (e as int) * (q as int) * (h as int) * (l as int) && 4 * (e as int) * (q as int)
            <= 4 * (e as int) * (q as int) * (h as int) * (l as int) && 4 * (e as int) * (q as int)
            * (h as int) <= 4 * (e as int) * (q as int) * (h as int) * (l as int) && 0 <= 4 * (
        e as int) * (q as int) * (h as int) * (l as int)) by (nonlinear_arith)
            requires
                1 <= t,
                1 <= e,
                1 <= q,
                1 <= h,
                1 <= l,
        ;
    }

    // storage of the unembedding and per-head matrices
    let et_opt = e.checked_mul(t);
    if et_opt.is_none() {
        return false;
    }
    if et_opt.unwrap() > max {
        return false;
    }
    let qe_opt = q.checked_mul(e);
    if qe_opt.is_none() {
        return false;
    }
    if qe_opt.unwrap() > max {
        return false;
    }
    let eq_opt = e.checked_mul(q);
    if eq_opt.is_none() {
        return false;
    }
    if eq_opt.unwrap() > max {
        return false;
    }

    // the parameter count, assembled as in `param_count`
    let te_opt = t.checked_mul(e);
    if te_opt.is_none() {
        return false;
    }
    let te = te_opt.unwrap();
    let aq_opt = (4u128 * e).checked_mul(q);
    if aq_opt.is_none() {
        return false;
    }
    let ah_opt = aq_opt.unwrap().checked_mul(h);
    if ah_opt.is_none() {
        return false;
    }
    let al_opt = ah_opt.unwrap().checked_mul(l);
    if al_opt.is_none() {
        return false;
    }
    let al = al_opt.unwrap();
    let s1_opt = te.checked_add(al);
    if s1_opt.is_none() {
        return false;
    }
    let s2_opt = s1_opt.unwrap().checked_add(te);
    if s2_opt.is_none() {
        return false;
    }
    if s2_opt.unwrap() > max {
        return false;
    }

    // a dot product of weight rows stays within the scalar type
    let wsq = (WEIGHT_SCALE as u128) * (WEIGHT_SCALE as u128);
    let pb_opt = e.checked_mul(wsq);
    if pb_opt.is_none() {
        return false;
    }
    let pb = pb_opt.unwrap();
    if pb > i64::MAX as u128 {
        return false;
    }

    // an attention score (dot product of projected rows) stays within it too
    let pb1 = pb + 1;
    let qp_opt = q.checked_mul(pb1);
    if qp_opt.is_none() {
        proof {
            assert((q as int) * ((pb as int) + 1) <= (q as int) * ((pb as int) + 1) * ((
            pb as int) + 1)) by (nonlinear_arith)
                requires
                    1 <= q,
                    0 <= pb,
            ;
        }
        return false;
    }
    let qpp_opt = qp_opt.unwrap().checked_mul(pb1);
    if qpp_opt.is_none() {
        return false;
    }
    if qpp_opt.unwrap() > i64::MAX as u128 {
        return false;
    }
    true
}

/// A `w` by `h` matrix with every entry drawn independently from
/// `[0, WEIGHT_SCALE)`, using the given generator.
fn fill_random(w: usize, h: usize, rng: &mut rand::rngs::StdRng) -> (m: Matrix)
    requires
        w * h <= usize::MAX,
    ensures
        wf_weight_matrix(m, w as int, h as int),
{
    let mut m = Matrix::new_zeroed(w, h);
    proof {
        m.lemma_view_rect();
        assert forall|yy: int, xx: int|
            0 <= yy < m@.len() && 0 <= xx < m@[yy].len() implies 0 <= #[trigger] m@[yy][xx]
            < WEIGHT_SCALE as int by {}
    }
    let mut y: usize = 0;
    while y < h
        invariant
            y <= h,
            m.well_formed(),
            m.spec_width() == w,
            m.spec_height() == h,
            rect(m@, w as int, h as int),
            entries_in_range(m@, WEIGHT_SCALE as int),
        decreases h - y,
    {
        let mut x: usize = 0;
        while x < w
            invariant
                y < h,
                x <= w,
                m.well_formed(),
                m.spec_width() == w,
                m.spec_height() == h,
                rect(m@, w as int, h as int),
                entries_in_range(m@, WEIGHT_SCALE as int),
            decreases w - x,
        {
            let rv = rng_next(rng);
            let v = (rv % (WEIGHT_SCALE as u64)) as i64;
            let ghost prev = m@;
            m.put(x, y, v);
            proof {
                m.lemma_view_rect();
                assert forall|yy: int, xx: int|
                    0 <= yy < m@.len() && 0 <= xx < m@[yy].len() implies 0 <= #[trigger] m@[yy][xx]
                    < WEIGHT_SCALE as int by {
                    if yy == y as int {
                        assert(m@[yy] == prev[yy].update(x as int, v as int));
                        if xx != x as int {
                            assert(m@[yy][xx] == prev[yy][xx]);
                        }
                    } else {
                        assert(m@[yy] == prev[yy]);
                    }
                }
            }
            x = x + 1;
        }
        y = y + 1;
    }
    m
}

/// A transient builder that owns exactly one model: produced once by
/// random initialization and then handed off to the caller.
pub struct GptTrainer {
    /// The freshly initialized model.
    pub model: GptModel,
}

impl GptTrainer {
    /// A trainer owning a model of the given dimensions, with every weight
    /// matrix — the embedding table, all four matrices of every head of
    /// every layer, and the unembedding matrix — filled with independent
    /// draws from a generator seeded with `seed`, so the same seed always
    /// produces the same model. `InvalidArgument` exactly when the
    /// dimensions are not valid.
    pub fn new_random(dims: Dims, seed: u64) -> (r: Result<GptTrainer, GptError>)
        ensures
            match r {
                Ok(t) => dims_valid(dims) && t.model.well_formed() && t.model.spec_dims()
                    == dims,
                Err(e) => e == GptError::InvalidArgument && !dims_valid(dims),
            },
    {
        if !check_dims(&dims) {
            return Err(GptError::InvalidArgument);
        }
        let mut rng = rng_from_seed(seed);

        let mut embedding: Vec<Matrix> = Vec::new();
        let mut i: usize = 0;
        while i < dims.tokens
            invariant
                dims_valid(dims),
                i <= dims.tokens,
                embedding@.len() == i,
                forall|j: int|
                    0 <= j < i ==> wf_weight_matrix(
                        #[trigger] embedding@[j],
                        1,
                        dims.embed_dim as int,
                    ),
            decreases dims.tokens - i,
        {
            let ev = fill_random(1, dims.embed_dim, &mut rng);
            embedding.push(ev);
            i = i + 1;
        }

        let unembedding = fill_random(dims.embed_dim, dims.tokens, &mut rng);

        let mut layers: Vec<Layer> = Vec::new();
        let mut li: usize = 0;
        while li < dims.num_layers
            invariant
                dims_valid(dims),
                li <= dims.num_layers,
                layers@.len() == li,
                forall|j: int|
                    0 <= j < li ==> (#[trigger] layers@[j]).well_formed(dims),
            decreases dims.num_layers - li,
        {
            let mut heads: Vec<Head> = Vec::new();
            let mut hi: usize = 0;
            while hi < dims.num_heads
                invariant
                    dims_valid(dims),
                    hi <= dims.num_heads,
                    heads@.len() == hi,
                    forall|j: int|
                        0 <= j < hi ==> (#[trigger] heads@[j]).well_formed(dims),
                decreases dims.num_heads - hi,
            {
                let key = fill_random(dims.query_dim, dims.embed_dim, &mut rng);
                let query = fill_random(dims.embed_dim, dims.query_dim, &mut rng);
                let value_u = fill_random(dims.query_dim, dims.embed_dim, &mut rng);
                let value_d = fill_random(dims.embed_dim, dims.query_dim, &mut rng);
                heads.push(Head { key, query, value_u, value_d });
                hi = hi + 1;
            }
            layers.push(Layer { heads });
            li = li + 1;
        }

        Ok(GptTrainer { model: GptModel { dims, embedding, unembedding, layers } })
    }
}

impl GptModel {
    /// The embedding vectors of the context's token ids, in order.
    /// `InvalidArgument` exactly when the context is not `context_size`
    /// long; otherwise `InvalidToken` exactly when some id is outside the
    /// vocabulary.
    pub fn embed_context(&self, ctx: &Vec<usize>) -> (r: Result<Vec<Matrix>, GptError>)
        requires
            self.well_formed(),
        ensures
            (ctx@.len() == self.spec_dims().context_size && (forall|i: int|
                0 <= i < ctx@.len() ==> (ctx@[i] as int) < self.spec_dims().tokens)) <==> r is Ok,
            match r {
                Ok(es) => {
                    &&& es@.len() == ctx@.len()
                    &&& forall|i: int|
                        0 <= i < es@.len() ==> (#[trigger] es@[i])@ == self.spec_embedding()[ctx@[i] as int]@
                    &&& forall|i: int|
                        0 <= i < es@.len() ==> (#[trigger] es@[i]).well_formed() && es@[i].spec_width()
                            == 1 && es@[i].spec_height() == self.spec_dims().embed_dim
                },
                Err(e) => {
                    &&& (e == GptError::InvalidArgument <==> ctx@.len()
                        != self.spec_dims().context_size)
                    &&& (e == GptError::InvalidToken <==> (ctx@.len()
                        == self.spec_dims().context_size && exists|i: int|
                        0 <= i < ctx@.len() && (ctx@[i] as int) >= self.spec_dims().tokens))
                },
            },
    {
        if ctx.len() != self.dims.context_size {
            return Err(GptError::InvalidArgument);
        }
        let n = ctx.len();
        let mut j: usize = 0;
        while j < n
            invariant
                self.well_formed(),
                n == ctx@.len(),
                n == self.spec_dims().context_size,
                j <= n,
                forall|k: int| 0 <= k < j ==> (ctx@[k] as int) < self.spec_dims().tokens,
            decreases n - j,
        {
            if ctx[j] >= self.dims.tokens {
                return Err(GptError::InvalidToken);
            }
            j = j + 1;
        }
        let mut es: Vec<Matrix> = Vec::new();
        let mut i: usize = 0;
        while i < n
            invariant
                self.well_formed(),
                n == ctx@.len(),
                i <= n,
                es@.len() == i,
                forall|k: int| 0 <= k < n ==> (ctx@[k] as int) < self.spec_dims().tokens,
                forall|k: int|
                    0 <= k < i ==> (#[trigger] es@[k])@ == self.spec_embedding()[ctx@[k] as int]@,
                forall|k: int|
                    0 <= k < i ==> (#[trigger] es@[k]).well_formed() && es@[k].spec_width() == 1
                        && es@[k].spec_height() == self.spec_dims().embed_dim,
            decreases n - i,
        {
            let tok = ctx[i];
            es.push(self.embedding[tok].clone());
            i = i + 1;
        }
        Ok(es)
    }

    /// Per-token logits for the position following the context: the
    /// embedding vector of the final context position, mapped through the
    /// unembedding matrix. Error conditions are those of `embed_context`.
    pub fn next_token_logits(&self, ctx: &Vec<usize>) -> (r: Result<Matrix, GptError>)
        requires
            self.well_formed(),
        ensures
            (ctx@.len() == self.spec_dims().context_size && (forall|i: int|
                0 <= i < ctx@.len() ==> (ctx@[i] as int) < self.spec_dims().tokens)) <==> r is Ok,
            match r {
                Ok(l) => {
                    &&& l.well_formed()
                    &&& l.spec_width() == 1
                    &&& l.spec_height() == self.spec_dims().tokens
                    &&& l@ == mul_grid(
                        self.spec_unembedding()@,
                        self.spec_embedding()[ctx@[ctx@.len() - 1] as int]@,
                        1,
                        self.spec_dims().embed_dim as nat,
                    )
                    &&& forall|y: int|
                        0 <= y < self.spec_dims().tokens ==> 0 <= #[trigger] l@[y][0]
                            <= self.spec_dims().embed_dim * WEIGHT_SCALE * WEIGHT_SCALE
                },
                Err(e) => {
                    &&& (e == GptError::InvalidArgument <==> ctx@.len()
                        != self.spec_dims().context_size)
                    &&& (e == GptError::InvalidToken <==> (ctx@.len()
                        == self.spec_dims().context_size && exists|i: int|
                        0 <= i < ctx@.len() && (ctx@[i] as int) >= self.spec_dims().tokens))
                },
            },
    {
        let es = match self.embed_context(ctx) {
            Ok(v) => v,
            Err(e) => {
                return Err(e);
            },
        };
        let last = &es[es.len() - 1];
        proof {
            self.unembedding.lemma_view_rect();
            last.lemma_view_rect();
            lemma_dots_fit_from_range(
                self.unembedding@,
                last@,
                self.dims.embed_dim as int,
                self.dims.tokens as int,
                1,
                WEIGHT_SCALE as int,
                WEIGHT_SCALE as int,
            );
        }
        match self.unembedding.mul(last) {
            Ok(l) => {
                proof {
                    lemma_mul_grid_range(
                        self.unembedding@,
                        last@,
                        self.dims.embed_dim as int,
                        self.dims.tokens as int,
                        1,
                        WEIGHT_SCALE as int,
                        WEIGHT_SCALE as int,
                    );
                }
                Ok(l)
            },
            Err(_) => {
                proof {
                    assert(false);
                }
                Err(GptError::ShapeMismatch)
            },
        }
    }
}

} // verus!
