use vstd::prelude::*;
use vstd::arithmetic::div_mod::{lemma_fundamental_div_mod, lemma_mod_bound};
use vstd::set_lib::{lemma_int_range, set_int_range};
use crate::cache::{cache_shape, LayerCache};
use crate::dtype::DataType;
use crate::tensor::{fits, num_elements, row_major_strides, suffix_prod, tensor, Storage, Tensor};

verus! {

/// The integer hyperparameters of a model that the forward pass reads.
#[derive(Clone, Copy, Debug, PartialEq, Eq, Structural)]
pub struct ModelConfig {
    pub dt: DataType,
    pub num_hidden_layers: usize,
    pub hidden_size: usize,
    pub num_attention_heads: usize,
    pub num_key_value_heads: usize,
    pub intermediate_size: usize,
    pub max_seq_len: usize,
}

/// Why a forward pass or a model cannot proceed.
#[derive(Clone, Copy, Debug, PartialEq, Eq, Structural)]
pub enum UpdateError {
    /// Head counts do not divide the hidden size or each other.
    InvalidHeadConfig,
    /// The key/value cache would not fit in memory.
    CacheTooLarge,
    /// Not one cache per layer.
    LayerCountMismatch,
    /// `pos + tokens.len()` exceeds the capacity of a cache.
    SequenceTooLong,
}

/// Element type the engine computes in: brain-float weights are upcast to
/// single precision once, every other type is kept.
pub open spec fn compute_type(dt: DataType) -> DataType {
    match dt {
        DataType::BF16 => DataType::F32,
        _ => dt,
    }
}

/// Query heads split evenly into key/value groups over whole-width heads.
pub open spec fn valid_heads(c: ModelConfig) -> bool {
    &&& c.num_attention_heads > 0
    &&& c.num_key_value_heads > 0
    &&& c.hidden_size % c.num_attention_heads == 0
    &&& c.num_attention_heads % c.num_key_value_heads == 0
}

/// Width of one attention head.
pub open spec fn head_dim(c: ModelConfig) -> int {
    c.hidden_size as int / c.num_attention_heads as int
}

/// Shape of one layer's key (or value) cache.
pub open spec fn layer_cache_shape(c: ModelConfig) -> Seq<usize> {
    cache_shape(c.num_key_value_heads, c.max_seq_len, head_dim(c) as usize)
}

/// The per-layer caches fit in memory.
pub open spec fn cache_fits(c: ModelConfig) -> bool {
    &&& fits(layer_cache_shape(c))
    &&& num_elements(layer_cache_shape(c)) * compute_type(c.dt).size_spec() <= usize::MAX
}

/// The key/value head whose cache query head `h` attends to.
pub open spec fn kv_head(h: int, head_group: int) -> int {
    h / head_group
}

/// Sizes that one forward pass works with.
#[derive(Clone, Copy, Debug, PartialEq, Eq, Structural)]
pub struct AttentionDims {
    pub seq_len: usize,
    pub hidden_size: usize,
    pub num_heads: usize,
    pub num_kv_heads: usize,
    pub head_dim: usize,
    pub kv_dim: usize,
    pub head_group: usize,
    pub att_len: usize,
    pub intermediate_size: usize,
}

/// The cache views of one layer for one forward pass.
#[derive(Debug)]
pub struct LayerViews {
    /// Key and value slices that receive the new positions.
    pub k_cat: Tensor,
    pub v_cat: Tensor,
    /// Key and value slices that attention reads: all valid positions.
    pub k_att: Tensor,
    pub v_att: Tensor,
    /// `k_att` with its last two dimensions swapped, the right operand of
    /// the attention scores.
    pub k_att_t: Tensor,
}

/// Everything a forward pass needs besides the numeric kernels.
#[derive(Debug)]
pub struct UpdatePlan {
    pub dims: AttentionDims,
    /// Absolute position of each token.
    pub positions: Vec<usize>,
    pub layers: Vec<LayerViews>,
}

/// A model bound to its hyperparameters.
#[derive(Debug)]
pub struct Transformer {
    pub config: ModelConfig,
}

impl Transformer {
    pub open spec fn wf(&self) -> bool {
        &&& valid_heads(self.config)
        &&& cache_fits(self.config)
        &&& self.config.dt == compute_type(self.config.dt)
    }

    /// Binds a model; brain-float weights are upcast to single precision.
    pub fn new(config: ModelConfig) -> (r: Result<Transformer, UpdateError>)
        ensures
            !valid_heads(config) ==> r == Err::<Transformer, UpdateError>(UpdateError::InvalidHeadConfig),
            valid_heads(config) ==> (r is Ok <==> cache_fits(config)),
            valid_heads(config) && r is Err ==> r == Err::<Transformer, UpdateError>(UpdateError::CacheTooLarge),
            r matches Ok(t) ==> {
                &&& t.wf()
                &&& t.config == (ModelConfig { dt: compute_type(config.dt), ..config })
            },
    {
        let nh = config.num_attention_heads;
        let nkvh = config.num_key_value_heads;
        if nh == 0 || nkvh == 0 || config.hidden_size % nh != 0 || nh % nkvh != 0 {
            return Err(UpdateError::InvalidHeadConfig);
        }
        let dt = match config.dt {
            DataType::BF16 => DataType::F32,
            other => other,
        };
        let dh = config.hidden_size / nh;
        let shape = vec![nkvh, config.max_seq_len, dh];
        let ghost c2 = ModelConfig { dt, ..config };
        assert(shape@ =~= layer_cache_shape(c2));
        match crate::tensor::row_major_strides(&shape) {
            None => Err(UpdateError::CacheTooLarge),
            Some((_, total)) => match total.checked_mul(dt.size()) {
                Some(_) => Ok(Transformer { config: ModelConfig { dt, ..config } }),
                None => Err(UpdateError::CacheTooLarge),
            },
        }
    }

    /// One empty cache per layer, each sized for the longest sequence.
    pub fn new_cache(&self) -> (r: Vec<LayerCache>)
        requires
            self.wf(),
        ensures
            r@.len() == self.config.num_hidden_layers,
            forall|i: int| 0 <= i < r@.len() ==> {
                &&& (#[trigger] r@[i]).wf()
                &&& r@[i].k.dt == self.config.dt
                &&& r@[i].k.shape@ == layer_cache_shape(self.config)
            },
    {
        let c = self.config;
        let dh = c.hidden_size / c.num_attention_heads;
        let mut caches: Vec<LayerCache> = Vec::new();
        let mut i: usize = 0;
        while i < c.num_hidden_layers
            invariant
                self.wf(),
                c == self.config,
                dh == head_dim(c),
                i <= c.num_hidden_layers,
                caches@.len() == i,
                forall|j: int| 0 <= j < i ==> {
                    &&& (#[trigger] caches@[j]).wf()
                    &&& caches@[j].k.dt == c.dt
                    &&& caches@[j].k.shape@ == layer_cache_shape(c)
                },
            decreases c.num_hidden_layers - i,
        {
            caches.push(LayerCache::new(c.dt, c.num_key_value_heads, c.max_seq_len, dh));
            i = i + 1;
        }
        caches
    }
}

impl AttentionDims {
    /// The key/value head that query head `h` reads.
    pub fn kv_head_of(&self, h: usize) -> (r: usize)
        requires
            self.head_group > 0,
        ensures
            r == kv_head(h as int, self.head_group as int),
    {
        h / self.head_group
    }
}

impl Transformer {
    /// Prepares one forward pass over `tokens` at positions
    /// `pos .. pos + tokens.len()`: the sizes, the absolute positions, and
    /// per layer the cache slice that receives the new keys and values and
    /// the slice of all valid positions that attention reads.
    pub fn update(&self, tokens: &[u32], caches: &[LayerCache], pos: usize) -> (r: Result<UpdatePlan, UpdateError>)
        requires
            self.wf(),
            forall|i: int| 0 <= i < caches@.len() ==> {
                &&& (#[trigger] caches@[i]).wf()
                &&& caches@[i].k.shape@ == layer_cache_shape(self.config)
            },
        ensures
            caches@.len() != self.config.num_hidden_layers ==> r == Err::<UpdatePlan, UpdateError>(UpdateError::LayerCountMismatch),
            caches@.len() == self.config.num_hidden_layers ==> {
                &&& r is Err <==> pos + tokens@.len() > self.config.max_seq_len
                &&& r is Err ==> r == Err::<UpdatePlan, UpdateError>(UpdateError::SequenceTooLong)
            },
            r matches Ok(plan) ==> {
                let c = self.config;
                let dh = head_dim(c);
                &&& plan.dims == (AttentionDims {
                    seq_len: tokens@.len() as usize,
                    hidden_size: c.hidden_size,
                    num_heads: c.num_attention_heads,
                    num_kv_heads: c.num_key_value_heads,
                    head_dim: dh as usize,
                    kv_dim: (c.num_key_value_heads * dh) as usize,
                    head_group: (c.num_attention_heads / c.num_key_value_heads) as usize,
                    att_len: (pos + tokens@.len()) as usize,
                    intermediate_size: c.intermediate_size,
                })
                &&& plan.dims.wf()
                &&& plan.positions@ == Seq::new(tokens@.len(), |i: int| (pos + i) as usize)
                &&& plan.layers@.len() == caches@.len()
                &&& forall|l: int| 0 <= l < caches@.len() ==> {
                    let v = #[trigger] plan.layers@[l];
                    let cache = caches@[l];
                    &&& v.k_cat.shape@ == seq![c.num_key_value_heads, tokens@.len() as usize, dh as usize]
                    &&& v.v_cat.shape@ == v.k_cat.shape@
                    &&& v.k_cat.offset == cache.row_offset(pos as int)
                    &&& v.v_cat.offset == v.k_cat.offset
                    &&& v.k_cat.strides@ == cache.k.strides@
                    &&& v.v_cat.strides@ == cache.v.strides@
                    &&& v.k_att.shape@ == seq![c.num_key_value_heads, (pos + tokens@.len()) as usize, dh as usize]
                    &&& v.v_att.shape@ == v.k_att.shape@
                    &&& v.k_att.offset == 0
                    &&& v.v_att.offset == 0
                    &&& v.k_att.strides@ == cache.k.strides@
                    &&& v.v_att.strides@ == cache.v.strides@
                    &&& v.k_att_t.shape@ == seq![v.k_att.shape@[0], v.k_att.shape@[2], v.k_att.shape@[1]]
                    &&& v.k_att_t.strides@ == seq![cache.k.strides@[0], cache.k.strides@[2], cache.k.strides@[1]]
                    &&& v.k_att_t.offset == 0
                    &&& v.k_cat.dt == cache.k.dt && v.v_cat.dt == cache.k.dt
                    &&& v.k_att.dt == cache.k.dt && v.v_att.dt == cache.k.dt && v.k_att_t.dt == cache.k.dt
                    &&& v.k_cat.len == cache.k.len && v.v_cat.len == cache.k.len
                    &&& v.k_att.len == cache.k.len && v.v_att.len == cache.k.len && v.k_att_t.len == cache.k.len
                }
            },
    {
        let c = self.config;
        if caches.len() != c.num_hidden_layers {
            return Err(UpdateError::LayerCountMismatch);
        }
        let seq_len = tokens.len();
        if seq_len > c.max_seq_len || pos > c.max_seq_len - seq_len {
            return Err(UpdateError::SequenceTooLong);
        }
        let att_len = pos + seq_len;
        let nh = c.num_attention_heads;
        let nkvh = c.num_key_value_heads;
        let dh = c.hidden_size / nh;
        let head_group = nh / nkvh;
        proof {
            assert(nkvh * dh <= c.hidden_size) by (nonlinear_arith)
                requires
                    nh > 0,
                    nkvh > 0,
                    nh % nkvh == 0,
                    dh == c.hidden_size / nh,
                    c.hidden_size >= 0,
            {
                assert(nkvh <= nh) by {
                    assert(nh == nkvh * (nh / nkvh) + nh % nkvh);
                    assert(nh / nkvh >= 1);
                }
                assert(nh * dh <= c.hidden_size);
                assert(nkvh * dh <= nh * dh);
            }
            lemma_fundamental_div_mod(nh as int, nkvh as int);
            lemma_fundamental_div_mod(c.hidden_size as int, nh as int);
            assert(nh / nkvh > 0) by (nonlinear_arith)
                requires
                    nh == nkvh * (nh / nkvh),
                    nh > 0,
                    nkvh > 0,
            ;
        }
        let dims = AttentionDims {
            seq_len,
            hidden_size: c.hidden_size,
            num_heads: nh,
            num_kv_heads: nkvh,
            head_dim: dh,
            kv_dim: nkvh * dh,
            head_group,
            att_len,
            intermediate_size: c.intermediate_size,
        };
        let mut positions: Vec<usize> = Vec::new();
        let mut i: usize = 0;
        while i < seq_len
            invariant
                i <= seq_len,
                pos + seq_len <= usize::MAX,
                positions@ == Seq::new(i as nat, |j: int| (pos + j) as usize),
            decreases seq_len - i,
        {
            positions.push(pos + i);
            i = i + 1;
            assert(positions@ =~= Seq::new(i as nat, |j: int| (pos + j) as usize));
        }
        let mut layers: Vec<LayerViews> = Vec::new();
        let n = caches.len();
        let mut l: usize = 0;
        while l < n
            invariant
                self.wf(),
                c == self.config,
                n == caches@.len(),
                l <= n,
                dh == head_dim(c),
                nkvh == c.num_key_value_heads,
                att_len == pos + seq_len,
                att_len <= c.max_seq_len,
                seq_len == tokens@.len(),
                forall|i: int| 0 <= i < caches@.len() ==> {
                    &&& (#[trigger] caches@[i]).wf()
                    &&& caches@[i].k.shape@ == layer_cache_shape(self.config)
                },
                layers@.len() == l,
                forall|j: int| 0 <= j < l ==> {
                    let v = #[trigger] layers@[j];
                    let cache = caches@[j];
                    &&& v.k_cat.shape@ == seq![c.num_key_value_heads, seq_len, dh]
                    &&& v.v_cat.shape@ == v.k_cat.shape@
                    &&& v.k_cat.offset == cache.row_offset(pos as int)
                    &&& v.v_cat.offset == v.k_cat.offset
                    &&& v.k_cat.strides@ == cache.k.strides@
                    &&& v.v_cat.strides@ == cache.v.strides@
                    &&& v.k_att.shape@ == seq![c.num_key_value_heads, att_len, dh]
                    &&& v.v_att.shape@ == v.k_att.shape@
                    &&& v.k_att.offset == 0
                    &&& v.v_att.offset == 0
                    &&& v.k_att.strides@ == cache.k.strides@
                    &&& v.v_att.strides@ == cache.v.strides@
                    &&& v.k_att_t.shape@ == seq![v.k_att.shape@[0], v.k_att.shape@[2], v.k_att.shape@[1]]
                    &&& v.k_att_t.strides@ == seq![cache.k.strides@[0], cache.k.strides@[2], cache.k.strides@[1]]
                    &&& v.k_att_t.offset == 0
                    &&& v.k_cat.dt == cache.k.dt && v.v_cat.dt == cache.k.dt
                    &&& v.k_att.dt == cache.k.dt && v.v_att.dt == cache.k.dt && v.k_att_t.dt == cache.k.dt
                    &&& v.k_cat.len == cache.k.len && v.v_cat.len == cache.k.len
                    &&& v.k_att.len == cache.k.len && v.v_att.len == cache.k.len && v.k_att_t.len == cache.k.len
                },
            decreases n - l,
        {
            let cache = &caches[l];
            assert(cache.capacity() == c.max_seq_len);
            let (k_cat, v_cat) = cache.window(pos, seq_len);
            let (k_att, v_att) = cache.window(0, att_len);
            assert(cache.row_offset(0) == 0) by {
                let size = cache.k.dt.size_spec();
                let w = cache.k.shape@[2];
                assert(size * (0 * w) == 0) by (nonlinear_arith);
            }
            let perm = vec![0usize, 2, 1];
            assert(crate::tensor::is_perm(perm@, 3));
            let k_att_t = match k_att.transpose(&perm) {
                Ok(t) => t,
                Err(_) => {
                    assert(false);
                    return Err(UpdateError::InvalidHeadConfig);
                },
            };
            assert(k_att_t.shape@ =~= seq![k_att.shape@[0], k_att.shape@[2], k_att.shape@[1]]);
            assert(k_att_t.strides@ =~= seq![cache.k.strides@[0], cache.k.strides@[2], cache.k.strides@[1]]);
            layers.push(LayerViews { k_cat, v_cat, k_att, v_att, k_att_t });
            l = l + 1;
        }
        Ok(UpdatePlan { dims, positions, layers })
    }
}

/// Grouped-query attention: with `num_heads` query heads over `num_kv_heads`
/// key/value heads, key/value head `g` is read by exactly the `head_group`
/// consecutive query heads `g * head_group .. (g + 1) * head_group`, and
/// every query head reads one of the key/value heads.
pub proof fn lemma_head_groups(num_heads: int, num_kv_heads: int, g: int)
    requires
        num_heads > 0,
        num_kv_heads > 0,
        num_heads % num_kv_heads == 0,
        0 <= g < num_kv_heads,
    ensures
        ({
            let hg = num_heads / num_kv_heads;
            &&& Set::new(|h: int| 0 <= h < num_heads && kv_head(h, hg) == g) == set_int_range(g * hg, (g + 1) * hg)
            &&& Set::new(|h: int| 0 <= h < num_heads && kv_head(h, hg) == g).len() == hg
            &&& forall|h: int| 0 <= h < num_heads ==> 0 <= #[trigger] kv_head(h, hg) < num_kv_heads
        }),
{
    let hg = num_heads / num_kv_heads;
    assert(num_heads == num_kv_heads * hg) by {
        lemma_fundamental_div_mod(num_heads, num_kv_heads);
    }
    assert(hg > 0) by (nonlinear_arith)
        requires
            num_heads == num_kv_heads * hg,
            num_heads > 0,
            num_kv_heads > 0,
    ;
    assert((g + 1) * hg <= num_heads) by (nonlinear_arith)
        requires
            num_heads == num_kv_heads * hg,
            g + 1 <= num_kv_heads,
            hg > 0,
    ;
    assert forall|h: int| 0 <= h < num_heads implies (kv_head(h, hg) == g <==> g * hg <= h < (g + 1) * hg) by {
        let q = h / hg;
        lemma_fundamental_div_mod(h, hg);
        lemma_mod_bound(h, hg);
        if q == g {
            assert(g * hg <= h < (g + 1) * hg) by (nonlinear_arith)
                requires
                    h == hg * q + h % hg,
                    0 <= h % hg < hg,
                    q == g,
            ;
        }
        if g * hg <= h < (g + 1) * hg {
            assert(q == g) by (nonlinear_arith)
                requires
                    h == hg * q + h % hg,
                    0 <= h % hg < hg,
                    g * hg <= h < (g + 1) * hg,
                    hg > 0,
            ;
        }
    }
    assert forall|h: int| 0 <= h < num_heads implies 0 <= #[trigger] kv_head(h, hg) < num_kv_heads by {
        let q = h / hg;
        lemma_fundamental_div_mod(h, hg);
        lemma_mod_bound(h, hg);
        assert(0 <= q < num_kv_heads) by (nonlinear_arith)
            requires
                h == hg * q + h % hg,
                0 <= h % hg < hg,
                0 <= h < num_heads,
                num_heads == num_kv_heads * hg,
                hg > 0,
        ;
    }
    assert(g * hg >= 0) by (nonlinear_arith)
        requires
            g >= 0,
            hg > 0,
    ;
    assert(Set::new(|h: int| 0 <= h < num_heads && kv_head(h, hg) == g) =~= set_int_range(g * hg, (g + 1) * hg));
    assert((g + 1) * hg - g * hg == hg) by (nonlinear_arith);
    lemma_int_range(g * hg, (g + 1) * hg);
}

/// The attention workspace of one forward pass.
#[derive(Debug)]
pub struct AttentionBuffers {
    /// Queries by head: `[num_heads, seq_len, head_dim]`.
    pub q_att: Tensor,
    pub q_att_storage: Storage,
    /// The same buffer with the query heads of each key/value head stacked:
    /// `[num_kv_heads, head_group * seq_len, head_dim]`.
    pub q_grouped: Tensor,
    /// Attention scores per key/value head: `[num_kv_heads, head_group * seq_len, att_len]`.
    pub att: Tensor,
    pub att_storage: Storage,
    /// The same scores by query head, the rows that softmax normalizes:
    /// `[num_heads, seq_len, att_len]`.
    pub att_heads: Tensor,
    /// Weighted sums of values per key/value head: `[num_kv_heads, head_group * seq_len, head_dim]`.
    pub out: Tensor,
    pub out_storage: Storage,
    /// The same sums by token and query head, the order of the residual
    /// stream: `[seq_len, num_heads, head_dim]`.
    pub out_by_token: Tensor,
}

/// A shape given with integer dimensions describes a buffer that fits in memory.
pub open spec fn buffer_fits(dt: DataType, s: Seq<int>) -> bool {
    &&& forall|i: int| 0 <= i < s.len() ==> 0 <= #[trigger] s[i] <= usize::MAX
    &&& fits(s.map_values(|x: int| x as usize))
    &&& num_elements(s.map_values(|x: int| x as usize)) * dt.size_spec() <= usize::MAX
}

pub proof fn lemma_shape3(a: usize, b: usize, c: usize)
    ensures
        suffix_prod(seq![a, b, c], 3) == 1,
        suffix_prod(seq![a, b, c], 2) == c,
        suffix_prod(seq![a, b, c], 1) == b * c,
        suffix_prod(seq![a, b, c], 0) == a * (b * c),
{
    let s = seq![a, b, c];
    assert(suffix_prod(s, 3) == 1);
    assert(suffix_prod(s, 2) == c * suffix_prod(s, 3));
    assert(suffix_prod(s, 1) == b * suffix_prod(s, 2));
    assert(suffix_prod(s, 0) == a * suffix_prod(s, 1));
}

/// Regrouping `[g * h, n, w]` as `[g, h * n, w]` keeps the element count and
/// every suffix product within that of the original.
proof fn lemma_regroup(g: usize, h: usize, n: usize, w: usize)
    requires
        g > 0,
        h > 0,
        g * h <= usize::MAX,
        h * n <= usize::MAX,
        fits(seq![(g * h) as usize, n, w]),
    ensures
        fits(seq![g, (h * n) as usize, w]),
        num_elements(seq![g, (h * n) as usize, w]) == num_elements(seq![(g * h) as usize, n, w]),
{
    let gh = (g * h) as usize;
    let hn = (h * n) as usize;
    lemma_shape3(gh, n, w);
    lemma_shape3(g, hn, w);
    assert(suffix_prod(seq![gh, n, w], 0) <= usize::MAX);
    assert(g * (hn * w) == gh * (n * w)) by (nonlinear_arith)
        requires
            gh == g * h,
            hn == h * n,
    ;
    assert(hn * w <= g * (hn * w)) by (nonlinear_arith)
        requires
            g >= 1,
            hn * w >= 0,
    ;
    assert(suffix_prod(seq![gh, n, w], 2) <= usize::MAX);
    assert forall|i: int| 0 <= i <= 3 implies suffix_prod(seq![g, hn, w], i) <= usize::MAX by {}
}

/// Splitting `[g, h * n, w]` back into `[g * h, n, w]` keeps the element
/// count and every suffix product within that of the original.
proof fn lemma_ungroup(g: usize, h: usize, n: usize, w: usize)
    requires
        g > 0,
        h > 0,
        g * h <= usize::MAX,
        h * n <= usize::MAX,
        fits(seq![g, (h * n) as usize, w]),
    ensures
        fits(seq![(g * h) as usize, n, w]),
        num_elements(seq![(g * h) as usize, n, w]) == num_elements(seq![g, (h * n) as usize, w]),
{
    let gh = (g * h) as usize;
    let hn = (h * n) as usize;
    lemma_shape3(gh, n, w);
    lemma_shape3(g, hn, w);
    assert(suffix_prod(seq![g, hn, w], 0) <= usize::MAX);
    assert(suffix_prod(seq![g, hn, w], 1) <= usize::MAX);
    assert(g * (hn * w) == gh * (n * w)) by (nonlinear_arith)
        requires
            gh == g * h,
            hn == h * n,
    ;
    assert(n * w <= hn * w) by (nonlinear_arith)
        requires
            h >= 1,
            hn == h * n,
            w >= 0,
            n >= 0,
    ;
    assert forall|i: int| 0 <= i <= 3 implies suffix_prod(seq![gh, n, w], i) <= usize::MAX by {}
}

impl AttentionDims {
    /// Query heads split evenly over key/value heads.
    pub open spec fn wf(&self) -> bool {
        &&& self.num_kv_heads > 0
        &&& self.head_group > 0
        &&& self.num_heads == self.num_kv_heads * self.head_group
        &&& self.hidden_size == self.num_heads * self.head_dim
        &&& self.kv_dim == self.num_kv_heads * self.head_dim
    }

    /// Allocates the attention workspace and its grouped views, or `None`
    /// where a buffer does not fit in memory.
    pub fn attention_buffers(&self, dt: DataType) -> (r: Option<AttentionBuffers>)
        requires
            self.wf(),
        ensures
            r is Some <==> {
                &&& buffer_fits(dt, seq![self.num_heads as int, self.seq_len as int, self.head_dim as int])
                &&& buffer_fits(dt, seq![self.num_kv_heads as int, self.head_group * self.seq_len, self.att_len as int])
            },
            r matches Some(b) ==> {
                let gs = (self.head_group * self.seq_len) as usize;
                &&& b.q_att.shape@ == seq![self.num_heads, self.seq_len, self.head_dim]
                &&& b.q_att.dt == dt
                &&& b.q_att.len == num_elements(b.q_att.shape@) * dt.size_spec()
                &&& b.q_grouped.dt == dt
                &&& b.att.dt == dt
                &&& b.att.len == num_elements(b.att.shape@) * dt.size_spec()
                &&& b.att_heads.dt == dt
                &&& b.out.dt == dt
                &&& b.out.len == num_elements(b.out.shape@) * dt.size_spec()
                &&& b.out_by_token.dt == dt
                &&& b.q_att.is_contiguous()
                &&& b.q_att.offset == 0
                &&& b.q_att_storage.bytes@.len() == b.q_att.len
                &&& b.q_grouped.shape@ == seq![self.num_kv_heads, gs, self.head_dim]
                &&& b.q_grouped.is_contiguous()
                &&& b.q_grouped.offset == 0
                &&& b.q_grouped.len == b.q_att.len
                &&& b.att.shape@ == seq![self.num_kv_heads, gs, self.att_len]
                &&& b.att.is_contiguous()
                &&& b.att.offset == 0
                &&& b.att_storage.bytes@.len() == b.att.len
                &&& b.att_heads.shape@ == seq![self.num_heads, self.seq_len, self.att_len]
                &&& b.att_heads.is_contiguous()
                &&& b.att_heads.offset == 0
                &&& b.att_heads.len == b.att.len
                &&& b.out.shape@ == b.q_grouped.shape@
                &&& b.out.is_contiguous()
                &&& b.out.offset == 0
                &&& b.out_storage.bytes@.len() == b.out.len
                &&& b.out_by_token.shape@ == seq![self.seq_len, self.num_heads, self.head_dim]
                &&& b.out_by_token.strides@ == seq![
                    (self.head_dim as int) as usize,
                    (self.seq_len * self.head_dim) as usize,
                    1usize,
                ]
                &&& b.out_by_token.offset == 0
                &&& b.out_by_token.len == b.out.len
            },
    {
        let ghost q_int = seq![self.num_heads as int, self.seq_len as int, self.head_dim as int];
        let q_shape = vec![self.num_heads, self.seq_len, self.head_dim];
        assert(q_shape@ =~= q_int.map_values(|x: int| x as usize));
        let q_total = match row_major_strides(&q_shape) {
            Some((_, t)) => t,
            None => {
                return None;
            },
        };
        if q_total.checked_mul(dt.size()).is_none() {
            return None;
        }
        let gs = match self.head_group.checked_mul(self.seq_len) {
            Some(x) => x,
            None => {
                let ghost a_int = seq![self.num_kv_heads as int, self.head_group * self.seq_len, self.att_len as int];
                assert(!(0 <= a_int[1] <= usize::MAX));
                return None;
            },
        };
        let ghost a_int = seq![self.num_kv_heads as int, self.head_group * self.seq_len, self.att_len as int];
        let a_shape = vec![self.num_kv_heads, gs, self.att_len];
        assert(a_shape@ =~= a_int.map_values(|x: int| x as usize));
        let a_total = match row_major_strides(&a_shape) {
            Some((_, t)) => t,
            None => {
                return None;
            },
        };
        if a_total.checked_mul(dt.size()).is_none() {
            return None;
        }
        proof {
            assert forall|i: int| 0 <= i < 3 implies 0 <= #[trigger] q_int[i] <= usize::MAX by {}
            assert forall|i: int| 0 <= i < 3 implies 0 <= #[trigger] a_int[i] <= usize::MAX by {}
            lemma_regroup(self.num_kv_heads, self.head_group, self.seq_len, self.head_dim);
            lemma_ungroup(self.num_kv_heads, self.head_group, self.seq_len, self.att_len);
        }
        let (q_att, q_att_storage) = tensor(dt, q_shape);
        let (att, att_storage) = tensor(dt, a_shape);
        let q_grouped = match q_att.reshape(vec![self.num_kv_heads, gs, self.head_dim]) {
            Ok(t) => t,
            Err(_) => {
                assert(false);
                return None;
            },
        };
        let att_heads = match att.reshape(vec![self.num_heads, self.seq_len, self.att_len]) {
            Ok(t) => t,
            Err(_) => {
                assert(false);
                return None;
            },
        };
        let (out, out_storage) = tensor(dt, vec![self.num_kv_heads, gs, self.head_dim]);
        let out_heads = match out.reshape(vec![self.num_heads, self.seq_len, self.head_dim]) {
            Ok(t) => t,
            Err(_) => {
                assert(false);
                return None;
            },
        };
        let perm = vec![1usize, 0, 2];
        proof {
            assert(crate::tensor::is_perm(perm@, 3));
            lemma_shape3(self.num_heads, self.seq_len, self.head_dim);
        }
        let out_by_token = match out_heads.transpose(&perm) {
            Ok(t) => t,
            Err(_) => {
                assert(false);
                return None;
            },
        };
        proof {
            assert(out_by_token.shape@ =~= seq![self.seq_len, self.num_heads, self.head_dim]);
            assert(out_by_token.strides@ =~= seq![
                (self.head_dim as int) as usize,
                (self.seq_len * self.head_dim) as usize,
                1usize,
            ]);
        }
        Some(AttentionBuffers { q_att, q_att_storage, q_grouped, att, att_storage, att_heads, out, out_storage, out_by_token })
    }
}

/// The residual stream and projection buffers of one forward pass.
#[derive(Debug)]
pub struct ProjectionBuffers {
    /// Residual stream: `[seq_len, hidden_size]`.
    pub x0: Tensor,
    pub x0_storage: Storage,
    /// Normalized stream and attention output: `[seq_len, hidden_size]`.
    pub x1: Tensor,
    pub x1_storage: Storage,
    /// `x1` by query head: `[seq_len, num_heads, head_dim]`.
    pub x1_heads: Tensor,
    /// Fused query/key/value projection: `[seq_len, hidden_size + 2 * kv_dim]`.
    pub qkv: Tensor,
    pub qkv_storage: Storage,
    /// Its column ranges of widths `hidden_size`, `kv_dim`, `kv_dim`.
    pub q: Tensor,
    pub k: Tensor,
    pub v: Tensor,
    /// Fused gate/up projection: `[seq_len, 2 * intermediate_size]`.
    pub gate_up: Tensor,
    pub gate_up_storage: Storage,
    /// Its two halves.
    pub gate: Tensor,
    pub up: Tensor,
}

pub proof fn lemma_shape2(a: usize, b: usize)
    ensures
        suffix_prod(seq![a, b], 2) == 1,
        suffix_prod(seq![a, b], 1) == b,
        suffix_prod(seq![a, b], 0) == a * b,
{
    let s = seq![a, b];
    assert(suffix_prod(s, 2) == 1);
    assert(suffix_prod(s, 1) == b * suffix_prod(s, 2));
    assert(suffix_prod(s, 0) == a * suffix_prod(s, 1));
}

/// Splits the columns of a fresh `[rows, total]` buffer into `sizes`.
fn split_columns(t: &Tensor, rows: usize, sizes: &Vec<usize>) -> (r: Vec<Tensor>)
    requires
        t.wf(),
        t.is_contiguous(),
        t.offset == 0,
        rows > 0,
        t.shape@.len() == 2,
        t.shape@[0] == rows,
        t.len == num_elements(t.shape@) * t.dt.size_spec(),
        crate::tensor::prefix_sum(sizes@, sizes@.len() as int) == t.shape@[1],
    ensures
        r@.len() == sizes@.len(),
        forall|k: int| 0 <= k < r@.len() ==> {
            &&& (#[trigger] r@[k]).wf()
            &&& r@[k].dt == t.dt
            &&& r@[k].shape@ == seq![rows, sizes@[k]]
            &&& r@[k].strides@ == t.strides@
            &&& r@[k].offset == t.dt.size_spec() * crate::tensor::prefix_sum(sizes@, k)
            &&& r@[k].len == t.len
        },
{
    let ghost w = t.shape@[1];
    proof {
        lemma_shape2(rows, w);
        assert(t.shape@ =~= seq![rows, w]);
        assert(t.strides@[1] == 1);
        let size = t.dt.size_spec();
        assert forall|k: int| 0 <= k < sizes@.len() implies #[trigger] t.part_offset(1, sizes@, k) <= t.len by {
            crate::tensor::lemma_prefix_sum_mono(sizes@, k, sizes@.len() as int);
            let pk = crate::tensor::prefix_sum(sizes@, k);
            crate::tensor::lemma_prefix_sum_mono(sizes@, 0, k);
            assert(size * (pk * 1) <= rows * w * size) by (nonlinear_arith)
                requires
                    0 <= pk <= w,
                    rows >= 1,
                    size >= 1,
            {
                assert(pk <= rows * w);
            }
        }
    }
    match t.split(1, sizes) {
        Ok(parts) => {
            proof {
                assert forall|k: int| 0 <= k < parts@.len() implies (#[trigger] parts@[k]).shape@ == seq![rows, sizes@[k]] by {
                    assert(parts@[k].shape@ =~= seq![rows, sizes@[k]]);
                }
                assert forall|k: int| 0 <= k < parts@.len() implies (#[trigger] parts@[k]).offset == t.dt.size_spec() * crate::tensor::prefix_sum(sizes@, k) by {
                    assert(t.part_offset(1, sizes@, k) == t.dt.size_spec() * crate::tensor::prefix_sum(sizes@, k));
                }
            }
            parts
        },
        Err(_) => {
            assert(false);
            Vec::new()
        },
    }
}

impl AttentionDims {
    /// Allocates the residual and projection buffers and their views, or
    /// `None` for an empty pass or where a buffer does not fit in memory.
    pub fn projection_buffers(&self, dt: DataType) -> (r: Option<ProjectionBuffers>)
        requires
            self.wf(),
        ensures
            r is Some <==> {
                &&& self.seq_len > 0
                &&& buffer_fits(dt, seq![self.seq_len as int, self.hidden_size as int])
                &&& buffer_fits(dt, seq![self.seq_len as int, self.hidden_size + 2 * self.kv_dim])
                &&& buffer_fits(dt, seq![self.seq_len as int, 2 * self.intermediate_size])
            },
            r matches Some(b) ==> {
                let n = self.seq_len;
                let d = self.hidden_size;
                let dkv = self.kv_dim;
                let di = self.intermediate_size;
                let size = dt.size_spec();
                &&& b.x0.shape@ == seq![n, d] && b.x1.shape@ == seq![n, d]
                &&& b.x0.is_contiguous() && b.x1.is_contiguous()
                &&& b.x0.dt == dt && b.x1.dt == dt
                &&& b.x0.offset == 0 && b.x1.offset == 0
                &&& b.x0.len == n * d * size && b.x1.len == b.x0.len
                &&& b.x0_storage.bytes@.len() == b.x0.len
                &&& b.x1_storage.bytes@.len() == b.x1.len
                &&& b.x1_heads.shape@ == seq![n, self.num_heads, self.head_dim]
                &&& b.x1_heads.is_contiguous() && b.x1_heads.dt == dt
                &&& b.x1_heads.offset == 0 && b.x1_heads.len == b.x1.len
                &&& b.qkv.shape@ == seq![n, (d + 2 * dkv) as usize]
                &&& b.qkv.is_contiguous() && b.qkv.dt == dt && b.qkv.offset == 0
                &&& b.qkv.len == n * (d + 2 * dkv) * size
                &&& b.qkv_storage.bytes@.len() == b.qkv.len
                &&& b.q.shape@ == seq![n, d] && b.q.offset == 0
                &&& b.k.shape@ == seq![n, dkv] && b.k.offset == d * size
                &&& b.v.shape@ == seq![n, dkv] && b.v.offset == (d + dkv) * size
                &&& b.q.strides@ == b.qkv.strides@ && b.k.strides@ == b.qkv.strides@ && b.v.strides@ == b.qkv.strides@
                &&& b.q.dt == dt && b.k.dt == dt && b.v.dt == dt
                &&& b.q.len == b.qkv.len && b.k.len == b.qkv.len && b.v.len == b.qkv.len
                &&& b.gate_up.shape@ == seq![n, (2 * di) as usize]
                &&& b.gate_up.is_contiguous() && b.gate_up.dt == dt && b.gate_up.offset == 0
                &&& b.gate_up.len == n * (2 * di) * size
                &&& b.gate_up_storage.bytes@.len() == b.gate_up.len
                &&& b.gate.shape@ == seq![n, di] && b.gate.offset == 0
                &&& b.up.shape@ == seq![n, di] && b.up.offset == di * size
                &&& b.gate.strides@ == b.gate_up.strides@ && b.up.strides@ == b.gate_up.strides@
                &&& b.gate.dt == dt && b.up.dt == dt
                &&& b.gate.len == b.gate_up.len && b.up.len == b.gate_up.len
            },
    {
        let n = self.seq_len;
        let ghost h_int = seq![n as int, self.hidden_size as int];
        let ghost qkv_int = seq![n as int, self.hidden_size + 2 * self.kv_dim];
        let ghost gu_int = seq![n as int, 2 * self.intermediate_size];
        if n == 0 {
            return None;
        }
        let h_shape = vec![n, self.hidden_size];
        assert(h_shape@ =~= h_int.map_values(|x: int| x as usize));
        match row_major_strides(&h_shape) {
            Some((_, t)) => {
                if t.checked_mul(dt.size()).is_none() {
                    return None;
                }
            },
            None => {
                return None;
            },
        }
        let w_qkv = match self.kv_dim.checked_mul(2) {
            Some(x) => match self.hidden_size.checked_add(x) {
                Some(y) => y,
                None => {
                    assert(!(0 <= qkv_int[1] <= usize::MAX));
                    return None;
                },
            },
            None => {
                assert(!(0 <= qkv_int[1] <= usize::MAX));
                return None;
            },
        };
        let qkv_shape = vec![n, w_qkv];
        assert(qkv_shape@ =~= qkv_int.map_values(|x: int| x as usize));
        match row_major_strides(&qkv_shape) {
            Some((_, t)) => {
                if t.checked_mul(dt.size()).is_none() {
                    return None;
                }
            },
            None => {
                return None;
            },
        }
        let w_gu = match self.intermediate_size.checked_mul(2) {
            Some(x) => x,
            None => {
                assert(!(0 <= gu_int[1] <= usize::MAX));
                return None;
            },
        };
        let gu_shape = vec![n, w_gu];
        assert(gu_shape@ =~= gu_int.map_values(|x: int| x as usize));
        match row_major_strides(&gu_shape) {
            Some((_, t)) => {
                if t.checked_mul(dt.size()).is_none() {
                    return None;
                }
            },
            None => {
                return None;
            },
        }
        proof {
            assert forall|i: int| 0 <= i < 2 implies 0 <= #[trigger] h_int[i] <= usize::MAX by {}
            assert forall|i: int| 0 <= i < 2 implies 0 <= #[trigger] qkv_int[i] <= usize::MAX by {}
            assert forall|i: int| 0 <= i < 2 implies 0 <= #[trigger] gu_int[i] <= usize::MAX by {}
            lemma_shape2(n, self.hidden_size);
            lemma_shape2(n, w_qkv);
            lemma_shape2(n, w_gu);
            lemma_shape3(n, self.num_heads, self.head_dim);
            assert(n * self.hidden_size == n * (self.num_heads * self.head_dim));
        }
        let (x0, x0_storage) = tensor(dt, vec![n, self.hidden_size]);
        let (x1, x1_storage) = tensor(dt, vec![n, self.hidden_size]);
        let x1_heads = match x1.reshape(vec![n, self.num_heads, self.head_dim]) {
            Ok(t) => t,
            Err(_) => {
                assert(false);
                return None;
            },
        };
        let (qkv, qkv_storage) = tensor(dt, qkv_shape);
        let (gate_up, gate_up_storage) = tensor(dt, gu_shape);
        let qkv_sizes = vec![self.hidden_size, self.kv_dim, self.kv_dim];
        let gu_sizes = vec![self.intermediate_size, self.intermediate_size];
        let ghost size = dt.size_spec();
        proof {
            assert(crate::tensor::prefix_sum(qkv_sizes@, 0) == 0);
            assert(crate::tensor::prefix_sum(qkv_sizes@, 1) == self.hidden_size);
            assert(crate::tensor::prefix_sum(qkv_sizes@, 2) == self.hidden_size + self.kv_dim);
            assert(crate::tensor::prefix_sum(qkv_sizes@, 3) == w_qkv);
            assert(crate::tensor::prefix_sum(gu_sizes@, 0) == 0);
            assert(crate::tensor::prefix_sum(gu_sizes@, 1) == self.intermediate_size);
            assert(crate::tensor::prefix_sum(gu_sizes@, 2) == w_gu);
        }
        let mut qkv_parts = split_columns(&qkv, n, &qkv_sizes);
        let mut gu_parts = split_columns(&gate_up, n, &gu_sizes);
        assert(size * crate::tensor::prefix_sum(qkv_sizes@, 0) == 0);
        assert(size * crate::tensor::prefix_sum(gu_sizes@, 0) == 0);
        let v = qkv_parts.pop().unwrap();
        let k = qkv_parts.pop().unwrap();
        let q = qkv_parts.pop().unwrap();
        let up = gu_parts.pop().unwrap();
        let gate = gu_parts.pop().unwrap();
        proof {
            assert(size * (self.hidden_size as int) == self.hidden_size * size) by (nonlinear_arith);
            assert(size * (self.hidden_size + self.kv_dim) == (self.hidden_size + self.kv_dim) * size) by (nonlinear_arith);
            assert(size * (self.intermediate_size as int) == self.intermediate_size * size) by (nonlinear_arith);
            assert(size * (n * self.hidden_size) == n * self.hidden_size * size) by (nonlinear_arith);
            assert(size * (n * w_qkv) == n * w_qkv * size) by (nonlinear_arith);
            assert(size * (n * w_gu) == n * w_gu * size) by (nonlinear_arith);
        }
        Some(ProjectionBuffers {
            x0,
            x0_storage,
            x1,
            x1_storage,
            x1_heads,
            qkv,
            qkv_storage,
            q,
            k,
            v,
            gate_up,
            gate_up_storage,
            gate,
            up,
        })
    }
}

} // verus!
