use vstd::prelude::*;

use crate::kvcache::KVCache;
use crate::params::{all_have_shape, all_shaped, has_shape, shaped, LLamaParams};

verus! {

/// The scalar configuration of a model, as its configuration file gives it.
pub struct LlamaConfig<T> {
    pub vocab_size: usize,
    pub num_hidden_layers: usize,
    pub num_attention_heads: usize,
    pub num_key_value_heads: usize,
    pub hidden_size: usize,
    pub intermediate_size: usize,
    pub max_position_embeddings: usize,
    pub rms_norm_eps: T,
    pub rope_theta: T,
    pub bos_token_id: u32,
    pub eos_token_id: u32,
    pub tie_word_embeddings: bool,
}

/// Why a model could not be put together.
#[derive(Debug, Clone, Copy, PartialEq, Eq, Structural)]
pub enum ModelError {
    /// The head counts do not divide the hidden size and each other, or a size is zero or
    /// too large.
    BadDimensions,
    /// A weight is absent or does not have the shape that the configuration implies.
    MissingWeight,
}

/// The dimensions hang together: heads split the hidden size evenly, query heads come in
/// whole groups per key/value head, and a layer of the cache fits in memory.
pub open spec fn dims_ok<T>(c: LlamaConfig<T>) -> bool {
    &&& c.num_attention_heads > 0
    &&& c.num_key_value_heads > 0
    &&& c.vocab_size > 0
    &&& c.num_key_value_heads <= c.num_attention_heads
    &&& c.hidden_size % c.num_attention_heads == 0
    &&& c.num_attention_heads % c.num_key_value_heads == 0
    &&& c.max_position_embeddings * (c.num_key_value_heads * (c.hidden_size
        / c.num_attention_heads)) <= usize::MAX
    &&& c.vocab_size * c.hidden_size <= usize::MAX
    &&& c.intermediate_size * c.hidden_size <= usize::MAX
    &&& c.hidden_size * c.hidden_size <= usize::MAX
}

/// Every weight has the shape that the configuration implies.
pub open spec fn weights_ok<T>(c: LlamaConfig<T>, p: LLamaParams<T>) -> bool {
    let n = c.num_hidden_layers as nat;
    let d = c.hidden_size;
    let dqkv = c.hidden_size / c.num_attention_heads;
    let q = (c.num_attention_heads * dqkv) as usize;
    let kv = (c.num_key_value_heads * dqkv) as usize;
    &&& shaped(p.embedding_table, seq![c.vocab_size, d])
    &&& all_shaped(p.rms_att_w@, n, seq![d])
    &&& all_shaped(p.wq@, n, seq![q, d])
    &&& all_shaped(p.wk@, n, seq![kv, d])
    &&& all_shaped(p.wv@, n, seq![kv, d])
    &&& all_shaped(p.wo@, n, seq![d, q])
    &&& all_shaped(p.rms_ffn_w@, n, seq![d])
    &&& all_shaped(p.w_up@, n, seq![c.intermediate_size, d])
    &&& all_shaped(p.w_gate@, n, seq![c.intermediate_size, d])
    &&& all_shaped(p.w_down@, n, seq![d, c.intermediate_size])
    &&& shaped(p.rms_out_w, seq![d])
    &&& shaped(p.lm_head, seq![c.vocab_size, d])
}

/// A decoder-only transformer: its dimensions and its weights.
pub struct Llama<T> {
    vocab: usize,
    n_layers: usize,
    n_q_h: usize,
    n_kv_h: usize,
    d: usize,
    dqkv: usize,
    di: usize,
    eps: T,
    rope_theta: T,
    max_seq_len: usize,
    params: LLamaParams<T>,
    bos_token_id: u32,
    eos_token_id: u32,
}

impl<T> Llama<T> {
    pub closed spec fn config(&self) -> LlamaConfig<T> {
        LlamaConfig {
            vocab_size: self.vocab,
            num_hidden_layers: self.n_layers,
            num_attention_heads: self.n_q_h,
            num_key_value_heads: self.n_kv_h,
            hidden_size: self.d,
            intermediate_size: self.di,
            max_position_embeddings: self.max_seq_len,
            rms_norm_eps: self.eps,
            rope_theta: self.rope_theta,
            bos_token_id: self.bos_token_id,
            eos_token_id: self.eos_token_id,
            tie_word_embeddings: false,
        }
    }

    pub closed spec fn spec_params(&self) -> LLamaParams<T> {
        self.params
    }

    pub closed spec fn wf(&self) -> bool {
        &&& dims_ok(self.config())
        &&& self.dqkv == self.d / self.n_q_h
        &&& weights_ok(self.config(), self.params)
    }

    /// Puts a model together from its configuration and weights, checking every dimension and
    /// every weight's shape first.
    pub fn new(config: LlamaConfig<T>, params: LLamaParams<T>) -> (r: Result<Llama<T>, ModelError>)
        ensures
            r.is_ok() <==> dims_ok(config) && weights_ok(config, params),
            r matches Ok(m) ==> m.wf() && m.spec_params() == params && m.config() == (
            LlamaConfig { tie_word_embeddings: false, ..config }),
            r matches Err(e) ==> (e == ModelError::BadDimensions <==> !dims_ok(config)),
    {
        if !validate_dims(&config) {
            return Err(ModelError::BadDimensions);
        }
        if !validate_weights(&config, &params) {
            return Err(ModelError::MissingWeight);
        }
        Ok(
            Llama {
                vocab: config.vocab_size,
                n_layers: config.num_hidden_layers,
                n_q_h: config.num_attention_heads,
                n_kv_h: config.num_key_value_heads,
                d: config.hidden_size,
                dqkv: config.hidden_size / config.num_attention_heads,
                di: config.intermediate_size,
                eps: config.rms_norm_eps,
                rope_theta: config.rope_theta,
                max_seq_len: config.max_position_embeddings,
                params,
                bos_token_id: config.bos_token_id,
                eos_token_id: config.eos_token_id,
            },
        )
    }

    pub fn vocab(&self) -> (r: usize)
        ensures
            r == self.config().vocab_size,
    {
        self.vocab
    }

    pub fn n_layers(&self) -> (r: usize)
        ensures
            r == self.config().num_hidden_layers,
    {
        self.n_layers
    }

    pub fn n_q_h(&self) -> (r: usize)
        ensures
            r == self.config().num_attention_heads,
    {
        self.n_q_h
    }

    pub fn n_kv_h(&self) -> (r: usize)
        ensures
            r == self.config().num_key_value_heads,
    {
        self.n_kv_h
    }

    pub fn d(&self) -> (r: usize)
        ensures
            r == self.config().hidden_size,
    {
        self.d
    }

    /// The length of one query, key or value vector.
    pub fn dqkv(&self) -> (r: usize)
        requires
            self.wf(),
        ensures
            r == self.config().hidden_size / self.config().num_attention_heads,
    {
        self.dqkv
    }

    pub fn di(&self) -> (r: usize)
        ensures
            r == self.config().intermediate_size,
    {
        self.di
    }

    pub fn max_seq_len(&self) -> (r: usize)
        ensures
            r == self.config().max_position_embeddings,
    {
        self.max_seq_len
    }

    pub fn bos_token_id(&self) -> (r: u32)
        ensures
            r == self.config().bos_token_id,
    {
        self.bos_token_id
    }

    pub fn eos_token_id(&self) -> (r: u32)
        ensures
            r == self.config().eos_token_id,
    {
        self.eos_token_id
    }

    pub fn params(&self) -> (r: &LLamaParams<T>)
        ensures
            *r == self.spec_params(),
    {
        &self.params
    }
}

impl<T: Copy> Llama<T> {
    pub fn eps(&self) -> (r: T)
        ensures
            r == self.config().rms_norm_eps,
    {
        self.eps
    }

    pub fn rope_theta(&self) -> (r: T)
        ensures
            r == self.config().rope_theta,
    {
        self.rope_theta
    }

    /// An empty cache sized for this model: one layer per transformer layer, `max_seq_len`
    /// rows of `n_kv_h * dqkv` elements, all `zero`.
    pub fn new_cache(&self, zero: T) -> (r: KVCache<T>)
        requires
            self.wf(),
        ensures
            r.wf(),
            r@.length == 0,
            r@.max_seq_len == self.config().max_position_embeddings,
            r@.dim == self.config().num_key_value_heads * (self.config().hidden_size
                / self.config().num_attention_heads),
            r@.keys.len() == self.config().num_hidden_layers,
            r@.values.len() == self.config().num_hidden_layers,
            forall|l: int|
                0 <= l < self.config().num_hidden_layers ==> #[trigger] r@.keys[l] == Seq::new(
                    r@.max_seq_len * r@.dim,
                    |_i: int| zero,
                ) && r@.values[l] == Seq::new(r@.max_seq_len * r@.dim, |_i: int| zero),
    {
        proof {
            lemma_head_sizes(self.config());
        }
        KVCache::new(self.n_layers, self.max_seq_len, self.n_kv_h * self.dqkv, zero)
    }
}

proof fn lemma_head_sizes<T>(c: LlamaConfig<T>)
    requires
        dims_ok(c),
    ensures
        c.num_key_value_heads * (c.hidden_size / c.num_attention_heads) <= c.num_attention_heads
            * (c.hidden_size / c.num_attention_heads),
        c.num_attention_heads * (c.hidden_size / c.num_attention_heads) <= c.hidden_size,
{
    let dqkv = c.hidden_size / c.num_attention_heads;
    assert(c.num_key_value_heads * dqkv <= c.num_attention_heads * dqkv) by (nonlinear_arith)
        requires
            c.num_key_value_heads <= c.num_attention_heads,
    ;
    assert(c.num_attention_heads * dqkv <= c.hidden_size) by (nonlinear_arith)
        requires
            dqkv == c.hidden_size / c.num_attention_heads,
            c.num_attention_heads > 0,
    ;
}

fn validate_dims<T>(c: &LlamaConfig<T>) -> (r: bool)
    ensures
        r == dims_ok(*c),
{
    if c.num_attention_heads == 0 || c.num_key_value_heads == 0 || c.vocab_size == 0 {
        return false;
    }
    if c.num_key_value_heads > c.num_attention_heads || c.hidden_size % c.num_attention_heads != 0 || c.num_attention_heads % c.num_key_value_heads
        != 0 {
        return false;
    }
    let dqkv = c.hidden_size / c.num_attention_heads;
    let kv = match c.num_key_value_heads.checked_mul(dqkv) {
        Some(kv) => kv,
        None => {
            proof {
                assert(c.num_key_value_heads * dqkv <= c.num_attention_heads * dqkv) by (nonlinear_arith)
                    requires
                        c.num_key_value_heads <= c.num_attention_heads,
                ;
                assert(c.num_attention_heads * dqkv <= c.hidden_size) by (nonlinear_arith)
                    requires
                        dqkv == c.hidden_size / c.num_attention_heads,
                        c.num_attention_heads > 0,
                ;
            }
            return false;
        },
    };
    c.max_position_embeddings.checked_mul(kv).is_some() && c.vocab_size.checked_mul(
        c.hidden_size,
    ).is_some() && c.intermediate_size.checked_mul(c.hidden_size).is_some()
        && c.hidden_size.checked_mul(c.hidden_size).is_some()
}

fn validate_weights<T>(c: &LlamaConfig<T>, p: &LLamaParams<T>) -> (r: bool)
    requires
        dims_ok(*c),
    ensures
        r == weights_ok(*c, *p),
{
    let n = c.num_hidden_layers;
    let d = c.hidden_size;
    let dqkv = c.hidden_size / c.num_attention_heads;
    proof {
        lemma_head_sizes(*c);
    }
    let q = c.num_attention_heads * dqkv;
    let kv = c.num_key_value_heads * dqkv;
    let di = c.intermediate_size;
    let s_vd = vec![c.vocab_size, d];
    let s_d = vec![d];
    let s_qd = vec![q, d];
    let s_kvd = vec![kv, d];
    let s_dq = vec![d, q];
    let s_id = vec![di, d];
    let s_di = vec![d, di];
    proof {
        assert(s_vd@ =~= seq![c.vocab_size, d]);
        assert(s_d@ =~= seq![d]);
        assert(s_qd@ =~= seq![q, d]);
        assert(s_kvd@ =~= seq![kv, d]);
        assert(s_dq@ =~= seq![d, q]);
        assert(s_id@ =~= seq![di, d]);
        assert(s_di@ =~= seq![d, di]);
    }
    has_shape(&p.embedding_table, &s_vd) && all_have_shape(&p.rms_att_w, n, &s_d)
        && all_have_shape(&p.wq, n, &s_qd) && all_have_shape(&p.wk, n, &s_kvd) && all_have_shape(
        &p.wv,
        n,
        &s_kvd,
    ) && all_have_shape(&p.wo, n, &s_dq) && all_have_shape(&p.rms_ffn_w, n, &s_d)
        && all_have_shape(&p.w_up, n, &s_id) && all_have_shape(&p.w_gate, n, &s_id)
        && all_have_shape(&p.w_down, n, &s_di) && has_shape(&p.rms_out_w, &s_d) && has_shape(
        &p.lm_head,
        &s_vd,
    )
}

} // verus!
