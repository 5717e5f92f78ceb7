use vstd::prelude::*;

use crate::tensor::Tensor;

verus! {

/// The trained weights of a decoder-only transformer, one entry per layer in each `Vec`.
pub struct LLamaParams<T> {
    /// token id to embedding lookup table: (vocab_size, hidden_size)
    pub embedding_table: Tensor<T>,
    /// (hidden_size) per layer
    pub rms_att_w: Vec<Tensor<T>>,
    /// (n_heads * head_size, hidden_size) per layer
    pub wq: Vec<Tensor<T>>,
    /// (n_kv_heads * head_size, hidden_size) per layer
    pub wk: Vec<Tensor<T>>,
    /// (n_kv_heads * head_size, hidden_size) per layer
    pub wv: Vec<Tensor<T>>,
    /// (hidden_size, n_heads * head_size) per layer
    pub wo: Vec<Tensor<T>>,
    /// (hidden_size) per layer
    pub rms_ffn_w: Vec<Tensor<T>>,
    /// (intermediate_size, hidden_size) per layer
    pub w_up: Vec<Tensor<T>>,
    /// (intermediate_size, hidden_size) per layer
    pub w_gate: Vec<Tensor<T>>,
    /// (hidden_size, intermediate_size) per layer
    pub w_down: Vec<Tensor<T>>,
    /// (hidden_size)
    pub rms_out_w: Tensor<T>,
    /// (vocab_size, hidden_size)
    pub lm_head: Tensor<T>,
}

/// `t` is well formed and has exactly the shape `s`.
pub open spec fn shaped<T>(t: Tensor<T>, s: Seq<usize>) -> bool {
    t.wf() && t.shape_seq() == s
}

/// Every tensor of `ts` is well formed with shape `s`, and there are `n` of them.
pub open spec fn all_shaped<T>(ts: Seq<Tensor<T>>, n: nat, s: Seq<usize>) -> bool {
    ts.len() == n && forall|l: int| 0 <= l < n ==> #[trigger] shaped(ts[l], s)
}

/// Whether `t` is well formed and has the shape `s`.
pub fn has_shape<T>(t: &Tensor<T>, s: &Vec<usize>) -> (r: bool)
    ensures
        r == shaped(*t, s@),
{
    let size = t.size();
    let shape = t.shape();
    if shape.len() != s.len() {
        return false;
    }
    let mut i: usize = 0;
    while i < s.len()
        invariant
            i <= s@.len(),
            shape@.len() == s@.len(),
            shape@ == t.shape_seq(),
            forall|j: int| 0 <= j < i ==> shape@[j] == s@[j],
        decreases s@.len() - i,
    {
        if shape[i] != s[i] {
            return false;
        }
        i = i + 1;
    }
    proof {
        assert(shape@ =~= s@);
    }
    match crate::tensor::element_count(s) {
        Some(n) => n == size,
        None => false,
    }
}

/// Whether `ts` holds `n` tensors, each well formed with shape `s`.
pub fn all_have_shape<T>(ts: &Vec<Tensor<T>>, n: usize, s: &Vec<usize>) -> (r: bool)
    ensures
        r == all_shaped(ts@, n as nat, s@),
{
    if ts.len() != n {
        return false;
    }
    let mut l: usize = 0;
    while l < n
        invariant
            l <= n,
            ts@.len() == n,
            forall|j: int| 0 <= j < l ==> #[trigger] shaped(ts@[j], s@),
        decreases n - l,
    {
        if !has_shape(&ts[l], s) {
            return false;
        }
        l = l + 1;
    }
    true
}

} // verus!
