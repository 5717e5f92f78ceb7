use llama_serve::{LLamaParams, Llama, LlamaConfig, ModelError, Tensor};

fn config() -> LlamaConfig<f32> {
    LlamaConfig {
        vocab_size: 4,
        num_hidden_layers: 1,
        num_attention_heads: 2,
        num_key_value_heads: 1,
        hidden_size: 4,
        intermediate_size: 3,
        max_position_embeddings: 8,
        rms_norm_eps: 1e-6,
        rope_theta: 10000.0,
        bos_token_id: 1,
        eos_token_id: 2,
        tie_word_embeddings: false,
    }
}

fn t(shape: Vec<usize>) -> Tensor<f32> {
    Tensor::filled(&shape, 0.5).unwrap()
}

fn params() -> LLamaParams<f32> {
    LLamaParams {
        embedding_table: t(vec![4, 4]),
        rms_att_w: vec![t(vec![4])],
        wq: vec![t(vec![4, 4])],
        wk: vec![t(vec![2, 4])],
        wv: vec![t(vec![2, 4])],
        wo: vec![t(vec![4, 4])],
        rms_ffn_w: vec![t(vec![4])],
        w_up: vec![t(vec![3, 4])],
        w_gate: vec![t(vec![3, 4])],
        w_down: vec![t(vec![4, 3])],
        rms_out_w: t(vec![4]),
        lm_head: t(vec![4, 4]),
    }
}

#[test]
fn model_accepts_consistent_weights() {
    let m = Llama::new(config(), params()).unwrap();
    assert_eq!(m.vocab(), 4);
    assert_eq!(m.n_layers(), 1);
    assert_eq!(m.n_q_h(), 2);
    assert_eq!(m.n_kv_h(), 1);
    assert_eq!(m.d(), 4);
    assert_eq!(m.dqkv(), 2);
    assert_eq!(m.di(), 3);
    assert_eq!(m.max_seq_len(), 8);
    assert_eq!(m.bos_token_id(), 1);
    assert_eq!(m.eos_token_id(), 2);
    assert_eq!(m.eps(), 1e-6);
    assert_eq!(m.params().wk[0].shape(), &vec![2, 4]);
    let c = m.new_cache(0.0);
    assert_eq!(c.len(), 0);
    assert_eq!(c.n_layers(), 1);
    assert_eq!(c.max_seq_len(), 8);
    assert_eq!(c.dim(), 2);
}

#[test]
fn model_refuses_missing_weight() {
    let mut p = params();
    p.lm_head = Tensor::new(vec![], &vec![0]).unwrap();
    assert_eq!(Llama::new(config(), p).err(), Some(ModelError::MissingWeight));
}

#[test]
fn model_refuses_missing_layer() {
    let mut p = params();
    p.w_down = vec![];
    assert_eq!(Llama::new(config(), p).err(), Some(ModelError::MissingWeight));
}

#[test]
fn model_refuses_bad_heads() {
    let mut c = config();
    c.num_attention_heads = 3;
    assert_eq!(Llama::new(c, params()).err(), Some(ModelError::BadDimensions));
    let mut c = config();
    c.num_key_value_heads = 0;
    assert_eq!(Llama::new(c, params()).err(), Some(ModelError::BadDimensions));
}
