use llama_serve::session::rollback_checkpoints;
use llama_serve::{CacheError, Checkpoint, KVCache, Session};

fn ckpt(id: &str, length: usize) -> Checkpoint {
    Checkpoint { request_id: id.to_string(), length }
}

#[test]
fn new_cache_is_empty_and_zeroed() {
    let c = KVCache::new(2, 4, 3, 0i32);
    assert_eq!(c.len(), 0);
    assert_eq!(c.n_layers(), 2);
    assert_eq!(c.max_seq_len(), 4);
    assert_eq!(c.dim(), 3);
    assert_eq!(c.keys(1), &vec![0; 12]);
    assert_eq!(c.values(0), &vec![0; 12]);
}

#[test]
fn increment_reset_round_trip() {
    let mut c = KVCache::new(1, 10, 2, 0i32);
    c.store_keys(0, 0, &vec![1, 2, 3, 4]).unwrap();
    assert_eq!(c.increment(5), Ok(()));
    assert_eq!(c.reset_len(2), Ok(()));
    assert_eq!(c.len(), 2);
    assert_eq!(c.increment(3), Ok(()));
    assert_eq!(c.len(), 5);
    assert_eq!(&c.keys(0)[0..4], &[1, 2, 3, 4]);
}

#[test]
fn increment_past_capacity_is_refused() {
    let mut c = KVCache::new(1, 4, 1, 0u8);
    assert_eq!(c.increment(3), Ok(()));
    assert_eq!(c.increment(2), Err(CacheError::ContextOverflow));
    assert_eq!(c.len(), 3);
    assert_eq!(c.increment(1), Ok(()));
    assert_eq!(c.len(), 4);
}

#[test]
fn reset_forward_is_refused() {
    let mut c = KVCache::new(1, 4, 1, 0u8);
    c.increment(2).unwrap();
    assert_eq!(c.reset_len(3), Err(CacheError::BeyondLength));
    assert_eq!(c.len(), 2);
}

#[test]
fn store_writes_one_layer() {
    let mut c = KVCache::new(2, 3, 2, 0i32);
    assert_eq!(c.store_values(1, 2, &vec![7, 8]), Ok(()));
    assert_eq!(c.values(1), &vec![0, 0, 7, 8, 0, 0]);
    assert_eq!(c.values(0), &vec![0; 6]);
    assert_eq!(c.keys(1), &vec![0; 6]);
    assert_eq!(c.store_keys(2, 0, &vec![1]), Err(CacheError::OutOfRange));
    assert_eq!(c.store_keys(0, 5, &vec![1, 2]), Err(CacheError::OutOfRange));
}

#[test]
fn deep_copy_is_independent() {
    let mut c = KVCache::new(1, 3, 1, 0i32);
    c.store_keys(0, 0, &vec![5]).unwrap();
    c.increment(1).unwrap();
    let mut d = c.deep_copy();
    assert_eq!(d.len(), 1);
    assert_eq!(d.keys(0), &vec![5, 0, 0]);
    d.store_keys(0, 1, &vec![6]).unwrap();
    assert_eq!(c.keys(0), &vec![5, 0, 0]);
}

#[test]
fn rollback_to_middle_checkpoint() {
    let mut cache = KVCache::new(1, 16, 1, 0u8);
    cache.increment(10).unwrap();
    let mut s = Session::new(cache);
    s.checkpoints = vec![ckpt("r1", 0), ckpt("r2", 3), ckpt("r3", 7)];
    assert_eq!(s.rollback(&"r2".to_string()), 3);
    assert_eq!(s.cache.len(), 3);
    assert_eq!(s.checkpoints.len(), 1);
    assert_eq!(s.checkpoints[0].request_id, "r1");
    assert_eq!(s.checkpoints[0].length, 0);
}

#[test]
fn rollback_to_missing_id_resets_fully() {
    let mut cache = KVCache::new(1, 16, 1, 0u8);
    cache.increment(3).unwrap();
    let mut s = Session::new(cache);
    s.checkpoints = vec![ckpt("r1", 0)];
    assert_eq!(s.rollback(&"missing".to_string()), 0);
    assert_eq!(s.cache.len(), 0);
    assert!(s.checkpoints.is_empty());
}

#[test]
fn rollback_checkpoints_returns_recorded_length() {
    let mut stack = vec![ckpt("a", 1), ckpt("b", 4), ckpt("a", 6), ckpt("c", 9)];
    assert_eq!(rollback_checkpoints(&mut stack, &"a".to_string()), 6);
    assert_eq!(stack.len(), 2);
    assert_eq!(stack[1].request_id, "b");
}

#[test]
fn record_pushes_current_length() {
    let mut cache = KVCache::new(1, 8, 1, 0u8);
    cache.increment(4).unwrap();
    let mut s = Session::new(cache);
    s.record("q1".to_string());
    assert_eq!(s.checkpoints.len(), 1);
    assert_eq!(s.checkpoints[0].request_id, "q1");
    assert_eq!(s.checkpoints[0].length, 4);
}

#[test]
fn rows_before_reset_point_survive_new_writes() {
    let mut c = KVCache::new(2, 6, 2, 0i32);
    for layer in 0..2 {
        c.store_keys(layer, 0, &vec![1, 2, 3, 4, 5, 6, 7, 8, 9, 10]).unwrap();
        c.store_values(layer, 0, &vec![11, 12, 13, 14, 15, 16, 17, 18, 19, 20]).unwrap();
    }
    c.increment(5).unwrap();
    c.reset_len(2).unwrap();
    for layer in 0..2 {
        c.store_keys(layer, 4, &vec![0; 6]).unwrap();
        c.store_values(layer, 4, &vec![0; 6]).unwrap();
    }
    c.increment(3).unwrap();
    assert_eq!(c.len(), 5);
    for layer in 0..2 {
        assert_eq!(&c.keys(layer)[0..4], &[1, 2, 3, 4]);
        assert_eq!(&c.values(layer)[0..4], &[11, 12, 13, 14]);
    }
}
