use llama_serve::tensor::{element_count, gather};
use llama_serve::{Tensor, TensorError};

#[test]
fn new_accepts_matching_length() {
    let t = Tensor::new(vec![1, 2, 3, 4, 5, 6], &vec![2, 3]).unwrap();
    assert_eq!(t.shape(), &vec![2, 3]);
    assert_eq!(t.size(), 6);
    assert_eq!(t.data().len(), 6);
}

#[test]
fn new_refuses_wrong_length() {
    let r = Tensor::new(vec![1, 2, 3, 4, 5], &vec![2, 3]);
    assert_eq!(r.err(), Some(TensorError::SizeMismatch));
}

#[test]
fn reshape_keeps_product() {
    let mut t = Tensor::new(vec![1, 2, 3, 4, 5, 6], &vec![2, 3]).unwrap();
    assert_eq!(t.reshape(&vec![3, 2]), Ok(()));
    assert_eq!(t.shape(), &vec![3, 2]);
    assert_eq!(t.reshape(&vec![6]), Ok(()));
    assert_eq!(t.data(), &vec![1, 2, 3, 4, 5, 6]);
}

#[test]
fn reshape_fails_when_product_changes() {
    let mut t = Tensor::new(vec![1, 2, 3, 4, 5, 6], &vec![2, 3]).unwrap();
    assert_eq!(t.reshape(&vec![4, 2]), Err(TensorError::SizeMismatch));
    assert_eq!(t.shape(), &vec![2, 3]);
    assert_eq!(t.reshape(&vec![usize::MAX, 2]), Err(TensorError::SizeMismatch));
}

#[test]
fn element_count_of_shapes() {
    assert_eq!(element_count(&vec![]), Some(1));
    assert_eq!(element_count(&vec![2, 3, 4]), Some(24));
    assert_eq!(element_count(&vec![usize::MAX, 0]), Some(0));
    assert_eq!(element_count(&vec![usize::MAX, 2]), None);
}

#[test]
fn filled_tensor() {
    let t = Tensor::filled(&vec![2, 2], 7u8).unwrap();
    assert_eq!(t.data(), &vec![7, 7, 7, 7]);
    let r = Tensor::filled(&vec![usize::MAX, 3], 0u8);
    assert_eq!(r.err(), Some(TensorError::TooLarge));
}

#[test]
fn slice_copies_a_span() {
    let t = Tensor::new(vec![1, 2, 3, 4, 5, 6], &vec![2, 3]).unwrap();
    let s = t.slice(3, &vec![1, 3]).unwrap();
    assert_eq!(s.data(), &vec![4, 5, 6]);
    assert_eq!(s.shape(), &vec![1, 3]);
    assert_eq!(t.slice(4, &vec![3]).err(), Some(TensorError::OutOfRange));
}

#[test]
fn set_get_and_write_at() {
    let mut t = Tensor::new(vec![0, 0, 0, 0], &vec![4]).unwrap();
    t.set(1, 9);
    assert_eq!(t.get(1), 9);
    t.write_at(2, &vec![5, 6]);
    assert_eq!(t.data(), &vec![0, 9, 5, 6]);
}

#[test]
fn gather_copies_rows() {
    let table = Tensor::new(vec![10, 11, 20, 21, 30, 31], &vec![3, 2]).unwrap();
    let ids = Tensor::new(vec![2u32, 0, 2], &vec![3]).unwrap();
    let mut out = Tensor::filled(&vec![3, 2], 0).unwrap();
    gather(&mut out, &ids, &table);
    assert_eq!(out.data(), &vec![30, 31, 10, 11, 30, 31]);
    assert_eq!(out.shape(), &vec![3, 2]);
}

#[test]
fn gather_float_table() {
    let table = Tensor::new(vec![0.5f32, 1.5, -2.0, 4.0], &vec![2, 2]).unwrap();
    let ids = Tensor::new(vec![1u32], &vec![1]).unwrap();
    let mut out = Tensor::filled(&vec![1, 2], 0.0f32).unwrap();
    gather(&mut out, &ids, &table);
    assert_eq!(out.data(), &vec![-2.0, 4.0]);
}
