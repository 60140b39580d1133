use transformer::dtype::DataType;
use transformer::tensor::{check_perm, inverse, tensor, SliceDim, Tensor, TensorError};

#[test]
fn new_computes_row_major_strides() {
    let t = Tensor::new(DataType::F32, vec![2, 3, 4], 96).unwrap();
    assert_eq!(t.strides, vec![12, 4, 1]);
    assert_eq!(t.offset, 0);
    assert!(t.contiguous());
}

#[test]
fn new_rejects_short_buffer() {
    let r = Tensor::new(DataType::F32, vec![2, 3, 4], 95);
    assert_eq!(r.unwrap_err(), TensorError::ShapeMismatch);
}

#[test]
fn tensor_allocates_exact_bytes() {
    let (t, storage) = tensor(DataType::F16, vec![3, 5]);
    assert_eq!(t.len, 30);
    assert_eq!(storage.len(), 30);
    assert!(storage.bytes.iter().all(|b| *b == 0));
}

#[test]
fn transpose_then_inverse_restores_tensor() {
    let t = Tensor::new(DataType::F32, vec![2, 3, 4], 96).unwrap();
    let p = vec![2, 0, 1];
    let t1 = t.transpose(&p).unwrap();
    assert_eq!(t1.shape, vec![4, 2, 3]);
    assert_eq!(t1.strides, vec![1, 12, 4]);
    let q = inverse(&p);
    assert_eq!(q, vec![1, 2, 0]);
    let t2 = t1.transpose(&q).unwrap();
    assert_eq!(t2.shape, t.shape);
    assert_eq!(t2.strides, t.strides);
    assert_eq!(t2.offset, t.offset);
}

#[test]
fn transpose_rejects_non_permutation() {
    let t = Tensor::new(DataType::F32, vec![2, 3], 24).unwrap();
    assert_eq!(t.transpose(&vec![0, 0]).unwrap_err(), TensorError::InvalidPermutation);
    assert_eq!(t.transpose(&vec![0, 2]).unwrap_err(), TensorError::InvalidPermutation);
    assert_eq!(t.transpose(&vec![0]).unwrap_err(), TensorError::InvalidPermutation);
    assert!(check_perm(&vec![1, 0], 2));
    assert!(!check_perm(&vec![1, 1], 2));
}

#[test]
fn reshape_round_trip_is_identity() {
    let t = Tensor::new(DataType::U8, vec![2, 3, 4], 24).unwrap();
    let t1 = t.reshape(vec![6, 4]).unwrap();
    assert_eq!(t1.strides, vec![4, 1]);
    let t2 = t1.reshape(vec![2, 3, 4]).unwrap();
    assert_eq!(t2.shape, t.shape);
    assert_eq!(t2.strides, t.strides);
    assert_eq!(t2.offset, t.offset);
}

#[test]
fn reshape_errors() {
    let t = Tensor::new(DataType::U8, vec![2, 3], 6).unwrap();
    assert_eq!(t.reshape(vec![7]).unwrap_err(), TensorError::SizeMismatch);
    let tt = t.transpose(&vec![1, 0]).unwrap();
    assert!(!tt.contiguous());
    assert_eq!(tt.reshape(vec![6]).unwrap_err(), TensorError::NotContiguous);
}

#[test]
fn slice_narrows_and_offsets() {
    let t = Tensor::new(DataType::F32, vec![2, 10, 4], 320).unwrap();
    let dims = vec![
        SliceDim { start: 0, step: 1, len: 2 },
        SliceDim { start: 3, step: 2, len: 3 },
        SliceDim { start: 1, step: 1, len: 2 },
    ];
    let s = t.slice(&dims).unwrap();
    assert_eq!(s.shape, vec![2, 3, 2]);
    assert_eq!(s.strides, vec![40, 8, 1]);
    assert_eq!(s.offset, (3 * 4 + 1) * 4);
}

#[test]
fn slice_rejects_range_outside_dimension() {
    let t = Tensor::new(DataType::F32, vec![2, 10], 80).unwrap();
    let dims = vec![
        SliceDim { start: 0, step: 1, len: 2 },
        SliceDim { start: 8, step: 1, len: 3 },
    ];
    assert_eq!(t.slice(&dims).unwrap_err(), TensorError::OutOfBounds);
    let short = vec![SliceDim { start: 0, step: 1, len: 2 }];
    assert_eq!(t.slice(&short).unwrap_err(), TensorError::OutOfBounds);
}

#[test]
fn split_partitions_a_dimension() {
    let t = Tensor::new(DataType::F32, vec![3, 16], 192).unwrap();
    let parts = t.split(1, &vec![8, 4, 4]).unwrap();
    assert_eq!(parts.len(), 3);
    assert_eq!(parts[0].shape, vec![3, 8]);
    assert_eq!(parts[1].shape, vec![3, 4]);
    assert_eq!(parts[2].offset, 12 * 4);
    assert_eq!(parts[1].strides, vec![16, 1]);
}

#[test]
fn split_errors() {
    let t = Tensor::new(DataType::F32, vec![3, 16], 192).unwrap();
    assert_eq!(t.split(1, &vec![8, 4]).unwrap_err(), TensorError::SizeMismatch);
    assert_eq!(t.split(2, &vec![16]).unwrap_err(), TensorError::OutOfBounds);
}
