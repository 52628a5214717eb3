use deep_tch::scalar::Scalar;
use deep_tch::tensor::{index_to_position, position_to_index, strides_from_shape, Tensor};

fn range_data(n: i64) -> Vec<Scalar> {
    let mut data = Vec::new();
    let mut i: i64 = 0;
    while i < n {
        data.push(Scalar::from_int(i));
        i += 1;
    }
    data
}

#[test]
fn test_index_to_position() {
    let index = [1, 2];
    let strides = [6, 1];
    assert_eq!(8, index_to_position(&index, &strides).unwrap());

    let index = [1, 2, 3];
    let strides = [6, 1, 1];
    assert_eq!(11, index_to_position(&index, &strides).unwrap());

    let index = [69, 420];
    let strides = [42, 37];
    assert_eq!(69 * 42 + 420 * 37, index_to_position(&index, &strides).unwrap());
}

#[test]
fn test_position_to_index() {
    // Positions 8 and 11 lie beyond the 6-element buffer of a [2, 3]
    // tensor, so the conversion must reject them rather than wrap.
    let position = 8;
    let shape = [2, 3];
    assert!(position_to_index(position, &shape).is_err());

    let position = 11;
    let shape = [2, 3];
    assert!(position_to_index(position, &shape).is_err());
}

#[test]
fn test_position_round_trip() {
    let shape = [2, 3, 4];
    let strides = strides_from_shape(&shape);
    assert_eq!(strides, vec![1, 2, 6]);
    for i0 in 0..2 {
        for i1 in 0..3 {
            for i2 in 0..4 {
                let index = [i0, i1, i2];
                let position = index_to_position(&index, &strides).unwrap();
                let back = position_to_index(position, &shape).unwrap();
                assert_eq!(back, vec![i0, i1, i2]);
            }
        }
    }
}

#[test]
fn test_index_length_mismatch() {
    let index = [1, 2, 3];
    let strides = [6, 1];
    assert!(index_to_position(&index, &strides).is_err());
}

#[test]
fn test_make_zeros() {
    let tens_zeros = Tensor::zeros(&[2, 3]);
    assert_eq!(tens_zeros.shape, vec![2, 3]);
    assert_eq!(tens_zeros.data, vec![Scalar::zero(); 6]);
}

#[test]
fn test_make_ones() {
    let tens_ones = Tensor::ones(&[2, 3]);
    assert_eq!(tens_ones.shape, vec![2, 3]);
    assert_eq!(tens_ones.data, vec![Scalar::one(); 6]);
}

#[test]
fn test_get_mat() {
    let tens = Tensor::new(&[4, 2], range_data(8)).unwrap();
    // Strides of [4, 2] are [1, 4]: the index [1, 1] occupies position 5.
    assert_eq!(tens.get(&[1, 1]).unwrap(), Scalar::from_int(5));
}

#[test]
fn test_get_3d() {
    let tens = Tensor::new(&[2, 3, 4], range_data(24)).unwrap();
    // Strides of [2, 3, 4] are [1, 2, 6]: the index [1, 2, 3] occupies
    // position 1 + 4 + 18 = 23, the last element of the 24-element buffer.
    assert_eq!(tens.get(&[1, 2, 3]).unwrap(), Scalar::from_int(23));
}

#[test]
fn test_tensor_set_get() {
    let mut tens = Tensor::zeros(&[2, 3]);
    tens.set(&[1, 2], Scalar::from_int(7)).unwrap();
    assert_eq!(tens.get(&[1, 2]).unwrap(), Scalar::from_int(7));
    assert_eq!(tens.get(&[0, 2]).unwrap(), Scalar::zero());
}

#[test]
fn test_tensor_index_out_of_bounds() {
    let tens = Tensor::zeros(&[2, 3]);
    assert!(tens.get(&[2, 0]).is_err());
    assert!(tens.get(&[0]).is_err());
    let mut tens = tens;
    assert!(tens.set(&[0, 3], Scalar::one()).is_err());
}

#[test]
fn test_tensor_invalid_construction() {
    assert!(Tensor::new(&[2, 3], range_data(5)).is_err());
}

#[test]
fn test_rank_zero_tensor() {
    // The empty shape denotes a single-element tensor: the empty product
    // is one, and the empty index addresses the lone element.
    let mut t = Tensor::new(&[], vec![Scalar::from_int(9)]).unwrap();
    assert_eq!(t.get(&[]).unwrap(), Scalar::from_int(9));
    t.set(&[], Scalar::from_int(4)).unwrap();
    assert_eq!(t.get(&[]).unwrap(), Scalar::from_int(4));
}

#[test]
fn test_zero_sized_dimension() {
    // A zero-sized dimension yields the empty tensor: no element exists
    // and every access is out of bounds.
    let t = Tensor::zeros(&[2, 0]);
    assert_eq!(t.data.len(), 0);
    assert!(t.get(&[0, 0]).is_err());
    assert!(position_to_index(0, &[2, 0]).is_err());
}
