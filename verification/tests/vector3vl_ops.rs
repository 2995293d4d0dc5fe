//! One-bit truth tables of the logic operations, and the bit-vector
//! algebra on concrete values.

use logicsim3::vector3vl::Vec3vl;

#[test]
fn test_and_tt() {
    assert!(Vec3vl::ones(1).and(&Vec3vl::ones(1)).unwrap() == Vec3vl::ones(1));
}

#[test]
fn test_and_tf() {
    assert!(Vec3vl::ones(1).and(&Vec3vl::zeros(1)).unwrap() == Vec3vl::zeros(1));
}

#[test]
fn test_and_ft() {
    assert!(Vec3vl::zeros(1).and(&Vec3vl::ones(1)).unwrap() == Vec3vl::zeros(1));
}

#[test]
fn test_and_ff() {
    assert!(Vec3vl::zeros(1).and(&Vec3vl::zeros(1)).unwrap() == Vec3vl::zeros(1));
}

#[test]
fn test_or_tt() {
    assert!(Vec3vl::ones(1).or(&Vec3vl::ones(1)).unwrap() == Vec3vl::ones(1));
}

#[test]
fn test_or_tf() {
    assert!(Vec3vl::ones(1).or(&Vec3vl::zeros(1)).unwrap() == Vec3vl::ones(1));
}

#[test]
fn test_or_ft() {
    assert!(Vec3vl::zeros(1).or(&Vec3vl::ones(1)).unwrap() == Vec3vl::ones(1));
}

#[test]
fn test_or_ff() {
    assert!(Vec3vl::zeros(1).or(&Vec3vl::zeros(1)).unwrap() == Vec3vl::zeros(1));
}

#[test]
fn test_xor_tt() {
    assert!(Vec3vl::ones(1).xor(&Vec3vl::ones(1)).unwrap() == Vec3vl::zeros(1));
}

#[test]
fn test_xor_tf() {
    assert!(Vec3vl::ones(1).xor(&Vec3vl::zeros(1)).unwrap() == Vec3vl::ones(1));
}

#[test]
fn test_xor_ft() {
    assert!(Vec3vl::zeros(1).xor(&Vec3vl::ones(1)).unwrap() == Vec3vl::ones(1));
}

#[test]
fn test_xor_ff() {
    assert!(Vec3vl::zeros(1).xor(&Vec3vl::zeros(1)).unwrap() == Vec3vl::zeros(1));
}

#[test]
fn test_nand_tt() {
    assert!(Vec3vl::ones(1).nand(&Vec3vl::ones(1)).unwrap() == Vec3vl::zeros(1));
}

#[test]
fn test_nand_tf() {
    assert!(Vec3vl::ones(1).nand(&Vec3vl::zeros(1)).unwrap() == Vec3vl::ones(1));
}

#[test]
fn test_nand_ft() {
    assert!(Vec3vl::zeros(1).nand(&Vec3vl::ones(1)).unwrap() == Vec3vl::ones(1));
}

#[test]
fn test_nand_ff() {
    assert!(Vec3vl::zeros(1).nand(&Vec3vl::zeros(1)).unwrap() == Vec3vl::ones(1));
}

#[test]
fn test_nor_tt() {
    assert!(Vec3vl::ones(1).nor(&Vec3vl::ones(1)).unwrap() == Vec3vl::zeros(1));
}

#[test]
fn test_nor_tf() {
    assert!(Vec3vl::ones(1).nor(&Vec3vl::zeros(1)).unwrap() == Vec3vl::zeros(1));
}

#[test]
fn test_nor_ft() {
    assert!(Vec3vl::zeros(1).nor(&Vec3vl::ones(1)).unwrap() == Vec3vl::zeros(1));
}

#[test]
fn test_nor_ff() {
    assert!(Vec3vl::zeros(1).nor(&Vec3vl::zeros(1)).unwrap() == Vec3vl::ones(1));
}

#[test]
fn test_xnor_tt() {
    assert!(Vec3vl::ones(1).xnor(&Vec3vl::ones(1)).unwrap() == Vec3vl::ones(1));
}

#[test]
fn test_xnor_tf() {
    assert!(Vec3vl::ones(1).xnor(&Vec3vl::zeros(1)).unwrap() == Vec3vl::zeros(1));
}

#[test]
fn test_xnor_ft() {
    assert!(Vec3vl::zeros(1).xnor(&Vec3vl::ones(1)).unwrap() == Vec3vl::zeros(1));
}

#[test]
fn test_xnor_ff() {
    assert!(Vec3vl::zeros(1).xnor(&Vec3vl::zeros(1)).unwrap() == Vec3vl::ones(1));
}

#[test]
fn normalize_is_idempotent() {
    let mut v = Vec3vl::new(5, vec![0xffff_ffff], vec![0xffff_ff0f]);
    v.normalize();
    let first = v.clone();
    v.normalize();
    assert!(v == first);
    assert_eq!(v.avec, vec![0x1f]);
    assert_eq!(v.bvec, vec![0x0f]);
}

#[test]
fn identity_laws_on_values() {
    let v = Vec3vl::from_binary("1x01", None).unwrap();
    let ones = Vec3vl::ones(4);
    let zeros = Vec3vl::zeros(4);
    assert!(v.and(&ones).unwrap() == v);
    assert!(v.or(&zeros).unwrap() == v);
    assert!(v.xor(&zeros).unwrap() == v);
    let nn = v.not().not();
    assert!(nn == v);
}

#[test]
fn de_morgan_on_values() {
    let a = Vec3vl::from_binary("1100", None).unwrap();
    let b = Vec3vl::from_binary("1010", None).unwrap();
    let lhs1 = a.and(&b).unwrap().not();
    let rhs1 = a.not().or(&b.not()).unwrap();
    assert!(lhs1 == rhs1);
    let lhs2 = a.or(&b).unwrap().not();
    let rhs2 = a.not().and(&b.not()).unwrap();
    assert!(lhs2 == rhs2);
}

#[test]
fn x_absorption_table() {
    let x = Vec3vl::xes(1);
    let one = Vec3vl::ones(1);
    let zero = Vec3vl::zeros(1);
    assert_eq!(x.and(&zero).unwrap().get(0), -1);
    assert_eq!(x.and(&one).unwrap().get(0), 0);
    assert_eq!(x.and(&x).unwrap().get(0), 0);
    assert_eq!(x.or(&zero).unwrap().get(0), 0);
    assert_eq!(x.or(&one).unwrap().get(0), 1);
    assert_eq!(x.or(&x).unwrap().get(0), 0);
    assert_eq!(x.xor(&zero).unwrap().get(0), 0);
    assert_eq!(x.xor(&one).unwrap().get(0), 0);
    assert_eq!(x.xor(&x).unwrap().get(0), 0);
}

#[test]
fn hex_round_trip() {
    let v = Vec3vl::from_binary("10111010110111101010110111101111", None).unwrap();
    let hex = v.to_hex();
    assert_eq!(hex, "badeadef");
    let back = Vec3vl::from_hex(&hex, Some(32)).unwrap();
    assert!(back == v);
}

#[test]
fn hex_renders_x_nibbles() {
    let v = Vec3vl::from_binary("xxxx", None).unwrap();
    assert_eq!(v.to_hex(), "x");
}

#[test]
fn binary_round_trip_via_array() {
    let v = Vec3vl::from_binary("100101", None).unwrap();
    let arr = v.to_array();
    assert_eq!(arr, vec![1, -1, 1, -1, -1, 1]);
    let back = Vec3vl::from_number(0b100101, 6);
    assert!(back == v);
}

#[test]
fn slice_concat_restores_vector() {
    let v = Vec3vl::from_binary("110010111", None).unwrap();
    for k in 0..=9u32 {
        let lo = v.slice(0, k).unwrap();
        let hi = v.slice(k, 9).unwrap();
        let joined = Vec3vl::concat(&vec![lo, hi]).unwrap();
        assert!(joined == v);
    }
}

#[test]
fn slice_is_end_exclusive_and_clamped() {
    let v = Vec3vl::from_number(0b1101, 4);
    let s = v.slice(1, 3).unwrap();
    assert_eq!(s.bits, 2);
    assert_eq!(s.get_number().unwrap(), 0b10);
    let clamped = v.slice(2, 100).unwrap();
    assert_eq!(clamped.bits, 2);
    assert_eq!(clamped.get_number().unwrap(), 0b11);
}

#[test]
fn reductions_on_values() {
    let v = Vec3vl::from_binary("1011", None).unwrap();
    assert_eq!(v.reduce_and().get(0), -1);
    assert_eq!(v.reduce_or().get(0), 1);
    assert_eq!(v.reduce_xor().get(0), 1);
    assert_eq!(v.reduce_nand().get(0), 1);
    assert_eq!(v.reduce_nor().get(0), -1);
    assert_eq!(v.reduce_xnor().get(0), -1);
    let with_x = Vec3vl::from_binary("1x11", None).unwrap();
    assert_eq!(with_x.reduce_xor().get(0), 0);
}

#[test]
fn from_binary_rejects_bad_characters() {
    assert!(Vec3vl::from_binary("10a1", None).is_err());
    assert!(Vec3vl::from_hex("12g", None).is_err());
}

#[test]
fn get_number_needs_narrow_defined_signal() {
    assert!(Vec3vl::xes(4).get_number().is_err());
    assert!(Vec3vl::zeros(40).get_number().is_err());
    assert_eq!(Vec3vl::from_number(17, 8).get_number().unwrap(), 17);
}
