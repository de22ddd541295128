use fc_sort::{merge, merge_sort, TotalFloat};
use rand::random;
use std::cmp::Ordering;
use std::f64::INFINITY as INF;
use std::f64::NAN;
use std::f64::NEG_INFINITY as N_INF;

fn tf(x: f64) -> TotalFloat {
    TotalFloat::from_bits(x.to_bits())
}

fn tfvec(xs: &[f64]) -> Vec<TotalFloat> {
    xs.iter().map(|&x| tf(x)).collect()
}

fn bits_of(v: &[TotalFloat]) -> Vec<u64> {
    v.iter().map(|t| t.to_bits()).collect()
}

#[test]
fn empty_list() {
    assert_eq!(merge_sort(tfvec(&[])), tfvec(&[]));
}

#[test]
fn one_element_list() {
    assert_eq!(merge_sort(tfvec(&[1.0])), tfvec(&[1.0]));
}

#[test]
fn two_element_list() {
    assert_eq!(merge_sort(tfvec(&[2.0, 1.0])), tfvec(&[1.0, 2.0]));
}

#[test]
fn general_element_list() {
    assert_eq!(
        merge_sort(tfvec(&[3.0, 2.0, 5.3, 6.1, 8.4, 1.0])),
        tfvec(&[1.0, 2.0, 3.0, 5.3, 6.1, 8.4])
    );
}

#[test]
fn some_elements_same() {
    assert_eq!(
        merge_sort(tfvec(&[3.4, 1.2, 8.4, 3.4, 2.3])),
        tfvec(&[1.2, 2.3, 3.4, 3.4, 8.4])
    )
}

#[test]
fn some_elements_infinity() {
    assert_eq!(
        merge_sort(tfvec(&[INF, 4.4, 2.1, N_INF, 5.2, INF])),
        tfvec(&[N_INF, 2.1, 4.4, 5.2, INF, INF])
    );
}

#[test]
fn some_elements_minus_zero() {
    assert_eq!(
        merge_sort(tfvec(&[2.3, -9.0, -0.0, 4.2, 0.0, 9.1])),
        tfvec(&[-9.0, -0.0, 0.0, 2.3, 4.2, 9.1])
    );
}

#[test]
fn some_elements_nan() {
    assert_eq!(
        merge_sort(tfvec(&[3.4, 1.2, 8.4, NAN, 2.3, N_INF])),
        tfvec(&[NAN, N_INF, 1.2, 2.3, 3.4, 8.4])
    );
}

#[test]
fn pseudo_random() {
    let list: Vec<TotalFloat> = (0..100).map(|_| tf(random::<f64>())).collect();
    let list = merge_sort(list);
    assert!(list.iter().zip(list.iter().skip(1)).all(|(a, b)| a <= b))
}

#[test]
fn nan_with_different_mantissa() {
    let nan1: u64 = 0x7ff800a004001000;
    let nan2: u64 = 0x7ff80090e200a000;
    let nan1: f64 = f64::from_bits(nan1);
    let nan2: f64 = f64::from_bits(nan2);
    assert_eq!(tf(nan1), tf(nan2));
    assert_eq!(
        merge_sort(tfvec(&[2.0, -4.2, INF, 2.1, nan1, 3.2, nan2])),
        tfvec(&[NAN, NAN, -4.2, 2.0, 2.1, 3.2, INF])
    );
}

#[test]
fn bits_round_trip() {
    for x in [0.0, -0.0, 1.5, -2.25, INF, N_INF, NAN, f64::MIN_POSITIVE, f64::MAX] {
        assert_eq!(tf(x).to_bits(), x.to_bits());
        assert_eq!(f64::from_bits(tf(x).to_bits()).to_bits(), x.to_bits());
    }
}

#[test]
fn is_nan_on_every_kind() {
    assert!(tf(NAN).is_nan());
    assert!(tf(-NAN).is_nan());
    assert!(TotalFloat::from_bits(0x7ff0_0000_0000_0001).is_nan());
    assert!(TotalFloat::from_bits(0xfff8_0000_0000_0000).is_nan());
    assert!(!tf(INF).is_nan());
    assert!(!tf(N_INF).is_nan());
    assert!(!tf(0.0).is_nan());
    assert!(!tf(-0.0).is_nan());
    assert!(!tf(1.0).is_nan());
}

#[test]
fn cmp_is_total_on_special_values() {
    let values = [NAN, -NAN, N_INF, -1.0, -f64::MIN_POSITIVE, -0.0, 0.0, 5e-324, 1.0, f64::MAX, INF];
    for &a in values.iter() {
        for &b in values.iter() {
            let (x, y) = (tf(a), tf(b));
            let c = x.cmp(&y);
            assert_eq!(x.partial_cmp(&y), Some(c));
            assert_eq!(y.cmp(&x), c.reverse());
            assert_eq!(c == Ordering::Equal, x == y);
            if !a.is_nan() && !b.is_nan() {
                assert_eq!(Some(c), a.partial_cmp(&b));
            }
        }
    }
}

#[test]
fn nan_is_least() {
    for x in [N_INF, -1.0, -0.0, 0.0, 3.5, INF] {
        assert_eq!(tf(NAN).cmp(&tf(x)), Ordering::Less);
        assert_eq!(tf(x).cmp(&tf(NAN)), Ordering::Greater);
        assert!(tf(NAN) < tf(x));
        assert!(tf(NAN) != tf(x));
    }
}

#[test]
fn nan_equals_nan() {
    assert_eq!(tf(NAN), tf(NAN));
    assert_eq!(tf(NAN), tf(-NAN));
    assert_eq!(tf(NAN).cmp(&tf(-NAN)), Ordering::Equal);
}

#[test]
fn signed_zeros_are_equal() {
    assert_eq!(tf(-0.0), tf(0.0));
    assert_eq!(tf(-0.0).cmp(&tf(0.0)), Ordering::Equal);
    for x in [NAN, N_INF, -1.0, 1.0, INF] {
        assert_eq!(tf(-0.0).cmp(&tf(x)), tf(0.0).cmp(&tf(x)));
    }
}

#[test]
fn numbers_keep_numeric_order() {
    assert_eq!(tf(-2.0).cmp(&tf(-1.0)), Ordering::Less);
    assert_eq!(tf(1.0).cmp(&tf(2.0)), Ordering::Less);
    assert_eq!(tf(-1.0).cmp(&tf(1.0)), Ordering::Less);
    assert_eq!(tf(2.5).cmp(&tf(2.5)), Ordering::Equal);
    assert_eq!(tf(INF).cmp(&tf(f64::MAX)), Ordering::Greater);
    assert_eq!(tf(N_INF).cmp(&tf(f64::MIN)), Ordering::Less);
    assert!(tf(1.0) != tf(2.0));
}

#[test]
fn merge_two_ascending() {
    assert_eq!(
        merge(tfvec(&[1.0, 3.0, 5.0]), tfvec(&[2.0, 4.0])),
        tfvec(&[1.0, 2.0, 3.0, 4.0, 5.0])
    );
}

#[test]
fn merge_with_empty_sides() {
    assert_eq!(merge(tfvec(&[]), tfvec(&[]) ), tfvec(&[]));
    assert_eq!(merge(tfvec(&[1.0, 2.0]), tfvec(&[])), tfvec(&[1.0, 2.0]));
    assert_eq!(merge(tfvec(&[]), tfvec(&[NAN, 2.0])), tfvec(&[NAN, 2.0]));
}

#[test]
fn merge_prefers_left_on_ties() {
    let r = merge(tfvec(&[0.0]), tfvec(&[-0.0]));
    assert_eq!(bits_of(&r), vec![0.0f64.to_bits(), (-0.0f64).to_bits()]);
    let r = merge(tfvec(&[-0.0]), tfvec(&[0.0]));
    assert_eq!(bits_of(&r), vec![(-0.0f64).to_bits(), 0.0f64.to_bits()]);
}

#[test]
fn merge_keeps_length_and_elements() {
    let a = tfvec(&[NAN, -1.0, 2.0, 2.0]);
    let b = tfvec(&[N_INF, 2.0, INF]);
    let r = merge(a, b);
    assert_eq!(r.len(), 7);
    assert_eq!(r, tfvec(&[NAN, N_INF, -1.0, 2.0, 2.0, 2.0, INF]));
}

#[test]
fn merge_of_unsorted_inputs_follows_heads() {
    assert_eq!(
        merge(tfvec(&[3.0, 1.0]), tfvec(&[2.0])),
        tfvec(&[2.0, 3.0, 1.0])
    );
}

#[test]
fn sort_twice_equals_sort_once() {
    let input = tfvec(&[4.0, -0.0, NAN, 0.0, 1.0, N_INF, -NAN, 1.0]);
    let once = merge_sort(input);
    let twice = merge_sort(once.clone());
    assert_eq!(twice, once);
    assert_eq!(once, tfvec(&[NAN, NAN, N_INF, 0.0, 0.0, 1.0, 1.0, 4.0]));
}

#[test]
fn sort_keeps_length() {
    for n in 0..20usize {
        let input: Vec<TotalFloat> = (0..n).map(|i| tf(((i * 7) % 5) as f64 - 2.0)).collect();
        assert_eq!(merge_sort(input).len(), n);
    }
}

#[test]
fn sort_output_is_ordered_pairwise() {
    let input = tfvec(&[9.0, NAN, -3.0, INF, 0.5, -0.0, N_INF, 0.5, 7.0, -NAN, 0.0]);
    let r = merge_sort(input);
    for i in 0..r.len() - 1 {
        assert_ne!(r[i].cmp(&r[i + 1]), Ordering::Greater);
    }
}

#[test]
fn sort_keeps_equal_values_in_input_order() {
    let r = merge_sort(tfvec(&[0.0, 1.0, -0.0]));
    assert_eq!(
        bits_of(&r),
        vec![0.0f64.to_bits(), (-0.0f64).to_bits(), 1.0f64.to_bits()]
    );
}
