use ternary_matmul::{
    add_mat, naive_matmul, strassen_matmul, sub_mat, tiled_matmul, trit_add, trit_mul,
    trit_neg, xnor_matmul, TernaryMatrix,
};

const TRITS: [i8; 3] = [-1, 0, 1];

fn to_vec(m: &TernaryMatrix) -> Vec<i8> {
    let mut v = Vec::new();
    for i in 0..m.rows() {
        for j in 0..m.cols() {
            v.push(m.get(i, j));
        }
    }
    v
}

fn make_binary(m: &mut TernaryMatrix) {
    for i in 0..m.rows() {
        for j in 0..m.cols() {
            if m.get(i, j) == 0 {
                m.set(i, j, 1);
            }
        }
    }
}

/// Integer product rounded to its sign, computed independently of the library.
fn reference_product(a: &TernaryMatrix, b: &TernaryMatrix) -> Vec<i8> {
    let mut out = Vec::new();
    for i in 0..a.rows() {
        for j in 0..b.cols() {
            let mut s: i64 = 0;
            for p in 0..a.cols() {
                s += (a.get(i, p) as i64) * (b.get(p, j) as i64);
            }
            out.push(s.signum() as i8);
        }
    }
    out
}

#[test]
fn trit_neg_all_values() {
    assert_eq!(trit_neg(-1), 1);
    assert_eq!(trit_neg(0), 0);
    assert_eq!(trit_neg(1), -1);
}

#[test]
fn z3_field_laws_on_all_trits() {
    for &a in TRITS.iter() {
        assert_eq!(trit_add(a, trit_neg(a)), 0);
        assert_eq!(trit_add(a, 0), a);
        assert_eq!(trit_mul(a, 1), a);
        for &b in TRITS.iter() {
            assert_eq!(trit_add(a, b), trit_add(b, a));
            assert_eq!(trit_mul(a, b), trit_mul(b, a));
            assert_eq!(trit_mul(a, b), a * b);
            assert_eq!(((trit_add(a, b) - (a + b)) % 3 + 3) % 3, 0);
            for &c in TRITS.iter() {
                assert_eq!(trit_add(trit_add(a, b), c), trit_add(a, trit_add(b, c)));
                assert_eq!(trit_mul(trit_mul(a, b), c), trit_mul(a, trit_mul(b, c)));
                assert_eq!(
                    trit_mul(a, trit_add(b, c)),
                    trit_add(trit_mul(a, b), trit_mul(a, c))
                );
            }
        }
    }
}

#[test]
fn random_values_follow_the_generator() {
    assert_eq!(to_vec(&TernaryMatrix::random(1, 1, 0)), vec![-1]);
    assert_eq!(to_vec(&TernaryMatrix::random(2, 3, 42)), vec![1, -1, 0, 1, 1, -1]);
    assert_eq!(to_vec(&TernaryMatrix::random(3, 2, 7)), vec![0, -1, -1, 0, 0, -1]);
    assert_eq!(TernaryMatrix::random(5, 7, 9), TernaryMatrix::random(5, 7, 9));
}

#[test]
fn shapes_and_access() {
    let m = TernaryMatrix::zeros(2, 5);
    assert_eq!(m.rows(), 2);
    assert_eq!(m.cols(), 5);
    let v = TernaryMatrix::from_vec(2, 3, vec![1, 0, -1, -1, 1, 0]);
    assert_eq!(v.get(0, 2), -1);
    assert_eq!(v.get(1, 0), -1);
    assert_eq!(v.get(1, 1), 1);
    let id = TernaryMatrix::identity(4);
    for i in 0..4 {
        for j in 0..4 {
            assert_eq!(id.get(i, j), if i == j { 1 } else { 0 });
        }
    }
}

#[test]
fn read_after_write() {
    let mut m = TernaryMatrix::random(3, 4, 5);
    let before = to_vec(&m);
    m.set(1, 2, -1);
    assert_eq!(m.get(1, 2), -1);
    let after = to_vec(&m);
    for k in 0..12 {
        if k != 1 * 4 + 2 {
            assert_eq!(after[k], before[k]);
        }
    }
}

#[test]
fn product_is_sign_of_integer_product() {
    let ones = TernaryMatrix::from_vec(3, 3, vec![1; 9]);
    let c = naive_matmul(&ones, &ones);
    assert_eq!(to_vec(&c), vec![1; 9]);
    let neg = TernaryMatrix::from_vec(3, 3, vec![-1; 9]);
    let d = naive_matmul(&ones, &neg);
    assert_eq!(to_vec(&d), vec![-1; 9]);
    let a = TernaryMatrix::random(5, 7, 31);
    let b = TernaryMatrix::random(7, 3, 32);
    let c = naive_matmul(&a, &b);
    assert_eq!(c.rows(), 5);
    assert_eq!(c.cols(), 3);
    assert_eq!(to_vec(&c), reference_product(&a, &b));
}

#[test]
fn identity_is_a_unit_on_rectangular_matrices() {
    let a = TernaryMatrix::random(3, 5, 77);
    assert_eq!(naive_matmul(&a, &TernaryMatrix::identity(5)), a);
    assert_eq!(naive_matmul(&TernaryMatrix::identity(3), &a), a);
}

#[test]
fn zero_operands_give_zero_products() {
    let b = TernaryMatrix::random(4, 6, 3);
    assert_eq!(naive_matmul(&TernaryMatrix::zeros(2, 4), &b), TernaryMatrix::zeros(2, 6));
    assert_eq!(naive_matmul(&b, &TernaryMatrix::zeros(6, 3)), TernaryMatrix::zeros(4, 3));
}

#[test]
fn empty_inner_dimension() {
    let a = TernaryMatrix::zeros(2, 0);
    let b = TernaryMatrix::zeros(0, 3);
    assert_eq!(naive_matmul(&a, &b), TernaryMatrix::zeros(2, 3));
    assert_eq!(tiled_matmul(&a, &b, 4), TernaryMatrix::zeros(2, 3));
    assert_eq!(xnor_matmul(&a, &b), Some(TernaryMatrix::zeros(2, 3)));
}

#[test]
fn tiled_with_uneven_tiles() {
    let a = TernaryMatrix::random(7, 9, 1);
    let b = TernaryMatrix::random(9, 5, 2);
    let naive = naive_matmul(&a, &b);
    for tile in [1, 2, 3, 4, 8, 100] {
        assert_eq!(tiled_matmul(&a, &b, tile), naive);
    }
}

#[test]
fn xnor_single_signs() {
    let p = TernaryMatrix::from_vec(1, 1, vec![1]);
    let n = TernaryMatrix::from_vec(1, 1, vec![-1]);
    assert_eq!(to_vec(&xnor_matmul(&p, &p).unwrap()), vec![1]);
    assert_eq!(to_vec(&xnor_matmul(&p, &n).unwrap()), vec![-1]);
    assert_eq!(to_vec(&xnor_matmul(&n, &n).unwrap()), vec![1]);
}

#[test]
fn xnor_across_word_boundaries() {
    for k in [63, 64, 65, 128, 130] {
        let mut a = TernaryMatrix::random(3, k, k as u64);
        let mut b = TernaryMatrix::random(k, 4, 1000 + k as u64);
        make_binary(&mut a);
        make_binary(&mut b);
        let x = xnor_matmul(&a, &b).expect("binary matrices");
        assert_eq!(x, naive_matmul(&a, &b));
        assert_eq!(to_vec(&x), reference_product(&a, &b));
    }
}

#[test]
fn xnor_none_when_right_operand_has_zero() {
    let a = TernaryMatrix::from_vec(2, 2, vec![1, -1, -1, 1]);
    let b = TernaryMatrix::from_vec(2, 2, vec![1, -1, 0, -1]);
    assert!(xnor_matmul(&a, &b).is_none());
    // A zero makes the answer None even when the shapes do not match.
    let c = TernaryMatrix::from_vec(3, 1, vec![1, 0, 1]);
    assert!(xnor_matmul(&a, &c).is_none());
}

#[test]
fn strassen_small_and_deep() {
    let a = TernaryMatrix::random(3, 3, 5);
    let b = TernaryMatrix::random(3, 3, 6);
    assert_eq!(strassen_matmul(&a, &b, 3), naive_matmul(&a, &b));
    let a = TernaryMatrix::random(32, 32, 8);
    let b = TernaryMatrix::random(32, 32, 9);
    let s = strassen_matmul(&a, &b, 1);
    assert_eq!(s, naive_matmul(&a, &b));
    assert_eq!(to_vec(&s), reference_product(&a, &b));
    let one = TernaryMatrix::from_vec(1, 1, vec![-1]);
    assert_eq!(to_vec(&strassen_matmul(&one, &one, 1)), vec![1]);
}

#[test]
fn sub_undoes_add() {
    let a = TernaryMatrix::random(4, 5, 11);
    let b = TernaryMatrix::random(4, 5, 12);
    assert_eq!(sub_mat(&add_mat(&a, &b), &b), a);
    assert_eq!(add_mat(&a, &b), add_mat(&b, &a));
    assert_eq!(sub_mat(&a, &a), TernaryMatrix::zeros(4, 5));
}
