use gcm_mode::gfpoly::{GFPoly, X128};

#[test]
fn x128_test() {
    let lhs = GFPoly::from(1);
    let rhs = GFPoly::from(1u128 << 126);

    let actual: u128 = (lhs * rhs).into();
    let expect: u128 = 0xe1000000000000000000000000000000u128;
    assert_eq!(actual, expect);
}

#[test]
fn random_test() {
    let lhs = GFPoly::from(1242141243);
    let rhs = GFPoly::from(123);

    let actual: u128 = (lhs * rhs).into();
    let expect: u128 = 0xfa2800000000000000000028b7d0d77bu128;
    assert_eq!(actual, expect);
}

#[test]
fn simple_test() {
    let cases = vec![
        (
            GFPoly::from(0b1u128 << 127),
            GFPoly::from(0b1u128 << 127),
            GFPoly::from(0b1u128 << 127),
        ),
        (
            GFPoly::from(0b1u128 << 127),
            GFPoly::from(0b0u128 << 127),
            GFPoly::from(0b0u128 << 127),
        ),
        (
            GFPoly::from(0b0u128 << 127),
            GFPoly::from(0b0u128 << 127),
            GFPoly::from(0b0u128 << 127),
        ),
        (
            GFPoly::from(0b01u128 << 126),
            GFPoly::from(0b11u128 << 126),
            GFPoly::from(0b011u128 << 125),
        ),
        (
            GFPoly::from(0b11u128 << 126),
            GFPoly::from(0b11u128 << 126),
            GFPoly::from(0b101u128 << 125),
        ),
    ];
    for (lhs, rhs, expected) in cases {
        let actual = lhs * rhs;
        assert_eq!(actual, expected);
    }
}

#[test]
fn overflow_test() {
    let cases = vec![(
        GFPoly::from(0b1u128),
        GFPoly::from(0b01u128 << 126),
        GFPoly::from(X128),
    )];
    for (lhs, rhs, expected) in cases {
        let actual = lhs * rhs;
        assert_eq!(actual, expected);
    }
}

fn samples() -> Vec<u128> {
    vec![
        0,
        1,
        1u128 << 127,
        1u128 << 126,
        X128,
        u128::MAX,
        1242141243,
        123,
        0x66e94bd4ef8a2c3b884cfa59ca342b2e,
        0x0388dace60b6a392f328c2b971b2fe78,
        0xdc95c078a2408989ad48a21492842087,
    ]
}

#[test]
fn one_is_the_identity_of_multiplication() {
    let one = GFPoly::from(1u128 << 127);
    assert_eq!(one * one, one);
    for v in samples() {
        let a = GFPoly::from(v);
        assert_eq!(a * one, a);
        assert_eq!(one * a, a);
    }
}

#[test]
fn the_integer_one_is_not_the_identity() {
    let low = GFPoly::from(1u128);
    let a = GFPoly::from(1u128 << 126);
    assert_ne!(a * low, a);
}

#[test]
fn multiplication_is_commutative() {
    for x in samples() {
        for y in samples() {
            let a = GFPoly::from(x);
            let b = GFPoly::from(y);
            assert_eq!(a * b, b * a);
        }
    }
}

#[test]
fn multiplication_is_associative() {
    for x in samples() {
        for y in samples() {
            for z in samples() {
                let a = GFPoly::from(x);
                let b = GFPoly::from(y);
                let c = GFPoly::from(z);
                assert_eq!((a * b) * c, a * (b * c));
            }
        }
    }
}

#[test]
fn multiplication_distributes_over_addition() {
    for x in samples() {
        for y in samples() {
            for z in samples() {
                let a = GFPoly::from(x);
                let b = GFPoly::from(y);
                let c = GFPoly::from(z);
                assert_eq!((a + b) * c, a * c + b * c);
                assert_eq!(c * (a + b), c * a + c * b);
            }
        }
    }
}

#[test]
fn zero_absorbs() {
    let zero = GFPoly::from(0u128);
    for v in samples() {
        let a = GFPoly::from(v);
        assert_eq!(a * zero, zero);
        assert_eq!(zero * a, zero);
    }
}

#[test]
fn addition_is_xor() {
    let a = GFPoly::from(0b1100u128);
    let b = GFPoly::from(0b1010u128);
    let sum: u128 = (a + b).into();
    assert_eq!(sum, 0b0110u128);
}

#[test]
fn addition_laws() {
    let zero = GFPoly::from(0u128);
    for x in samples() {
        let a = GFPoly::from(x);
        assert_eq!(a + a, zero);
        assert_eq!(a + zero, a);
        assert_eq!(zero + a, a);
        for y in samples() {
            let b = GFPoly::from(y);
            assert_eq!(a + b, b + a);
            for z in samples() {
                let c = GFPoly::from(z);
                assert_eq!((a + b) + c, a + (b + c));
            }
        }
    }
}

#[test]
fn assigning_operators_agree_with_the_plain_ones() {
    let a = GFPoly::from(1242141243u128);
    let b = GFPoly::from(123u128);
    let mut s = a;
    s += b;
    assert_eq!(s, a + b);
    let mut p = a;
    p *= b;
    assert_eq!(p, a * b);
    assert_eq!(u128::from(p), 0xfa2800000000000000000028b7d0d77bu128);
}

#[test]
fn rightshift_without_reduction() {
    let r: u128 = GFPoly::from(2u128).rightshift().into();
    assert_eq!(r, 1u128);
    let r: u128 = GFPoly::from(1u128 << 127).rightshift().into();
    assert_eq!(r, 1u128 << 126);
    let r: u128 = GFPoly::from(0u128).rightshift().into();
    assert_eq!(r, 0u128);
}

#[test]
fn rightshift_reduces_once() {
    let r: u128 = GFPoly::from(1u128).rightshift().into();
    assert_eq!(r, X128);
    let r: u128 = GFPoly::from(3u128).rightshift().into();
    assert_eq!(r, 0xe1000000000000000000000000000001u128);
    let r: u128 = GFPoly::from(u128::MAX).rightshift().into();
    assert_eq!(r, 0x9effffffffffffffffffffffffffffffu128);
}

#[test]
fn multiplying_by_x_is_one_rightshift() {
    let x = GFPoly::from(1u128 << 126);
    for v in samples() {
        let a = GFPoly::from(v);
        assert_eq!(a * x, a.rightshift());
    }
}

#[test]
fn product_that_crosses_degree_128() {
    // x^127 * x^2 = x^129 = x * (x^7 + x^2 + x + 1) = x^8 + x^3 + x^2 + x
    let a = GFPoly::from(1u128);
    let b = GFPoly::from(1u128 << 125);
    let r: u128 = (a * b).into();
    assert_eq!(r, 0x70800000000000000000000000000000u128);
}

#[test]
fn conversions_keep_the_bits() {
    for v in samples() {
        let back: u128 = GFPoly::from(v).into();
        assert_eq!(back, v);
        assert_eq!(u128::from(GFPoly::from(v)), v);
    }
}

#[test]
fn degrees_from_the_highest_down() {
    assert_eq!(GFPoly::from(0u128).degrees(), Vec::<u32>::new());
    assert_eq!(GFPoly::from(1u128 << 127).degrees(), vec![0]);
    assert_eq!(GFPoly::from(1u128).degrees(), vec![127]);
    assert_eq!(GFPoly::from((1u128 << 127) | 1).degrees(), vec![127, 0]);
    assert_eq!(GFPoly::from(X128).degrees(), vec![7, 2, 1, 0]);
    let all = GFPoly::from(u128::MAX).degrees();
    assert_eq!(all.len(), 128);
    assert_eq!(all[0], 127);
    assert_eq!(all[127], 0);
}
