use fpx::fpx_ieee::FpxIEEE;

fn encode(x: f32) -> FpxIEEE {
    FpxIEEE::from_bits(x.to_bits())
}

fn decode(v: &FpxIEEE) -> f32 {
    f32::from_bits(FpxIEEE::to_bits(v))
}

#[test]
fn equals_method() {
    assert!(FpxIEEE::equals(&FpxIEEE::new(false, [true; 8], [false; 23]), &FpxIEEE::infinite()));
    assert!(!FpxIEEE::equals(&FpxIEEE::new(false, [true; 8], [true; 23]), &FpxIEEE::infinite()));
}

#[test]
fn persistence() {
    let f: [bool; 23] = [false; 23];
    let fpx_: FpxIEEE = FpxIEEE::new(false, [true; 8], f);
    assert!(FpxIEEE::equals(&fpx_, &FpxIEEE::infinite()));
    assert!(FpxIEEE::equals(&fpx_, &FpxIEEE::infinite()));
}

#[test]
fn equals_compares_every_exponent_digit() {
    let mut c = [true; 8];
    c[7] = false;
    let v = FpxIEEE::new(false, c, [false; 23]);
    assert!(!FpxIEEE::equals(&v, &FpxIEEE::infinite()));
}

#[test]
fn equals_compares_sign() {
    assert!(!FpxIEEE::equals(&FpxIEEE::infinite(), &FpxIEEE::infinite_negative()));
}

#[test]
fn equals_is_an_equivalence_on_examples() {
    let a = encode(1.5);
    let b = encode(1.5);
    let c = FpxIEEE::from_bits(0x3fc0_0000);
    assert!(FpxIEEE::equals(&a, &a));
    assert!(FpxIEEE::equals(&a, &b) && FpxIEEE::equals(&b, &a));
    assert!(FpxIEEE::equals(&b, &c) && FpxIEEE::equals(&a, &c));
}

#[test]
fn signed_zeros_are_not_equal() {
    let pos = encode(0.0);
    let neg = encode(-0.0);
    assert!(FpxIEEE::is_zero(&pos) && FpxIEEE::is_zero(&neg));
    assert!(!FpxIEEE::equals(&pos, &neg));
}

#[test]
fn nans_equal_only_with_the_same_payload() {
    let a = FpxIEEE::from_bits(0x7fc0_0000);
    let b = FpxIEEE::from_bits(0x7fc0_0001);
    assert!(FpxIEEE::is_nan(&a) && FpxIEEE::is_nan(&b));
    assert!(FpxIEEE::equals(&a, &a));
    assert!(!FpxIEEE::equals(&a, &b));
    assert!(FpxIEEE::equals(&a, &FpxIEEE::from_bits(0x7fc0_0000)));
}

#[test]
fn infinities_encode_as_infinite_with_their_sign() {
    let pos = encode(f32::INFINITY);
    let neg = encode(f32::NEG_INFINITY);
    assert!(FpxIEEE::is_infinite(&pos));
    assert!(FpxIEEE::is_infinite(&neg));
    assert!(FpxIEEE::equals(&pos, &FpxIEEE::infinite()));
    assert!(FpxIEEE::equals(&neg, &FpxIEEE::infinite_negative()));
    assert!(!FpxIEEE::is_nan(&pos));
}

#[test]
fn nan_encodes_as_nan() {
    let v = encode(f32::NAN);
    assert!(FpxIEEE::is_nan(&v));
    assert!(!FpxIEEE::is_infinite(&v));
    assert!(FpxIEEE::is_nan(&FpxIEEE::nan()));
}

#[test]
fn nan_payload_is_kept_on_encode() {
    let x = f32::from_bits(0xffa0_0005);
    let v = encode(x);
    assert!(FpxIEEE::is_nan(&v));
    assert_eq!(FpxIEEE::to_bits(&v), 0xffa0_0005);
    assert_eq!(decode(&v).to_bits(), 0xffa0_0005);
}

#[test]
fn infinite_renders_as_text() {
    assert_eq!(
        FpxIEEE::to_string(FpxIEEE::infinite()),
        "fpx_s0c11111111f00000000000000000000000"
    );
}

#[test]
fn negative_nan_renders_as_text() {
    let s = FpxIEEE::to_string(FpxIEEE::nan());
    assert_eq!(s, "fpx_s1c11111111f11111111111111111111111");
    assert_eq!(s.len(), 39);
}

#[test]
fn one_renders_as_text() {
    assert_eq!(
        FpxIEEE::to_string(encode(1.0)),
        "fpx_s0c01111111f00000000000000000000000"
    );
    assert_eq!(
        FpxIEEE::to_string(encode(-2.5)),
        "fpx_s1c10000000f01000000000000000000000"
    );
}

#[test]
fn fields_of_one() {
    let mut c = [true; 8];
    c[0] = false;
    let one = FpxIEEE::new(false, c, [false; 23]);
    assert!(FpxIEEE::equals(&encode(1.0), &one));
    assert_eq!(FpxIEEE::to_bits(&one), 0x3f80_0000);
    assert_eq!(decode(&one), 1.0);
}

#[test]
fn round_trip_keeps_every_bit() {
    let values: [f32; 12] = [
        0.0,
        -0.0,
        1.0,
        -1.0,
        3.141_592_7,
        f32::MAX,
        f32::MIN,
        f32::MIN_POSITIVE,
        f32::from_bits(1),
        f32::from_bits(0x8000_0001),
        f32::INFINITY,
        f32::NEG_INFINITY,
    ];
    for x in values {
        assert_eq!(decode(&encode(x)).to_bits(), x.to_bits());
    }
}

#[test]
fn round_trip_from_fields() {
    let v = FpxIEEE::new(true, [false, true, false, true, false, true, false, true], [true; 23]);
    let w = FpxIEEE::from_bits(FpxIEEE::to_bits(&v));
    assert!(FpxIEEE::equals(&v, &w));
    assert_eq!(FpxIEEE::to_bits(&v), 0xaaff_ffff);
}

#[test]
fn classes_of_examples() {
    let zero = encode(0.0);
    let sub = encode(f32::from_bits(1));
    let normal = encode(-7.25);
    let inf = encode(f32::INFINITY);
    let nan = encode(f32::NAN);
    let all = [&zero, &sub, &normal, &inf, &nan];
    for v in all {
        let n = [
            FpxIEEE::is_zero(v),
            FpxIEEE::is_subnormal(v),
            FpxIEEE::is_normalized(v),
            FpxIEEE::is_infinite(v),
            FpxIEEE::is_nan(v),
        ]
        .iter()
        .filter(|b| **b)
        .count();
        assert_eq!(n, 1);
    }
    assert!(FpxIEEE::is_zero(&zero));
    assert!(FpxIEEE::is_subnormal(&sub));
    assert!(FpxIEEE::is_normalized(&normal));
    assert!(FpxIEEE::is_infinite(&inf));
    assert!(FpxIEEE::is_nan(&nan));
}

#[test]
fn largest_and_smallest_normal() {
    assert!(FpxIEEE::is_normalized(&encode(f32::MAX)));
    assert!(FpxIEEE::is_normalized(&encode(f32::MIN_POSITIVE)));
    assert!(FpxIEEE::is_subnormal(&FpxIEEE::from_bits(0x007f_ffff)));
    assert_eq!(FpxIEEE::to_bits(&encode(f32::MAX)), 0x7f7f_ffff);
}
