use world_tree::field::Field;

const MODULUS: [u64; 4] = [
    0x43e1_f593_f000_0001,
    0x2833_e848_79b9_7091,
    0xb850_45b6_8181_585d,
    0x3064_4e72_e131_a029,
];

#[test]
fn zero_has_zero_limbs() {
    assert_eq!(Field::zero().to_limbs(), [0, 0, 0, 0]);
    assert_eq!(Field::from_limbs([0, 0, 0, 0]), Some(Field::zero()));
}

#[test]
fn limbs_round_trip() {
    let limbs = [0x0123_4567_89ab_cdef, 0xfedc_ba98_7654_3210, 7, 0x1fff_ffff_ffff_ffff];
    let element = Field::from_limbs(limbs).unwrap();
    assert_eq!(element.to_limbs(), limbs);
}

#[test]
fn largest_field_element_is_accepted() {
    let mut limbs = MODULUS;
    limbs[0] -= 1;
    assert!(Field::from_limbs(limbs).is_some());
}

#[test]
fn modulus_is_refused() {
    assert_eq!(Field::from_limbs(MODULUS), None);
}

#[test]
fn numbers_above_the_modulus_are_refused() {
    assert_eq!(Field::from_limbs([u64::MAX; 4]), None);
    let mut limbs = MODULUS;
    limbs[0] += 1;
    assert_eq!(Field::from_limbs(limbs), None);
    let mut limbs = MODULUS;
    limbs[1] += 1;
    limbs[0] = 0;
    assert_eq!(Field::from_limbs(limbs), None);
    let mut limbs = MODULUS;
    limbs[3] += 1;
    limbs[2] = 0;
    assert_eq!(Field::from_limbs(limbs), None);
}

#[test]
fn a_smaller_high_limb_makes_up_for_larger_low_limbs() {
    let mut limbs = [u64::MAX; 4];
    limbs[3] = MODULUS[3] - 1;
    assert!(Field::from_limbs(limbs).is_some());
    let mut limbs = MODULUS;
    limbs[2] -= 1;
    limbs[1] = u64::MAX;
    limbs[0] = u64::MAX;
    assert!(Field::from_limbs(limbs).is_some());
}

#[test]
fn order_is_that_of_the_numbers() {
    let small = Field::from_limbs([u64::MAX, 0, 0, 0]).unwrap();
    let large = Field::from_limbs([0, 1, 0, 0]).unwrap();
    assert!(small.lt(&large));
    assert!(!large.lt(&small));
    assert!(!small.lt(&small));
    let top = Field::from_limbs([0, 0, 0, 1]).unwrap();
    let below_top = Field::from_limbs([u64::MAX, u64::MAX, u64::MAX, 0]).unwrap();
    assert!(below_top.lt(&top));
    assert!(!top.lt(&below_top));
    let third = Field::from_limbs([5, 9, 2, 0]).unwrap();
    let third_up = Field::from_limbs([4, 8, 3, 0]).unwrap();
    assert!(third.lt(&third_up));
    assert!(Field::zero().lt(&small));
}

#[test]
fn equality_is_that_of_the_numbers() {
    let a = Field::from_limbs([1, 2, 3, 4]).unwrap();
    let b = Field::from_limbs([1, 2, 3, 4]).unwrap();
    let c = Field::from_limbs([1, 2, 3, 5]).unwrap();
    assert_eq!(a, b);
    assert_ne!(a, c);
}
