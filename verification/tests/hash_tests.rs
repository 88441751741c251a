use binprot::derive::{hash_variant, variant_int};

#[test]
fn test_hash_variant() {
    assert_eq!(hash_variant(""), 0);
    assert_eq!(hash_variant("foo"), 5097222);
    assert_eq!(hash_variant("FooBar"), 805748365);
    assert_eq!(hash_variant("FooBarBazAndEvenMoreAlternatives"), 74946334);
}

#[test]
fn hash_of_a_long_name_stays_in_31_bits() {
    let name = "z".repeat(200);
    let h = hash_variant(&name);
    assert!((-0x4000_0000..=0x3fff_ffff).contains(&h));
    let mut acc = std::num::Wrapping(0i64);
    for b in name.bytes() {
        acc = std::num::Wrapping(223) * acc + std::num::Wrapping(b as i64);
    }
    let low = acc.0 & 0x7fff_ffff;
    let expected = if low > 0x3fff_ffff { low - 0x8000_0000 } else { low };
    assert_eq!(h as i64, expected);
}

#[test]
fn tag_is_twice_the_hash_plus_one() {
    assert_eq!(variant_int(""), 1);
    assert_eq!(variant_int("foo"), 2 * 5097222 + 1);
    assert_eq!(variant_int("Any").to_le_bytes(), [153, 101, 99, 0]);
    assert_eq!(variant_int("MorePancakes").to_le_bytes(), [39, 152, 92, 190]);
    assert_eq!(variant_int("Eggs").to_le_bytes(), [93, 118, 212, 91]);
}
