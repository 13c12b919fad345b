use std::cmp::Ordering;
use std::collections::hash_map::DefaultHasher;
use std::hash::{Hash, Hasher};

use sn_dbc::{Amount, Error};

#[test]
fn to_si_string_vector() {
    let vector = vec![
        "1*10^-30",
        "1*10^-29",
        "1*10^-28",
        "1*10^-27",
        "1*10^-26",
        "1*10^-25",
        "1 yocto",
        "10 yocto",
        "100 yocto",
        "1 zepto",
        "10 zepto",
        "100 zepto",
        "1 atto",
        "10 atto",
        "100 atto",
        "1 femto",
        "10 femto",
        "100 femto",
        "1 pico",
        "10 pico",
        "100 pico",
        "1 nano",
        "10 nano",
        "100 nano",
        "1 micro",
        "10 micro",
        "100 micro",
        "1 milli",
        "1 centi",
        "1 deci",
        "1 ",
        "1 deka",
        "1 hecto",
        "1 kilo",
        "10 kilo",
        "100 kilo",
        "1 mega",
        "10 mega",
        "100 mega",
        "1 giga",
        "10 giga",
        "100 giga",
        "1 tera",
        "10 tera",
        "100 tera",
        "1 peta",
        "10 peta",
        "100 peta",
        "1 exa",
        "10 exa",
        "100 exa",
        "1 zetta",
        "10 zetta",
        "100 zetta",
        "1 yotta",
        "1*10^25",
        "1*10^26",
        "1*10^27",
        "1*10^28",
        "1*10^29",
    ];

    // note: to keep the fn shorter we only test range -30..30, rather than
    // -127..127.  Negative units between mapped prefixes take the nearest
    // prefix at or below the unit, so the rescaled counter keeps the value
    // (1*10^-4 is "100 micro").
    for (idx, i) in (-30..30i8).enumerate() {
        let a = Amount::new(1, i);
        let strval = a.to_si_string();
        assert_eq!(strval, vector[idx]);
    }
}

#[test]
fn checked_add_commutes() {
    let pairs = [
        (Amount::new(25, 2), Amount::new(255, 1)),
        (Amount::new(1, 0), Amount::new(999999999, 0)),
        (Amount::new(7, -3), Amount::new(13, -5)),
        (Amount::new(0, 5), Amount::new(42, -2)),
    ];
    for (a, b) in pairs {
        let ab = a.checked_add(b);
        let ba = b.checked_add(a);
        assert_eq!(ab.is_ok(), ba.is_ok());
        if let (Ok(x), Ok(y)) = (ab, ba) {
            assert_eq!(x.count, y.count);
            assert_eq!(x.unit, y.unit);
        }
    }
}

#[test]
fn checked_add_is_exact() {
    // 2500 + 2550 = 5050, canonically 505 * 10^1.
    let s = Amount::new(25, 2).checked_add(Amount::new(255, 1)).unwrap();
    assert_eq!((s.count, s.unit), (505, 1));
    // Adding zero canonicalizes the other operand.
    let s = Amount::new(0, 3).checked_add(Amount::new(2500, 0)).unwrap();
    assert_eq!((s.count, s.unit), (25, 2));
    // A sum that would need a counter above one billion is refused.
    let r = Amount::new(1000000000, 0).checked_add(Amount::new(1, 0));
    assert_eq!(r, Err(Error::AmountIncompatible));
}

#[test]
fn top_unit_trailing_zero_is_refused() {
    // The only carriers of this sum park a trailing zero at the top unit,
    // which the exact arithmetic refuses.
    let r = Amount::new(1, 118).checked_add(Amount::new(9, 118));
    assert_eq!(r, Err(Error::AmountIncompatible));
    // One unit below the top, the same digits reduce cleanly.
    let s = Amount::new(1, 117).checked_add(Amount::new(9, 117)).unwrap();
    assert_eq!((s.count, s.unit), (1, 118));
}

#[test]
fn amount_incompatible_operands() {
    let r = Amount::new(1, 3).checked_add(Amount::new(1, -20));
    assert_eq!(r, Err(Error::AmountIncompatible));
}

#[test]
fn checked_sub_is_exact() {
    // 5.5 - 3 = 2.5.
    let d = Amount::new(55, -1).checked_sub(Amount::new(3, 0)).unwrap();
    assert_eq!((d.count, d.unit), (25, -1));
    // Subtracting a larger amount underflows.
    let r = Amount::new(1, 0).checked_sub(Amount::new(2, 0));
    assert_eq!(r, Err(Error::AmountUnderflow));
    // Equal amounts in different representations cancel to zero.
    let d = Amount::new(10, 0).checked_sub(Amount::new(1, 1)).unwrap();
    assert_eq!(d.count, 0);
    // Far-apart operands leave an unrepresentable difference.
    let r = Amount::new(1, 11).checked_sub(Amount::new(1, 0));
    assert_eq!(r, Err(Error::AmountIncompatible));
}

#[test]
fn cmp_orders_by_value() {
    let a = Amount::new(634438561, 7);
    let b = Amount::new(486552, 10);
    assert_eq!(a.cmp(&b), Ordering::Greater);
    assert_eq!(b.cmp(&a), Ordering::Less);
    assert_eq!(Amount::new(100, 0).cmp(&Amount::new(1, 2)), Ordering::Equal);
    assert_eq!(Amount::new(0, 9).cmp(&Amount::new(0, -9)), Ordering::Equal);
    assert_eq!(Amount::new(1, -1).cmp(&Amount::new(2, -1)), Ordering::Less);

    let mut amounts = vec![
        Amount::new(3, 4),
        Amount::new(1, 0),
        Amount::new(999, -2),
        Amount::new(25, 2),
    ];
    amounts.sort_by(|x, y| x.cmp(y));
    for w in amounts.windows(2) {
        assert!(w[0].cmp(&w[1]) != Ordering::Greater);
    }
    assert_eq!((amounts[0].count, amounts[0].unit), (1, 0));
    assert_eq!((amounts[3].count, amounts[3].unit), (3, 4));
}

#[test]
fn equal_amounts_hash_alike() {
    // Semantically equal amounts share one canonical form, so hashing the
    // canonical form respects equality.
    let a = Amount::new(1, 1);
    let b = Amount::new(10, 0);
    assert_eq!(a, b);
    let ca = a.to_highest_unit();
    let cb = b.to_highest_unit();
    assert_eq!((ca.count, ca.unit), (cb.count, cb.unit));
    let mut ha = DefaultHasher::new();
    let mut hb = DefaultHasher::new();
    (ca.count, ca.unit).hash(&mut ha);
    (cb.count, cb.unit).hash(&mut hb);
    assert_eq!(ha.finish(), hb.finish());
}

#[test]
fn to_highest_unit_canonicalizes() {
    let a = Amount::new(25000, 2).to_highest_unit();
    assert_eq!((a.count, a.unit), (25, 5));
    // Canonicalization preserves the value and is idempotent.
    assert_eq!(Amount::new(25000, 2), a);
    let again = a.to_highest_unit();
    assert_eq!((again.count, again.unit), (25, 5));
    // Zero canonicalizes to the top unit.
    let z = Amount::new(0, 0).to_highest_unit();
    assert_eq!((z.count, z.unit), (0, Amount::unit_max()));
}

#[test]
fn checked_sum_folds_exactly() {
    let amounts = vec![Amount::new(1, 0); 100];
    let s = Amount::checked_sum(&amounts).unwrap();
    assert_eq!((s.count, s.unit), (1, 2));

    let empty: Vec<Amount> = Vec::new();
    let s = Amount::checked_sum(&empty).unwrap();
    assert_eq!(s.count, 0);

    let bad = vec![Amount::new(1, 3), Amount::new(1, -20)];
    assert_eq!(Amount::checked_sum(&bad), Err(Error::AmountIncompatible));
}

#[test]
fn digits_of_counter() {
    assert_eq!(sn_dbc::digits(234523), vec![2, 3, 4, 5, 2, 3]);
    assert_eq!(sn_dbc::digits(0), vec![0]);
    assert_eq!(sn_dbc::digits(1000000000), vec![1, 0, 0, 0, 0, 0, 0, 0, 0, 0]);
}

#[test]
fn amount_constants() {
    assert_eq!(Amount::counter_max(), 1000000000);
    assert_eq!(Amount::unit_max(), 118);
    assert_eq!(Amount::unit_min(), -118);
    let m = Amount::max();
    assert_eq!((m.count, m.unit), (1000000000, 118));
    let d = Amount::default();
    assert_eq!((d.count, d.unit), (0, 0));
}

#[test]
fn exp_string_rendering() {
    assert_eq!(Amount::new(153, -4).to_exp_string(), "153*10^-4");
    assert_eq!(Amount::new(7, 0).to_exp_string(), "7*10^0");
    assert_eq!(Amount::new(1, 100).to_si_string(), "1*10^100");
}
