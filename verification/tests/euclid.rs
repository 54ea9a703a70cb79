use cryptolab::euclid::{euclid, euclid_extended, euclid_valid, xgcd_rec};

#[test]
fn euclid_computes_gcd() {
    assert_eq!(euclid(239, 97), 1);
    assert_eq!(euclid(48, 18), 6);
    assert_eq!(euclid(18, 48), 6);
    assert_eq!(euclid(7, 0), 7);
}

#[test]
fn euclid_with_negative_arguments_follows_truncating_remainder() {
    assert_eq!(euclid(-48, 18), 6);
    assert_eq!(euclid(48, -18), -6);
}

#[test]
fn euclid_valid_detects_coprime() {
    assert!(euclid_valid(239, 97));
    assert!(euclid_valid(97, 239));
    assert!(!euclid_valid(240, 46));
    assert!(!euclid_valid(26, 13));
}

#[test]
fn xgcd_rec_satisfies_bezout() {
    assert_eq!(xgcd_rec(239, 97), (1, -28, 69));
    assert_eq!(xgcd_rec(240, 46), (2, -9, 47));
    let (d, x, y) = xgcd_rec(240, 46);
    assert_eq!(240 * x + 46 * y, d);
    assert_eq!(xgcd_rec(5, 0), (5, 1, 0));
}

#[test]
fn euclid_extended_gives_inverse() {
    assert_eq!(euclid_extended(239, 97), 69);
    assert_eq!((69 * 97) % 239, 1);
    assert_eq!(euclid_extended(240, 7), 103);
    assert_eq!((103 * 7) % 240, 1);
}

#[test]
fn euclid_extended_may_return_negative_representative() {
    assert_eq!(euclid_extended(26, 7), -11);
    assert_eq!((-11 * 7i32).rem_euclid(26), 1);
}

#[test]
fn euclid_extended_when_alpha_is_larger() {
    assert_eq!(euclid_extended(7, 26), 3);
    assert_eq!((3 * 26) % 7, 1);
}
