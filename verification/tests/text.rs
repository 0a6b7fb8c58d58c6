use wicci_shim::strings::{ascii_lowercase, push_decimal};
use wicci_shim::text::{digits_fit, digits_to_usize, make_lower, make_lower_vec_u8};

#[test]
fn lower_vec_lowers_only_ascii_capitals() {
    let mut v = b"Content-LENGTH: 12 \xc4Z@[".to_vec();
    make_lower_vec_u8(&mut v);
    assert_eq!(v, b"content-length: 12 \xc4z@[".to_vec());
}

#[test]
fn make_lower_agrees_with_lower_vec() {
    let mut a = b"_Body_BIN AZaz09".to_vec();
    let mut b = a.clone();
    make_lower(&mut a);
    make_lower_vec_u8(&mut b);
    assert_eq!(a, b);
    assert_eq!(a, b"_body_bin azaz09".to_vec());
}

#[test]
fn lowering_twice_is_lowering_once() {
    let mut v = b"MiXeD Case".to_vec();
    make_lower_vec_u8(&mut v);
    let once = v.clone();
    make_lower_vec_u8(&mut v);
    assert_eq!(v, once);
}

#[test]
fn digits_read_as_numbers() {
    assert_eq!(digits_to_usize(&b"0".to_vec()), Some(0));
    assert_eq!(digits_to_usize(&b"200".to_vec()), Some(200));
    assert_eq!(digits_to_usize(&b"007".to_vec()), Some(7));
    assert_eq!(digits_to_usize(&Vec::new()), Some(0));
}

#[test]
fn non_digits_are_refused() {
    assert_eq!(digits_to_usize(&b"12a".to_vec()), None);
    assert_eq!(digits_to_usize(&b"-1".to_vec()), None);
    assert_eq!(digits_to_usize(&b" 1".to_vec()), None);
    assert_eq!(digits_to_usize(&b"1/".to_vec()), None);
    assert_eq!(digits_to_usize(&b"1:".to_vec()), None);
}

#[test]
fn digits_fit_checks_overflow() {
    assert!(digits_fit(&b"18446744073709551615".to_vec()));
    assert!(!digits_fit(&b"18446744073709551616".to_vec()));
    assert!(!digits_fit(&b"99999999999999999999x".to_vec()));
    assert!(digits_fit(&b"12x99999999999999999999999".to_vec()));
    assert!(digits_fit(&b"".to_vec()));
}

#[test]
fn decimal_round_trip() {
    for n in [0usize, 7, 10, 99, 100, 8080, 65535, usize::MAX] {
        let mut s = String::new();
        push_decimal(&mut s, n);
        assert_eq!(s, n.to_string());
        assert_eq!(digits_to_usize(&s.as_bytes().to_vec()), Some(n));
    }
}

#[test]
fn ascii_lowercase_of_text() {
    assert_eq!(ascii_lowercase("DT"), "dt");
    assert_eq!(ascii_lowercase("Ünïcode ABC"), "Ünïcode abc");
}
