use bech32_checksums::base32::{u5, u5String};

fn values(s: &u5String) -> Vec<u8> {
    (0..s.len()).map(|i| s[i].to_u8()).collect()
}

#[test]
fn plain_strings_parse_character_by_character() {
    let s = u5String::from_str("qpzry9x8gf2tvdw0s3jn54khce6mua7l").unwrap();
    assert_eq!(s.len(), 32);
    assert_eq!(values(&s), (0u8..32).collect::<Vec<u8>>());
    assert_eq!(values(&u5String::from_str("ja45kap").unwrap()), vec![18, 29, 21, 20, 22, 29, 1]);
    assert_eq!(values(&u5String::from_str("").unwrap()), Vec::<u8>::new());
}

#[test]
fn plain_strings_reject_the_first_bad_character() {
    assert_eq!(u5String::from_str("qq1b"), Err("invalid bech32 character 1".to_string()));
    assert_eq!(u5String::from_str("bq1"), Err("invalid bech32 character b".to_string()));
    assert_eq!(u5String::from_str("qqQ"), Err("invalid bech32 character Q".to_string()));
    assert_eq!(u5String::from_str("xéo"), Err("invalid bech32 character é".to_string()));
}

#[test]
fn rendering_is_the_inverse_of_parsing() {
    for text in ["", "q", "hyk9x4hx4ef6e20p", "sscmleeeqg3mep", "secretshare32ex"] {
        assert_eq!(u5String::from_str(text).unwrap().to_string(), text);
    }
    let all: Vec<u8> = (0u8..32).rev().collect();
    let s = u5String::from_u8s(all.clone());
    assert_eq!(s.to_string(), "l7aum6echk45nj3s0wdvt2fg8x9yrzpq");
    assert_eq!(values(&u5String::from_str(&s.to_string()).unwrap()), all);
}

#[test]
fn debug_form_wraps_the_characters() {
    assert_eq!(u5String::from_str("ja45kap").unwrap().to_debug_string(), "u5(ja45kap)");
    assert_eq!(u5String::default().to_debug_string(), "u5()");
}

#[test]
fn hrp_form_expands_the_prefix() {
    assert_eq!(values(&u5String::from_hrpstring("bc1q").unwrap()), vec![3, 3, 0, 2, 3, 0]);
    assert_eq!(values(&u5String::from_hrpstring("ms1").unwrap()), vec![3, 3, 0, 13, 19]);
    assert_eq!(values(&u5String::from_hrpstring("A1q").unwrap()), vec![2, 0, 1, 0]);
    // The prefix is taken byte by byte.
    assert_eq!(values(&u5String::from_hrpstring("é1q").unwrap()), vec![6, 5, 0, 3, 9, 0]);
}

#[test]
fn hrp_form_splits_at_the_last_separator() {
    assert_eq!(
        values(&u5String::from_hrpstring("a1b1q").unwrap()),
        vec![3, 1, 3, 0, 1, 17, 2, 0],
    );
    assert_eq!(values(&u5String::from_hrpstring("11").unwrap()), vec![1, 0, 17]);
    assert_eq!(values(&u5String::from_hrpstring("1").unwrap()), vec![0]);
    assert_eq!(values(&u5String::from_hrpstring("1qp").unwrap()), vec![0, 0, 1]);
}

#[test]
fn hrp_form_without_separator_is_all_data() {
    assert_eq!(values(&u5String::from_hrpstring("q").unwrap()), vec![0, 0]);
    assert_eq!(values(&u5String::from_hrpstring("").unwrap()), vec![0]);
    assert_eq!(
        values(&u5String::from_hrpstring("ja45kap").unwrap()),
        vec![0, 18, 29, 21, 20, 22, 29, 1],
    );
}

#[test]
fn hrp_form_rejects_bad_data_only() {
    assert_eq!(
        u5String::from_hrpstring("bc1qb"),
        Err("invalid bech32 character b".to_string()),
    );
    assert_eq!(u5String::from_hrpstring("bc"), Err("invalid bech32 character b".to_string()));
    assert_eq!(
        u5String::from_hrpstring("q1Qb"),
        Err("invalid bech32 character Q".to_string()),
    );
    assert_eq!(
        u5String::from_hrpstring("q1qé"),
        Err("invalid bech32 character é".to_string()),
    );
    assert!(u5String::from_hrpstring("BIO!1q").is_ok());
}

#[test]
fn push_len_and_emptiness() {
    let mut s = u5String::default();
    assert!(s.is_empty());
    assert_eq!(s.len(), 0);
    s.push(u5::from_u8(7));
    s.push(u5::from_u8(0));
    assert!(!s.is_empty());
    assert_eq!(s.len(), 2);
    assert_eq!(values(&s), vec![7, 0]);
    assert_eq!(s[0], u5::from_u8(7));
    assert_eq!(s[1], u5::from_u8(0));
}

#[test]
fn all_zero_test() {
    assert!(u5String::default().is_all_zero());
    assert!(u5String::from_u8s(vec![0, 0, 0]).is_all_zero());
    assert!(u5String::from_str("qqqq").unwrap().is_all_zero());
    assert!(!u5String::from_u8s(vec![0, 0, 1]).is_all_zero());
    assert!(!u5String::from_u8s(vec![16, 0, 0]).is_all_zero());
    assert!(!u5String::from_u8s(vec![0, 4, 0]).is_all_zero());
}

#[test]
fn positions_can_be_replaced() {
    let mut s = u5String::from_u8s(vec![1, 2, 3]);
    s.set(1, u5::from_u8(31));
    assert_eq!(values(&s), vec![1, 31, 3]);
    s.set(0, u5::from_u8(0));
    s.set(2, u5::from_u8(9));
    assert_eq!(values(&s), vec![0, 31, 9]);
    assert_eq!(s.len(), 3);
}

#[test]
fn strings_from_elements_and_copies() {
    let elems = vec![u5::from_u8(3), u5::from_u8(30)];
    let s = u5String::from(elems);
    assert_eq!(values(&s), vec![3, 30]);
    let t = s.clone();
    assert_eq!(s, t);
    assert_eq!(values(&t), vec![3, 30]);
    let mut u = t.clone();
    u.push(u5::from_u8(1));
    assert_ne!(u, s);
    assert_eq!(values(&s), vec![3, 30]);
    assert_eq!(u5String::from_u8s(vec![3, 30]), s);
}

#[test]
fn bits_are_packed_most_significant_first() {
    let pack = |v: Vec<u8>| u5String::from_u8s(v).to_bytes();
    assert_eq!(pack(vec![1, 2, 3, 4, 5, 6, 7, 8]), vec![0x08, 0x86, 0x42, 0x98, 0xe8]);
    assert_eq!(pack(vec![0, 0, 0, 0, 0, 0, 0, 1]), vec![0, 0, 0, 0, 1]);
    assert_eq!(pack(vec![31; 8]), vec![0xff; 5]);
    assert_eq!(pack(vec![31; 16]), vec![0xff; 10]);
}

#[test]
fn the_last_byte_is_padded_with_zeros() {
    let pack = |v: Vec<u8>| u5String::from_u8s(v).to_bytes();
    assert_eq!(pack(vec![]), Vec::<u8>::new());
    assert_eq!(pack(vec![31]), vec![0xf8]);
    assert_eq!(pack(vec![31, 31]), vec![0xff, 0xc0]);
    assert_eq!(pack(vec![31, 31, 31]), vec![0xff, 0xfe]);
    assert_eq!(pack(vec![16, 0]), vec![0x80, 0x00]);
    assert_eq!(pack(vec![0, 1]), vec![0x00, 0x40]);
    assert_eq!(pack(vec![21, 10, 21, 10, 21]), vec![0xaa, 0xaa, 0xaa, 0x80]);
    assert_eq!(pack(vec![3, 3, 0, 13, 19]), vec![0x18, 0xc0, 0xd9, 0x80]);
    assert_eq!(pack(vec![1, 2, 3, 4, 5, 6, 7, 8, 9]), vec![0x08, 0x86, 0x42, 0x98, 0xe8, 0x48]);
    for n in 0usize..40 {
        assert_eq!(pack(vec![9; n]).len(), (5 * n + 7) / 8);
    }
}
