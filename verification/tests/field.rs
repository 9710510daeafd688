use bech32_checksums::base32::u5;

const ALPHABET: &str = "qpzry9x8gf2tvdw0s3jn54khce6mua7l";

fn all() -> Vec<u5> {
    (0u8..32).map(u5::from_u8).collect()
}

#[test]
fn characters_name_their_positions() {
    for (i, c) in ALPHABET.chars().enumerate() {
        let x = u5::from_char(c).unwrap();
        assert_eq!(x.to_u8() as usize, i);
        assert_eq!(x, u5::from_u8(i as u8));
    }
    assert_eq!(u5::from_char('q').unwrap().to_u8(), 0);
    assert_eq!(u5::from_char('p').unwrap().to_u8(), 1);
    assert_eq!(u5::from_char('l').unwrap().to_u8(), 31);
}

#[test]
fn reading_then_writing_a_character_gives_it_back() {
    for c in ALPHABET.chars() {
        assert_eq!(u5::from_char(c).unwrap().to_char(), c);
    }
}

#[test]
fn writing_then_reading_a_value_gives_it_back() {
    for v in 0u8..32 {
        let c = u5::from_u8(v).to_char();
        assert_eq!(u5::from_char(c).unwrap().to_u8(), v);
    }
}

#[test]
fn characters_outside_the_alphabet_are_named_in_the_error() {
    assert_eq!(u5::from_char('1'), Err("invalid bech32 character 1".to_string()));
    assert_eq!(u5::from_char('b'), Err("invalid bech32 character b".to_string()));
    assert_eq!(u5::from_char('i'), Err("invalid bech32 character i".to_string()));
    assert_eq!(u5::from_char('o'), Err("invalid bech32 character o".to_string()));
    assert_eq!(u5::from_char('Q'), Err("invalid bech32 character Q".to_string()));
    assert_eq!(u5::from_char(' '), Err("invalid bech32 character  ".to_string()));
    assert_eq!(u5::from_char('é'), Err("invalid bech32 character é".to_string()));
    let mut others = 0;
    for code in 0u32..0x250 {
        if let Some(c) = char::from_u32(code) {
            if !ALPHABET.contains(c) {
                assert_eq!(u5::from_char(c), Err(format!("invalid bech32 character {}", c)));
                others += 1;
            }
        }
    }
    assert_eq!(others, 0x250 - 32);
}

#[test]
fn element_as_text() {
    assert_eq!(u5::from_u8(0).to_string(), "q");
    assert_eq!(u5::from_u8(15).to_string(), "0");
    assert_eq!(u5::from_u8(31).to_string(), "l");
    assert_eq!(u5::from_u8(29).to_char(), 'a');
}

#[test]
fn default_element_is_zero() {
    assert_eq!(u5::default(), u5::from_u8(0));
    assert_eq!(u5::default().to_u8(), 0);
}

#[test]
fn addition_is_xor() {
    assert_eq!((u5::from_u8(0b10101) + u5::from_u8(0b00111)).to_u8(), 0b10010);
    assert_eq!((u5::from_u8(31) + u5::from_u8(1)).to_u8(), 30);
    for a in 0u8..32 {
        for b in 0u8..32 {
            assert_eq!((u5::from_u8(a) + u5::from_u8(b)).to_u8(), a ^ b);
        }
    }
}

#[test]
fn multiplying_by_the_primitive_element() {
    let step = |v: u8| {
        let mut x = u5::from_u8(v);
        x.mul_alpha();
        x.to_u8()
    };
    assert_eq!(step(0), 0);
    assert_eq!(step(1), 2);
    assert_eq!(step(8), 16);
    assert_eq!(step(15), 30);
    // x^5 = x^3 + 1
    assert_eq!(step(16), 0b01001);
    assert_eq!(step(17), 0b01011);
    assert_eq!(step(31), 0b10111);
    for v in 0u8..32 {
        assert_eq!(step(v), (u5::from_u8(2) * u5::from_u8(v)).to_u8());
    }
}

#[test]
fn the_primitive_element_has_order_31() {
    let mut x = u5::from_u8(1);
    let mut seen = vec![false; 32];
    for _ in 0..31 {
        assert!(!seen[x.to_u8() as usize]);
        seen[x.to_u8() as usize] = true;
        x.mul_alpha();
    }
    assert_eq!(x.to_u8(), 1);
    assert!(!seen[0]);
}

#[test]
fn products_of_chosen_elements() {
    let mul = |a: u8, b: u8| (u5::from_u8(a) * u5::from_u8(b)).to_u8();
    assert_eq!(mul(7, 9), 22);
    assert_eq!(mul(31, 31), 29);
    assert_eq!(mul(16, 2), 9);
    assert_eq!(mul(2, 16), 9);
    assert_eq!(mul(2, 17), 11);
    assert_eq!(mul(16, 16), 26);
    assert_eq!(mul(18, 29), 6);
    assert_eq!(mul(29, 18), 6);
    assert_eq!(mul(19, 23), 1);
    assert_eq!(mul(3, 24), 1);
    assert_eq!(mul(0, 31), 0);
    assert_eq!(mul(31, 0), 0);
}

#[test]
fn addition_laws() {
    for &a in &all() {
        assert_eq!(a + a, u5::from_u8(0));
        assert_eq!(a + u5::from_u8(0), a);
        for &b in &all() {
            assert_eq!(a + b, b + a);
            for &c in &all() {
                assert_eq!((a + b) + c, a + (b + c));
            }
        }
    }
}

#[test]
fn multiplication_laws() {
    let one = u5::from_char('p').unwrap();
    assert_eq!(one.to_u8(), 1);
    for &a in &all() {
        assert_eq!(a * one, a);
        assert_eq!(one * a, a);
        for &b in &all() {
            assert_eq!(a * b, b * a);
            for &c in &all() {
                assert_eq!((a * b) * c, a * (b * c));
                assert_eq!(a * (b + c), a * b + a * c);
                assert_eq!((a + b) * c, a * c + b * c);
            }
        }
    }
}

#[test]
fn every_nonzero_element_has_one_inverse() {
    let one = u5::from_u8(1);
    for &a in &all()[1..] {
        let inverses: Vec<u5> = all().into_iter().filter(|&b| a * b == one).collect();
        assert_eq!(inverses.len(), 1);
        assert_ne!(inverses[0], u5::from_u8(0));
    }
    assert_eq!(u5::from_u8(2) * u5::from_u8(20), one);
    assert_eq!(u5::from_u8(31) * u5::from_u8(15), one);
    for &b in &all() {
        assert_eq!(u5::from_u8(0) * b, u5::from_u8(0));
    }
}

#[test]
fn a_product_is_zero_only_with_a_zero_factor() {
    for &a in &all()[1..] {
        for &b in &all()[1..] {
            assert_ne!((a * b).to_u8(), 0);
        }
    }
}

#[test]
fn compound_assignment() {
    let mut x = u5::from_u8(7);
    x += u5::from_u8(9);
    assert_eq!(x.to_u8(), 14);
    x *= u5::from_u8(3);
    assert_eq!(x, u5::from_u8(14) * u5::from_u8(3));
    let mut y = u5::from_u8(7);
    y *= u5::from_u8(9);
    assert_eq!(y.to_u8(), 22);
}
