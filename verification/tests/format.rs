use crockford::encoding::{encode_into, Write, ALPHABET};
use crockford::format::{Case, Encoder, Formatter, CAPACITY};

#[test]
fn lowercase_encoder_works() {
    let encoder = Encoder::new();
    let result = encoder.encode(5111);

    let mut s = String::new();
    result.render_into(&mut s);

    assert_eq!("4zq", &*s);
    assert_eq!("4zq", &*result.render());
}

#[test]
fn uppercase_encoder_works() {
    let encoder = Encoder::with_case(Case::Upper);
    let result = encoder.encode(5111);

    let mut s = String::new();
    result.render_into(&mut s);

    assert_eq!("4ZQ", &*s);
    assert_eq!("4ZQ", &*result.render());
}

fn samples() -> Vec<u64> {
    let mut v: Vec<u64> = vec![
        0,
        1,
        9,
        10,
        31,
        32,
        33,
        1023,
        1024,
        5111,
        32767,
        32768,
        1_000_000,
        0xdead_beef,
        u32::MAX as u64,
        u32::MAX as u64 + 1,
        (1 << 60) - 1,
        1 << 60,
        u64::MAX - 1,
        u64::MAX,
    ];
    let mut x: u64 = 0x9e37_79b9_7f4a_7c15;
    for _ in 0..200 {
        x ^= x << 13;
        x ^= x >> 7;
        x ^= x << 17;
        v.push(x);
        v.push(x >> (x % 64));
    }
    v
}

/// The digits of `n` in base 32, most significant first, written with the
/// alphabet given.
fn by_division(mut n: u64, alphabet: &str) -> String {
    let letters: Vec<char> = alphabet.chars().collect();
    let mut out: Vec<char> = Vec::new();
    loop {
        out.push(letters[(n % 32) as usize]);
        n /= 32;
        if n == 0 {
            break;
        }
    }
    out.iter().rev().collect()
}

#[test]
fn is_uppercase_tells_the_cases_apart() {
    assert!(Case::Upper.is_uppercase());
    assert!(!Case::Lower.is_uppercase());
}

#[test]
fn new_is_lowercase_and_with_case_keeps_the_case() {
    assert!(!Encoder::new().case.is_uppercase());
    assert!(!Encoder::default().case.is_uppercase());
    assert!(!Encoder::with_case(Case::Lower).case.is_uppercase());
    assert!(Encoder::with_case(Case::Upper).case.is_uppercase());
}

#[test]
fn alphabet_is_crockfords() {
    assert_eq!(&ALPHABET[..], "0123456789ABCDEFGHJKMNPQRSTVWXYZ".as_bytes());
}

#[test]
fn each_value_below_32_is_its_symbol() {
    let upper = Encoder::with_case(Case::Upper);
    let lower = Encoder::new();
    let expect_upper = "0123456789ABCDEFGHJKMNPQRSTVWXYZ";
    let expect_lower = "0123456789abcdefghjkmnpqrstvwxyz";
    for d in 0..32usize {
        assert_eq!(upper.encode(d as u64).render(), &expect_upper[d..d + 1]);
        assert_eq!(lower.encode(d as u64).render(), &expect_lower[d..d + 1]);
    }
}

#[test]
fn exact_values() {
    let upper = Encoder::with_case(Case::Upper);
    let lower = Encoder::new();
    assert_eq!(upper.encode(32).render(), "10");
    assert_eq!(upper.encode(33).render(), "11");
    assert_eq!(upper.encode(1023).render(), "ZZ");
    assert_eq!(upper.encode(1024).render(), "100");
    assert_eq!(upper.encode(1234).render(), "16J");
    assert_eq!(lower.encode(1234).render(), "16j");
    assert_eq!(upper.encode(65535).render(), "1ZZZ");
    assert_eq!(lower.encode(65535).render(), "1zzz");
    assert_eq!(upper.encode(1 << 60).render(), "1000000000000");
    assert_eq!(upper.encode((1 << 60) - 1).render(), "ZZZZZZZZZZZZ");
    assert_eq!(lower.encode(0xdead_beef).render(), "3favfqf");
}

#[test]
fn agrees_with_repeated_division() {
    let upper = Encoder::with_case(Case::Upper);
    let lower = Encoder::with_case(Case::Lower);
    for n in samples() {
        assert_eq!(upper.encode(n).render(), by_division(n, "0123456789ABCDEFGHJKMNPQRSTVWXYZ"));
        assert_eq!(lower.encode(n).render(), by_division(n, "0123456789abcdefghjkmnpqrstvwxyz"));
    }
}

#[test]
fn zero_is_a_single_digit() {
    assert_eq!(Encoder::new().encode(0).render(), "0");
    assert_eq!(Encoder::with_case(Case::Upper).encode(0).render(), "0");
    let mut bytes: Vec<u8> = Vec::new();
    encode_into(0, &mut bytes);
    assert_eq!(bytes, vec![b'0']);
}

#[test]
fn the_largest_value_fills_the_formatter() {
    let lower = Encoder::new().encode(u64::MAX).render();
    let upper = Encoder::with_case(Case::Upper).encode(18446744073709551615).render();
    assert_eq!(lower, "fzzzzzzzzzzzz");
    assert_eq!(upper, "FZZZZZZZZZZZZ");
    assert_eq!(lower.len(), CAPACITY);
    assert_eq!(CAPACITY, 13);
}

#[test]
fn lowercase_has_no_capital_and_uppercase_no_small_letter() {
    let upper = Encoder::with_case(Case::Upper);
    let lower = Encoder::with_case(Case::Lower);
    for n in samples() {
        let l = lower.encode(n).render();
        let u = upper.encode(n).render();
        assert!(!l.is_empty() && l.len() <= 13);
        assert!(l.bytes().all(|b| b.is_ascii_digit() || b.is_ascii_lowercase()));
        assert!(u.bytes().all(|b| b.is_ascii_digit() || b.is_ascii_uppercase()));
    }
}

#[test]
fn digits_are_the_same_in_both_cases() {
    let upper = Encoder::with_case(Case::Upper);
    let lower = Encoder::with_case(Case::Lower);
    for n in samples() {
        let l = lower.encode(n).render();
        let u = upper.encode(n).render();
        assert_eq!(l.len(), u.len());
        for (a, b) in l.bytes().zip(u.bytes()) {
            if a.is_ascii_digit() || b.is_ascii_digit() {
                assert_eq!(a, b);
            } else {
                assert_eq!(a, b.to_ascii_lowercase());
                assert_ne!(a, b);
            }
        }
        assert_eq!(l, u.to_ascii_lowercase());
        assert_eq!(u, l.to_ascii_uppercase());
    }
}

#[test]
fn render_and_render_into_agree() {
    for case in [Case::Lower, Case::Upper] {
        let encoder = Encoder::with_case(case);
        for n in samples() {
            let f = encoder.encode(n);
            let text = f.render();
            let mut s = String::new();
            f.render_into(&mut s);
            let mut bytes: Vec<u8> = Vec::new();
            f.render_into(&mut bytes);
            assert_eq!(s, text);
            assert_eq!(bytes, text.as_bytes());
        }
    }
}

#[test]
fn rendering_again_gives_the_same() {
    let encoder = Encoder::new();
    let f = encoder.encode(987_654_321);
    let first = f.render();
    let second = f.render();
    assert_eq!(first, "xdwt5h");
    assert_eq!(first, second);
    let mut a: Vec<u8> = Vec::new();
    let mut b: Vec<u8> = Vec::new();
    f.render_into(&mut a);
    f.render_into(&mut b);
    assert_eq!(a, b);
    assert_eq!(a, first.as_bytes());
    assert_eq!(f.render(), first);
}

#[test]
fn render_into_appends_to_what_the_sink_holds() {
    let encoder = Encoder::with_case(Case::Upper);
    let f = encoder.encode(5111);
    let mut s = String::from("id-");
    f.render_into(&mut s);
    f.render_into(&mut s);
    assert_eq!(s, "id-4ZQ4ZQ");
    let mut bytes: Vec<u8> = vec![1, 2];
    f.render_into(&mut bytes);
    assert_eq!(bytes, vec![1, 2, b'4', b'Z', b'Q']);
}

#[test]
fn default_encoder_is_the_lowercase_one() {
    let by_default = Encoder::default();
    let lower = Encoder::with_case(Case::Lower);
    for n in samples() {
        assert_eq!(by_default.encode(n).render(), lower.encode(n).render());
    }
    assert_eq!(by_default.encode(5111).render(), "4zq");
}

#[test]
fn encoders_of_one_case_give_the_same() {
    for n in samples() {
        let a = Encoder::with_case(Case::Upper);
        let b = Encoder::with_case(Case::Upper);
        assert_eq!(a.encode(n).render(), b.encode(n).render());
        let c = Encoder::new();
        let d = Encoder::with_case(Case::Lower);
        assert_eq!(c.encode(n).render(), d.encode(n).render());
        assert_eq!(c.encode(n).render(), c.encode(n).render());
    }
}

#[test]
fn an_encoder_can_stand_in_a_constant() {
    const UPPER: Encoder = Encoder { case: Case::Upper };
    assert_eq!(UPPER.encode(5111).render(), "4ZQ");
    assert_eq!(UPPER.encode(5112).render(), "4ZR");
}

#[test]
fn an_empty_formatter_renders_nothing() {
    let encoder = Encoder::new();
    let f = Formatter::new(&encoder);
    assert_eq!(f.render(), "");
    let mut s = String::from("kept");
    f.render_into(&mut s);
    assert_eq!(s, "kept");
    let mut bytes: Vec<u8> = Vec::new();
    f.render_into(&mut bytes);
    assert!(bytes.is_empty());
}

#[test]
fn write_folds_to_lowercase_for_a_lowercase_encoder() {
    let encoder = Encoder::new();
    let mut f = Formatter::new(&encoder);
    f.write(b'A');
    f.write(b'b');
    f.write(b'7');
    f.write(b'Z');
    f.write(b'-');
    assert_eq!(f.render(), "ab7z-");
}

#[test]
fn write_keeps_bytes_as_given_for_an_uppercase_encoder() {
    let encoder = Encoder::with_case(Case::Upper);
    let mut f = Formatter::new(&encoder);
    f.write(b'A');
    f.write(b'b');
    f.write(b'7');
    f.write(b'Z');
    assert_eq!(f.render(), "Ab7Z");
}

#[test]
fn a_formatter_takes_thirteen_bytes() {
    let encoder = Encoder::new();
    let mut f = Formatter::new(&encoder);
    for u in b"ABCDEFGHIJKLM" {
        f.write(*u);
    }
    assert_eq!(f.render(), "abcdefghijklm");
}

#[test]
fn a_formatter_is_a_sink_for_another() {
    let upper = Encoder::with_case(Case::Upper);
    let lower = Encoder::new();
    let f = upper.encode(5111);
    let mut g = Formatter::new(&lower);
    f.render_into(&mut g);
    assert_eq!(g.render(), "4zq");
    let mut h = Formatter::new(&upper);
    lower.encode(5111).render_into(&mut h);
    assert_eq!(h.render(), "4zq");
}

#[test]
fn a_byte_above_ascii_is_rendered_as_its_character() {
    let encoder = Encoder::new();
    let mut f = Formatter::new(&encoder);
    f.write(0xe9);
    assert_eq!(f.render(), "\u{e9}");
    let mut bytes: Vec<u8> = Vec::new();
    f.render_into(&mut bytes);
    assert_eq!(bytes, vec![0xe9]);
    let mut s = String::new();
    f.render_into(&mut s);
    assert_eq!(s, "\u{e9}");
}

#[test]
fn encode_into_writes_capitals_to_a_plain_sink() {
    let mut s = String::new();
    encode_into(5111, &mut s);
    assert_eq!(s, "4ZQ");
    encode_into(0, &mut s);
    encode_into(u64::MAX, &mut s);
    assert_eq!(s, "4ZQ0FZZZZZZZZZZZZ");
    let mut bytes: Vec<u8> = vec![b'#'];
    encode_into(1024, &mut bytes);
    assert_eq!(bytes, b"#100".to_vec());
}

#[test]
fn encode_into_a_formatter_applies_its_case() {
    let lower = Encoder::new();
    let mut f = Formatter::new(&lower);
    encode_into(5111, &mut f);
    encode_into(31, &mut f);
    assert_eq!(f.render(), "4zqz");
}

#[test]
fn string_and_vector_take_single_bytes() {
    let mut s = String::new();
    s.write(b'a');
    s.write(b'B');
    assert_eq!(s, "aB");
    let mut v: Vec<u8> = Vec::new();
    v.write(0);
    v.write(255);
    assert_eq!(v, vec![0, 255]);
}
