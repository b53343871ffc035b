use otpshka::{Algorithm, TOTP};

#[test]
fn should_test_totp_window() {
    let input = [(30u64, "996554"), (60u64, "602287")];

    let secret = [72, 101, 108, 108, 111, 33, 222, 173, 190, 239];
    let totp = TOTP::new(Default::default(), &secret);

    for (time, expected) in input.iter() {
        let mut output = vec![0u8, 0, 0, 0, 0, 0];
        assert_eq!(output.len(), expected.len());

        totp.generate_to(*time, &mut output);
        let token = std::str::from_utf8(&output).expect("UTF-8 compatible output");
        assert_eq!(token, *expected);
        assert!(totp.verify(token, *time));
        assert!(totp.verify(token, *time + 30));
        assert!(totp.verify(token, *time - 1));
    }
}

#[test]
fn should_test_totp() {
    let input = [
        (1606206826u64, "458443"),
        (1606206917u64, "779542"),
        (1606206950u64, "082772"),
    ];

    let secret = [72, 101, 108, 108, 111, 33, 222, 173, 190, 239];
    let totp = TOTP::new(Default::default(), &secret);

    for (time, expected) in input.iter() {
        let mut output = vec![0u8, 0, 0, 0, 0, 0];
        assert_eq!(output.len(), expected.len());

        totp.generate_to(*time, &mut output);
        let token = std::str::from_utf8(&output).expect("UTF-8 compatible output");
        assert_eq!(token, *expected);
        assert!(totp.verify(token, *time));
        assert!(totp.verify(token, *time + 10));
        assert!(totp.verify(token, *time - 10));
    }
}

#[test]
fn totp_rejects_two_steps_away() {
    let secret = [72, 101, 108, 108, 111, 33, 222, 173, 190, 239];
    let totp = TOTP::new(Algorithm::SHA1, &secret);

    // Generated at time 30 (counter 1); time 91 falls in counter 3, two steps
    // away, which the default skew of one step must reject.
    assert!(!totp.verify("996554", 91));
    // One step away on either side is accepted.
    assert!(totp.verify("996554", 60));
    assert!(totp.verify("996554", 29));
}

#[test]
fn totp_skew_zero_accepts_only_same_step() {
    let secret = [72, 101, 108, 108, 111, 33, 222, 173, 190, 239];
    let mut totp = TOTP::new(Algorithm::SHA1, &secret);
    totp.skew = 0;

    assert!(totp.verify("996554", 30));
    assert!(totp.verify("996554", 59));
    assert!(!totp.verify("996554", 60));
    assert!(!totp.verify("996554", 29));
}

#[test]
fn totp_skew_two_accepts_two_steps() {
    let secret = [72, 101, 108, 108, 111, 33, 222, 173, 190, 239];
    let mut totp = TOTP::new(Algorithm::SHA1, &secret);
    totp.skew = 2;

    assert!(totp.verify("996554", 91));
    assert!(!totp.verify("996554", 121));
}

#[test]
fn totp_rejects_malformed_tokens() {
    let secret = [72, 101, 108, 108, 111, 33, 222, 173, 190, 239];
    let totp = TOTP::new(Algorithm::SHA1, &secret);

    assert!(!totp.verify("", 30));
    assert!(!totp.verify("99655a", 30));
    assert!(!totp.verify("+996554", 30));
    assert!(!totp.verify(" 996554", 30));
    // Parses above u32::MAX: can never equal a 31-bit derived code.
    assert!(!totp.verify("99999999999", 30));
    // Ten digits compare against the full truncated value, not the code.
    assert!(!totp.verify("0000996554", 30));
}

#[test]
fn totp_same_step_same_code() {
    let secret = [72, 101, 108, 108, 111, 33, 222, 173, 190, 239];
    let totp = TOTP::new(Algorithm::SHA1, &secret);

    // 30 and 59 fall in the same step; 60 starts the next one.
    let mut at30 = vec![0u8; 6];
    let mut at59 = vec![0u8; 6];
    let mut at60 = vec![0u8; 6];
    totp.generate_to(30, &mut at30);
    totp.generate_to(59, &mut at59);
    totp.generate_to(60, &mut at60);
    assert_eq!(at30, at59);
    assert_ne!(at30, at60);
}

#[test]
fn totp_repeated_calls_agree() {
    let secret = [72, 101, 108, 108, 111, 33, 222, 173, 190, 239];
    let totp = TOTP::new(Algorithm::SHA1, &secret);

    let mut first = vec![0u8; 6];
    let mut second = vec![0u8; 6];
    totp.generate_to(1606206826, &mut first);
    totp.generate_to(1606206826, &mut second);
    assert_eq!(first, second);

    assert_eq!(totp.verify("458443", 1606206826), totp.verify("458443", 1606206826));
}

#[test]
fn totp_token_length_selects_digit_count() {
    let secret = [72, 101, 108, 108, 111, 33, 222, 173, 190, 239];
    let totp = TOTP::new(Algorithm::SHA1, &secret);

    let mut output = vec![0u8; 8];
    totp.generate_to(30, &mut output);
    let token = std::str::from_utf8(&output).expect("UTF-8 compatible output");
    assert_eq!(token.len(), 8);
    assert!(totp.verify(token, 30));
    // The widths agree on their common low digits.
    assert_eq!(&token[2..], "996554");
}

#[test]
fn totp_matches_published_sha_vectors() {
    // Time 59 falls in counter 1; eight-digit codes for the three hashes.
    let sha1_secret = b"12345678901234567890";
    let totp1 = TOTP::new(Algorithm::SHA1, sha1_secret);
    let mut out = vec![0u8; 8];
    totp1.generate_to(59, &mut out);
    assert_eq!(std::str::from_utf8(&out).unwrap(), "94287082");

    let sha256_secret = b"12345678901234567890123456789012";
    let totp256 = TOTP::new(Algorithm::SHA256, sha256_secret);
    let mut out = vec![0u8; 8];
    totp256.generate_to(59, &mut out);
    assert_eq!(std::str::from_utf8(&out).unwrap(), "46119246");

    let sha512_secret = b"1234567890123456789012345678901234567890123456789012345678901234";
    let totp512 = TOTP::new(Algorithm::SHA512, sha512_secret);
    let mut out = vec![0u8; 8];
    totp512.generate_to(59, &mut out);
    assert_eq!(std::str::from_utf8(&out).unwrap(), "90693936");
}

#[test]
fn totp_generate_num_matches_rendered_code() {
    let secret = [72, 101, 108, 108, 111, 33, 222, 173, 190, 239];
    let totp = TOTP::new(Algorithm::SHA1, &secret);

    assert_eq!(totp.generate_num(30, 6), 996554);
    assert_eq!(totp.generate_num(1606206950, 6), 82772);
}

#[test]
fn totp_sign_has_hash_output_length() {
    let secret = [72, 101, 108, 108, 111, 33, 222, 173, 190, 239];
    assert_eq!(TOTP::new(Algorithm::SHA1, &secret).sign(30).len(), 20);
    assert_eq!(TOTP::new(Algorithm::SHA256, &secret).sign(30).len(), 32);
    assert_eq!(TOTP::new(Algorithm::SHA512, &secret).sign(30).len(), 64);
}

#[test]
fn totp_now_roundtrip() {
    let secret = [72, 101, 108, 108, 111, 33, 222, 173, 190, 239];
    let totp = TOTP::new(Algorithm::SHA1, &secret);

    let mut token = vec![0u8; 6];
    totp.generate_to_now(&mut token);
    let token = std::str::from_utf8(&token).expect("UTF-8 compatible output");
    // The default skew of one step absorbs any step boundary crossed between
    // the two calls.
    assert!(totp.verify_now(token));
}
