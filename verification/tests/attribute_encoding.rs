use credx_encoding::bls381_fieldelem::FieldElem;
use credx_encoding::decimal::{encode_from_f64, DecimalParts, FloatClass};
use credx_encoding::encoding::{
    encode_from_isize, encode_from_rfc3339_as_dayssince1900, encode_from_rfc3339_as_unixtimestamp,
    encode_from_usize, encode_from_utf8_as_hash, encoded_null, AttributeEncoder,
};
use credx_encoding::rsa_native::BigNumber;
use std::num::FpCategory;
use credx_encoding::logger::AriesCredXFrameworkDefaultLogger;

fn classify(v: f64) -> FloatClass {
    match v.classify() {
        FpCategory::Nan | FpCategory::Subnormal => FloatClass::NanOrSubnormal,
        FpCategory::Zero => FloatClass::Zero,
        FpCategory::Infinite => {
            if v.is_sign_positive() {
                FloatClass::PositiveInfinity
            } else {
                FloatClass::NegativeInfinity
            }
        }
        FpCategory::Normal => {
            let b = bigdecimal::BigDecimal::from(v);
            let (bi, scale) = b.into_bigint_and_exponent();
            let (sign, digits) = bi.to_bytes_be();
            FloatClass::Normal(DecimalParts {
                negative: sign == num_bigint::Sign::Minus,
                digits,
                scale,
            })
        }
    }
}

fn hex_to_bytes(h: &str) -> Vec<u8> {
    let chars: Vec<u8> = h.as_bytes().to_vec();
    let padded = if chars.len() % 2 == 1 {
        let mut p = vec![b'0'];
        p.extend_from_slice(&chars);
        p
    } else {
        chars
    };
    let digit = |c: u8| -> u8 {
        match c {
            b'0'..=b'9' => c - b'0',
            b'a'..=b'f' => c - b'a' + 10,
            b'A'..=b'F' => c - b'A' + 10,
            _ => 255,
        }
    };
    padded
        .chunks(2)
        .map(|p| digit(p[0]) * 16 + digit(p[1]))
        .collect()
}

#[test]
fn bls381_fieldelem_rfc3339_string_convert() {
    let res = encode_from_rfc3339_as_unixtimestamp::<FieldElem>("2018-01-26T18:30:09.453+00:00");
    assert!(res.is_ok());
    assert!(FieldElem::from_u64(1_516_991_409u64)
        .add(FieldElem::zero_center())
        .equals(&res.unwrap()));

    let res = encode_from_rfc3339_as_unixtimestamp::<FieldElem>("2020-01-26T00:30:09.000+18:00");
    assert!(res.is_ok());
    assert!(FieldElem::from_u64(1_579_933_809u64)
        .add(FieldElem::zero_center())
        .equals(&res.unwrap()));

    let res = encode_from_rfc3339_as_unixtimestamp::<FieldElem>("1970-01-01T00:00:00.000+00:00");
    assert!(res.is_ok());
    assert!(res.unwrap().equals(&FieldElem::zero_center()));

    let res = encode_from_rfc3339_as_unixtimestamp::<FieldElem>("1900");
    assert!(res.is_err());

    let res = encode_from_rfc3339_as_dayssince1900::<FieldElem>("1982-12-20T10:45:00.000-06:00");
    assert!(res.is_ok());
    assert!(res
        .unwrap()
        .equals(&FieldElem::zero_center().add(FieldElem::from_u64(30303))));
}

#[test]
fn bls381_fieldelem_decimal_test() {
    let res1 = encode_from_f64::<FieldElem>(classify(1.33f32 as f64));
    assert!(res1.is_ok());
    let res2 = encode_from_f64::<FieldElem>(classify(-1.33f32 as f64));
    assert!(res2.is_ok());
    assert!(FieldElem::zero_center().equals(&res1.unwrap().add(res2.unwrap())));

    let res1 = encode_from_f64::<FieldElem>(classify(f64::MAX));
    assert!(res1.is_ok());
    let res2 = res1.unwrap();
    assert!(res2
        .duplicate()
        .sub(res2.duplicate())
        .equals(&FieldElem::from_u64(0)));

    let res3 = encode_from_f64::<FieldElem>(classify(f64::MIN));
    assert!(res3.is_ok());
    assert!(FieldElem::zero_center().equals(&res3.unwrap().add(res2)));

    let res1 = encode_from_f64::<FieldElem>(classify(f64::NEG_INFINITY));
    assert!(res1.is_ok());
    assert!(FieldElem::from_u64(8).equals(&res1.unwrap()));

    let pos_inf = FieldElem::max().sub(FieldElem::from_u64(9u64));
    let res1 = encode_from_f64::<FieldElem>(classify(f64::INFINITY));
    assert!(res1.is_ok());
    assert!(pos_inf.equals(&res1.unwrap()));

    let res1 = encode_from_f64::<FieldElem>(classify(f64::NAN));
    assert!(res1.is_ok());
    let res2 = FieldElem::max().sub(FieldElem::from_u64(8u64));
    assert!(res2.equals(&res1.unwrap()));

    let res1 = encode_from_f64::<FieldElem>(classify(f64::MIN_POSITIVE / 2.0));
    assert!(res1.is_ok());
    assert!(res2.equals(&res1.unwrap()));
}

#[test]
fn rsa_native_rfc3339_string_convert() {
    let res = encode_from_rfc3339_as_unixtimestamp::<BigNumber>("2018-01-26T18:30:09.453+00:00");
    assert!(res.is_ok());
    assert!(BigNumber::from_u64(1_516_991_409u64)
        .add(BigNumber::zero_center())
        .equals(&res.unwrap()));

    let res = encode_from_rfc3339_as_unixtimestamp::<BigNumber>("2020-01-26T00:30:09.000+18:00");
    assert!(res.is_ok());
    assert!(BigNumber::from_u64(1_579_933_809u64)
        .add(BigNumber::zero_center())
        .equals(&res.unwrap()));

    let res = encode_from_rfc3339_as_unixtimestamp::<BigNumber>("1970-01-01T00:00:00.000+00:00");
    assert!(res.is_ok());
    assert!(res.unwrap().equals(&BigNumber::zero_center()));

    let res = encode_from_rfc3339_as_unixtimestamp::<BigNumber>("1900");
    assert!(res.is_err());
}

#[test]
fn rsa_native_decimal_test() {
    let res1 = encode_from_f64::<BigNumber>(classify(1.33f32 as f64));
    assert!(res1.is_ok());
    let res2 = encode_from_f64::<BigNumber>(classify(-1.33f32 as f64));
    assert!(res2.is_ok());
    assert!(BigNumber::zero_center().equals(&res1.unwrap().add(res2.unwrap())));

    let res1 = encode_from_f64::<BigNumber>(classify(f64::MAX));
    assert!(res1.is_ok());
    let res2 = res1.unwrap();
    assert!(res2
        .duplicate()
        .sub(res2.duplicate())
        .equals(&BigNumber::from_u64(0)));

    let res3 = encode_from_f64::<BigNumber>(classify(f64::MIN));
    assert!(res3.is_ok());
    assert!(BigNumber::zero_center().equals(&res3.unwrap().add(res2)));

    let res1 = encode_from_f64::<BigNumber>(classify(f64::NEG_INFINITY));
    assert!(res1.is_ok());
    assert!(BigNumber::from_u64(8).equals(&res1.unwrap()));

    let pos_inf = BigNumber::max().sub(BigNumber::from_u64(9u64));
    let res1 = encode_from_f64::<BigNumber>(classify(f64::INFINITY));
    assert!(res1.is_ok());
    assert!(pos_inf.equals(&res1.unwrap()));

    let res1 = encode_from_f64::<BigNumber>(classify(f64::NAN));
    let nan = BigNumber::max().sub(BigNumber::from_u64(8u64));
    assert!(res1.is_ok());
    assert!(nan.equals(&res1.unwrap()));
}

#[test]
fn pre_epoch_dates_wrap() {
    let res = encode_from_rfc3339_as_unixtimestamp::<BigNumber>("1969-12-31T23:59:59.000+00:00");
    assert!(res.is_ok());
    let expected = BigNumber::from_hex(
        "400000000000000000000000000000000000000000000000FFFFFFFFFFFFFFFF",
    )
    .unwrap();
    assert!(res.unwrap().equals(&expected));

    let res = encode_from_rfc3339_as_dayssince1900::<BigNumber>("1899-06-01T00:00:00.000+00:00");
    assert!(res.is_ok());
    let expected = BigNumber::from_hex(
        "400000000000000000000000000000000000000000000000FFFFFFFFFFFFFF2A",
    )
    .unwrap();
    assert!(res.unwrap().equals(&expected));
}

#[test]
fn from_hex_accepts_only_hex() {
    assert!(BigNumber::from_hex("").is_err());
    assert!(BigNumber::from_hex("-").is_err());
    assert!(BigNumber::from_hex("xyz").is_err());
    assert!(BigNumber::from_hex("1G").is_err());
    assert!(BigNumber::from_hex("7\u{0}").is_err());
    let neg = BigNumber::from_hex("-3F").unwrap();
    assert!(neg.equals(&BigNumber::from_u64(0x3F).neg()));
    let pos = BigNumber::from_hex("00fF").unwrap();
    assert!(pos.equals(&BigNumber::from_u64(0xFF)));
}

#[test]
fn encoded_null_backend_independent() {
    let fe = encoded_null::<FieldElem>().unwrap();
    assert!(fe.equals(&FieldElem::from_u64(7)));
    let bn = encoded_null::<BigNumber>().unwrap();
    assert!(bn.equals(&BigNumber::from_u64(7)));
    assert!(bn.equals(&BigNumber::from_hex("7").unwrap()));
}

#[test]
fn from_vec_width_normalization() {
    let short = FieldElem::from_vec(vec![1u8, 2u8, 3u8]);
    let mut padded = vec![0u8; 45];
    padded.extend_from_slice(&[1u8, 2u8, 3u8]);
    assert!(short.equals(&FieldElem::from_vec(padded)));

    let mut long = vec![0xABu8; 48];
    long.push(0xCD);
    let truncated = FieldElem::from_vec(long.clone());
    assert!(truncated.equals(&FieldElem::from_vec(long[..48].to_vec())));

    let three = FieldElem::from_vec(vec![3u8]);
    assert!(three.equals(&FieldElem::from_vec(vec![0u8, 0u8, 3u8])));
}

#[test]
fn integer_encodings() {
    let zero = encode_from_isize::<FieldElem>(0).unwrap();
    assert!(zero.equals(&FieldElem::zero_center()));
    let zero = encode_from_isize::<BigNumber>(0).unwrap();
    assert!(zero.equals(&BigNumber::zero_center()));

    let one = encode_from_isize::<BigNumber>(1).unwrap();
    assert!(one.equals(&BigNumber::zero_center().add(BigNumber::from_u64(1))));

    let minus_one = encode_from_isize::<BigNumber>(-1).unwrap();
    let expected =
        BigNumber::from_hex("3FFFFFFFFFFFFFFFFFFFFFFFFFFFFFFFFFFFFFFFFFFFFFFFFFFFFFFFFFFFFFFF")
            .unwrap();
    assert!(minus_one.equals(&expected));

    let min = encode_from_isize::<BigNumber>(i64::MIN).unwrap();
    let raw = BigNumber::from_vec(i64::MIN.to_be_bytes().to_vec());
    assert!(min.equals(&BigNumber::zero_center().sub(raw)));
    let expected =
        BigNumber::from_hex("3FFFFFFFFFFFFFFFFFFFFFFFFFFFFFFFFFFFFFFFFFFFFFFF8000000000000000")
            .unwrap();
    assert!(min.equals(&expected));

    let minus_one_fe = encode_from_isize::<FieldElem>(-1).unwrap();
    let expected_fe = FieldElem::from_vec(hex_to_bytes(
        "3FFFFFFFFFFFFFFFFFFFFFFFFFFFFFFFFFFFFFFFFFFFFFFFFFFFFFFFFFFFFFFF",
    ));
    assert!(minus_one_fe.equals(&expected_fe));

    let min_fe = encode_from_isize::<FieldElem>(i64::MIN).unwrap();
    let raw_fe = FieldElem::from_vec(i64::MIN.to_be_bytes().to_vec());
    assert!(min_fe.equals(&FieldElem::zero_center().sub(raw_fe)));

    let us = encode_from_usize::<BigNumber>(4_000_000_000u64).unwrap();
    assert!(us.equals(&BigNumber::zero_center().add(BigNumber::from_u64(4_000_000_000u64))));
    let us_fe = encode_from_usize::<FieldElem>(4_000_000_000u64).unwrap();
    assert!(us_fe.equals(&FieldElem::zero_center().add(FieldElem::from_u64(4_000_000_000u64))));
}

#[test]
fn hash_encoding_deterministic() {
    let digest_hex = "05416FBF98C1D65931E1227721C9BB7E1C58B8263A8FA1B0B94D78987A712BA2";
    let first = encode_from_utf8_as_hash::<BigNumber>("first_name").unwrap();
    let second = encode_from_utf8_as_hash::<BigNumber>("first_name").unwrap();
    assert!(first.equals(&second));
    assert!(first.equals(&BigNumber::from_hex(digest_hex).unwrap()));

    let first = encode_from_utf8_as_hash::<FieldElem>("first_name").unwrap();
    let second = encode_from_utf8_as_hash::<FieldElem>("first_name").unwrap();
    assert!(first.equals(&second));
    assert!(first.equals(&FieldElem::from_vec(hex_to_bytes(digest_hex))));
}

#[test]
fn decimal_exact_values() {
    let one = encode_from_f64::<BigNumber>(classify(1.0)).unwrap();
    let expected = BigNumber::from_hex(
        "E35FA931A0000000000000000000000000000000000000000000000000000000000000000000",
    )
    .unwrap();
    assert!(one.equals(&expected));

    let half = encode_from_f64::<BigNumber>(classify(0.5)).unwrap();
    let expected = BigNumber::from_hex(
        "2386F26FC10000000000000000000000000000000000000000000000000000000000000000000",
    )
    .unwrap();
    assert!(half.equals(&expected));

    let one_fe = encode_from_f64::<FieldElem>(classify(1.0)).unwrap();
    let expected_fe = FieldElem::from_vec(hex_to_bytes(
        "4670BA826F7800F291C59C6EC81ABAB212705EF7EDA98B79B2941F464D69EAA0",
    ));
    assert!(one_fe.equals(&expected_fe));

    let half_fe = encode_from_f64::<FieldElem>(classify(0.5)).unwrap();
    let expected_fe = FieldElem::from_vec(hex_to_bytes(
        "3C2C2AF2ED0E851639342F0CEAA0FAB7DA5B4968D22980B13E724E30C188CA8F",
    ));
    assert!(half_fe.equals(&expected_fe));
}

#[test]
fn default_logger_pattern_choice() {
    let r = AriesCredXFrameworkDefaultLogger::effective_pattern(
        Some(String::from("debug")),
        Some(String::from("info")),
    );
    assert_eq!(r, Some(String::from("debug")));
    let r = AriesCredXFrameworkDefaultLogger::effective_pattern(None, Some(String::from("info")));
    assert_eq!(r, Some(String::from("info")));
    let r = AriesCredXFrameworkDefaultLogger::effective_pattern(None, None);
    assert_eq!(r, None);
}
