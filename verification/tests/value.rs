use ledb::{FloatCast, KeyData, KeyType};

fn float_key(v: f64) -> KeyData {
    KeyData::Float(v.to_bits())
}

fn cast(c: FloatCast) -> Option<KeyData> {
    match c {
        FloatCast::IntToFloat(i) => Some(float_key(i as f64)),
        FloatCast::FloatToInt(bits) => Some(KeyData::Int(f64::from_bits(bits).round() as i64)),
        FloatCast::FloatToText(bits) => Some(KeyData::String(f64::from_bits(bits).to_string())),
        FloatCast::TextToFloat(s) => s.parse::<f64>().ok().map(float_key),
    }
}

#[test]
fn get_type() {
    assert_eq!(KeyData::from(123).get_type(), KeyType::Int);
    assert_eq!(float_key(12.3).get_type(), KeyType::Float);
    assert_eq!(KeyData::from("abc").get_type(), KeyType::String);
    assert_eq!(KeyData::from(vec![1u8, 2, 3]).get_type(), KeyType::Binary);
    assert_eq!(KeyData::from(true).get_type(), KeyType::Bool);
}

#[test]
fn as_type() {
    assert_eq!(KeyData::from("abc").as_type(KeyType::String).unwrap().get_type(), KeyType::String);
    assert_eq!(KeyData::from("abc").as_type(KeyType::Int), None);
    assert_eq!(KeyData::from(123).as_type(KeyType::Int).unwrap().get_type(), KeyType::Int);
    assert_eq!(KeyData::from(123).as_type(KeyType::Float), None);
    assert_eq!(float_key(12.3).as_type(KeyType::Float).unwrap().get_type(), KeyType::Float);
    assert_eq!(float_key(12.3).as_type(KeyType::Int), None);
    assert_eq!(KeyData::from(true).as_type(KeyType::Bool).unwrap().get_type(), KeyType::Bool);
    assert_eq!(KeyData::from(true).as_type(KeyType::String), None);
}

#[test]
fn into_type() {
    assert_eq!(KeyData::from("abc").into_type(KeyType::String, &cast).unwrap().get_type(), KeyType::String);
    assert_eq!(KeyData::from("abc").into_type(KeyType::Int, &cast), None);
    assert_eq!(KeyData::from("123").into_type(KeyType::Int, &cast).unwrap(), KeyData::from(123));
    assert_eq!(KeyData::from("12.3").into_type(KeyType::Float, &cast).unwrap(), float_key(12.3));
    assert_eq!(KeyData::from("12.3").into_type(KeyType::Int, &cast), None);
    assert_eq!(KeyData::from(123).into_type(KeyType::Int, &cast).unwrap().get_type(), KeyType::Int);
    assert_eq!(KeyData::from(123).into_type(KeyType::Float, &cast).unwrap(), float_key(123.0));
    assert_eq!(KeyData::from(123).into_type(KeyType::String, &cast).unwrap(), KeyData::from("123"));
    assert_eq!(float_key(12.3).into_type(KeyType::Float, &cast).unwrap(), float_key(12.3));
    assert_eq!(float_key(12.3).into_type(KeyType::Int, &cast).unwrap(), KeyData::from(12));
    assert_eq!(float_key(12.5).into_type(KeyType::Int, &cast).unwrap(), KeyData::from(13));
    assert_eq!(float_key(12.3).into_type(KeyType::String, &cast).unwrap(), KeyData::from("12.3"));
    assert_eq!(KeyData::from(true).into_type(KeyType::Bool, &cast).unwrap().get_type(), KeyType::Bool);
    assert_eq!(KeyData::from(true).into_type(KeyType::String, &cast).unwrap(), KeyData::from("true"));
}

#[test]
fn text_converts_to_int_and_bool() {
    assert_eq!(KeyData::from("-42").into_type(KeyType::Int, &cast), Some(KeyData::Int(-42)));
    assert_eq!(KeyData::from("+7").into_type(KeyType::Int, &cast), Some(KeyData::Int(7)));
    assert_eq!(KeyData::from("9223372036854775808").into_type(KeyType::Int, &cast), None);
    assert_eq!(KeyData::from("false").into_type(KeyType::Bool, &cast), Some(KeyData::Bool(false)));
    assert_eq!(KeyData::from("yes").into_type(KeyType::Bool, &cast), None);
    assert_eq!(KeyData::from(-5).into_type(KeyType::String, &cast), Some(KeyData::from("-5")));
    assert_eq!(KeyData::from(vec![1u8]).into_type(KeyType::Int, &cast), None);
}

#[test]
fn raw_round_trip() {
    for k in [KeyData::from(-3), float_key(2.5), KeyData::from("héllo"), KeyData::from(vec![0u8, 7]), KeyData::from(true)] {
        let raw = k.into_raw();
        assert_eq!(KeyData::from_raw(k.get_type(), &raw).unwrap(), k);
    }
    assert_eq!(KeyData::from(1).into_raw(), vec![1, 0, 0, 0, 0, 0, 0, 0]);
    assert_eq!(KeyData::from("").into_raw(), vec![0]);
    assert_eq!(KeyData::from(Vec::<u8>::new()).into_raw(), vec![0]);
}

#[test]
fn from_raw_rejects_wrong_sizes() {
    assert!(KeyData::from_raw(KeyType::Int, &[1, 2, 3]).is_err());
    assert!(KeyData::from_raw(KeyType::Float, &[0; 9]).is_err());
    assert!(KeyData::from_raw(KeyType::Bool, &[]).is_err());
    assert!(KeyData::from_raw(KeyType::String, &[0xff, 0xfe]).is_err());
    assert_eq!(KeyData::from_raw(KeyType::Bool, &[2]).unwrap(), KeyData::Bool(true));
}

#[test]
fn key_order() {
    assert!(KeyData::from(1).before(&KeyData::from(2)));
    assert!(!KeyData::from(2).before(&KeyData::from(2)));
    assert!(KeyData::from(100).before(&float_key(-1.0)));
    assert!(float_key(-2.0).before(&float_key(-1.0)));
    assert!(!float_key(-0.0).before(&float_key(0.0)));
    assert!(!float_key(0.0).before(&float_key(-0.0)));
    assert!(float_key(f64::INFINITY).before(&float_key(f64::NAN)));
    assert!(KeyData::from("ab").before(&KeyData::from("b")));
    assert!(KeyData::from("a").before(&KeyData::from("ab")));
    assert!(KeyData::from(vec![1u8, 2]).before(&KeyData::from(vec![1u8, 3])));
    assert!(KeyData::from(false).before(&KeyData::from(true)));
    assert!(KeyData::from("z").before(&KeyData::from(vec![0u8])));
}

#[test]
fn key_within_bound() {
    assert!(KeyData::from(3).within(&KeyData::from(4), false));
    assert!(!KeyData::from(4).within(&KeyData::from(4), false));
    assert!(KeyData::from(4).within(&KeyData::from(4), true));
    assert!(!KeyData::from(5).within(&KeyData::from(4), true));
}

#[test]
fn int_text_int_round_trip() {
    for v in [0i64, 7, -7, i64::MAX, i64::MIN, 1_000_000] {
        let text = KeyData::from(v).into_type(KeyType::String, &cast).unwrap();
        assert_eq!(text.into_type(KeyType::Int, &cast), Some(KeyData::from(v)));
    }
}
