use shapes::circle::Circle;
use shapes::fixed::Fixed;
use shapes::record::DecodeError;
use shapes::shape::Shape;
use shapes::triangle::Triangle;

#[test]
fn decode_circle_record() {
    let c = Circle::decode("2.2,circle3").unwrap();
    assert_eq!(c.get_radius().as_units(), 2_200_000);
    assert_eq!(c.get_name(), "circle3");
}

#[test]
fn decode_circle_without_point() {
    let c = Circle::decode("3,plain").unwrap();
    assert_eq!(c.get_radius().as_units(), 3_000_000);
    assert_eq!(c.get_name(), "plain");
}

#[test]
fn decode_malformed_number_is_error() {
    // the chosen failure policy: a recoverable error, not an abort
    assert!(matches!(Circle::decode("abc,name"), Err(DecodeError::InvalidNumber)));
    assert!(matches!(Circle::decode("1.2.3,name"), Err(DecodeError::InvalidNumber)));
    assert!(matches!(Circle::decode("-1,name"), Err(DecodeError::InvalidNumber)));
    assert!(matches!(Circle::decode("2.,name"), Err(DecodeError::InvalidNumber)));
    assert!(matches!(Circle::decode(".5,name"), Err(DecodeError::InvalidNumber)));
    assert!(matches!(Circle::decode("1.2345678,name"), Err(DecodeError::InvalidNumber)));
    assert_eq!(
        Circle::decode("abc,name").unwrap_err().message(),
        "decode failed: invalid numeric field"
    );
}

#[test]
fn decode_empty_numeric_token_is_error() {
    // an empty token is present but malformed, unlike a missing one
    assert!(matches!(Circle::decode(""), Err(DecodeError::InvalidNumber)));
    assert!(matches!(Circle::decode(",name"), Err(DecodeError::InvalidNumber)));
    assert!(matches!(Triangle::decode("1,,3"), Err(DecodeError::InvalidNumber)));
}

#[test]
fn decode_missing_name_reads_as_empty() {
    let c = Circle::decode("2.5").unwrap();
    assert_eq!(c.get_radius().as_units(), 2_500_000);
    assert_eq!(c.get_name(), "");
}

#[test]
fn decode_missing_numeric_tokens_read_as_zero() {
    let t = Triangle::decode("1,2").unwrap();
    assert_eq!(t.get_a().as_units(), 1_000_000);
    assert_eq!(t.get_b().as_units(), 2_000_000);
    assert_eq!(t.get_c().as_units(), 0);
    assert_eq!(t.get_base().as_units(), 0);
    assert_eq!(t.get_height().as_units(), 0);
    assert_eq!(t.get_name(), "");
}

#[test]
fn decode_triangle_record() {
    let t = Triangle::decode("2.3,2.4,3.6,3.7,3.8,triangle2").unwrap();
    assert_eq!(t.get_a().as_units(), 2_300_000);
    assert_eq!(t.get_b().as_units(), 2_400_000);
    assert_eq!(t.get_c().as_units(), 3_600_000);
    assert_eq!(t.get_base().as_units(), 3_700_000);
    assert_eq!(t.get_height().as_units(), 3_800_000);
    assert_eq!(t.get_name(), "triangle2");
}

#[test]
fn decode_extra_tokens_are_ignored() {
    let c = Circle::decode("1.5,ring,junk").unwrap();
    assert_eq!(c.get_radius().as_units(), 1_500_000);
    assert_eq!(c.get_name(), "ring");
}

#[test]
fn decode_zero_and_smallest_step() {
    let z = Circle::decode("0,zero").unwrap();
    assert_eq!(z.get_radius().as_units(), 0);
    let tiny = Circle::decode("0.000001,tiny").unwrap();
    assert_eq!(tiny.get_radius().as_units(), 1);
}

#[test]
fn decode_range_edges() {
    // the largest representable value, exactly u64::MAX micro-units
    let top = Circle::decode("18446744073709.551615,top").unwrap();
    assert_eq!(top.get_radius().as_units(), u64::MAX);
    // one step past it
    assert!(matches!(
        Circle::decode("18446744073709.551616,over"),
        Err(DecodeError::InvalidNumber)
    ));
    assert!(matches!(
        Circle::decode("99999999999999999999,over"),
        Err(DecodeError::InvalidNumber)
    ));
}

#[test]
fn decode_does_not_trim_whitespace() {
    assert!(matches!(Circle::decode(" 2.2,x"), Err(DecodeError::InvalidNumber)));
    assert!(matches!(Circle::decode("2.2 ,x"), Err(DecodeError::InvalidNumber)));
    let c = Circle::decode("2.2, x ").unwrap();
    assert_eq!(c.get_name(), " x ");
}

#[test]
fn decode_keeps_non_ascii_names() {
    let c = Circle::decode("1.5,c\u{ed}rculo").unwrap();
    assert_eq!(c.get_radius().as_units(), 1_500_000);
    assert_eq!(c.get_name(), "c\u{ed}rculo");
    let back = Circle::decode(c.encode().as_str()).unwrap();
    assert_eq!(back.get_name(), "c\u{ed}rculo");
}

#[test]
fn encode_is_canonical() {
    assert_eq!(Circle::default().encode(), "1.000000,Circle1");
    let c = Circle::new(Fixed::from_parts(2, 200000), String::from("circle3"));
    assert_eq!(c.encode(), "2.200000,circle3");
    assert_eq!(
        Triangle::default().encode(),
        "1.000000,1.000000,1.000000,1.000000,1.000000,triangle1"
    );
}

#[test]
fn decode_reverses_encode_circle() {
    let c = Circle::new(Fixed::from_parts(12, 345678), String::from("ring"));
    let back = Circle::decode(c.encode().as_str()).unwrap();
    assert_eq!(back.get_radius().as_units(), c.get_radius().as_units());
    assert_eq!(back.get_name(), c.get_name());
}

#[test]
fn decode_reverses_encode_triangle() {
    let t = Triangle::new(
        Fixed::from_parts(1, 100000),
        Fixed::from_parts(2, 250000),
        Fixed::from_parts(3, 0),
        Fixed::from_parts(4, 500000),
        Fixed::from_parts(0, 750000),
        String::from("odd one"),
    );
    let back = Triangle::decode(t.encode().as_str()).unwrap();
    assert_eq!(back.get_a().as_units(), t.get_a().as_units());
    assert_eq!(back.get_b().as_units(), t.get_b().as_units());
    assert_eq!(back.get_c().as_units(), t.get_c().as_units());
    assert_eq!(back.get_base().as_units(), t.get_base().as_units());
    assert_eq!(back.get_height().as_units(), t.get_height().as_units());
    assert_eq!(back.get_name(), t.get_name());
}
