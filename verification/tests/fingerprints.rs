//! Documents, how they are written, and their fingerprints.
use acoustic_review::canon::{
    canonical_fingerprint, canonical_json, canonical_string, json_fingerprint, Decimals,
};
use acoustic_review::digest::{sha256_hex, sha8, text_fingerprint};
use acoustic_review::double::Double;
use acoustic_review::json::{doubles_in, Json};
use acoustic_review::text::{
    contains, decimal, is_blank, joined, padded, precedes, signed,
};

fn dbl(v: f64) -> Double {
    Double { bits: v.to_bits() }
}

fn text(s: &str) -> Json {
    Json::Text(s.to_string())
}

fn object(members: Vec<(&str, Json)>) -> Json {
    Json::Object(members.into_iter().map(|(k, v)| (k.to_string(), v)).collect())
}

#[test]
fn fingerprints_are_sha256() {
    assert_eq!(
        text_fingerprint(""),
        "e3b0c44298fc1c149afbf4c8996fb92427ae41e4649b934ca495991b7852b855"
    );
    assert_eq!(sha8("direct"), "d15690f0");
    assert_eq!(
        sha256_hex(&["a", "bc"]),
        "9a8acca1b6c6c0befd3fbc756aed625da998c998f7252e738c4ef061906b9b21"
    );
    assert_eq!(
        sha256_hex(&["ab", "c"]),
        "43ee655579de01ca739b3f95c1c2d3f46d353b2c0df818064ea594506cdb2617"
    );
}

#[test]
fn survey_documents_are_written_with_sorted_members() {
    let d = Decimals { entries: vec![(0.5f64.to_bits(), format!("{:.12e}", 0.5f64))] };
    let items = vec![
        Json::Int(1),
        Json::Int(-2),
        Json::UInt(u64::MAX),
        Json::Float(dbl(0.5)),
        Json::Float(dbl(f64::INFINITY)),
        Json::Bool(true),
    ];
    let v = object(vec![("b\n\"", text("x\u{1}yé")), ("a", Json::Array(items))]);
    assert_eq!(
        canonical_string(&v, &d),
        "{\"a\":[1,-2,18446744073709551615,5.000000000000e-1,null,true],\"b\\n\\\"\":\"x\\u0001yé\"}"
    );
    assert_eq!(
        canonical_fingerprint(&v, &d),
        "d1d1138ab7a2bc85d152b95507b5b88d86be4277fff7630ee63595001dc48764"
    );
    assert_eq!(doubles_in(&v), vec![dbl(0.5), dbl(f64::INFINITY)]);
}

#[test]
fn workbench_documents_are_written_with_sorted_members() {
    let d = Decimals { entries: vec![(0.5f64.to_bits(), "0.5".to_string())] };
    let items = vec![
        Json::Int(1),
        Json::Float(dbl(0.5)),
        Json::Float(dbl(f64::NAN)),
        Json::Bool(false),
    ];
    let v = object(vec![("q\"", text("t\tn\n\u{1}é")), ("a", Json::Array(items))]);
    assert_eq!(
        canonical_json(&v, &d),
        "{\"a\":[1,0.5,null,false],\"q\\\"\":\"t\\tn\\n\\u0001é\"}"
    );
    assert_eq!(
        json_fingerprint(&["batch-v1"], &v, &d),
        "1b231e00dae547b0aa8d8a8f2fec4948850e02d67d0bf90b8da08aaf5c6c5c8c"
    );
}

#[test]
fn the_order_of_members_does_not_change_a_fingerprint() {
    let d = Decimals { entries: vec![] };
    let one = object(vec![("x", Json::Int(1)), ("y", text("2"))]);
    let two = object(vec![("y", text("2")), ("x", Json::Int(1))]);
    let other = object(vec![("y", text("2")), ("x", Json::Int(2))]);
    assert_eq!(canonical_fingerprint(&one, &d), canonical_fingerprint(&two, &d));
    assert_ne!(canonical_fingerprint(&one, &d), canonical_fingerprint(&other, &d));
    assert_eq!(json_fingerprint(&["p"], &one, &d), json_fingerprint(&["p"], &two, &d));
    assert_ne!(json_fingerprint(&["p"], &one, &d), json_fingerprint(&["q"], &one, &d));
}

#[test]
fn numbers_and_texts_are_written_out() {
    assert_eq!((decimal(0), decimal(u64::MAX)),
        ("0".to_string(), "18446744073709551615".to_string()));
    assert_eq!((signed(-7), signed(i64::MIN)),
        ("-7".to_string(), "-9223372036854775808".to_string()));
    assert_eq!((padded(7, 4), padded(12345, 4)), ("0007".to_string(), "12345".to_string()));
    assert_eq!(joined(&vec!["a".to_string(), "b".to_string()], ", "), "a, b");
    assert!(precedes("B", "a") && precedes("a", "ab") && !precedes("a", "a"));
    assert!(precedes("\u{ffff}", "\u{10000}"));
    assert!(contains("xaby", "ab") && contains("x", "") && !contains("ab", "abc"));
    assert!(is_blank(" \t\u{3000}") && !is_blank(" x"));
}

#[test]
fn doubles_are_ordered_as_numbers() {
    let list = [f64::NEG_INFINITY, -2.0, -0.0, 1e-300, 3.5, f64::INFINITY];
    for (i, a) in list.iter().enumerate() {
        for (j, b) in list.iter().enumerate() {
            assert_eq!(dbl(*a).is_below(dbl(*b)), i < j);
            assert_eq!(dbl(*a).is_up_to(dbl(*b)), i <= j);
        }
    }
    assert!(dbl(0.0).is_same_number(dbl(-0.0)));
    assert!(!dbl(f64::NAN).is_same_number(dbl(f64::NAN)) && !dbl(1.0).is_below(dbl(f64::NAN)));
    assert_eq!(dbl(-4.0).absolute(), dbl(4.0));
    assert_eq!(dbl(4.0).negated(), dbl(-4.0));
    assert_eq!(dbl(9.0).clamped(dbl(-1.0), dbl(5.0)), dbl(5.0));
    assert_eq!(dbl(-9.0).clamped(dbl(-1.0), dbl(5.0)), dbl(-1.0));
    assert_eq!(dbl(2.0).clamped(dbl(-1.0), dbl(5.0)), dbl(2.0));
}
