use srcds::error::Error;
use srcds::query::rules::{RuleInfo, Rules};

fn pair(name: &str, value: &str) -> Vec<u8> {
    let mut bytes = Vec::new();
    bytes.extend_from_slice(name.as_bytes());
    bytes.push(0);
    bytes.extend_from_slice(value.as_bytes());
    bytes.push(0);
    bytes
}

fn many(count: i16, pairs: usize) -> Vec<u8> {
    let mut bytes = vec![0x45u8];
    bytes.extend_from_slice(&count.to_le_bytes());
    for i in 0..pairs {
        bytes.extend_from_slice(&pair(&format!("name{}", i), &format!("value{}", i)));
    }
    bytes
}

#[test]
fn rules_are_read_in_order() {
    let mut bytes = vec![0x45u8, 2, 0];
    bytes.extend_from_slice(&pair("mp_timelimit", "30"));
    bytes.extend_from_slice(&pair("sv_gravity", ""));
    let list = Rules::decode(&bytes).unwrap();
    assert_eq!(list.nb_rules, 2);
    assert_eq!(
        list.rules,
        vec![
            RuleInfo { name: "mp_timelimit".to_string(), value: "30".to_string() },
            RuleInfo { name: "sv_gravity".to_string(), value: String::new() },
        ]
    );
}

#[test]
fn rules_count_of_258_reads_258_pairs() {
    let bytes = many(258, 258);
    assert_eq!(&bytes[1..3], &[0x02, 0x01]);
    let list = Rules::decode(&bytes).unwrap();
    assert_eq!(list.nb_rules, 258);
    assert_eq!(list.rules.len(), 258);
    assert_eq!(list.rules[0].name, "name0");
    assert_eq!(list.rules[257].name, "name257");
    assert_eq!(list.rules[257].value, "value257");
}

#[test]
fn rules_count_of_258_with_257_pairs_is_truncated() {
    assert_eq!(Rules::decode(&many(258, 257)), Err(Error::Truncated));
    assert_eq!(Rules::decode(&many(258, 2)), Err(Error::Truncated));
}

#[test]
fn rules_count_zero_is_an_empty_list() {
    let list = Rules::decode(&[0x45, 0, 0]).unwrap();
    assert_eq!(list.nb_rules, 0);
    assert!(list.rules.is_empty());
}

#[test]
fn rules_negative_count_is_invalid_response() {
    assert_eq!(Rules::decode(&[0x45, 0xFF, 0xFF]), Err(Error::InvalidResponse));
    assert_eq!(Rules::decode(&many(-2, 3)), Err(Error::InvalidResponse));
}

#[test]
fn rules_wrong_header_is_invalid_response() {
    assert_eq!(Rules::decode(&[0x44, 0, 0]), Err(Error::InvalidResponse));
}

#[test]
fn rules_short_input_is_truncated() {
    assert_eq!(Rules::decode(&[]), Err(Error::Truncated));
    assert_eq!(Rules::decode(&[0x45]), Err(Error::Truncated));
    assert_eq!(Rules::decode(&[0x45, 1]), Err(Error::Truncated));
    assert_eq!(Rules::decode(&[0x45, 1, 0, b'a', 0, b'b']), Err(Error::Truncated));
}

#[test]
fn rules_invalid_text_is_an_error() {
    assert_eq!(Rules::decode(&[0x45, 1, 0, b'a', 0, 0x80, 0]), Err(Error::InvalidEncoding));
}
