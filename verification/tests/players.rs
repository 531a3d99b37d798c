use srcds::error::Error;
use srcds::query::players::{PlayerInfo, Players};

fn record(index: u8, name: &str, score: i32, duration: f32) -> Vec<u8> {
    let mut bytes = vec![index];
    bytes.extend_from_slice(name.as_bytes());
    bytes.push(0);
    bytes.extend_from_slice(&score.to_le_bytes());
    bytes.extend_from_slice(&duration.to_le_bytes());
    bytes
}

#[test]
fn players_count_zero_is_an_empty_list() {
    let list = Players::decode(&[0x44, 0]).unwrap();
    assert_eq!(list.header, 0x44);
    assert_eq!(list.nb_players, 0);
    assert!(list.players.is_empty());
    let list = Players::decode(&[0x44, 0, 1, 2, 3]).unwrap();
    assert!(list.players.is_empty());
}

#[test]
fn players_records_are_read_in_order() {
    let mut bytes = vec![0x44u8, 2];
    bytes.extend_from_slice(&record(0, "alice", 12, 1.5));
    bytes.extend_from_slice(&record(7, "bob", -3, 3600.25));
    let list = Players::decode(&bytes).unwrap();
    assert_eq!(list.nb_players, 2);
    assert_eq!(
        list.players,
        vec![
            PlayerInfo {
                index: 0,
                name: "alice".to_string(),
                score: 12,
                duration_bits: 0x3FC0_0000,
            },
            PlayerInfo {
                index: 7,
                name: "bob".to_string(),
                score: -3,
                duration_bits: 3600.25f32.to_bits(),
            },
        ]
    );
    assert_eq!(f32::from_bits(list.players[0].duration_bits), 1.5);
    assert_eq!(f32::from_bits(list.players[1].duration_bits), 3600.25);
}

#[test]
fn players_wrong_header_is_invalid_response() {
    assert_eq!(Players::decode(&[0x45, 0]), Err(Error::InvalidResponse));
    assert_eq!(Players::decode(&[0x41, 1, 2, 3, 4]), Err(Error::InvalidResponse));
}

#[test]
fn players_short_input_is_truncated() {
    assert_eq!(Players::decode(&[]), Err(Error::Truncated));
    assert_eq!(Players::decode(&[0x44]), Err(Error::Truncated));
    let mut bytes = vec![0x44u8, 2];
    bytes.extend_from_slice(&record(0, "alice", 12, 1.5));
    assert_eq!(Players::decode(&bytes), Err(Error::Truncated));
    let mut bytes = vec![0x44u8, 1];
    let whole = record(0, "alice", 12, 1.5);
    bytes.extend_from_slice(&whole[..whole.len() - 1]);
    assert_eq!(Players::decode(&bytes), Err(Error::Truncated));
}

#[test]
fn players_invalid_name_is_an_error() {
    let mut bytes = vec![0x44u8, 1, 0, 0xC0, 0];
    bytes.extend_from_slice(&[0; 8]);
    assert_eq!(Players::decode(&bytes), Err(Error::InvalidEncoding));
}

#[test]
fn players_full_count() {
    let mut bytes = vec![0x44u8, 255];
    for i in 0..255u8 {
        bytes.extend_from_slice(&record(i, "p", i as i32, 0.0));
    }
    let list = Players::decode(&bytes).unwrap();
    assert_eq!(list.players.len(), 255);
    assert_eq!(list.players[254].index, 254);
    assert_eq!(list.players[254].score, 254);
}
