use ledger_core::ibc::storage::{consensus_height, consensus_state_key, consensus_state_prefix};
use ledger_core::ibc::text::{chars_of, find_first, find_last, parse_number};
use ledger_core::ibc::types::{ClientId, Height};
use ledger_core::storage::Key;

fn height_of(path: &str) -> Option<Height> {
    consensus_height(&Key::new(path))
}

fn number(text: &str) -> Option<u64> {
    let chars = chars_of(text);
    parse_number(&chars, 0, chars.len())
}

#[test]
fn the_key_of_a_consensus_state_names_its_height() {
    assert_eq!(
        height_of("ibc/clients/07-tendermint-0/consensusStates/0-14"),
        Some(Height { revision_number: 0, revision_height: 14 })
    );
    assert_eq!(
        height_of("ibc/clients/c/consensusStates/3-18446744073709551615"),
        Some(Height { revision_number: 3, revision_height: u64::MAX })
    );
}

#[test]
fn a_key_that_is_written_for_a_height_reads_back() {
    let client = ClientId("07-tendermint-12".to_string());
    for (revision_number, revision_height) in [(0, 1), (0, 14), (7, 100), (u64::MAX, u64::MAX)] {
        let height = Height::new(revision_number, revision_height).unwrap();
        let key = consensus_state_key(&client, &height);
        assert_eq!(
            key.path,
            format!("ibc/clients/07-tendermint-12/consensusStates/{revision_number}-{revision_height}")
        );
        assert_eq!(key.path, format!("{}/{}", consensus_state_prefix(&client).path, height.to_text()));
        assert_eq!(consensus_height(&key), Some(height));
    }
}

#[test]
fn a_key_of_something_else_names_no_height() {
    assert_eq!(height_of(""), None);
    assert_eq!(height_of("0-14"), None);
    assert_eq!(height_of("ibc/clients/c/clientState"), None);
    assert_eq!(height_of("ibc/clients/c/consensusStates"), None);
    assert_eq!(height_of("ibc/clients/c/consensusStates/"), None);
    assert_eq!(height_of("ibc/clients/c/connections/0-14"), None);
    assert_eq!(height_of("ibc/clients/consensusStates/0-14"), None);
    assert_eq!(height_of("ibc/clients//consensusStates/0-14"), None);
    assert_eq!(height_of("ibc/clients/a/b/consensusStates/0-14"), None);
    assert_eq!(height_of("abc/clients/c/consensusStates/0-14"), None);
    assert_eq!(height_of("/ibc/clients/c/consensusStates/0-14"), None);
    assert_eq!(height_of("ibc/clients/c/consensusStates/0-14/"), None);
}

#[test]
fn a_key_with_a_malformed_height_names_no_height() {
    assert_eq!(height_of("ibc/clients/c/consensusStates/14"), None);
    assert_eq!(height_of("ibc/clients/c/consensusStates/0-"), None);
    assert_eq!(height_of("ibc/clients/c/consensusStates/-14"), None);
    assert_eq!(height_of("ibc/clients/c/consensusStates/0-1-4"), None);
    assert_eq!(height_of("ibc/clients/c/consensusStates/0-1x"), None);
    assert_eq!(height_of("ibc/clients/c/consensusStates/0- 14"), None);
    assert_eq!(height_of("ibc/clients/c/consensusStates/0-18446744073709551616"), None);
    assert_eq!(height_of("ibc/clients/c/consensusStates/18446744073709551616-1"), None);
    assert_eq!(height_of("ibc/clients/c/consensusStates/0-\u{661}"), None);
}

#[test]
fn a_key_with_the_height_zero_names_no_height() {
    assert_eq!(height_of("ibc/clients/c/consensusStates/0-0"), None);
    assert_eq!(height_of("ibc/clients/c/consensusStates/5-000"), None);
}

#[test]
fn numbers_in_keys_are_read_as_the_language_reads_them() {
    assert_eq!(
        height_of("ibc/clients/c/consensusStates/007-0014"),
        Some(Height { revision_number: 7, revision_height: 14 })
    );
    assert_eq!(
        height_of("ibc/clients/c/consensusStates/+7-+14"),
        Some(Height { revision_number: 7, revision_height: 14 })
    );
    for text in [
        "0", "7", "42", "007", "+5", "+", "", "-5", "5-", "1 ", " 1", "1_000", "０",
        "18446744073709551615", "18446744073709551616", "99999999999999999999",
        "000000000000000000000000018446744073709551615", "++1", "1+",
    ] {
        assert_eq!(number(text), text.parse::<u64>().ok());
    }
}

#[test]
fn marks_are_found_by_their_place() {
    let chars = chars_of("a/b-c/d-e");
    assert_eq!(find_last(&chars, '/'), Some(5));
    assert_eq!(find_last(&chars, 'a'), Some(0));
    assert_eq!(find_last(&chars, 'x'), None);
    assert_eq!(find_first(&chars, '-', 0, chars.len()), Some(3));
    assert_eq!(find_first(&chars, '-', 4, chars.len()), Some(7));
    assert_eq!(find_first(&chars, '-', 4, 7), None);
    assert_eq!(find_first(&chars, '-', 3, 3), None);
    assert_eq!(find_last(&chars_of(""), '/'), None);
    assert_eq!(chars_of("h\u{e9}\u{1f980}"), vec!['h', '\u{e9}', '\u{1f980}']);
}
