//! The wire codec, exercised end to end through `Command` and `Parsed`.

use wsrouter::command::Command;
use wsrouter::params::Params;
use wsrouter::parser::Parsed;

fn get<'a>(params: &'a Params, key: &str) -> Option<&'a String> {
    params.get(&key.to_string())
}

#[test]
fn decode_simple_pair() {
    let parsed = Parsed::parse("@X #k 'v'".to_string());
    assert_eq!(parsed.command, "X");
    assert_eq!(parsed.params.len(), 1);
    assert_eq!(get(&parsed.params, "k"), Some(&"v".to_string()));
}

#[test]
fn decode_without_command_marker() {
    let parsed = Parsed::parse("hello world".to_string());
    assert_eq!(parsed.command, "");
    assert_eq!(parsed.params.len(), 0);
}

#[test]
fn decode_bare_command() {
    let parsed = Parsed::parse("@PING".to_string());
    assert_eq!(parsed.command, "PING");
    assert_eq!(parsed.params.len(), 0);
}

#[test]
fn decode_empty_text() {
    let parsed = Parsed::parse("".to_string());
    assert_eq!(parsed.command, "");
    assert_eq!(parsed.params.len(), 0);
}

#[test]
fn encode_bare_command() {
    let params = Params::new();
    assert_eq!(Command::from("PING", &params), "@PING");
}

#[test]
fn encode_one_pair() {
    let mut params = Params::new();
    params.insert("to".to_string(), "alice".to_string());
    assert_eq!(Command::from("SEND", &params), "@SEND #to 'alice'");
}

#[test]
fn encode_two_pairs_in_insertion_order() {
    let mut params = Params::new();
    params.insert("x".to_string(), "1".to_string());
    params.insert("y".to_string(), "2".to_string());
    assert_eq!(Command::from("MOVE", &params), "@MOVE #x '1' #y '2'");
}

#[test]
fn round_trip_two_pairs() {
    let mut params = Params::new();
    params.insert("x".to_string(), "10".to_string());
    params.insert("msg".to_string(), "hello there".to_string());
    let wire = Command::from("MOVE", &params);
    let (name, decoded) = Command::parse(wire).extract();
    assert_eq!(name, "MOVE");
    assert_eq!(decoded.len(), 2);
    assert_eq!(get(&decoded, "x"), Some(&"10".to_string()));
    assert_eq!(get(&decoded, "msg"), Some(&"hello there".to_string()));
}

#[test]
fn round_trip_empty_value() {
    let mut params = Params::new();
    params.insert("k".to_string(), "".to_string());
    let wire = Command::from("X", &params);
    let (name, decoded) = Command::parse(wire).extract();
    assert_eq!(name, "X");
    assert_eq!(get(&decoded, "k"), Some(&"".to_string()));
}

#[test]
fn repeated_key_last_occurrence_wins() {
    let parsed = Parsed::parse("@X #k 'a' #k 'b'".to_string());
    assert_eq!(parsed.params.len(), 1);
    assert_eq!(get(&parsed.params, "k"), Some(&"b".to_string()));
}

#[test]
fn trailing_unpaired_token_is_dropped() {
    let parsed = Parsed::parse("@X #k".to_string());
    assert_eq!(parsed.command, "X");
    assert_eq!(parsed.params.len(), 0);
}

#[test]
fn pair_without_hash_key_is_skipped() {
    let parsed = Parsed::parse("@X k v".to_string());
    assert_eq!(parsed.params.len(), 0);
}

#[test]
fn quoted_value_keeps_whitespace() {
    let parsed = Parsed::parse("@X #k 'a b  c'".to_string());
    assert_eq!(get(&parsed.params, "k"), Some(&"a b  c".to_string()));
}

#[test]
fn double_quoted_value() {
    let parsed = Parsed::parse("@X #k \"v w\"".to_string());
    assert_eq!(get(&parsed.params, "k"), Some(&"v w".to_string()));
}

#[test]
fn quote_ends_at_same_quote_kind() {
    let parsed = Parsed::parse("@X #k 'he said \"hi\" there'".to_string());
    assert_eq!(get(&parsed.params, "k"), Some(&"he said \"hi\" there".to_string()));
}

#[test]
fn quote_characters_at_value_edges_are_trimmed() {
    let parsed = Parsed::parse("@X #k '\"hi\"'".to_string());
    assert_eq!(get(&parsed.params, "k"), Some(&"hi".to_string()));
}

#[test]
fn unterminated_quote_runs_to_end() {
    let parsed = Parsed::parse("@X #k 'abc".to_string());
    assert_eq!(get(&parsed.params, "k"), Some(&"abc".to_string()));
}

#[test]
fn value_is_trimmed_of_whitespace_and_quotes() {
    let parsed = Parsed::parse("@X #k ' v '".to_string());
    assert_eq!(get(&parsed.params, "k"), Some(&"v".to_string()));
}

#[test]
fn command_extract_clones_both_parts() {
    let cmd = Command::parse("@GO #a '1'".to_string());
    let (name1, params1) = cmd.extract();
    let (name2, params2) = cmd.extract();
    assert_eq!(name1, name2);
    assert_eq!(params1.len(), params2.len());
    assert_eq!(get(&params1, "a"), Some(&"1".to_string()));
}
