use blue_bird::records::{decode_variables, variable_names, VariableRecord};

fn strings(items: &[&str]) -> Vec<String> {
    items.iter().map(|s| s.to_string()).collect()
}

fn decode_ok(body: &str) -> Vec<VariableRecord> {
    match decode_variables(body) {
        Ok(records) => records,
        Err(e) => panic!("body {:?} should decode, failed at offset {}", body, e.offset),
    }
}

fn decode_err(body: &str) {
    assert!(decode_variables(body).is_err(), "body {:?} should not decode", body);
}

#[test]
fn well_formed_array_yields_sorted_names() {
    let records = decode_ok("[{\"name\": \"FOO\"}, {\"name\": \"BAR\"}]");
    let names = variable_names(&records);
    assert_eq!(names, strings(&["BAR", "FOO"]));
}

#[test]
fn top_level_object_fails() {
    decode_err("{}");
    decode_err("{\"name\": \"FOO\"}");
}

#[test]
fn top_level_scalar_fails() {
    decode_err("null");
    decode_err("3");
    decode_err("\"FOO\"");
}

#[test]
fn empty_array_yields_no_records() {
    let records = decode_ok("  [ ]  ");
    assert!(records.is_empty());
    assert!(variable_names(&records).is_empty());
}

#[test]
fn record_missing_its_name_fails() {
    decode_err("[{\"value\": \"x\"}]");
    decode_err("[{}]");
}

#[test]
fn null_name_fails() {
    decode_err("[{\"name\": null}]");
}

#[test]
fn empty_name_fails() {
    decode_err("[{\"name\": \"\"}]");
}

#[test]
fn non_string_name_fails() {
    decode_err("[{\"name\": 3}]");
    decode_err("[{\"name\": [\"A\"]}]");
}

#[test]
fn duplicate_names_are_tolerated_and_deduplicated() {
    let records = decode_ok("[{\"name\": \"A\"}, {\"name\": \"A\"}, {\"name\": \"B\"}]");
    assert_eq!(records.len(), 3);
    assert_eq!(variable_names(&records), strings(&["A", "B"]));
}

#[test]
fn duplicate_member_in_one_record_fails() {
    decode_err("[{\"name\": \"A\", \"name\": \"B\"}]");
    decode_err("[{\"name\": \"A\", \"value\": \"x\", \"value\": \"y\"}]");
}

#[test]
fn optional_members_are_decoded() {
    let records = decode_ok(
        "[{\"name\": \"A\", \"variable_type\": \"env_var\", \"value\": \"v\", \
         \"protected\": true, \"masked\": false, \"environment_scope\": \"*\"}]",
    );
    assert_eq!(records.len(), 1);
    assert_eq!(records[0].name, "A");
    assert_eq!(records[0].kind, Some("env_var".to_string()));
    assert_eq!(records[0].value, Some("v".to_string()));
    assert_eq!(records[0].protected, Some(true));
    assert_eq!(records[0].masked, Some(false));
    assert_eq!(records[0].scope, Some("*".to_string()));
}

#[test]
fn absent_and_null_members_are_absent() {
    let records = decode_ok("[{\"name\": \"A\", \"value\": null, \"protected\": null}]");
    assert_eq!(records[0].kind, None);
    assert_eq!(records[0].value, None);
    assert_eq!(records[0].protected, None);
    assert_eq!(records[0].masked, None);
    assert_eq!(records[0].scope, None);
}

#[test]
fn unknown_members_are_skipped_whatever_their_shape() {
    let records = decode_ok(
        "[{\"name\": \"A\", \"extra\": {\"x\": [1, 2.5, -3e+2, {\"y\": null}], \"z\": \"s\"}, \
         \"more\": [[], {}], \"n\": true}]",
    );
    assert_eq!(records.len(), 1);
    assert_eq!(records[0].name, "A");
}

#[test]
fn escapes_are_decoded_in_strings() {
    let records = decode_ok("[{\"name\": \"F\\u004F\\u004F\", \"value\": \"a\\nb\\t\\\"c\\\\\"}]");
    assert_eq!(records[0].name, "FOO");
    assert_eq!(records[0].value, Some("a\nb\t\"c\\".to_string()));
}

#[test]
fn surrogate_pair_escape_decodes_to_one_character() {
    let records = decode_ok("[{\"name\": \"A\", \"value\": \"\\uD83D\\uDE00\"}]");
    assert_eq!(records[0].value, Some("\u{1F600}".to_string()));
}

#[test]
fn lone_surrogate_escape_fails() {
    decode_err("[{\"name\": \"A\", \"value\": \"\\uD83D\"}]");
    decode_err("[{\"name\": \"A\", \"value\": \"\\uDE00\"}]");
}

#[test]
fn unescaped_control_character_fails() {
    decode_err("[{\"name\": \"A\nB\"}]");
}

#[test]
fn malformed_numbers_fail_even_in_skipped_members() {
    decode_err("[{\"name\": \"A\", \"x\": 01}]");
    decode_err("[{\"name\": \"A\", \"x\": -}]");
    decode_err("[{\"name\": \"A\", \"x\": 1.}]");
}

#[test]
fn trailing_input_after_the_array_fails() {
    decode_err("[] x");
    decode_err("[{\"name\": \"A\"}],");
}

#[test]
fn unterminated_input_fails() {
    decode_err("[");
    decode_err("[{\"name\": \"A\"}");
    decode_err("[{\"name\": \"A\"");
    decode_err("[{\"name\": \"A");
}

#[test]
fn whitespace_is_tolerated_between_elements() {
    let records = decode_ok(" [ { \"name\" :\t\"A\" } ,\r\n { \"name\" : \"B\" } ] ");
    assert_eq!(variable_names(&records), strings(&["A", "B"]));
}

#[test]
fn non_ascii_names_round_trip() {
    let records = decode_ok("[{\"name\": \"G\u{00FC}\u{00EB}\"}]");
    assert_eq!(records[0].name, "G\u{00FC}\u{00EB}");
}
