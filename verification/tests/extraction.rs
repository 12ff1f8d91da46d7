use blue_bird::extract::extract_tokens;

fn strings(items: &[&str]) -> Vec<String> {
    items.iter().map(|s| s.to_string()).collect()
}

#[test]
fn two_references_and_a_bare_sigil() {
    let tokens = extract_tokens("echo $FOO and $BAR and $");
    assert_eq!(tokens, strings(&["BAR", "FOO"]));
}

#[test]
fn empty_text_yields_no_tokens() {
    let tokens = extract_tokens("");
    assert!(tokens.is_empty());
}

#[test]
fn text_without_sigils_yields_no_tokens() {
    let tokens = extract_tokens("plain text, no references at all");
    assert!(tokens.is_empty());
}

#[test]
fn repeated_reference_appears_once() {
    let tokens = extract_tokens("$A $A something $A");
    assert_eq!(tokens, strings(&["A"]));
}

#[test]
fn doubled_sigil_keeps_the_named_reference() {
    let tokens = extract_tokens("$$FOO");
    assert_eq!(tokens, strings(&["FOO"]));
}

#[test]
fn case_is_preserved_and_distinguished() {
    let tokens = extract_tokens("$foo $FOO");
    assert_eq!(tokens, strings(&["FOO", "foo"]));
}

#[test]
fn underscore_and_digits_belong_to_a_name() {
    let tokens = extract_tokens("run $VAR_1x then $2GO");
    assert_eq!(tokens, strings(&["2GO", "VAR_1x"]));
}

#[test]
fn name_ends_at_the_first_other_character() {
    let tokens = extract_tokens("echo $HOME/dir and ${BRACED}");
    assert_eq!(tokens, strings(&["HOME"]));
}

#[test]
fn every_token_is_non_empty_and_of_identifier_characters() {
    let tokens = extract_tokens("x=$A_1; y=$; z=$B2 $C_ $ $$D");
    assert!(!tokens.is_empty());
    for t in &tokens {
        assert!(!t.is_empty());
        assert!(t.chars().all(|c| c.is_ascii_alphanumeric() || c == '_'));
    }
    let expected: Vec<String> = ["A_1", "B2", "C_", "D"].iter().map(|s| s.to_string()).collect();
    assert_eq!(tokens, expected);
}

#[test]
fn extraction_is_idempotent_on_the_same_text() {
    let text = "line one $A\nline two $B and $A\n";
    let first = extract_tokens(text);
    let second = extract_tokens(text);
    assert_eq!(first, second);
    assert_eq!(first, strings(&["A", "B"]));
}

#[test]
fn multiline_text_is_scanned_throughout() {
    let tokens = extract_tokens("a: $ONE\nb: $TWO\nc: $ONE\n");
    assert_eq!(tokens, strings(&["ONE", "TWO"]));
}

#[test]
fn tokens_are_sorted_and_deduplicated() {
    let tokens = extract_tokens("$zeta $alpha $mid $alpha $zeta");
    assert_eq!(tokens, strings(&["alpha", "mid", "zeta"]));
}
