//! Which utterances are worth classifying.

use loop_engine::engine::sentiment::pretrigger::Pretrigger;

fn pretrigger() -> Pretrigger {
    Pretrigger::default()
}

#[test]
fn fires_on_thanks() {
    assert!(pretrigger().fires_on("thanks!"));
}

#[test]
fn fires_on_thank_you() {
    assert!(pretrigger().fires_on("thank you for that"));
}

#[test]
fn fires_on_perfect() {
    assert!(pretrigger().fires_on("that's perfect"));
}

#[test]
fn fires_on_exactly() {
    assert!(pretrigger().fires_on("exactly what i needed"));
}

#[test]
fn fires_on_great() {
    assert!(pretrigger().fires_on("works great"));
}

#[test]
fn fires_on_nice() {
    assert!(pretrigger().fires_on("nice"));
}

#[test]
fn fires_on_youre_right() {
    assert!(pretrigger().fires_on("you're right"));
}

#[test]
fn fires_on_thats_right_smart_quote() {
    assert!(pretrigger().fires_on("that\u{2019}s right"));
}

#[test]
fn fires_on_awesome() {
    assert!(pretrigger().fires_on("awesome work"));
}

#[test]
fn fires_on_lol() {
    assert!(pretrigger().fires_on("lol"));
}

#[test]
fn fires_on_wrong() {
    assert!(pretrigger().fires_on("this is wrong"));
}

#[test]
fn fires_on_broken() {
    assert!(pretrigger().fires_on("it's broken"));
}

#[test]
fn fires_on_dont_contraction() {
    assert!(pretrigger().fires_on("i don't want that"));
}

#[test]
fn fires_on_doesnt_smart_quote_contraction() {
    assert!(pretrigger().fires_on("it doesn\u{2019}t work"));
}

#[test]
fn fires_on_cant_no_apostrophe() {
    assert!(pretrigger().fires_on("you cant do that"));
}

#[test]
fn fires_on_stop() {
    assert!(pretrigger().fires_on("stop"));
}

#[test]
fn fires_on_no() {
    assert!(pretrigger().fires_on("no"));
}

#[test]
fn fires_on_ugh() {
    assert!(pretrigger().fires_on("ugh"));
}

#[test]
fn fires_on_wtf() {
    assert!(pretrigger().fires_on("wtf"));
}

#[test]
fn fires_on_interrupt_sentinel() {
    assert!(pretrigger().fires_on("[Request interrupted by user]"));
}

#[test]
fn does_not_fire_on_empty_string() {
    assert!(!pretrigger().fires_on(""));
}

#[test]
fn does_not_fire_on_neutral_text() {
    assert!(!pretrigger()
        .fires_on("could you read the file at src/main.rs and tell me the imports"));
}

#[test]
fn does_not_fire_on_thanksgiving_substring() {
    let fires = pretrigger().fires_on("happy thanksgiving");
    assert!(!fires, "'thanksgiving' should not pretrigger");
}

#[test]
fn fires_on_thanks_with_emoji_suffix() {
    assert!(pretrigger().fires_on("thanks 🙏"));
}

#[test]
fn fires_on_mixed_case() {
    assert!(pretrigger().fires_on("THANKS!"));
    assert!(pretrigger().fires_on("ThAnKs"));
}

#[test]
fn fires_on_thanks_with_leading_punct() {
    assert!(pretrigger().fires_on("...thanks"));
}

#[test]
fn does_not_fire_on_noted_substring() {
    assert!(!pretrigger().fires_on("noted"));
}

#[test]
fn does_not_fire_on_innot_substring() {
    assert!(!pretrigger().fires_on("hello annotation"));
    assert!(pretrigger().fires_on("cannot do that"));
}

#[test]
fn fires_on_perfect_within_longer_sentence() {
    assert!(pretrigger().fires_on("this is the perfect amount of detail thank you"));
}

#[test]
fn custom_pattern_matches_only_its_own_lexicon() {
    let custom = Pretrigger::with_pattern(r"(?i)\bfoobar\b").unwrap();
    assert!(custom.fires_on("foobar"));
    assert!(!custom.fires_on("thanks"));
}

#[test]
fn a_pattern_that_does_not_compile_is_refused() {
    let error = Pretrigger::with_pattern("(unclosed").unwrap_err();
    assert!(error.contains("unclosed group"), "{error}");
}
