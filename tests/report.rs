use file_mover::report::{matching_message, move_failed_message, rule_line_of, skipping_message};
use file_mover::rules::{Rule, RuleSet};

#[test]
fn rule_line_paints_pattern_and_destination() {
    let r = Rule::new("foo".to_string(), "/dest".to_string(), None);
    assert_eq!(rule_line_of(&r), "(\u{1b}[32mfoo\u{1b}[0m ->  \u{1b}[34m/dest\u{1b}[0m)");
}

#[test]
fn listing_follows_rule_order() {
    let mut set = RuleSet::new();
    set.add("b".to_string(), "/2".to_string());
    set.add("a".to_string(), "/1".to_string());
    let lines = set.listing();
    assert_eq!(lines.len(), 2);
    assert_eq!(lines[0], "(\u{1b}[32mb\u{1b}[0m ->  \u{1b}[34m/2\u{1b}[0m)");
    assert_eq!(lines[1], "(\u{1b}[32ma\u{1b}[0m ->  \u{1b}[34m/1\u{1b}[0m)");
    assert!(RuleSet::new().listing().is_empty());
}

#[test]
fn match_and_skip_messages() {
    assert_eq!(
        matching_message("x.log", "x"),
        "Matching \u{1b}[32mx.log\u{1b}[0m with \u{1b}[34mx\u{1b}[0m"
    );
    assert_eq!(
        skipping_message("/missing"),
        "Skipping \u{1b}[31m/missing\u{1b}[0m as it does not exist or is not a directory"
    );
    assert_eq!(
        move_failed_message("a", "/b/a"),
        "Moving file from \u{1b}[32ma\u{1b}[0m to \u{1b}[34m/b/a\u{1b}[0m did not succeed"
    );
}
