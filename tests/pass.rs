use file_mover::pass::{Action, Entry, Outcome, Pass};
use file_mover::rules::{Kind, Rule, RuleSet};

fn rule(pattern: &str, path: &str, directory: Option<bool>) -> Rule {
    Rule::new(pattern.to_string(), path.to_string(), directory)
}

fn entry(name: &str, dir: &str, kind: Kind) -> Entry {
    Entry::new(Some(name.to_string()), format!("{}/{}", dir, name), kind)
}

fn expect_match(pass: &mut Pass, name: &str, pattern: &str, dest: &str) {
    match pass.advance() {
        Action::Matched { name: n, pattern: p, dest: d } => {
            assert_eq!(n, name);
            assert_eq!(p, pattern);
            assert_eq!(d, dest);
        }
        _ => panic!("expected a match of {} with {}", name, pattern),
    }
}

fn expect_move(pass: &mut Pass, from: &str, to: &str) {
    match pass.resolve(true) {
        Outcome::Move { from: f, to: t } => {
            assert_eq!(f, from);
            assert_eq!(t, to);
        }
        Outcome::Skip { .. } => panic!("expected a move"),
    }
}

fn expect_finished(pass: &mut Pass) {
    assert!(matches!(pass.advance(), Action::Finished));
}

#[test]
fn file_rule_moves_file_and_leaves_directory() {
    let rules = RuleSet::from_rules(vec![rule("report", "/archive", Some(false))]);
    let entries = vec![
        entry("report_jan.txt", "/work", Kind::File),
        entry("reports", "/work", Kind::Directory),
    ];
    let mut pass = Pass::new(entries, rules);
    expect_match(&mut pass, "report_jan.txt", "report", "/archive");
    expect_move(&mut pass, "/work/report_jan.txt", "/archive/report_jan.txt");
    expect_finished(&mut pass);
}

#[test]
fn missing_destination_is_skipped() {
    let rules = RuleSet::from_rules(vec![rule("x", "/missing", None)]);
    let mut pass = Pass::new(vec![entry("x.log", "/work", Kind::File)], rules);
    expect_match(&mut pass, "x.log", "x", "/missing");
    match pass.resolve(false) {
        Outcome::Skip { dest } => assert_eq!(dest, "/missing"),
        Outcome::Move { .. } => panic!("expected a skip"),
    }
    expect_finished(&mut pass);
}

#[test]
fn overlapping_rules_move_in_sequence() {
    let rules = RuleSet::from_rules(vec![rule("v", "/first", None), rule("mkv", "/second", None)]);
    let mut pass = Pass::new(vec![entry("video.mkv", "/work", Kind::File)], rules);
    expect_match(&mut pass, "video.mkv", "v", "/first");
    expect_move(&mut pass, "/work/video.mkv", "/first/video.mkv");
    expect_match(&mut pass, "video.mkv", "mkv", "/second");
    expect_move(&mut pass, "/first/video.mkv", "/second/video.mkv");
    expect_finished(&mut pass);
}

#[test]
fn skipped_match_keeps_place_for_later_rules() {
    let rules = RuleSet::from_rules(vec![rule("v", "/missing", None), rule("mkv", "/second", None)]);
    let mut pass = Pass::new(vec![entry("video.mkv", "/work", Kind::File)], rules);
    expect_match(&mut pass, "video.mkv", "v", "/missing");
    assert!(matches!(pass.resolve(false), Outcome::Skip { .. }));
    expect_match(&mut pass, "video.mkv", "mkv", "/second");
    expect_move(&mut pass, "/work/video.mkv", "/second/video.mkv");
    expect_finished(&mut pass);
}

#[test]
fn empty_directory_has_nothing_to_move() {
    let rules = RuleSet::from_rules(vec![rule("x", "/dest", None)]);
    let mut pass = Pass::new(Vec::new(), rules);
    assert!(matches!(pass.advance(), Action::NothingToMove));
}

#[test]
fn no_rules_finish_at_once() {
    let mut pass = Pass::new(vec![entry("a.txt", "/work", Kind::File)], RuleSet::new());
    expect_finished(&mut pass);
}

#[test]
fn entry_without_text_name_matches_nothing() {
    let rules = RuleSet::from_rules(vec![rule("", "/dest", None)]);
    let entries = vec![
        Entry::new(None, "/work/odd".to_string(), Kind::File),
        entry("b.txt", "/work", Kind::File),
    ];
    let mut pass = Pass::new(entries, rules);
    expect_match(&mut pass, "b.txt", "", "/dest");
    expect_move(&mut pass, "/work/b.txt", "/dest/b.txt");
    expect_finished(&mut pass);
}

#[test]
fn each_entry_starts_at_its_own_path() {
    let rules = RuleSet::from_rules(vec![rule(".txt", "/texts/", None)]);
    let entries = vec![entry("a.txt", "/work", Kind::File), entry("b.txt", "/work", Kind::File)];
    let mut pass = Pass::new(entries, rules);
    expect_match(&mut pass, "a.txt", ".txt", "/texts/");
    expect_move(&mut pass, "/work/a.txt", "/texts/a.txt");
    expect_match(&mut pass, "b.txt", ".txt", "/texts/");
    expect_move(&mut pass, "/work/b.txt", "/texts/b.txt");
    expect_finished(&mut pass);
}

#[test]
fn entry_of_other_kind_matches_nothing() {
    let rules = RuleSet::from_rules(vec![rule("a", "/files", None), rule("a", "/dirs", Some(true))]);
    let mut pass = Pass::new(vec![entry("a.lnk", "/work", Kind::Other)], rules);
    expect_finished(&mut pass);
}
