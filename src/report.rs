use vstd::prelude::*;

use crate::rules::{Rule, RuleSet, RuleView};

verus! {

/// The colours that reports use.
#[derive(Clone, Copy, PartialEq, Eq, Structural)]
pub enum Hue {
    Red,
    Green,
    Blue,
}

/// The SGR code that selects a hue as the foreground colour.
pub open spec fn hue_code(hue: Hue) -> Seq<char> {
    match hue {
        Hue::Red => seq!['3', '1'],
        Hue::Green => seq!['3', '2'],
        Hue::Blue => seq!['3', '4'],
    }
}

/// `text` painted in `hue` for a terminal: the escape sequence that selects
/// the colour, the text, and the sequence that resets the style.
pub open spec fn painted(hue: Hue, text: Seq<char>) -> Seq<char> {
    seq!['\x1b', '['] + hue_code(hue) + seq!['m'] + text + seq!['\x1b', '[', '0', 'm']
}

/// Relies on ansi_term's `Colour::paint` and the `Display` of what it
/// returns: a plain foreground colour is written as its escape sequence, the
/// text, and the reset sequence.
#[verifier::external_body]
fn paint(hue: Hue, text: &str) -> (r: String)
    ensures
        r@ == painted(hue, text@),
{
    let colour = match hue {
        Hue::Red => ansi_term::Colour::Red,
        Hue::Green => ansi_term::Colour::Green,
        Hue::Blue => ansi_term::Colour::Blue,
    };
    colour.paint(text).to_string()
}

/// The line that lists a rule: its pattern in green and its destination in blue.
pub open spec fn rule_line(r: RuleView) -> Seq<char> {
    seq!['('] + painted(Hue::Green, r.pattern) + seq![' ', '-', '>', ' ', ' '] + painted(
        Hue::Blue,
        r.path,
    ) + seq![')']
}

/// The line that reports a match of the entry `name` with `pattern`.
pub open spec fn matching_line(name: Seq<char>, pattern: Seq<char>) -> Seq<char> {
    "Matching "@ + painted(Hue::Green, name) + " with "@ + painted(Hue::Blue, pattern)
}

/// The line that reports a destination that is missing or not a directory.
pub open spec fn skipping_line(dest: Seq<char>) -> Seq<char> {
    "Skipping "@ + painted(Hue::Red, dest) + " as it does not exist or is not a directory"@
}

/// The context of a failed rename of the entry `name` to `to`.
pub open spec fn move_failed_line(name: Seq<char>, to: Seq<char>) -> Seq<char> {
    "Moving file from "@ + painted(Hue::Green, name) + " to "@ + painted(Hue::Blue, to)
        + " did not succeed"@
}

/// Renders a rule for the rule listing.
pub fn rule_line_of(rule: &Rule) -> (r: String)
    ensures
        r@ == rule_line(rule@),
{
    let mut r = String::from_str("(");
    let p = paint(Hue::Green, rule.pattern.as_str());
    r.append(p.as_str());
    r.append(" ->  ");
    let d = paint(Hue::Blue, rule.path.as_str());
    r.append(d.as_str());
    r.append(")");
    proof {
        reveal_strlit("(");
        reveal_strlit(" ->  ");
        reveal_strlit(")");
        assert(r@ =~= rule_line(rule@));
    }
    r
}

impl RuleSet {
    /// One listing line per rule, in the rules' order.
    pub fn listing(&self) -> (r: Vec<String>)
        ensures
            r@.len() == self@.len(),
            forall|i: int| 0 <= i < self@.len() ==> (#[trigger] r@[i])@ == rule_line(self@[i]),
    {
        let mut r: Vec<String> = Vec::new();
        let mut i: usize = 0;
        while i < self.moves.len()
            invariant
                i <= self@.len(),
                self@.len() == self.moves@.len(),
                r@.len() == i,
                forall|k: int| 0 <= k < i ==> (#[trigger] r@[k])@ == rule_line(self@[k]),
            decreases self.moves@.len() - i,
        {
            assert(self.moves[i as int]@ == self@[i as int]);
            r.push(rule_line_of(&self.moves[i]));
            i = i + 1;
        }
        r
    }
}

/// The report of a match, for `Action::Matched`.
pub fn matching_message(name: &str, pattern: &str) -> (r: String)
    ensures
        r@ == matching_line(name@, pattern@),
{
    let mut r = String::from_str("Matching ");
    r.append(paint(Hue::Green, name).as_str());
    r.append(" with ");
    r.append(paint(Hue::Blue, pattern).as_str());
    proof {
        assert(r@ =~= matching_line(name@, pattern@));
    }
    r
}

/// The report of a skipped match, for `Outcome::Skip`.
pub fn skipping_message(dest: &str) -> (r: String)
    ensures
        r@ == skipping_line(dest@),
{
    let mut r = String::from_str("Skipping ");
    r.append(paint(Hue::Red, dest).as_str());
    r.append(" as it does not exist or is not a directory");
    proof {
        assert(r@ =~= skipping_line(dest@));
    }
    r
}

/// The context given to a failed rename of the entry `name` to `to`.
pub fn move_failed_message(name: &str, to: &str) -> (r: String)
    ensures
        r@ == move_failed_line(name@, to@),
{
    let mut r = String::from_str("Moving file from ");
    r.append(paint(Hue::Green, name).as_str());
    r.append(" to ");
    r.append(paint(Hue::Blue, to).as_str());
    r.append(" did not succeed");
    proof {
        assert(r@ =~= move_failed_line(name@, to@));
    }
    r
}

} // verus!
