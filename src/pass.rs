use vstd::prelude::*;

use crate::matching::{join, joined};
use crate::rules::{rule_matches, Kind, Rule, RuleSet, RuleView};

verus! {

/// What a scanned entry is, as mathematical values.
pub ghost struct EntryView {
    pub name: Option<Seq<char>>,
    pub path: Seq<char>,
    pub kind: Kind,
}

/// One immediate entry of the scanned directory. `name` is its base
/// filename, or `None` where that name is not valid text; such an entry
/// matches no rule.
pub struct Entry {
    pub name: Option<String>,
    pub path: String,
    pub kind: Kind,
}

impl View for Entry {
    type V = EntryView;

    open spec fn view(&self) -> EntryView {
        EntryView {
            name: match self.name {
                Some(n) => Some(n@),
                None => None,
            },
            path: self.path@,
            kind: self.kind,
        }
    }
}

impl Entry {
    pub fn new(name: Option<String>, path: String, kind: Kind) -> (r: Entry)
        ensures
            r.name == name,
            r.path == path,
            r.kind == kind,
    {
        Entry { name, path, kind }
    }
}

/// Entry `e` matches rule `r`.
pub open spec fn pair_matches(entries: Seq<EntryView>, rules: Seq<RuleView>, e: int, r: int) -> bool {
    match entries[e].name {
        Some(n) => rule_matches(rules[r], n, entries[e].kind),
        None => false,
    }
}

/// The pair `(e1, r1)` comes before `(e2, r2)`: every rule is tried on an
/// entry before the next entry is taken.
pub open spec fn before(e1: int, r1: int, e2: int, r2: int) -> bool {
    e1 < e2 || (e1 == e2 && r1 < r2)
}

/// No pair from `(e1, r1)` up to, but not including, `(e2, r2)` matches.
pub open spec fn none_match_between(
    entries: Seq<EntryView>,
    rules: Seq<RuleView>,
    e1: int,
    r1: int,
    e2: int,
    r2: int,
) -> bool {
    forall|e: int, r: int|
        0 <= e < entries.len() && 0 <= r < rules.len() && !before(e, r, e1, r1) && before(
            e,
            r,
            e2,
            r2,
        ) ==> !#[trigger] pair_matches(entries, rules, e, r)
}

/// Where entry `e` is after rules `0..r` have been tried on it, given for
/// each pair that matched whether its destination was an existing directory
/// (`valid`). A match with a valid destination moves the entry into it under
/// its own name; any other pair leaves it where it is. So an entry ends in
/// the destination of the last rule that matched it with a valid
/// destination, or where it was found.
pub open spec fn location(
    entries: Seq<EntryView>,
    rules: Seq<RuleView>,
    valid: Map<(int, int), bool>,
    e: int,
    r: int,
) -> Seq<char>
    decreases r,
{
    if r <= 0 {
        entries[e].path
    } else if pair_matches(entries, rules, e, r - 1) && valid.dom().contains((e, r - 1)) && valid[(
    e,
    r - 1,
    )] {
        joined(rules[r - 1].path, entries[e].name->Some_0)
    } else {
        location(entries, rules, valid, e, r - 1)
    }
}

/// An answer recorded for rule `k` does not change where the entry is before
/// that rule is tried.
proof fn lemma_location_ignores_later(
    entries: Seq<EntryView>,
    rules: Seq<RuleView>,
    valid: Map<(int, int), bool>,
    e: int,
    k: int,
    b: bool,
    r: int,
)
    requires
        r <= k,
    ensures
        location(entries, rules, valid.insert((e, k), b), e, r) == location(
            entries,
            rules,
            valid,
            e,
            r,
        ),
    decreases r,
{
    if r > 0 {
        lemma_location_ignores_later(entries, rules, valid, e, k, b, r - 1);
    }
}

/// The pair moves its entry: the rule matches and its destination was an
/// existing directory.
pub open spec fn moves_entry(
    entries: Seq<EntryView>,
    rules: Seq<RuleView>,
    valid: Map<(int, int), bool>,
    e: int,
    r: int,
) -> bool {
    pair_matches(entries, rules, e, r) && valid.dom().contains((e, r)) && valid[(e, r)]
}

/// An entry stays where it was found unless some rule both matches it (its
/// pattern occurs in the entry's name and the entry has the rule's kind) and
/// has a destination that is an existing directory. In particular entries
/// that match no rule, and entries whose matching rules all point at missing
/// or non-directory destinations, are left in place.
pub proof fn lemma_stays_without_valid_match(
    entries: Seq<EntryView>,
    rules: Seq<RuleView>,
    valid: Map<(int, int), bool>,
    e: int,
    r: int,
)
    requires
        forall|k: int| 0 <= k < r ==> !#[trigger] moves_entry(entries, rules, valid, e, k),
    ensures
        location(entries, rules, valid, e, r) == entries[e].path,
    decreases r,
{
    if r > 0 {
        assert(!moves_entry(entries, rules, valid, e, r - 1));
        lemma_stays_without_valid_match(entries, rules, valid, e, r - 1);
    }
}

/// Rules are applied in sequence, not first match wins: an entry ends in the
/// destination of the last rule that matched it with a valid destination.
pub proof fn lemma_last_valid_match_wins(
    entries: Seq<EntryView>,
    rules: Seq<RuleView>,
    valid: Map<(int, int), bool>,
    e: int,
    k: int,
    r: int,
)
    requires
        0 <= k < r,
        moves_entry(entries, rules, valid, e, k),
        forall|j: int| k < j < r ==> !#[trigger] moves_entry(entries, rules, valid, e, j),
    ensures
        location(entries, rules, valid, e, r) == joined(rules[k].path, entries[e].name->Some_0),
    decreases r,
{
    if r > k + 1 {
        assert(!moves_entry(entries, rules, valid, e, r - 1));
        lemma_last_valid_match_wins(entries, rules, valid, e, k, r - 1);
    }
}

/// The state of a pass, as mathematical values.
pub ghost struct PassView {
    pub entries: Seq<EntryView>,
    pub rules: Seq<RuleView>,
    /// The entry under consideration.
    pub entry: int,
    /// The next rule to try on it, or the matching rule while awaiting.
    pub rule: int,
    /// Where the entry under consideration is now.
    pub current: Seq<char>,
    /// A match was reported and waits for `resolve`.
    pub awaiting: bool,
    /// For each match settled so far, whether its destination was valid.
    pub valid: Map<(int, int), bool>,
}

/// What the caller does next.
pub enum Action {
    /// The directory has no entries: nothing is moved.
    NothingToMove,
    /// Every pair of entry and rule has been tried.
    Finished,
    /// The entry named `name` matches the rule with `pattern`. The caller
    /// checks whether `dest` is an existing directory and passes the answer
    /// to `resolve`.
    Matched { name: String, pattern: String, dest: String },
}

/// What becomes of a match.
pub enum Outcome {
    /// The destination is missing or not a directory: the entry stays.
    Skip { dest: String },
    /// Rename the entry from `from` to `to`.
    Move { from: String, to: String },
}

/// One pass of matching and moving: every rule is tried on every entry, in
/// order, and a moved entry is tried by later rules at its new place.
pub struct Pass {
    entries: Vec<Entry>,
    rules: Vec<Rule>,
    entry: usize,
    rule: usize,
    current: String,
    awaiting: bool,
    valid: Ghost<Map<(int, int), bool>>,
}

impl View for Pass {
    type V = PassView;

    closed spec fn view(&self) -> PassView {
        PassView {
            entries: self.entries@.map_values(|e: Entry| e@),
            rules: self.rules@.map_values(|r: Rule| r@),
            entry: self.entry as int,
            rule: self.rule as int,
            current: self.current@,
            awaiting: self.awaiting,
            valid: self.valid@,
        }
    }
}

impl Pass {
    /// The state's invariant.
    pub open spec fn wf(&self) -> bool {
        let v = self@;
        &&& 0 <= v.entry <= v.entries.len()
        &&& 0 <= v.rule
        &&& v.rules.len() <= usize::MAX
        &&& v.entry < v.entries.len() ==> v.rule <= v.rules.len()
        &&& v.entry < v.entries.len() ==> v.current == location(
            v.entries,
            v.rules,
            v.valid,
            v.entry,
            v.rule,
        )
        &&& forall|e: int, r: int|
            #![trigger v.valid.dom().contains((e, r))]
            v.valid.dom().contains((e, r)) ==> before(e, r, v.entry, v.rule)
        &&& v.awaiting ==> v.entry < v.entries.len() && v.rule < v.rules.len()
            && pair_matches(v.entries, v.rules, v.entry, v.rule)
    }

    /// A pass over `entries` with the rules of `rules`, before any pair is tried.
    pub fn new(entries: Vec<Entry>, rules: RuleSet) -> (r: Pass)
        ensures
            r.wf(),
            r@.entries == entries@.map_values(|e: Entry| e@),
            r@.rules == rules@,
            r@.entry == 0,
            r@.rule == 0,
            !r@.awaiting,
            entries@.len() > 0 ==> r@.current == entries@[0]@.path,
            r@.valid == Map::<(int, int), bool>::empty(),
    {
        // Asking for the length tells the verifier that the count fits a usize.
        let _ = rules.len();
        let current = if entries.len() > 0 {
            entries[0].path.clone()
        } else {
            String::new()
        };
        Pass {
            entries,
            rules: rules.moves,
            entry: 0,
            rule: 0,
            current,
            awaiting: false,
            valid: Ghost(Map::empty()),
        }
    }

    /// Whether entry `e` matches rule `r`.
    fn test_pair(&self, e: usize, r: usize) -> (b: bool)
        requires
            e < self@.entries.len(),
            r < self@.rules.len(),
        ensures
            b == pair_matches(self@.entries, self@.rules, e as int, r as int),
    {
        let entry = &self.entries[e];
        assert(entry@ == self@.entries[e as int]);
        assert(self.rules[r as int]@ == self@.rules[r as int]);
        match &entry.name {
            Some(n) => self.rules[r].matches(n.as_str(), entry.kind),
            None => false,
        }
    }

    /// Tries the remaining pairs of entry and rule in order, up to the first
    /// one that matches.
    pub fn advance(&mut self) -> (a: Action)
        requires
            old(self).wf(),
            !old(self)@.awaiting,
        ensures
            final(self).wf(),
            final(self)@.entries == old(self)@.entries,
            final(self)@.rules == old(self)@.rules,
            final(self)@.valid == old(self)@.valid,
            !before(final(self)@.entry, final(self)@.rule, old(self)@.entry, old(self)@.rule),
            none_match_between(
                old(self)@.entries,
                old(self)@.rules,
                old(self)@.entry,
                old(self)@.rule,
                final(self)@.entry,
                final(self)@.rule,
            ),
            final(self)@.entry == old(self)@.entry ==> final(self)@.current == old(self)@.current,
            final(self)@.entry != old(self)@.entry && final(self)@.entry < final(self)@.entries.len()
                ==> final(self)@.current == final(self)@.entries[final(self)@.entry].path,
            match a {
                Action::NothingToMove => old(self)@.entries.len() == 0 && !final(self)@.awaiting,
                Action::Finished => old(self)@.entries.len() > 0 && !final(self)@.awaiting
                    && final(self)@.entry == final(self)@.entries.len(),
                Action::Matched { name, pattern, dest } => final(self)@.awaiting
                    && final(self)@.entries[final(self)@.entry].name == Some(name@)
                    && pattern@ == final(self)@.rules[final(self)@.rule].pattern
                    && dest@ == final(self)@.rules[final(self)@.rule].path,
            },
    {
        let ghost e0 = self@.entry;
        let ghost r0 = self@.rule;
        let ghost c0 = self@.current;
        let n_entries = self.entries.len();
        let n_rules = self.rules.len();
        while self.entry < n_entries
            invariant
                n_entries == self@.entries.len(),
                n_rules == self@.rules.len(),
                e0 == old(self)@.entry,
                r0 == old(self)@.rule,
                c0 == old(self)@.current,
                self.wf(),
                !self@.awaiting,
                self@.entries == old(self)@.entries,
                self@.rules == old(self)@.rules,
                self@.valid == old(self)@.valid,
                !before(self@.entry, self@.rule, e0, r0),
                none_match_between(self@.entries, self@.rules, e0, r0, self@.entry, self@.rule),
                self@.entry == e0 ==> self@.current == c0,
                self@.entry != e0 && self@.entry < n_entries ==> self@.current
                    == self@.entries[self@.entry].path,
            decreases n_entries - self.entry, n_rules + 1 - self.rule,
        {
            if self.rule < n_rules {
                if self.test_pair(self.entry, self.rule) {
                    self.awaiting = true;
                    let name = match &self.entries[self.entry].name {
                        Some(n) => n.clone(),
                        None => String::new(),
                    };
                    assert(self.entries[self.entry as int]@ == self@.entries[self@.entry]);
                    assert(self.rules[self.rule as int]@ == self@.rules[self@.rule]);
                    let pattern = self.rules[self.rule].pattern.clone();
                    let dest = self.rules[self.rule].path.clone();
                    return Action::Matched { name, pattern, dest };
                }
                self.rule = self.rule + 1;
            } else {
                self.entry = self.entry + 1;
                self.rule = 0;
                if self.entry < n_entries {
                    self.current = self.entries[self.entry].path.clone();
                    assert(self.entries[self.entry as int]@ == self@.entries[self@.entry]);
                }
            }
        }
        if n_entries == 0 {
            Action::NothingToMove
        } else {
            Action::Finished
        }
    }

    /// Settles the reported match: with a valid destination the entry moves
    /// into it under its own name and later rules see it there; otherwise it
    /// stays where it is. The next call of `advance` goes on with the
    /// following rule.
    pub fn resolve(&mut self, dest_is_dir: bool) -> (o: Outcome)
        requires
            old(self).wf(),
            old(self)@.awaiting,
        ensures
            final(self).wf(),
            !final(self)@.awaiting,
            final(self)@.entries == old(self)@.entries,
            final(self)@.rules == old(self)@.rules,
            final(self)@.entry == old(self)@.entry,
            final(self)@.rule == old(self)@.rule + 1,
            final(self)@.valid == old(self)@.valid.insert(
                (old(self)@.entry, old(self)@.rule),
                dest_is_dir,
            ),
            ({
                let rule = old(self)@.rules[old(self)@.rule];
                let entry = old(self)@.entries[old(self)@.entry];
                match o {
                    Outcome::Skip { dest } => !dest_is_dir && dest@ == rule.path
                        && final(self)@.current == old(self)@.current,
                    Outcome::Move { from, to } => dest_is_dir && from@ == old(self)@.current
                        && entry.name is Some
                        && to@ == joined(rule.path, entry.name->Some_0)
                        && final(self)@.current == to@,
                }
            }),
    {
        assert(self.entries[self.entry as int]@ == self@.entries[self@.entry]);
        assert(self.rules[self.rule as int]@ == self@.rules[self@.rule]);
        let dest = self.rules[self.rule].path.clone();
        let outcome = if dest_is_dir {
            let to = match &self.entries[self.entry].name {
                Some(n) => join(dest.as_str(), n.as_str()),
                None => String::new(),
            };
            let from = self.current.clone();
            self.current = to.clone();
            Outcome::Move { from, to }
        } else {
            Outcome::Skip { dest }
        };
        proof {
            lemma_location_ignores_later(
                self@.entries,
                self@.rules,
                self.valid@,
                self.entry as int,
                self.rule as int,
                dest_is_dir,
                self.rule as int,
            );
            self.valid@ = self.valid@.insert((self.entry as int, self.rule as int), dest_is_dir);
        }
        self.rule = self.rule + 1;
        self.awaiting = false;
        outcome
    }
}

} // verus!
