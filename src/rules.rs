use vstd::prelude::*;

use crate::matching::{contains, is_substring};

verus! {

/// What a rule says, as mathematical values.
pub ghost struct RuleView {
    pub pattern: Seq<char>,
    pub path: Seq<char>,
    pub directory: Option<bool>,
}

/// Entries whose base filename contains `pattern` are moved into the
/// directory `path`. With `directory` unset or false the rule applies to
/// files only, with `directory` true to directories only.
pub struct Rule {
    pub pattern: String,
    pub path: String,
    pub directory: Option<bool>,
}

impl View for Rule {
    type V = RuleView;

    open spec fn view(&self) -> RuleView {
        RuleView { pattern: self.pattern@, path: self.path@, directory: self.directory }
    }
}

/// The rule applies to directories rather than files.
pub open spec fn directory_only(r: RuleView) -> bool {
    r.directory == Some(true)
}

/// What kind of filesystem object an entry is.
#[derive(Clone, Copy, PartialEq, Eq, Structural)]
pub enum Kind {
    File,
    Directory,
    /// Neither a regular file nor a directory, such as a dangling link.
    Other,
}

/// An entry of this kind is what the rule applies to.
pub open spec fn kind_fits(r: RuleView, kind: Kind) -> bool {
    match kind {
        Kind::File => !directory_only(r),
        Kind::Directory => directory_only(r),
        Kind::Other => false,
    }
}

/// An entry named `name` of kind `kind` matches the rule.
pub open spec fn rule_matches(r: RuleView, name: Seq<char>, kind: Kind) -> bool {
    is_substring(r.pattern, name) && kind_fits(r, kind)
}

impl Rule {
    pub fn new(pattern: String, path: String, directory: Option<bool>) -> (r: Rule)
        ensures
            r@ == (RuleView { pattern: pattern@, path: path@, directory }),
    {
        Rule { pattern, path, directory }
    }

    /// Whether the rule is limited to directories; an unset flag means files.
    pub fn directory_only(&self) -> (r: bool)
        ensures
            r == directory_only(self@),
    {
        match self.directory {
            Some(d) => d,
            None => false,
        }
    }

    /// Whether an entry with base filename `name` matches: the pattern occurs
    /// in the name and the entry is a file, or a directory where the rule asks
    /// for directories.
    pub fn matches(&self, name: &str, kind: Kind) -> (r: bool)
        ensures
            r == rule_matches(self@, name@, kind),
    {
        let fits = match kind {
            Kind::File => !self.directory_only(),
            Kind::Directory => self.directory_only(),
            Kind::Other => false,
        };
        fits && contains(name, self.pattern.as_str())
    }
}

/// The ordered rules of a configuration. Duplicates are allowed.
pub struct RuleSet {
    pub moves: Vec<Rule>,
}

impl View for RuleSet {
    type V = Seq<RuleView>;

    open spec fn view(&self) -> Seq<RuleView> {
        self.moves@.map_values(|r: Rule| r@)
    }
}

/// The rule that `add` appends.
pub open spec fn added_rule(pattern: Seq<char>, path: Seq<char>) -> RuleView {
    RuleView { pattern, path, directory: None }
}

/// The rules that remain after deleting `pattern`: those whose own pattern
/// differs from it, in their order.
pub open spec fn deleted(rules: Seq<RuleView>, pattern: Seq<char>) -> Seq<RuleView> {
    rules.filter(|r: RuleView| r.pattern != pattern)
}

/// Seen through `contains`, a sequence with one more element at its end has
/// that element besides its old ones.
proof fn lemma_contains_push<A>(s: Seq<A>, a: A, x: A)
    ensures
        s.push(a).contains(x) <==> (s.contains(x) || x == a),
{
    if s.contains(x) {
        let i = choose|i: int| 0 <= i < s.len() && s[i] == x;
        assert(s.push(a)[i] == x);
    }
    if x == a {
        assert(s.push(a)[s.len() as int] == a);
    }
    if s.push(a).contains(x) {
        let i = choose|i: int| 0 <= i < s.len() + 1 && s.push(a)[i] == x;
        if i < s.len() {
            assert(s[i] == x);
        }
    }
}

/// Deleting a pattern is exact: a rule is left afterwards if and only if it
/// was there before and its own pattern is not equal to the deleted one. In
/// particular a rule whose pattern merely contains the deleted one as a
/// substring stays, and no rule with the deleted pattern is left.
pub proof fn lemma_delete_exact(rules: Seq<RuleView>, pattern: Seq<char>)
    ensures
        forall|x: RuleView|
            #[trigger] deleted(rules, pattern).contains(x) <==> (rules.contains(x) && x.pattern
                != pattern),
    decreases rules.len(),
{
    reveal(Seq::filter);
    if rules.len() > 0 {
        let init = rules.drop_last();
        let last = rules.last();
        lemma_delete_exact(init, pattern);
        assert(rules =~= init.push(last));
        assert(deleted(rules, pattern) == if last.pattern != pattern {
            deleted(init, pattern).push(last)
        } else {
            deleted(init, pattern)
        });
        assert forall|x: RuleView|
            #[trigger] deleted(rules, pattern).contains(x) <==> (rules.contains(x) && x.pattern
                != pattern) by {
            lemma_contains_push(init, last, x);
            if last.pattern != pattern {
                lemma_contains_push(deleted(init, pattern), last, x);
            }
        }
    }
}

/// Deleting a pattern that no rule has leaves the rules as they were.
pub proof fn lemma_delete_absent(rules: Seq<RuleView>, pattern: Seq<char>)
    requires
        forall|i: int| 0 <= i < rules.len() ==> (#[trigger] rules[i]).pattern != pattern,
    ensures
        deleted(rules, pattern) == rules,
    decreases rules.len(),
{
    reveal(Seq::filter);
    if rules.len() > 0 {
        let init = rules.drop_last();
        assert forall|i: int| 0 <= i < init.len() implies (#[trigger] init[i]).pattern
            != pattern by {
            assert(init[i] == rules[i]);
        }
        lemma_delete_absent(init, pattern);
        assert(rules =~= init.push(rules.last()));
    }
}

impl RuleSet {
    pub fn new() -> (r: RuleSet)
        ensures
            r@ == Seq::<RuleView>::empty(),
    {
        let r = RuleSet { moves: Vec::new() };
        assert(r@ =~= Seq::<RuleView>::empty());
        r
    }

    pub fn from_rules(moves: Vec<Rule>) -> (r: RuleSet)
        ensures
            r.moves@ == moves@,
    {
        RuleSet { moves }
    }

    pub fn len(&self) -> (r: usize)
        ensures
            r == self@.len(),
    {
        self.moves.len()
    }

    /// Appends a rule for `pattern` and `path` with the directory flag unset.
    pub fn add(&mut self, pattern: String, path: String)
        ensures
            final(self)@ == old(self)@.push(added_rule(pattern@, path@)),
    {
        let rule = Rule::new(pattern, path, None);
        self.moves.push(rule);
        assert(self@ =~= old(self)@.push(added_rule(pattern@, path@)));
    }

    /// Removes every rule whose pattern equals `pattern` exactly; the others
    /// stay in their order.
    pub fn delete(&mut self, pattern: &str)
        ensures
            final(self)@ == deleted(old(self)@, pattern@),
    {
        let ghost orig = self@;
        let mut rest: Vec<Rule> = Vec::new();
        std::mem::swap(&mut self.moves, &mut rest);
        let target = String::from_str(pattern);
        let mut kept: Vec<Rule> = Vec::new();
        let n = rest.len();
        let mut i: usize = 0;
        while i < n
            invariant
                n == orig.len(),
                target@ == pattern@,
                i <= n,
                rest@.len() == n - i,
                rest@.map_values(|r: Rule| r@) == orig.subrange(i as int, n as int),
                kept@.map_values(|r: Rule| r@) == deleted(orig.subrange(0, i as int), pattern@),
            decreases n - i,
        {
            assert(rest@.map_values(|r: Rule| r@)[0] == orig[i as int]);
            let ghost prev = rest@;
            let rule = rest.remove(0);
            assert forall|k: int| 0 <= k < rest@.len() implies rest@[k]@ == orig[i + 1 + k] by {
                assert(rest@[k] == prev[k + 1]);
                assert(prev.map_values(|r: Rule| r@)[k + 1] == orig[i + 1 + k]);
            }
            assert(rest@.map_values(|r: Rule| r@) =~= orig.subrange(i + 1, n as int));
            assert(rule@ == orig[i as int]);
            let ghost before = orig.subrange(0, i as int);
            let ghost after = orig.subrange(0, i + 1);
            assert(after.drop_last() =~= before);
            assert(after.last() == orig[i as int]);
            reveal(Seq::filter);
            let ghost kv = kept@.map_values(|r: Rule| r@);
            let same = rule.pattern == target;
            assert(deleted(after, pattern@) == if after.last().pattern != pattern@ {
                deleted(before, pattern@).push(after.last())
            } else {
                deleted(before, pattern@)
            });
            if !same {
                kept.push(rule);
                assert(kept@.map_values(|r: Rule| r@) =~= kv.push(orig[i as int]));
            }
            assert(kept@.map_values(|r: Rule| r@) =~= deleted(after, pattern@));
            i = i + 1;
        }
        assert(orig.subrange(0, n as int) =~= orig);
        self.moves = kept;
    }
}

} // verus!
