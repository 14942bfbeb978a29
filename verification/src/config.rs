//! Linter configuration, modelled as plain values: which rules are
//! disabled, per-rule severity overrides, and integer options.  Reading a
//! configuration file is the caller's business; the library only consumes
//! the resulting values.

use vstd::prelude::*;

use crate::lint::diagnostic::Severity;
use crate::text;

verus! {

/// Settings for a single rule.
#[derive(Debug)]
pub struct RuleConfig {
    /// Overridden severity, if any.
    pub severity: Option<Severity>,
    /// Whether the rule runs at all.
    pub enabled: bool,
    /// Named integer options, e.g. a `max` bound.
    pub int_options: Vec<(String, i64)>,
}

/// Per-rule settings.
#[derive(Debug)]
pub struct RulesConfig {
    /// Rule identifiers switched off wholesale.
    pub disable: Vec<String>,
    /// Rule identifier to settings.
    pub options: Vec<(String, RuleConfig)>,
}

/// The linter's configuration.
#[derive(Debug)]
pub struct Config {
    /// Path fragments to exclude from linting.
    pub exclude: Vec<String>,
    /// The rule table.
    pub rules: RulesConfig,
}

/// The first entry with this identifier, scanning front to back.
pub open spec fn spec_find_rule(s: Seq<(String, RuleConfig)>, id: Seq<char>) -> Option<int>
    decreases s.len(),
{
    if s.len() == 0 {
        None
    } else if s[0].0@ == id {
        Some(0)
    } else {
        match spec_find_rule(s.drop_first(), id) {
            Some(j) => Some(j + 1),
            None => None,
        }
    }
}

/// The list holds this identifier.
pub open spec fn spec_has_str(v: Seq<String>, id: Seq<char>) -> bool {
    exists|j: int| 0 <= j < v.len() && (#[trigger] v[j])@ == id
}

impl Default for Config {
    /// No exclusions, no overrides.
    fn default() -> (r: Self)
        ensures
            r.exclude@.len() == 0,
            r.rules.disable@.len() == 0,
            r.rules.options@.len() == 0,
    {
        Config {
            exclude: Vec::new(),
            rules: RulesConfig { disable: Vec::new(), options: Vec::new() },
        }
    }
}

impl Config {
    /// A rule runs unless it is disabled by name or switched off in its
    /// settings entry.
    pub fn is_rule_enabled(&self, rule_id: &str) -> (r: bool)
        ensures
            r == (!spec_has_str(self.rules.disable@, rule_id@) && (match spec_find_rule(
                self.rules.options@,
                rule_id@,
            ) {
                Some(j) => self.rules.options@[j].1.enabled,
                None => true,
            })),
    {
        let n = self.rules.disable.len();
        let mut j: usize = 0;
        while j < n
            invariant
                0 <= j <= n,
                n == self.rules.disable@.len(),
                forall|m: int| 0 <= m < j ==> (#[trigger] self.rules.disable@[m])@ != rule_id@,
            decreases n - j,
        {
            if text::str_eq(self.rules.disable[j].as_str(), rule_id) {
                return false;
            }
            j += 1;
        }
        match self.find_rule(rule_id) {
            Some(j) => self.rules.options[j].1.enabled,
            None => true,
        }
    }

    /// Index of the rule's settings entry, if present.
    fn find_rule(&self, rule_id: &str) -> (r: Option<usize>)
        ensures
            match r {
                Some(j) => spec_find_rule(self.rules.options@, rule_id@) == Some(j as int) && j
                    < self.rules.options@.len(),
                None => spec_find_rule(self.rules.options@, rule_id@) is None,
            },
    {
        let n = self.rules.options.len();
        let mut j: usize = 0;
        proof {
            assert(self.rules.options@.skip(0) =~= self.rules.options@);
        }
        while j < n
            invariant
                0 <= j <= n,
                n == self.rules.options@.len(),
                spec_find_rule(self.rules.options@, rule_id@) == (match spec_find_rule(
                    self.rules.options@.skip(j as int),
                    rule_id@,
                ) {
                    Some(m) => Some(m + j),
                    None => None,
                }),
            decreases n - j,
        {
            proof {
                assert(self.rules.options@.skip(j as int)[0] == self.rules.options@[j as int]);
                assert(self.rules.options@.skip(j as int).drop_first() =~= self.rules.options@.skip(
                    j + 1,
                ));
            }
            if text::str_eq(self.rules.options[j].0.as_str(), rule_id) {
                return Some(j);
            }
            j += 1;
        }
        None
    }

    /// The severity a rule reports with: its override, else the default.
    pub fn get_rule_severity(&self, rule_id: &str, default: Severity) -> (r: Severity)
        ensures
            r == (match spec_find_rule(self.rules.options@, rule_id@) {
                Some(j) => match self.rules.options@[j].1.severity {
                    Some(sv) => sv,
                    None => default,
                },
                None => default,
            }),
    {
        match self.find_rule(rule_id) {
            Some(j) => match self.rules.options[j].1.severity {
                Some(sv) => sv,
                None => default,
            },
            None => default,
        }
    }

    /// An integer option of a rule, under any of the given names.
    pub fn get_int_option(&self, rule_id: &str, key: &str, key2: &str) -> (r: Option<i64>)
        ensures
            spec_find_rule(self.rules.options@, rule_id@) is None ==> r is None,
    {
        let entry = match self.find_rule(rule_id) {
            Some(j) => j,
            None => {
                return None;
            },
        };
        let opts = &self.rules.options[entry].1.int_options;
        let n = opts.len();
        let mut j: usize = 0;
        while j < n
            invariant
                0 <= j <= n,
                n == opts@.len(),
                spec_find_rule(self.rules.options@, rule_id@) is Some,
            decreases n - j,
        {
            if text::str_eq(opts[j].0.as_str(), key) || text::str_eq(opts[j].0.as_str(), key2) {
                return Some(opts[j].1);
            }
            j += 1;
        }
        None
    }
}

} // verus!
