//! The rule engine: a file extension is matched ASCII-case-insensitively
//! against the comma-separated pattern list of every active,
//! extension-based rule, in insertion order; the first rule whose list
//! contains the extension wins. An empty extension matches nothing.
use vstd::prelude::*;
use crate::catalog::Catalog;
use crate::catalog::CatalogError;
use crate::catalog::Rule;
use crate::text::lower_seq;
use crate::text::lower_str;
use crate::text::str_eq;

verus! {

/// `s` split at every comma. The empty string splits into one empty
/// token; `n` commas give `n + 1` tokens.
pub open spec fn split_commas(s: Seq<char>) -> Seq<Seq<char>>
    decreases s.len(),
{
    if s.len() == 0 {
        seq![Seq::<char>::empty()]
    } else if s[0] == ',' {
        seq![Seq::<char>::empty()] + split_commas(s.skip(1))
    } else {
        let rest = split_commas(s.skip(1));
        seq![seq![s[0]] + rest[0]] + rest.skip(1)
    }
}

/// A split has at least one token.
pub proof fn lemma_split_commas_len(s: Seq<char>)
    ensures
        split_commas(s).len() >= 1,
    decreases s.len(),
{
    if s.len() > 0 {
        lemma_split_commas_len(s.skip(1));
    }
}

/// A comma-free string is its own single token.
proof fn lemma_split_no_comma(s: Seq<char>)
    requires
        forall|j: int| 0 <= j < s.len() ==> s[j] != ',',
    ensures
        split_commas(s) == seq![s],
    decreases s.len(),
{
    if s.len() == 0 {
        assert(split_commas(s) =~~= seq![s]);
    } else {
        assert(forall|j: int| 0 <= j < s.skip(1).len() ==> s.skip(1)[j] != ',');
        lemma_split_no_comma(s.skip(1));
        let rest = split_commas(s.skip(1));
        assert(seq![s[0]] + rest[0] =~= s);
        assert(split_commas(s) =~~= seq![s]);
    }
}

/// Splitting at the first comma: the head token is everything before it,
/// the rest is the split of everything after it.
proof fn lemma_split_at_first_comma(s: Seq<char>, k: int)
    requires
        0 <= k < s.len(),
        s[k] == ',',
        forall|j: int| 0 <= j < k ==> s[j] != ',',
    ensures
        split_commas(s) == seq![s.take(k)] + split_commas(s.skip(k + 1)),
    decreases k,
{
    if k == 0 {
        assert(s.take(0) =~= Seq::<char>::empty());
        assert(split_commas(s) =~~= seq![s.take(0)] + split_commas(s.skip(1)));
    } else {
        let t = s.skip(1);
        assert(forall|j: int| 0 <= j < k - 1 ==> t[j] != ',');
        assert(t[k - 1] == ',');
        lemma_split_at_first_comma(t, k - 1);
        let rest = split_commas(t);
        assert(t.skip(k) =~= s.skip(k + 1));
        assert(rest == seq![t.take(k - 1)] + split_commas(s.skip(k + 1)));
        lemma_split_commas_len(s.skip(k + 1));
        assert(seq![s[0]] + rest[0] =~= s.take(k));
        assert(rest.skip(1) =~= split_commas(s.skip(k + 1)));
        assert(split_commas(s) =~~= seq![s.take(k)] + split_commas(s.skip(k + 1)));
    }
}

/// Whether the comma-separated `pattern` has a token equal to `ext`,
/// compared ASCII-case-insensitively.
pub open spec fn pattern_has_token(pattern: Seq<char>, ext: Seq<char>) -> bool {
    exists|i: int|
        0 <= i < split_commas(pattern).len() && lower_seq(#[trigger] split_commas(pattern)[i])
            == lower_seq(ext)
}

/// Executable form of `pattern_has_token`.
pub fn pattern_contains(pattern: &str, ext: &str) -> (r: bool)
    ensures
        r == pattern_has_token(pattern@, ext@),
    decreases pattern@.len(),
{
    let n: usize = pattern.unicode_len();
    let mut found: bool = false;
    let mut cpos: usize = 0;
    let mut i: usize = 0;
    while i < n
        invariant
            n == pattern@.len(),
            i <= n,
            !found ==> forall|j: int| 0 <= j < i ==> pattern@[j] != ',',
            found ==> cpos < i && pattern@[cpos as int] == ',' && forall|j: int|
                0 <= j < cpos ==> pattern@[j] != ',',
        decreases n - i,
    {
        if !found && pattern.get_char(i) == ',' {
            found = true;
            cpos = i;
        }
        i = i + 1;
    }
    if found {
        proof {
            lemma_split_at_first_comma(pattern@, cpos as int);
            lemma_split_commas_len(pattern@.skip(cpos as int + 1));
        }
        let tok = pattern.substring_char(0, cpos);
        let tok_low = lower_str(tok);
        let ext_low = lower_str(ext);
        if str_eq(tok_low.as_str(), ext_low.as_str()) {
            proof {
                assert(split_commas(pattern@)[0] == pattern@.take(cpos as int));
            }
            true
        } else {
            let tail = pattern.substring_char(cpos + 1, n);
            let r = pattern_contains(tail, ext);
            proof {
                let sp = split_commas(pattern@);
                let st = split_commas(tail@);
                assert(forall|j: int| 0 <= j < st.len() ==> sp[j + 1] == #[trigger] st[j]);
                if r {
                    let j = choose|j: int|
                        0 <= j < st.len() && lower_seq(#[trigger] st[j]) == lower_seq(ext@);
                    assert(lower_seq(sp[j + 1]) == lower_seq(ext@));
                } else {
                    if pattern_has_token(pattern@, ext@) {
                        let j = choose|j: int|
                            0 <= j < sp.len() && lower_seq(#[trigger] sp[j]) == lower_seq(ext@);
                        assert(j != 0);
                        assert(st[j - 1] == sp[j]);
                    }
                }
            }
            r
        }
    } else {
        proof {
            lemma_split_no_comma(pattern@);
        }
        let pat_low = lower_str(pattern);
        let ext_low = lower_str(ext);
        let eq = str_eq(pat_low.as_str(), ext_low.as_str());
        proof {
            if eq {
                assert(lower_seq(split_commas(pattern@)[0]) == lower_seq(ext@));
            }
        }
        eq
    }
}

/// Whether a rule takes part in matching `ext` and wins on it.
pub open spec fn rule_matches(r: Rule, ext: Seq<char>) -> bool {
    r.is_active && r.is_extension && pattern_has_token(r.pattern@, ext)
}

/// The destination of the first matching rule, in order.
pub open spec fn first_match(rules: Seq<Rule>, ext: Seq<char>) -> Option<Seq<char>>
    decreases rules.len(),
{
    if rules.len() == 0 {
        None
    } else if rule_matches(rules[0], ext) {
        Some(rules[0].destination_folder@)
    } else {
        first_match(rules.skip(1), ext)
    }
}

/// What the rule engine returns: no destination for an empty extension,
/// else the first active extension rule whose pattern list contains the
/// extension, case-insensitively.
pub open spec fn match_destination_spec(rules: Seq<Rule>, ext: Seq<char>) -> Option<Seq<char>> {
    if ext.len() == 0 {
        None
    } else {
        first_match(rules, ext)
    }
}

/// First-match law: for rules R1..Rn in insertion order, the engine
/// returns the destination of the first rule whose pattern list contains
/// the extension, case-insensitively; earlier rules that do not match are
/// skipped, ties go to the earlier rule.
pub proof fn lemma_match_destination_first(rules: Seq<Rule>, ext: Seq<char>, k: int)
    requires
        ext.len() > 0,
        0 <= k < rules.len(),
        rule_matches(rules[k], ext),
        forall|j: int| 0 <= j < k ==> !rule_matches(#[trigger] rules[j], ext),
    ensures
        match_destination_spec(rules, ext) == Some(rules[k].destination_folder@),
    decreases k,
{
    if k > 0 {
        let t = rules.skip(1);
        assert(forall|j: int| 0 <= j < k - 1 ==> !rule_matches(#[trigger] t[j], ext));
        assert(t[k - 1] == rules[k]);
        lemma_match_destination_first(t, ext, k - 1);
    }
}

/// No-match law: the engine returns nothing for an empty extension, and
/// nothing when no active extension rule's pattern list contains the
/// extension.
pub proof fn lemma_match_destination_none(rules: Seq<Rule>, ext: Seq<char>)
    requires
        ext.len() == 0 || forall|j: int|
            0 <= j < rules.len() ==> !rule_matches(#[trigger] rules[j], ext),
    ensures
        match_destination_spec(rules, ext) is None,
    decreases rules.len(),
{
    if ext.len() > 0 && rules.len() > 0 {
        let t = rules.skip(1);
        assert(forall|j: int| 0 <= j < t.len() ==> !rule_matches(#[trigger] t[j], ext));
        lemma_match_destination_none(t, ext);
    }
}

/// The active extension rules, in insertion order.
pub open spec fn active_extension_rules_of(rules: Seq<Rule>) -> Seq<Rule> {
    rules.filter(|r: Rule| r.is_active && r.is_extension)
}

impl Catalog {
    /// The destination folder for a file extension: the first active
    /// extension rule whose comma-separated pattern list contains the
    /// extension (ASCII-case-insensitively); none for an empty extension
    /// or when no rule matches.
    pub fn match_destination(&self, extension: &str) -> (r: Option<String>)
        ensures
            r is Some <==> match_destination_spec(self.rules@, extension@) is Some,
            r matches Some(d) ==> d@ == match_destination_spec(self.rules@, extension@)->0,
    {
        let ext_len: usize = extension.unicode_len();
        if ext_len == 0 {
            return None;
        }
        let n: usize = self.rules.len();
        let mut i: usize = 0;
        while i < n
            invariant
                n == self.rules@.len(),
                i <= n,
                extension@.len() > 0,
                forall|j: int| 0 <= j < i ==> !rule_matches(#[trigger] self.rules@[j], extension@),
            decreases n - i,
        {
            let rule = &self.rules[i];
            if rule.is_active && rule.is_extension && pattern_contains(
                rule.pattern.as_str(),
                extension,
            ) {
                proof {
                    lemma_match_destination_first(self.rules@, extension@, i as int);
                }
                return Some(rule.destination_folder.clone());
            }
            i = i + 1;
        }
        proof {
            lemma_match_destination_none(self.rules@, extension@);
        }
        None
    }

    /// Append a rule with a fresh id. Fails only when the id counter is
    /// exhausted.
    pub fn add_rule(
        &mut self,
        name: String,
        pattern: String,
        destination_folder: String,
        is_extension: bool,
        is_active: bool,
    ) -> (r: Result<i64, CatalogError>)
        requires
            old(self).wf(),
        ensures
            final(self).wf(),
            final(self).files@ == old(self).files@,
            final(self).tags@ == old(self).tags@,
            final(self).links@ == old(self).links@,
            final(self).watched@ == old(self).watched@,
            final(self).next_file_id == old(self).next_file_id,
            final(self).next_tag_id == old(self).next_tag_id,
            match r {
                Ok(id) => old(self).next_rule_id < i64::MAX && id == old(self).next_rule_id
                    && final(self).next_rule_id == old(self).next_rule_id + 1
                    && final(self).rules@ == old(self).rules@.push(
                    Rule { id, name, pattern, destination_folder, is_extension, is_active },
                ),
                Err(CatalogError::IdsExhausted) => old(self).next_rule_id == i64::MAX
                    && *final(self) == *old(self),
                Err(_) => false,
            },
    {
        if self.next_rule_id == i64::MAX {
            return Err(CatalogError::IdsExhausted);
        }
        let id = self.next_rule_id;
        self.rules.push(Rule { id, name, pattern, destination_folder, is_extension, is_active });
        self.next_rule_id = id + 1;
        Ok(id)
    }

    /// The `(pattern, destination)` of every active extension rule, in
    /// insertion order.
    pub fn active_extension_rules(&self) -> (r: Vec<(String, String)>)
        ensures
            r@.len() == active_extension_rules_of(self.rules@).len(),
            forall|p: int|
                0 <= p < r@.len() ==> (#[trigger] r@[p]).0@ == active_extension_rules_of(
                    self.rules@,
                )[p].pattern@ && r@[p].1@ == active_extension_rules_of(self.rules@)[p].destination_folder@,
    {
        let mut out: Vec<(String, String)> = Vec::new();
        let n: usize = self.rules.len();
        let mut i: usize = 0;
        while i < n
            invariant
                n == self.rules@.len(),
                i <= n,
                out@.len() == active_extension_rules_of(self.rules@.take(i as int)).len(),
                forall|p: int|
                    0 <= p < out@.len() ==> (#[trigger] out@[p]).0@ == active_extension_rules_of(
                        self.rules@.take(i as int),
                    )[p].pattern@ && out@[p].1@ == active_extension_rules_of(
                        self.rules@.take(i as int),
                    )[p].destination_folder@,
            decreases n - i,
        {
            proof {
                reveal_with_fuel(Seq::filter, 2);
                assert(self.rules@.take(i as int + 1).drop_last() =~= self.rules@.take(i as int));
            }
            let rule = &self.rules[i];
            if rule.is_active && rule.is_extension {
                out.push((rule.pattern.clone(), rule.destination_folder.clone()));
            }
            i = i + 1;
        }
        proof {
            assert(self.rules@.take(n as int) =~= self.rules@);
        }
        out
    }
}

} // verus!
