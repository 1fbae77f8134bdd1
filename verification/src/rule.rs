//! Window rules: what the configuration asks for windows of a given
//! application.

use crate::text;
use vstd::prelude::*;

verus! {

/// A rule for the windows of one application, or of every application.
#[derive(Debug, Clone, Default)]
pub struct WindowRule {
    /// Application the rule is about; every window when absent.
    pub app_id: Option<String>,
    /// The window takes no part in the tiling order.
    pub floating: bool,
    /// A floating window is placed in the middle of the usable area when it
    /// first maps.
    pub centered: bool,
    /// The window is left out of screen captures.
    pub hide_from_capture: bool,
}

/// A rule as the configuration states it, with the effects that are not part
/// of window placement.
#[derive(Debug, Clone, Default)]
pub struct RuleEntry {
    pub rule: WindowRule,
    /// What is behind the window is drawn blurred.
    pub blur: bool,
    /// Workspace, counted from zero, that the window is sent to when it first
    /// maps.
    pub workspace: Option<usize>,
}

impl WindowRule {
    /// Whether the rule is about windows with the given application id.
    pub open spec fn spec_matches(self, app_id: Option<Seq<char>>) -> bool {
        self.app_id is Some ==> app_id == Some(self.app_id->0@)
    }

    /// Whether the rule is about windows with the given application id. A rule
    /// without one is about every window; a window without one is only matched
    /// by such a rule.
    pub fn matches(&self, app_id: Option<&str>) -> (r: bool)
        ensures
            r == self.spec_matches(text::str_view(app_id)),
    {
        match &self.app_id {
            None => true,
            Some(pattern) => match app_id {
                Some(actual) => text::same_str(pattern.as_str(), actual),
                None => false,
            },
        }
    }
}

/// The first rule that matches.
pub open spec fn first_match(rules: Seq<WindowRule>, app_id: Option<Seq<char>>) -> Option<WindowRule>
    decreases rules.len(),
{
    if rules.len() == 0 {
        None
    } else if rules[0].spec_matches(app_id) {
        Some(rules[0])
    } else {
        first_match(rules.drop_first(), app_id)
    }
}

/// The first rule that matches decides: rules behind it change nothing, and
/// neither do rules before it that do not match.
pub proof fn first_matching_rule_decides(
    before: Seq<WindowRule>,
    rule: WindowRule,
    after: Seq<WindowRule>,
    app_id: Option<Seq<char>>,
)
    requires
        forall|i: int| 0 <= i < before.len() ==> !(#[trigger] before[i]).spec_matches(app_id),
        rule.spec_matches(app_id),
    ensures
        first_match(before + seq![rule] + after, app_id) == Some(rule),
    decreases before.len(),
{
    let all = before + seq![rule] + after;
    if before.len() > 0 {
        first_matching_rule_decides(before.drop_first(), rule, after, app_id);
        assert(all[0] == before[0]);
        assert(all.drop_first() =~= before.drop_first() + seq![rule] + after);
    } else {
        assert(all[0] == rule);
    }
}

/// Whether the first matching rule makes a window float.
pub open spec fn rule_floats(rules: Seq<WindowRule>, app_id: Option<Seq<char>>) -> bool {
    first_match(rules, app_id) matches Some(rule) && rule.floating
}

/// Whether the first matching rule has a window placed in the middle.
pub open spec fn rule_centers(rules: Seq<WindowRule>, app_id: Option<Seq<char>>) -> bool {
    first_match(rules, app_id) matches Some(rule) && rule.floating && rule.centered
}

/// Whether some matching rule hides a window from captures.
pub open spec fn rule_hides(rules: Seq<WindowRule>, app_id: Option<Seq<char>>) -> bool {
    exists|i: int|
        0 <= i < rules.len() && (#[trigger] rules[i]).hide_from_capture && rules[i].spec_matches(app_id)
}

/// Whether some matching entry has what is behind a window blurred.
pub open spec fn entry_blurs(entries: Seq<RuleEntry>, app_id: Option<Seq<char>>) -> bool {
    exists|i: int|
        0 <= i < entries.len() && (#[trigger] entries[i]).blur && entries[i].rule.spec_matches(app_id)
}

/// Position of the first rule that matches.
fn first_match_index(rules: &[WindowRule], app_id: Option<&str>) -> (r: Option<usize>)
    ensures
        r is None <==> first_match(rules@, text::str_view(app_id)) is None,
        r is Some ==> r->0 < rules@.len() && first_match(rules@, text::str_view(app_id)) == Some(
            rules@[r->0 as int],
        ),
{
    let mut i: usize = 0;
    let ghost id = text::str_view(app_id);
    assert(rules@.skip(0) =~= rules@);
    while i < rules.len()
        invariant
            i <= rules@.len(),
            id == text::str_view(app_id),
            first_match(rules@, id) == first_match(rules@.skip(i as int), id),
        decreases rules@.len() - i,
    {
        if rules[i].matches(app_id) {
            return Some(i);
        }
        assert(rules@.skip(i as int).drop_first() =~= rules@.skip(i + 1));
        i = i + 1;
    }
    None
}

/// Whether a window with this application id floats by rule.
pub fn matches_floating_rule(app_id: Option<&str>, rules: &[WindowRule]) -> (r: bool)
    ensures
        r == rule_floats(rules@, text::str_view(app_id)),
{
    match first_match_index(rules, app_id) {
        Some(i) => rules[i].floating,
        None => false,
    }
}

/// Whether a window with this application id is centered by rule.
pub fn matches_centered_rule(app_id: Option<&str>, rules: &[WindowRule]) -> (r: bool)
    ensures
        r == rule_centers(rules@, text::str_view(app_id)),
{
    match first_match_index(rules, app_id) {
        Some(i) => rules[i].floating && rules[i].centered,
        None => false,
    }
}

/// Whether a window with this application id is hidden from captures.
pub fn hidden_from_capture(app_id: Option<&str>, rules: &[WindowRule]) -> (r: bool)
    ensures
        r == rule_hides(rules@, text::str_view(app_id)),
{
    let mut i: usize = 0;
    let ghost id = text::str_view(app_id);
    while i < rules.len()
        invariant
            i <= rules@.len(),
            id == text::str_view(app_id),
            forall|k: int|
                0 <= k < i ==> !((#[trigger] rules@[k]).hide_from_capture && rules@[k].spec_matches(
                    id,
                )),
        decreases rules@.len() - i,
    {
        if rules[i].hide_from_capture && rules[i].matches(app_id) {
            return true;
        }
        i = i + 1;
    }
    false
}

/// Whether what is behind a window with this application id is blurred.
pub fn blurred_by_rule(app_id: Option<&str>, entries: &[RuleEntry]) -> (r: bool)
    ensures
        r == entry_blurs(entries@, text::str_view(app_id)),
{
    let mut i: usize = 0;
    let ghost id = text::str_view(app_id);
    while i < entries.len()
        invariant
            i <= entries@.len(),
            id == text::str_view(app_id),
            forall|k: int|
                0 <= k < i ==> !((#[trigger] entries@[k]).blur && entries@[k].rule.spec_matches(
                    id,
                )),
        decreases entries@.len() - i,
    {
        if entries[i].blur && entries[i].rule.matches(app_id) {
            return true;
        }
        i = i + 1;
    }
    false
}

/// The first entry whose rule matches.
pub open spec fn first_entry(entries: Seq<RuleEntry>, app_id: Option<Seq<char>>) -> Option<RuleEntry>
    decreases entries.len(),
{
    if entries.len() == 0 {
        None
    } else if entries[0].rule.spec_matches(app_id) {
        Some(entries[0])
    } else {
        first_entry(entries.drop_first(), app_id)
    }
}

/// Workspace that the first matching entry sends a window to.
pub open spec fn rule_workspace(entries: Seq<RuleEntry>, app_id: Option<Seq<char>>) -> Option<usize> {
    match first_entry(entries, app_id) {
        Some(entry) => entry.workspace,
        None => None,
    }
}

/// Workspace that a window with this application id is sent to when it first
/// maps.
pub fn workspace_by_rule(app_id: Option<&str>, entries: &[RuleEntry]) -> (r: Option<usize>)
    ensures
        r == rule_workspace(entries@, text::str_view(app_id)),
{
    let mut i: usize = 0;
    let ghost id = text::str_view(app_id);
    assert(entries@.skip(0) =~= entries@);
    while i < entries.len()
        invariant
            i <= entries@.len(),
            id == text::str_view(app_id),
            first_entry(entries@, id) == first_entry(entries@.skip(i as int), id),
        decreases entries@.len() - i,
    {
        if entries[i].rule.matches(app_id) {
            return entries[i].workspace;
        }
        assert(entries@.skip(i as int).drop_first() =~= entries@.skip(i + 1));
        i = i + 1;
    }
    None
}

/// A rule without an application is about every window; one with an application
/// is about the windows of that application alone, and never about a window that
/// has none.
pub proof fn rules_are_about_their_application(rule: WindowRule, app_id: Seq<char>)
    ensures
        rule.app_id is None ==> rule.spec_matches(Some(app_id)) && rule.spec_matches(None),
        rule.app_id is Some ==> !rule.spec_matches(None),
        rule.app_id is Some ==> (rule.spec_matches(Some(app_id)) <==> rule.app_id->0@ == app_id),
{
}

/// Of the rules that match, the first one alone says whether a window floats and
/// whether it is centered; a window that does not float is never centered, and
/// without a matching rule it does neither.
pub proof fn floating_follows_the_first_match(
    before: Seq<WindowRule>,
    rule: WindowRule,
    after: Seq<WindowRule>,
    app_id: Option<Seq<char>>,
)
    requires
        forall|i: int| 0 <= i < before.len() ==> !(#[trigger] before[i]).spec_matches(app_id),
        rule.spec_matches(app_id),
    ensures
        rule_floats(before + seq![rule] + after, app_id) == rule.floating,
        rule_centers(before + seq![rule] + after, app_id) == (rule.floating && rule.centered),
        !rule_floats(before, app_id),
        !rule_centers(before, app_id),
{
    first_matching_rule_decides(before, rule, after, app_id);
    lemma_no_match(before, app_id);
}

proof fn lemma_no_match(rules: Seq<WindowRule>, app_id: Option<Seq<char>>)
    requires
        forall|i: int| 0 <= i < rules.len() ==> !(#[trigger] rules[i]).spec_matches(app_id),
    ensures
        first_match(rules, app_id) is None,
    decreases rules.len(),
{
    if rules.len() > 0 {
        let rest = rules.drop_first();
        assert forall|i: int| 0 <= i < rest.len() implies !(#[trigger] rest[i]).spec_matches(app_id) by {
            assert(rest[i] == rules[i + 1]);
        }
        lemma_no_match(rest, app_id);
    }
}

/// One matching rule is enough to hide a window from captures, wherever it
/// stands; rules that do not match, or do not hide, change nothing.
pub proof fn any_matching_rule_hides(
    before: Seq<WindowRule>,
    rule: WindowRule,
    after: Seq<WindowRule>,
    app_id: Option<Seq<char>>,
)
    ensures
        rule_hides(before + seq![rule] + after, app_id) <==> rule_hides(before, app_id)
            || rule_hides(after, app_id) || (rule.hide_from_capture && rule.spec_matches(app_id)),
        !rule_hides(Seq::empty(), app_id),
{
    let all = before + seq![rule] + after;
    let n = before.len() as int;
    assert(all[n] == rule);
    if rule_hides(before, app_id) {
        let i = choose|i: int|
            0 <= i < before.len() && (#[trigger] before[i]).hide_from_capture
                && before[i].spec_matches(app_id);
        assert(all[i] == before[i]);
    }
    if rule_hides(after, app_id) {
        let i = choose|i: int|
            0 <= i < after.len() && (#[trigger] after[i]).hide_from_capture
                && after[i].spec_matches(app_id);
        assert(all[n + 1 + i] == after[i]);
    }
    if rule_hides(all, app_id) {
        let i = choose|i: int|
            0 <= i < all.len() && (#[trigger] all[i]).hide_from_capture && all[i].spec_matches(
                app_id,
            );
        if i < n {
            assert(all[i] == before[i]);
        } else if i > n {
            assert(all[i] == after[i - n - 1]);
        }
    }
}

/// One matching entry is enough to blur what is behind a window, wherever it
/// stands.
pub proof fn any_matching_entry_blurs(
    before: Seq<RuleEntry>,
    entry: RuleEntry,
    after: Seq<RuleEntry>,
    app_id: Option<Seq<char>>,
)
    ensures
        entry_blurs(before + seq![entry] + after, app_id) <==> entry_blurs(before, app_id)
            || entry_blurs(after, app_id) || (entry.blur && entry.rule.spec_matches(app_id)),
        !entry_blurs(Seq::empty(), app_id),
{
    let all = before + seq![entry] + after;
    let n = before.len() as int;
    assert(all[n] == entry);
    if entry_blurs(before, app_id) {
        let i = choose|i: int|
            0 <= i < before.len() && (#[trigger] before[i]).blur && before[i].rule.spec_matches(
                app_id,
            );
        assert(all[i] == before[i]);
    }
    if entry_blurs(after, app_id) {
        let i = choose|i: int|
            0 <= i < after.len() && (#[trigger] after[i]).blur && after[i].rule.spec_matches(app_id);
        assert(all[n + 1 + i] == after[i]);
    }
    if entry_blurs(all, app_id) {
        let i = choose|i: int|
            0 <= i < all.len() && (#[trigger] all[i]).blur && all[i].rule.spec_matches(app_id);
        if i < n {
            assert(all[i] == before[i]);
        } else if i > n {
            assert(all[i] == after[i - n - 1]);
        }
    }
}

/// The first matching entry alone says which workspace a window is sent to, even
/// when it names none; without a matching entry the window is not sent anywhere.
pub proof fn workspace_follows_the_first_match(
    before: Seq<RuleEntry>,
    entry: RuleEntry,
    after: Seq<RuleEntry>,
    app_id: Option<Seq<char>>,
)
    requires
        forall|i: int| 0 <= i < before.len() ==> !(#[trigger] before[i]).rule.spec_matches(app_id),
        entry.rule.spec_matches(app_id),
    ensures
        rule_workspace(before + seq![entry] + after, app_id) == entry.workspace,
        rule_workspace(before, app_id) is None,
    decreases before.len(),
{
    let all = before + seq![entry] + after;
    if before.len() > 0 {
        let rest = before.drop_first();
        assert forall|i: int| 0 <= i < rest.len() implies !(
        #[trigger] rest[i]).rule.spec_matches(app_id) by {
            assert(rest[i] == before[i + 1]);
        }
        workspace_follows_the_first_match(rest, entry, after, app_id);
        assert(all[0] == before[0]);
        assert(all.drop_first() =~= rest + seq![entry] + after);
    } else {
        assert(all[0] == entry);
    }
}

} // verus!
