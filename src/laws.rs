//! Properties that relate several operations of the library.

use vstd::prelude::*;
use vstd::multiset::Multiset;
use crate::text::{chars_le, lemma_chars_le_total};
use crate::raw::{
    apply_setting, apply_settings, find_var, fold_entries, has_var, key_slot, lemma_find_var_bound,
    lemma_fold_entries_unique, names_unique, set_var, set_vars, settings_view, var_value,
    vars_or_empty, FoldedV, RawMetadataEntry, RawValueV,
};
use crate::items::{block_comment_of, comment_end, comment_start, line_comment_of};
use crate::metadata::{
    group, built_views, first_scopes, lemma_sorted_by_path, merged_view, path_sorted, sorted_by_path,
};
use crate::pattern::regex_match_outcome;
use crate::scoped::{defines, is_ranking, MetadataField, ScopedMetadata};

verus! {

/// Entries with equal paths are the same entry.
pub open spec fn paths_distinct(m: Multiset<RawMetadataEntry>) -> bool {
    forall|x: RawMetadataEntry, y: RawMetadataEntry|
        #![trigger m.count(x), m.count(y)]
        m.count(x) > 0 && m.count(y) > 0 && x.path@ == y.path@ ==> x == y
}

proof fn lemma_sorted_by_path_unique(x: Seq<RawMetadataEntry>, y: Seq<RawMetadataEntry>)
    requires
        path_sorted(x),
        path_sorted(y),
        x.to_multiset() == y.to_multiset(),
        paths_distinct(x.to_multiset()),
    ensures
        x == y,
    decreases x.len(),
{
    broadcast use vstd::seq_lib::group_to_multiset_ensures;
    broadcast use vstd::multiset::group_multiset_axioms;

    if x.len() == 0 || y.len() == 0 {
        vstd::seq_lib::to_multiset_len(x);
        vstd::seq_lib::to_multiset_len(y);
        assert(x =~= y);
    } else {
        vstd::seq_lib::to_multiset_contains(x, x[0]);
        vstd::seq_lib::to_multiset_contains(y, y[0]);
        vstd::seq_lib::to_multiset_contains(x, y[0]);
        vstd::seq_lib::to_multiset_contains(y, x[0]);
        assert(x.contains(x[0]));
        assert(y.contains(y[0]));
        let i = choose|i: int| 0 <= i < x.len() && x[i] == y[0];
        let j = choose|j: int| 0 <= j < y.len() && y[j] == x[0];
        if i > 0 {
            assert(chars_le(x[0].path@, x[i].path@));
        }
        if j > 0 {
            assert(chars_le(y[0].path@, y[j].path@));
        }
        lemma_chars_le_total(x[0].path@, y[0].path@);
        crate::text::lemma_chars_le_reflexive(x[0].path@);
        assert(x[0].path@ == y[0].path@);
        assert(x[0] == y[0]);
        vstd::seq_lib::to_multiset_remove(x, 0);
        vstd::seq_lib::to_multiset_remove(y, 0);
        assert(x.remove(0) =~= x.drop_first());
        assert(y.remove(0) =~= y.drop_first());
        let xt = x.drop_first();
        let yt = y.drop_first();
        assert forall|a: RawMetadataEntry, b: RawMetadataEntry|
            #![trigger xt.to_multiset().count(a), xt.to_multiset().count(b)]
            xt.to_multiset().count(a) > 0 && xt.to_multiset().count(b) > 0 && a.path@ == b.path@ implies a == b by {
            assert(x.to_multiset().count(a) > 0);
            assert(x.to_multiset().count(b) > 0);
        }
        lemma_sorted_by_path_unique(xt, yt);
        assert forall|k: int| 0 <= k < x.len() implies x[k] == y[k] by {
            if k > 0 {
                assert(x[k] == xt[k - 1]);
                assert(y[k] == yt[k - 1]);
            }
        }
        assert(x =~= y);
    }
}

/// Merging depends on the entries and not on the order they were added in:
/// two orders of the same entries, of which no two distinct ones share a path,
/// merge to the same sets, in the same order.
pub proof fn lemma_merge_order_independent(a: Seq<RawMetadataEntry>, b: Seq<RawMetadataEntry>)
    requires
        a.to_multiset() == b.to_multiset(),
        paths_distinct(a.to_multiset()),
    ensures
        merged_view(a) == merged_view(b),
{
    lemma_sorted_by_path(a);
    lemma_sorted_by_path(b);
    lemma_sorted_by_path_unique(sorted_by_path(a), sorted_by_path(b));
}

proof fn lemma_first_scopes_distinct(s: Seq<RawMetadataEntry>)
    ensures
        first_scopes(s).no_duplicates(),
    decreases s.len(),
{
    if s.len() > 0 {
        lemma_first_scopes_distinct(s.drop_last());
    }
}

proof fn lemma_built_views_distinct(s: Seq<RawMetadataEntry>, scopes: Seq<Seq<char>>)
    requires
        scopes.no_duplicates(),
    ensures
        forall|i: int| 0 <= i < built_views(s, scopes).len() ==> scopes.contains(#[trigger] built_views(s, scopes)[i].0),
        forall|i: int, j: int| 0 <= i < j < built_views(s, scopes).len() ==> (#[trigger] built_views(s, scopes)[i]).0
            != (#[trigger] built_views(s, scopes)[j]).0,
    decreases scopes.len(),
{
    if scopes.len() > 0 {
        let init = scopes.drop_last();
        assert(init.no_duplicates()) by {
            assert forall|a: int, b: int| 0 <= a < init.len() && 0 <= b < init.len() && a != b implies init[a] != init[b] by {
                assert(init[a] == scopes[a] && init[b] == scopes[b]);
            }
        }
        lemma_built_views_distinct(s, init);
        let p = built_views(s, init);
        assert forall|i: int| 0 <= i < p.len() implies p[i].0 != scopes.last() by {
            let w = choose|w: int| 0 <= w < init.len() && init[w] == p[i].0;
            assert(scopes[w] == init[w]);
        }
        assert forall|i: int| 0 <= i < p.len() implies scopes.contains(#[trigger] p[i].0) by {
            let w = choose|w: int| 0 <= w < init.len() && init[w] == p[i].0;
            assert(scopes[w] == init[w]);
        }
    }
}

proof fn lemma_built_views_vars_unique(s: Seq<RawMetadataEntry>, scopes: Seq<Seq<char>>)
    ensures
        forall|i: int| 0 <= i < built_views(s, scopes).len() ==> names_unique((#[trigger] built_views(s, scopes)[i]).1.vars),
    decreases scopes.len(),
{
    if scopes.len() > 0 {
        lemma_built_views_vars_unique(s, scopes.drop_last());
        lemma_fold_entries_unique(group(s, scopes.last()));
    }
}

/// In every set that merging gives, no shell variable name occurs twice.
pub proof fn lemma_merged_vars_unique(loaded: Seq<RawMetadataEntry>)
    ensures
        forall|i: int| 0 <= i < merged_view(loaded).len() ==> names_unique((#[trigger] merged_view(loaded)[i]).1.vars),
{
    lemma_built_views_vars_unique(sorted_by_path(loaded), first_scopes(sorted_by_path(loaded)));
}

/// Merging gives each selector at most one set.
pub proof fn lemma_merged_selectors_distinct(loaded: Seq<RawMetadataEntry>)
    ensures
        forall|i: int, j: int| 0 <= i < j < merged_view(loaded).len() ==> (#[trigger] merged_view(loaded)[i]).0
            != (#[trigger] merged_view(loaded)[j]).0,
{
    lemma_first_scopes_distinct(sorted_by_path(loaded));
    lemma_built_views_distinct(sorted_by_path(loaded), first_scopes(sorted_by_path(loaded)));
}

/// Two sequences with the same first-match pattern for `m` agree on it.
proof fn lemma_find_var_char(s: Seq<(Seq<char>, Seq<char>)>, m: Seq<char>, j: int)
    requires
        0 <= j <= s.len(),
        j < s.len() ==> s[j].0 == m,
        forall|k: int| 0 <= k < j ==> s[k].0 != m,
    ensures
        find_var(s, m) == j,
{
    lemma_find_var_bound(s, m);
    if find_var(s, m) < j {
        assert(s[find_var(s, m)].0 == m);
    }
    if find_var(s, m) > j {
        assert(s[j].0 != m);
    }
}

proof fn lemma_set_var_other(vars: Seq<(Seq<char>, Seq<char>)>, n: Seq<char>, v: Seq<char>, m: Seq<char>)
    requires
        n != m,
    ensures
        has_var(set_var(vars, n, v), m) == has_var(vars, m),
        has_var(vars, m) ==> var_value(set_var(vars, n, v), m) == var_value(vars, m),
{
    let after = set_var(vars, n, v);
    lemma_find_var_bound(vars, m);
    lemma_find_var_bound(vars, n);
    let fm = find_var(vars, m);
    if fm < vars.len() {
        lemma_find_var_char(after, m, fm);
    } else {
        lemma_find_var_char(after, m, after.len() as int);
    }
}

proof fn lemma_set_vars_other(vars: Seq<(Seq<char>, Seq<char>)>, pairs: Seq<(Seq<char>, Seq<char>)>, m: Seq<char>)
    requires
        forall|i: int| 0 <= i < pairs.len() ==> (#[trigger] pairs[i]).0 != m,
    ensures
        has_var(set_vars(vars, pairs), m) == has_var(vars, m),
        has_var(vars, m) ==> var_value(set_vars(vars, pairs), m) == var_value(vars, m),
    decreases pairs.len(),
{
    if pairs.len() > 0 {
        lemma_set_vars_other(vars, pairs.drop_last(), m);
        lemma_set_var_other(set_vars(vars, pairs.drop_last()), pairs.last().0, pairs.last().1, m);
    }
}

/// Folding a later list of shell variables keeps each earlier variable that
/// the list does not name, with its value; a later scalar setting replaces
/// the earlier one whole.
pub proof fn lemma_variable_merge(f: FoldedV, pairs: Seq<(Seq<char>, Seq<char>)>, name: Seq<char>, key: Seq<char>, value: RawValueV)
    requires
        forall|i: int| 0 <= i < pairs.len() ==> (#[trigger] pairs[i]).0 != name,
        f.scalars.len() == 6,
    ensures
        has_var(vars_or_empty(apply_setting(f, "shellVariables"@, RawValueV::Vars(pairs))), name) == has_var(vars_or_empty(f), name),
        has_var(vars_or_empty(f), name) ==> var_value(vars_or_empty(apply_setting(f, "shellVariables"@, RawValueV::Vars(pairs))), name)
            == var_value(vars_or_empty(f), name),
        crate::raw::key_slot(key) < 6 ==> apply_setting(f, key, value).scalars[crate::raw::key_slot(key)] == Some(value),
{
    lemma_set_vars_other(vars_or_empty(f), pairs, name);
}

/// Whether some list of shell variables among `settings` names `name`.
pub open spec fn names_var(settings: Seq<(Seq<char>, RawValueV)>, name: Seq<char>) -> bool {
    exists|i: int, j: int|
        0 <= i < settings.len() && key_slot((#[trigger] settings[i]).0) == 6 && settings[i].1 is Vars
            && 0 <= j < settings[i].1->Vars_0.len() && (#[trigger] settings[i].1->Vars_0[j]).0 == name
}

proof fn lemma_settings_keep_var(f: FoldedV, settings: Seq<(Seq<char>, RawValueV)>, name: Seq<char>)
    requires
        !names_var(settings, name),
    ensures
        has_var(vars_or_empty(apply_settings(f, settings)), name) == has_var(vars_or_empty(f), name),
        has_var(vars_or_empty(f), name) ==> var_value(vars_or_empty(apply_settings(f, settings)), name)
            == var_value(vars_or_empty(f), name),
    decreases settings.len(),
{
    if settings.len() > 0 {
        let init = settings.drop_last();
        assert(!names_var(init, name)) by {
            if names_var(init, name) {
                let (i, j) = choose|i: int, j: int|
                    0 <= i < init.len() && key_slot((#[trigger] init[i]).0) == 6 && init[i].1 is Vars
                        && 0 <= j < init[i].1->Vars_0.len() && (#[trigger] init[i].1->Vars_0[j]).0 == name;
                assert(settings[i] == init[i]);
            }
        }
        lemma_settings_keep_var(f, init, name);
        let prev = apply_settings(f, init);
        let last = settings.last();
        if key_slot(last.0) == 6 {
            if let RawValueV::Vars(pairs) = last.1 {
                assert forall|j: int| 0 <= j < pairs.len() implies (#[trigger] pairs[j]).0 != name by {
                    assert(settings[settings.len() - 1] == last);
                }
                lemma_set_vars_other(vars_or_empty(prev), pairs, name);
            }
        }
    }
}

proof fn lemma_settings_last_scalar(f: FoldedV, settings: Seq<(Seq<char>, RawValueV)>, i: int)
    requires
        f.scalars.len() == 6,
        0 <= i < settings.len(),
        key_slot(settings[i].0) < 6,
        forall|j: int| i < j < settings.len() ==> key_slot((#[trigger] settings[j]).0) != key_slot(settings[i].0),
    ensures
        apply_settings(f, settings).scalars[key_slot(settings[i].0)] == Some(settings[i].1),
    decreases settings.len(),
{
    let init = settings.drop_last();
    if i < settings.len() - 1 {
        assert(init[i] == settings[i]);
        assert forall|j: int| i < j < init.len() implies key_slot((#[trigger] init[j]).0) != key_slot(init[i].0) by {
            assert(init[j] == settings[j]);
        }
        lemma_settings_last_scalar(f, init, i);
        lemma_settings_scalars_len(f, init);
    } else {
        lemma_settings_scalars_len(f, init);
    }
}

proof fn lemma_settings_scalars_len(f: FoldedV, settings: Seq<(Seq<char>, RawValueV)>)
    requires
        f.scalars.len() == 6,
    ensures
        apply_settings(f, settings).scalars.len() == 6,
    decreases settings.len(),
{
    if settings.len() > 0 {
        lemma_settings_scalars_len(f, settings.drop_last());
    }
}

/// Folding a later entry onto earlier ones: a scalar key that the later
/// entry sets takes the value it sets last, and each shell variable that none
/// of its variable lists names keeps its earlier value.
pub proof fn lemma_later_entry(es: Seq<RawMetadataEntry>, e: RawMetadataEntry, i: int, name: Seq<char>)
    requires
        0 <= i < e.settings@.len(),
        key_slot(e.settings@[i].0@) < 6,
        forall|j: int| i < j < e.settings@.len() ==> key_slot((#[trigger] e.settings@[j]).0@) != key_slot(e.settings@[i].0@),
        !names_var(settings_view(e.settings@), name),
    ensures
        fold_entries(es.push(e)).scalars[key_slot(e.settings@[i].0@)] == Some(e.settings@[i].1@),
        has_var(vars_or_empty(fold_entries(es.push(e))), name) == has_var(vars_or_empty(fold_entries(es)), name),
        has_var(vars_or_empty(fold_entries(es)), name) ==> var_value(vars_or_empty(fold_entries(es.push(e))), name)
            == var_value(vars_or_empty(fold_entries(es)), name),
{
    let sv = settings_view(e.settings@);
    assert(es.push(e).drop_last() =~= es);
    lemma_fold_scalars_len(es);
    assert forall|j: int| i < j < sv.len() implies key_slot((#[trigger] sv[j]).0) != key_slot(sv[i].0) by {
        assert(sv[j].0 == e.settings@[j].0@);
    }
    lemma_settings_last_scalar(fold_entries(es), sv, i);
    lemma_settings_keep_var(fold_entries(es), sv, name);
}

proof fn lemma_fold_scalars_len(es: Seq<RawMetadataEntry>)
    ensures
        fold_entries(es).scalars.len() == 6,
    decreases es.len(),
{
    if es.len() > 0 {
        lemma_fold_scalars_len(es.drop_last());
        lemma_settings_scalars_len(fold_entries(es.drop_last()), settings_view(es.last().settings@));
    }
}

/// Comment markers come from the slots in priority order: with slot one
/// holding only a start and slot two holding both, the line marker is slot
/// one's start and the block markers are slot two's, whatever the order of
/// the variables.
pub proof fn lemma_comment_priority(vars: Seq<(Seq<char>, Seq<char>)>)
    requires
        has_var(vars, "TM_COMMENT_START"@),
        !has_var(vars, "TM_COMMENT_END"@),
        has_var(vars, "TM_COMMENT_START_2"@),
        has_var(vars, "TM_COMMENT_END_2"@),
    ensures
        line_comment_of(vars) == Some(var_value(vars, "TM_COMMENT_START"@)),
        block_comment_of(vars) == Some((var_value(vars, "TM_COMMENT_START_2"@), var_value(vars, "TM_COMMENT_END_2"@))),
{
}

/// The derived comment markers depend only on the values of the comment
/// variables, not on where they stand among the variables.
pub proof fn lemma_comment_order_free(v1: Seq<(Seq<char>, Seq<char>)>, v2: Seq<(Seq<char>, Seq<char>)>)
    requires
        forall|slot: int| 0 <= slot < 3 ==> {
            &&& has_var(v1, #[trigger] comment_start(slot)) == has_var(v2, comment_start(slot))
            &&& has_var(v1, comment_end(slot)) == has_var(v2, comment_end(slot))
            &&& var_value(v1, comment_start(slot)) == var_value(v2, comment_start(slot))
            &&& var_value(v1, comment_end(slot)) == var_value(v2, comment_end(slot))
        },
    ensures
        line_comment_of(v1) == line_comment_of(v2),
        block_comment_of(v1) == block_comment_of(v2),
{
    assert(comment_start(0) == "TM_COMMENT_START"@);
    assert(comment_start(1) == "TM_COMMENT_START_2"@);
    assert(comment_start(2) == "TM_COMMENT_START_3"@);
}

/// Each field falls through on its own: when the best match defines only the
/// increase pattern and the next one the decrease pattern, the increase
/// pattern comes from the first and the decrease pattern from the second,
/// and each answer on a line is that pattern's own match outcome.
pub proof fn lemma_cascade_fallthrough(sm: ScopedMetadata, line: Seq<char>)
    requires
        sm.wf(),
        sm.items@.len() >= 2,
        defines(sm.entry(0), MetadataField::IncreaseIndent),
        !defines(sm.entry(0), MetadataField::DecreaseIndent),
        defines(sm.entry(1), MetadataField::DecreaseIndent),
    ensures
        sm.cascade_pattern(MetadataField::IncreaseIndent) == sm.entry(0).patterns[0],
        sm.cascade_pattern(MetadataField::DecreaseIndent) == sm.entry(1).patterns[1],
        sm.cascade_outcome(MetadataField::IncreaseIndent, line) == regex_match_outcome(sm.entry(0).patterns[0]->0, line),
        sm.cascade_outcome(MetadataField::DecreaseIndent, line) == regex_match_outcome(sm.entry(1).patterns[1]->0, line),
{
    assert(sm.first_from(MetadataField::IncreaseIndent, 0) == Some(0int));
    assert(sm.first_from(MetadataField::DecreaseIndent, 1) == Some(1int));
}

/// With no set matching, every pattern field answers false and no comment
/// marker is found.
pub proof fn lemma_no_match(sm: ScopedMetadata, scores: Seq<Option<u64>>, f: MetadataField, line: Seq<char>)
    requires
        is_ranking(sm.items@, scores, sm.metadata.scoped_metadata@.len() as int),
        forall|i: int| 0 <= i < scores.len() ==> (#[trigger] scores[i]) is None,
    ensures
        sm.items@.len() == 0,
        sm.cascade_pattern(f) is None,
        sm.cascade_outcome(f, line) == Some(false),
        sm.cascade_line_comment() is None,
        sm.cascade_block_comment() is None,
{
    if sm.items@.len() > 0 {
        assert(crate::scoped::score_at(scores, sm.items@[0].1 as int) == Some(sm.items@[0].0));
    }
}

} // verus!
