//! Settings keyed by scope selector: building them from raw entries,
//! overlaying new entries on them, and resolving them for a scope stack.

use vstd::prelude::*;
use crate::pattern::Pattern;
use crate::raw::{
    fold_entries, opt_value_view, pairs_view, settings_view, vars_or_empty, Folded,
    RawMetadataEntry, RawValue,
};
use crate::text::{chars_le, lemma_chars_le_total, lemma_chars_le_transitive, str_eq, str_le};
use crate::items::{
    bool_of, get_block_comment_markers, get_line_comment_marker, items_of,
    opt_pattern_view, pattern_of, recognized, FragmentError, MetadataItems, MetadataItemsV,
};

verus! {

/// The settings of one scope selector.
#[derive(Clone)]
pub struct MetadataSet {
    /// The selector's text, the key under which settings are merged.
    pub selector_string: String,
    pub items: MetadataItems,
}

fn take_pattern(v: Option<RawValue>) -> (r: Option<Option<Pattern>>)
    ensures
        r is Some == pattern_of(opt_value_view(v)) is Some,
        r matches Some(p) ==> opt_pattern_view(p) == pattern_of(opt_value_view(v))->0,
{
    match v {
        None => Some(None),
        Some(RawValue::Str(s)) => Some(Some(Pattern::new(s))),
        Some(_) => None,
    }
}

fn take_bool(v: Option<RawValue>) -> (r: Option<Option<bool>>)
    ensures
        r is Some == bool_of(opt_value_view(v)) is Some,
        r matches Some(b) ==> b == bool_of(opt_value_view(v))->0,
{
    match v {
        None => Some(None),
        Some(RawValue::Bool(b)) => Some(Some(b)),
        Some(_) => None,
    }
}

impl MetadataSet {
    /// Builds the typed settings of `selector_string` from its folded raw
    /// settings.
    pub fn from_raw(selector_string: String, settings: Folded) -> (r: Result<MetadataSet, FragmentError>)
        requires
            settings.wf(),
        ensures
            match r {
                Ok(m) => {
                    &&& m.selector_string@ == selector_string@
                    &&& items_of(settings@) is Ok
                    &&& m.items@ == items_of(settings@)->Ok_0
                    &&& crate::raw::names_unique(m.items@.vars)
                },
                Err(e) => items_of(settings@) == Err::<MetadataItemsV, FragmentError>(e),
            },
    {
        let ghost f = settings@;
        let Folded { scalars, vars } = settings;
        let mut any = vars.is_some();
        let mut i: usize = 0;
        while i < 6
            invariant
                i <= 6,
                scalars@.len() == 6,
                f.scalars == scalars@.map_values(|v: Option<RawValue>| opt_value_view(v)),
                f.vars is Some == vars is Some,
                any == (f.vars is Some || exists|j: int| 0 <= j < i && (#[trigger] f.scalars[j]) is Some),
            decreases 6 - i,
        {
            if scalars[i].is_some() {
                any = true;
            }
            assert(f.scalars[i as int] == opt_value_view(scalars@[i as int]));
            i += 1;
        }
        if !any {
            return Err(FragmentError::NothingRecognized);
        }
        assert(recognized(f));
        let ghost s0 = scalars@;
        let mut sc = scalars;
        let v0 = sc.remove(0);
        let v1 = sc.remove(0);
        let v2 = sc.remove(0);
        let v3 = sc.remove(0);
        let v4 = sc.remove(0);
        let v5 = sc.remove(0);
        assert(f.scalars[0] == opt_value_view(v0));
        assert(f.scalars[1] == opt_value_view(v1));
        assert(f.scalars[2] == opt_value_view(v2));
        assert(f.scalars[3] == opt_value_view(v3));
        assert(f.scalars[4] == opt_value_view(v4));
        assert(f.scalars[5] == opt_value_view(v5));
        let increase = take_pattern(v0);
        let decrease = take_pattern(v1);
        let bracket = take_pattern(v2);
        let disable = take_pattern(v3);
        let unindented = take_pattern(v4);
        let parens = take_bool(v5);
        match (increase, decrease, bracket, disable, unindented, parens) {
            (Some(increase), Some(decrease), Some(bracket), Some(disable), Some(unindented), Some(parens)) => {
                let shell_variables = match vars {
                    Some(v) => v,
                    None => Vec::new(),
                };
                assert(pairs_view(shell_variables@) =~= vars_or_empty(f));
                let line_comment = get_line_comment_marker(&shell_variables);
                let block_comment = get_block_comment_markers(&shell_variables);
                let items = MetadataItems {
                    increase_indent_pattern: increase,
                    decrease_indent_pattern: decrease,
                    bracket_indent_next_line_pattern: bracket,
                    disable_indent_next_line_pattern: disable,
                    unindented_line_pattern: unindented,
                    indent_parens: parens,
                    shell_variables,
                    line_comment,
                    block_comment,
                };
                assert(forall|i: int| 0 <= i < 5 ==> (#[trigger] pattern_of(f.scalars[i])) is Some);
                assert(items@.patterns =~= items_of(f)->Ok_0.patterns);
                Ok(MetadataSet { selector_string, items })
            },
            _ => {
                assert(!(forall|i: int| 0 <= i < 5 ==> (#[trigger] pattern_of(f.scalars[i])) is Some)
                    || bool_of(f.scalars[5]) is None);
                Err(FragmentError::MalformedValue)
            },
        }
    }
}

/// Raw entries gathered before they are merged.
pub struct LoadMetadata {
    pub loaded: Vec<RawMetadataEntry>,
}

impl LoadMetadata {
    pub fn new() -> (r: LoadMetadata)
        ensures
            r.loaded@.len() == 0,
    {
        LoadMetadata { loaded: Vec::new() }
    }

    /// Adds one raw entry. When merged, entries are taken in order of their
    /// paths, and of entries sharing a scope selector the last one wins.
    pub fn add_raw(&mut self, raw: RawMetadataEntry)
        ensures
            final(self).loaded@ == old(self).loaded@.push(raw),
    {
        self.loaded.push(raw);
    }
}

/// All settings, one per scope selector.
#[derive(Clone)]
pub struct Metadata {
    pub scoped_metadata: Vec<MetadataSet>,
}

pub open spec fn path_sorted(s: Seq<RawMetadataEntry>) -> bool {
    forall|i: int, j: int| 0 <= i < j < s.len() ==> chars_le(#[trigger] s[i].path@, #[trigger] s[j].path@)
}

/// The entries of `s` whose selector is `scope`, in their order.
pub open spec fn group(s: Seq<RawMetadataEntry>, scope: Seq<char>) -> Seq<RawMetadataEntry> {
    s.filter(scope_is(scope))
}

pub open spec fn scope_is(scope: Seq<char>) -> spec_fn(RawMetadataEntry) -> bool {
    |e: RawMetadataEntry| e.scope@ == scope
}

/// The settings of `scope` merged from the entries of `s`, in their order.
pub open spec fn merged_items(s: Seq<RawMetadataEntry>, scope: Seq<char>) -> Result<MetadataItemsV, FragmentError> {
    items_of(fold_entries(group(s, scope)))
}

/// Where an entry with path `path` goes into path-sorted `s`: before the
/// first entry whose path is greater, so after every entry of equal path.
pub open spec fn insert_pos(s: Seq<RawMetadataEntry>, path: Seq<char>) -> int
    decreases s.len(),
{
    if s.len() == 0 {
        0
    } else if !chars_le(s[0].path@, path) {
        0
    } else {
        1 + insert_pos(s.drop_first(), path)
    }
}

/// The entries sorted by path, each inserted after those of equal path, so
/// entries with equal paths keep the order in which they were added.
pub open spec fn sorted_by_path(s: Seq<RawMetadataEntry>) -> Seq<RawMetadataEntry>
    decreases s.len(),
{
    if s.len() == 0 {
        s
    } else {
        let p = sorted_by_path(s.drop_last());
        p.insert(insert_pos(p, s.last().path@), s.last())
    }
}

proof fn lemma_insert_pos(s: Seq<RawMetadataEntry>, path: Seq<char>)
    ensures
        0 <= insert_pos(s, path) <= s.len(),
        insert_pos(s, path) < s.len() ==> !chars_le(s[insert_pos(s, path)].path@, path),
        forall|k: int| 0 <= k < insert_pos(s, path) ==> chars_le(#[trigger] s[k].path@, path),
    decreases s.len(),
{
    if s.len() > 0 && chars_le(s[0].path@, path) {
        lemma_insert_pos(s.drop_first(), path);
        assert forall|k: int| 0 <= k < insert_pos(s, path) implies chars_le(#[trigger] s[k].path@, path) by {
            if k > 0 {
                assert(s[k] == s.drop_first()[k - 1]);
            }
        }
    }
}

proof fn lemma_insert_pos_at(s: Seq<RawMetadataEntry>, path: Seq<char>, j: int)
    requires
        0 <= j <= s.len(),
        j < s.len() ==> !chars_le(s[j].path@, path),
        forall|k: int| 0 <= k < j ==> chars_le(#[trigger] s[k].path@, path),
    ensures
        insert_pos(s, path) == j,
{
    lemma_insert_pos(s, path);
    let ip = insert_pos(s, path);
    if ip < j {
        assert(chars_le(s[ip].path@, path));
    }
    if ip > j {
        assert(chars_le(s[j].path@, path));
    }
}

/// Sorting by path gives a path-sorted permutation.
pub proof fn lemma_sorted_by_path(s: Seq<RawMetadataEntry>)
    ensures
        path_sorted(sorted_by_path(s)),
        sorted_by_path(s).to_multiset() == s.to_multiset(),
    decreases s.len(),
{
    broadcast use vstd::multiset::group_multiset_axioms;

    if s.len() > 0 {
        let p = sorted_by_path(s.drop_last());
        let e = s.last();
        lemma_sorted_by_path(s.drop_last());
        lemma_insert_pos(p, e.path@);
        let j = insert_pos(p, e.path@);
        let out = p.insert(j, e);
        if j < p.len() {
            lemma_chars_le_total(p[j].path@, e.path@);
            assert forall|k: int| j <= k < p.len() implies chars_le(e.path@, #[trigger] p[k].path@) by {
                if k > j {
                    lemma_chars_le_transitive(e.path@, p[j].path@, p[k].path@);
                }
            }
        }
        assert forall|a: int, b: int| 0 <= a < b < out.len() implies chars_le(#[trigger] out[a].path@, #[trigger] out[b].path@) by {
            if a < j && b > j {
                lemma_chars_le_transitive(p[a].path@, e.path@, p[b - 1].path@);
            }
        }
        vstd::seq_lib::to_multiset_insert(p, j, e);
        assert(s =~= s.drop_last().push(e));
        vstd::seq_lib::to_multiset_build(s.drop_last(), e);
    }
}

/// Sorts entries by path; entries with equal paths keep their order.
fn sort_by_path(entries: Vec<RawMetadataEntry>) -> (r: Vec<RawMetadataEntry>)
    ensures
        r@ == sorted_by_path(entries@),
        path_sorted(r@),
        r@.to_multiset() == entries@.to_multiset(),
{
    let ghost orig = entries@;
    let n = entries.len();
    let mut rest = entries;
    let mut out: Vec<RawMetadataEntry> = Vec::new();
    let mut k: usize = 0;
    assert(orig.skip(0) =~= orig);
    assert(orig.take(0) =~= Seq::<RawMetadataEntry>::empty());
    while k < n
        invariant
            n == orig.len(),
            k <= n,
            rest@ == orig.skip(k as int),
            out@ == sorted_by_path(orig.take(k as int)),
        decreases n - k,
    {
        let ghost old_rest = rest@;
        let e = rest.remove(0);
        assert(e == orig[k as int]) by {
            assert(old_rest[0] == orig.skip(k as int)[0]);
        }
        assert(rest@ =~= orig.skip(k + 1));
        let mut j: usize = 0;
        let mut done = false;
        while !done && j < out.len()
            invariant
                j <= out@.len(),
                forall|t: int| 0 <= t < j ==> chars_le(#[trigger] out@[t].path@, e.path@),
                done ==> j < out@.len() && !chars_le(out@[j as int].path@, e.path@),
            decreases out@.len() - j + (if done { 0int } else { 1int }),
        {
            if str_le(out[j].path.as_str(), e.path.as_str()) {
                j += 1;
            } else {
                done = true;
            }
        }
        proof {
            lemma_insert_pos_at(out@, e.path@, j as int);
            assert(orig.take(k + 1).drop_last() =~= orig.take(k as int));
        }
        out.insert(j, e);
        k += 1;
    }
    assert(orig.take(n as int) =~= orig);
    proof {
        lemma_sorted_by_path(orig);
    }
    out
}

/// Index of the selector `scope` in `scopes`, or its length.
fn find_scope(scopes: &Vec<String>, scope: &str) -> (r: usize)
    ensures
        r <= scopes@.len(),
        r < scopes@.len() ==> scopes@[r as int]@ == scope@,
        r == scopes@.len() ==> forall|g: int| 0 <= g < scopes@.len() ==> (#[trigger] scopes@[g])@ != scope@,
{
    let mut i: usize = 0;
    while i < scopes.len()
        invariant
            i <= scopes@.len(),
            forall|g: int| 0 <= g < i ==> (#[trigger] scopes@[g])@ != scope@,
        decreases scopes@.len() - i,
    {
        if str_eq(scopes[i].as_str(), scope) {
            return i;
        }
        i += 1;
    }
    i
}

proof fn lemma_group_push(s: Seq<RawMetadataEntry>, e: RawMetadataEntry, scope: Seq<char>)
    ensures
        group(s.push(e), scope) == if e.scope@ == scope {
            group(s, scope).push(e)
        } else {
            group(s, scope)
        },
        e.scope@ == scope ==> fold_entries(group(s.push(e), scope)) == crate::raw::apply_settings(
            fold_entries(group(s, scope)),
            settings_view(e.settings@),
        ),
{
    s.lemma_filter_push(e, scope_is(scope));
    if e.scope@ == scope {
        assert(group(s, scope).push(e).drop_last() =~= group(s, scope));
    }
}

proof fn lemma_group_empty(s: Seq<RawMetadataEntry>, scope: Seq<char>)
    requires
        forall|i: int| 0 <= i < s.len() ==> (#[trigger] s[i]).scope@ != scope,
    ensures
        group(s, scope).len() == 0,
{
    if group(s, scope).len() > 0 {
        let x = group(s, scope)[0];
        s.lemma_filter_pred(scope_is(scope), 0);
        assert(group(s, scope).contains(x));
        s.lemma_filter_contains_rev(scope_is(scope), x);
        assert(s.contains(x));
    }
}

pub open spec fn string_views(v: Seq<String>) -> Seq<Seq<char>> {
    v.map_values(|x: String| x@)
}

/// The selectors of `s`, each once, in the order of first occurrence.
pub open spec fn first_scopes(s: Seq<RawMetadataEntry>) -> Seq<Seq<char>>
    decreases s.len(),
{
    if s.len() == 0 {
        Seq::empty()
    } else {
        let p = first_scopes(s.drop_last());
        if p.contains(s.last().scope@) {
            p
        } else {
            p.push(s.last().scope@)
        }
    }
}

/// Selector and settings of each of `scopes` whose merged settings build,
/// in the order of `scopes`.
pub open spec fn built_views(s: Seq<RawMetadataEntry>, scopes: Seq<Seq<char>>) -> Seq<(Seq<char>, MetadataItemsV)>
    decreases scopes.len(),
{
    if scopes.len() == 0 {
        Seq::empty()
    } else {
        let p = built_views(s, scopes.drop_last());
        match merged_items(s, scopes.last()) {
            Ok(v) => p.push((scopes.last(), v)),
            Err(_) => p,
        }
    }
}

/// Selector and settings of each set, in order.
pub open spec fn set_views(r: Seq<MetadataSet>) -> Seq<(Seq<char>, MetadataItemsV)> {
    r.map_values(|m: MetadataSet| (m.selector_string@, m.items@))
}

/// What merging `loaded` gives: the entries are sorted by path; for each
/// selector, in order of its first occurrence there, its entries are folded in
/// that order; selectors whose settings do not build are left out.
pub open spec fn merged_view(loaded: Seq<RawMetadataEntry>) -> Seq<(Seq<char>, MetadataItemsV)> {
    built_views(sorted_by_path(loaded), first_scopes(sorted_by_path(loaded)))
}

/// Folds path-sorted entries by selector, and builds the settings of each.
#[verifier::rlimit(60)]
fn merge_sorted(sorted: Vec<RawMetadataEntry>) -> (r: Vec<MetadataSet>)
    ensures
        set_views(r@) == built_views(sorted@, first_scopes(sorted@)),
{
    let ghost all = sorted@;
    let n = sorted.len();
    let mut rest = sorted;
    let mut scopes: Vec<String> = Vec::new();
    let mut folds: Vec<Folded> = Vec::new();
    let mut k: usize = 0;
    assert(all.skip(0) =~= all);
    assert(string_views(scopes@) =~= first_scopes(all.take(0)));
    while k < n
        invariant
            n == all.len(),
            k <= n,
            rest@ == all.skip(k as int),
            scopes@.len() == folds@.len(),
            string_views(scopes@) == first_scopes(all.take(k as int)),
            forall|g: int| 0 <= g < folds@.len() ==> (#[trigger] folds@[g]).wf(),
            forall|g: int| 0 <= g < folds@.len() ==> (#[trigger] folds@[g])@ == fold_entries(
                group(all.take(k as int), scopes@[g]@),
            ),
            forall|g: int, h: int| 0 <= g < h < scopes@.len() ==> (#[trigger] scopes@[g])@ != (#[trigger] scopes@[h])@,
            forall|i: int| 0 <= i < k ==> exists|g: int| 0 <= g < scopes@.len() && (#[trigger] scopes@[g])@ == (#[trigger] all[i]).scope@,
        decreases n - k,
    {
        let ghost old_rest = rest@;
        let e = rest.remove(0);
        assert(e == all[k as int]) by {
            assert(old_rest[0] == all.skip(k as int)[0]);
        }
        assert(rest@ =~= all.skip(k + 1));
        let ghost ev = e;
        let ghost pre = all.take(k as int);
        assert(all.take(k + 1) =~= pre.push(ev));
        assert(all.take(k + 1).drop_last() =~= pre);
        let RawMetadataEntry { path: _, scope, settings } = e;
        let g = find_scope(&scopes, scope.as_str());
        let ghost sv = scope@;
        let ghost scopes_before = scopes@;
        if g == scopes.len() {
            proof {
                assert forall|i: int| 0 <= i < pre.len() implies (#[trigger] pre[i]).scope@ != sv by {
                    assert(pre[i] == all[i]);
                }
                lemma_group_empty(pre, sv);
                assert(group(pre, sv) =~= Seq::<RawMetadataEntry>::empty());
                assert(!first_scopes(pre).contains(sv)) by {
                    if first_scopes(pre).contains(sv) {
                        let w = choose|w: int| 0 <= w < first_scopes(pre).len() && first_scopes(pre)[w] == sv;
                        assert(string_views(scopes_before)[w] == scopes_before[w]@);
                    }
                }
            }
            scopes.push(scope);
            folds.push(Folded::new());
            assert(string_views(scopes@) =~= first_scopes(all.take(k + 1)));
        } else {
            assert(string_views(scopes@)[g as int] == sv);
            assert(first_scopes(pre).contains(sv));
        }
        assert(scopes@[g as int]@ == sv);
        let ghost folds_before = folds@;
        let mut f = folds.remove(g);
        assert(f == folds_before[g as int]);
        f.apply_settings(settings);
        folds.insert(g, f);
        proof {
            assert forall|h: int| 0 <= h < folds@.len() implies (#[trigger] folds@[h])@ == fold_entries(
                group(all.take(k + 1), scopes@[h]@),
            ) by {
                lemma_group_push(pre, ev, scopes@[h]@);
                if h != g {
                    assert(folds@[h] == folds_before[h]);
                }
            }
            assert forall|i: int| 0 <= i < k + 1 implies exists|g: int| 0 <= g < scopes@.len() && (#[trigger] scopes@[g])@ == (#[trigger] all[i]).scope@ by {
                if i == k {
                    assert(scopes@[g as int]@ == all[i].scope@);
                } else {
                    let w = choose|w: int| 0 <= w < scopes_before.len() && (#[trigger] scopes_before[w])@ == (#[trigger] all[i]).scope@;
                    assert(scopes@[w] == scopes_before[w]);
                }
            }
        }
        k += 1;
    }
    assert(all.take(n as int) =~= all);
    let ghost sc = string_views(scopes@);
    let ghost fs = folds@;
    let ghost scs = scopes@;
    let m = scopes.len();
    let mut out: Vec<MetadataSet> = Vec::new();
    let mut scopes = scopes;
    let mut folds = folds;
    let mut g: usize = 0;
    assert(scs.skip(0) =~= scs);
    assert(fs.skip(0) =~= fs);
    assert(sc.take(0) =~= Seq::<Seq<char>>::empty());
    assert(set_views(out@) =~= Seq::<(Seq<char>, MetadataItemsV)>::empty());
    while g < m
        invariant
            m == sc.len() == fs.len() == scs.len(),
            sc == string_views(scs),
            g <= m,
            scopes@ == scs.skip(g as int),
            folds@ == fs.skip(g as int),
            forall|h: int| 0 <= h < m ==> (#[trigger] fs[h]).wf(),
            forall|h: int| 0 <= h < m ==> (#[trigger] fs[h])@ == fold_entries(group(all, scs[h]@)),
            set_views(out@) == built_views(all, sc.take(g as int)),
        decreases m - g,
    {
        let ghost s_old = scopes@;
        let ghost f_old = folds@;
        let scope = scopes.remove(0);
        let f = folds.remove(0);
        assert(scope == scs[g as int]) by {
            assert(s_old[0] == scs.skip(g as int)[0]);
        }
        assert(f == fs[g as int]) by {
            assert(f_old[0] == fs.skip(g as int)[0]);
        }
        assert(scopes@ =~= scs.skip(g + 1));
        assert(folds@ =~= fs.skip(g + 1));
        assert(sc.take(g + 1).drop_last() =~= sc.take(g as int));
        assert(sc.take(g + 1).last() == scope@);
        let ghost out_before = out@;
        match MetadataSet::from_raw(scope, f) {
            Ok(set) => {
                out.push(set);
                assert(set_views(out@) =~= set_views(out_before).push((set.selector_string@, set.items@)));
            },
            Err(_) => {},
        }
        g += 1;
    }
    assert(sc.take(m as int) =~= sc);
    out
}

pub open spec fn has_selector(r: Seq<MetadataSet>, selector: Seq<char>) -> bool {
    exists|i: int| 0 <= i < r.len() && (#[trigger] r[i]).selector_string@ == selector
}

/// Whether a set keeps its place beside the sets `fresh`.
pub open spec fn not_overridden(fresh: Seq<MetadataSet>) -> spec_fn(MetadataSet) -> bool {
    |m: MetadataSet| !has_selector(fresh, m.selector_string@)
}

impl Metadata {
    /// No settings at all.
    pub fn new() -> (r: Metadata)
        ensures
            r.scoped_metadata@.len() == 0,
    {
        Metadata { scoped_metadata: Vec::new() }
    }

    /// Merges raw entries: they are taken in order of their paths (entries
    /// with equal paths in the order they were added), grouped by scope
    /// selector, and folded per group; a group whose settings do not build is
    /// left out. Sets come in the order their selectors first occur among the
    /// sorted entries.
    pub fn from_loaded(src: LoadMetadata) -> (r: Metadata)
        ensures
            set_views(r.scoped_metadata@) == merged_view(src.loaded@),
    {
        let sorted = sort_by_path(src.loaded);
        let scoped_metadata = merge_sorted(sorted);
        Metadata { scoped_metadata }
    }

    /// Merges `raw` on its own and lays the result over `self`: each new set
    /// replaces the whole of any set with the same selector. Sets of `self`
    /// that stay keep their order and come first.
    pub fn merged_with_raw(self, raw: LoadMetadata) -> (r: Metadata)
        ensures
            exists|fresh: Seq<MetadataSet>|
                #![trigger set_views(fresh)]
                set_views(fresh) == merged_view(raw.loaded@) && r.scoped_metadata@ == self.scoped_metadata@.filter(
                    not_overridden(fresh),
                ) + fresh,
    {
        let fresh = Metadata::from_loaded(raw).scoped_metadata;
        let ghost fv = fresh@;
        let ghost ov = self.scoped_metadata@;
        let mut rest = self.scoped_metadata;
        let mut kept: Vec<MetadataSet> = Vec::new();
        let n = rest.len();
        let mut k: usize = 0;
        assert(ov.skip(0) =~= ov);
        assert(ov.take(0).filter(not_overridden(fv)) =~= Seq::<MetadataSet>::empty());
        while k < n
            invariant
                n == ov.len(),
                k <= n,
                rest@ == ov.skip(k as int),
                fresh@ == fv,
                kept@ == ov.take(k as int).filter(not_overridden(fv)),
            decreases n - k,
        {
            let ghost old_rest = rest@;
            let m = rest.remove(0);
            assert(m == ov[k as int]) by {
                assert(old_rest[0] == ov.skip(k as int)[0]);
            }
            assert(rest@ =~= ov.skip(k + 1));
            assert(ov.take(k + 1) =~= ov.take(k as int).push(m));
            proof {
                ov.take(k as int).lemma_filter_push(m, not_overridden(fv));
            }
            let mut i: usize = 0;
            let mut found = false;
            while i < fresh.len()
                invariant
                    i <= fresh@.len(),
                    fresh@ == fv,
                    found == exists|j: int| 0 <= j < i && (#[trigger] fv[j]).selector_string@ == m.selector_string@,
                decreases fresh@.len() - i,
            {
                if str_eq(fresh[i].selector_string.as_str(), m.selector_string.as_str()) {
                    found = true;
                }
                i += 1;
            }
            if !found {
                kept.push(m);
            }
            k += 1;
        }
        assert(ov.take(n as int) =~= ov);
        let mut fresh = fresh;
        kept.append(&mut fresh);
        Metadata { scoped_metadata: kept }
    }
}

} // verus!
