//! Raw settings as read from configuration files, and the rules that fold
//! several of them, sharing one scope selector, into one set of settings.

use vstd::prelude::*;
use crate::text::str_eq;

verus! {

/// A raw setting value, as much of it as the recognized keys can use.
#[derive(Clone, Debug)]
pub enum RawValue {
    Bool(bool),
    Str(String),
    /// A well-formed list of shell variables, as (name, value) pairs.
    Vars(Vec<(String, String)>),
    /// Anything else, including a malformed list of shell variables.
    Other,
}

pub enum RawValueV {
    Bool(bool),
    Str(Seq<char>),
    Vars(Seq<(Seq<char>, Seq<char>)>),
    Other,
}

pub open spec fn pairs_view(v: Seq<(String, String)>) -> Seq<(Seq<char>, Seq<char>)> {
    v.map_values(|p: (String, String)| (p.0@, p.1@))
}

impl View for RawValue {
    type V = RawValueV;

    open spec fn view(&self) -> RawValueV {
        match self {
            RawValue::Bool(b) => RawValueV::Bool(*b),
            RawValue::Str(s) => RawValueV::Str(s@),
            RawValue::Vars(v) => RawValueV::Vars(pairs_view(v@)),
            RawValue::Other => RawValueV::Other,
        }
    }
}

/// The settings of one file for one scope selector.
pub struct RawMetadataEntry {
    pub path: String,
    pub scope: String,
    pub settings: Vec<(String, RawValue)>,
}

pub open spec fn settings_view(v: Seq<(String, RawValue)>) -> Seq<(Seq<char>, RawValueV)> {
    v.map_values(|p: (String, RawValue)| (p.0@, p.1@))
}

/// Slots of the recognized keys: the five patterns, `indentParens`, and
/// `shellVariables`; any other key has slot `NO_SLOT`.
pub const INCREASE_INDENT: usize = 0;
pub const DECREASE_INDENT: usize = 1;
pub const BRACKET_INDENT_NEXT_LINE: usize = 2;
pub const DISABLE_INDENT_NEXT_LINE: usize = 3;
pub const UNINDENTED_LINE: usize = 4;
pub const INDENT_PARENS: usize = 5;
pub const SHELL_VARIABLES: usize = 6;
pub const NO_SLOT: usize = 7;

pub open spec fn key_slot(k: Seq<char>) -> int {
    if k == "increaseIndentPattern"@ {
        0
    } else if k == "decreaseIndentPattern"@ {
        1
    } else if k == "bracketIndentNextLinePattern"@ {
        2
    } else if k == "disableIndentNextLinePattern"@ {
        3
    } else if k == "unIndentedLinePattern"@ {
        4
    } else if k == "indentParens"@ {
        5
    } else if k == "shellVariables"@ {
        6
    } else {
        7
    }
}

pub fn key_slot_of(k: &str) -> (r: usize)
    ensures
        r == key_slot(k@),
{
    if str_eq(k, "increaseIndentPattern") {
        INCREASE_INDENT
    } else if str_eq(k, "decreaseIndentPattern") {
        DECREASE_INDENT
    } else if str_eq(k, "bracketIndentNextLinePattern") {
        BRACKET_INDENT_NEXT_LINE
    } else if str_eq(k, "disableIndentNextLinePattern") {
        DISABLE_INDENT_NEXT_LINE
    } else if str_eq(k, "unIndentedLinePattern") {
        UNINDENTED_LINE
    } else if str_eq(k, "indentParens") {
        INDENT_PARENS
    } else if str_eq(k, "shellVariables") {
        SHELL_VARIABLES
    } else {
        NO_SLOT
    }
}

/// Index of the first variable named `name`, or the length when none is.
pub open spec fn find_var(vars: Seq<(Seq<char>, Seq<char>)>, name: Seq<char>) -> int
    decreases vars.len(),
{
    if vars.len() == 0 {
        0
    } else if vars[0].0 == name {
        0
    } else {
        1 + find_var(vars.drop_first(), name)
    }
}

pub open spec fn has_var(vars: Seq<(Seq<char>, Seq<char>)>, name: Seq<char>) -> bool {
    find_var(vars, name) < vars.len()
}

pub open spec fn var_value(vars: Seq<(Seq<char>, Seq<char>)>, name: Seq<char>) -> Seq<char> {
    vars[find_var(vars, name)].1
}

/// Sets one variable: replaces its value where it is already set, else adds it.
pub open spec fn set_var(vars: Seq<(Seq<char>, Seq<char>)>, name: Seq<char>, value: Seq<char>) -> Seq<(Seq<char>, Seq<char>)> {
    let i = find_var(vars, name);
    if i < vars.len() {
        vars.update(i, (name, value))
    } else {
        vars.push((name, value))
    }
}

/// Sets the variables of `pairs` in order.
pub open spec fn set_vars(vars: Seq<(Seq<char>, Seq<char>)>, pairs: Seq<(Seq<char>, Seq<char>)>) -> Seq<(Seq<char>, Seq<char>)>
    decreases pairs.len(),
{
    if pairs.len() == 0 {
        vars
    } else {
        let prev = set_vars(vars, pairs.drop_last());
        set_var(prev, pairs.last().0, pairs.last().1)
    }
}

pub proof fn lemma_find_var_bound(vars: Seq<(Seq<char>, Seq<char>)>, name: Seq<char>)
    ensures
        0 <= find_var(vars, name) <= vars.len(),
        find_var(vars, name) < vars.len() ==> vars[find_var(vars, name)].0 == name,
        forall|j: int| 0 <= j < find_var(vars, name) ==> vars[j].0 != name,
    decreases vars.len(),
{
    if vars.len() > 0 && vars[0].0 != name {
        lemma_find_var_bound(vars.drop_first(), name);
        assert forall|j: int| 0 <= j < find_var(vars, name) implies vars[j].0 != name by {
            if j > 0 {
                assert(vars[j] == vars.drop_first()[j - 1]);
            }
        }
    }
}

/// No variable name occurs twice.
pub open spec fn names_unique(vars: Seq<(Seq<char>, Seq<char>)>) -> bool {
    forall|i: int, j: int| 0 <= i < j < vars.len() ==> (#[trigger] vars[i]).0 != (#[trigger] vars[j]).0
}

pub proof fn lemma_set_var_unique(vars: Seq<(Seq<char>, Seq<char>)>, name: Seq<char>, value: Seq<char>)
    requires
        names_unique(vars),
    ensures
        names_unique(set_var(vars, name, value)),
{
    lemma_find_var_bound(vars, name);
    let r = set_var(vars, name, value);
    assert forall|i: int, j: int| 0 <= i < j < r.len() implies (#[trigger] r[i]).0 != (#[trigger] r[j]).0 by {
        if j == vars.len() {
            assert(r[i] == vars[i]);
        }
    }
}

pub proof fn lemma_set_vars_unique(vars: Seq<(Seq<char>, Seq<char>)>, pairs: Seq<(Seq<char>, Seq<char>)>)
    requires
        names_unique(vars),
    ensures
        names_unique(set_vars(vars, pairs)),
    decreases pairs.len(),
{
    if pairs.len() > 0 {
        lemma_set_vars_unique(vars, pairs.drop_last());
        lemma_set_var_unique(set_vars(vars, pairs.drop_last()), pairs.last().0, pairs.last().1);
    }
}

/// The variables folded so far, none when no entry had the key.
pub open spec fn vars_or_empty(f: FoldedV) -> Seq<(Seq<char>, Seq<char>)> {
    match f.vars {
        Some(v) => v,
        None => Seq::empty(),
    }
}

pub proof fn lemma_apply_setting_unique(f: FoldedV, key: Seq<char>, value: RawValueV)
    requires
        names_unique(vars_or_empty(f)),
    ensures
        names_unique(vars_or_empty(apply_setting(f, key, value))),
{
    if key_slot(key) == 6 {
        if let RawValueV::Vars(pairs) = value {
            lemma_set_vars_unique(vars_or_empty(f), pairs);
        }
    }
}

pub proof fn lemma_apply_settings_unique(f: FoldedV, settings: Seq<(Seq<char>, RawValueV)>)
    requires
        names_unique(vars_or_empty(f)),
    ensures
        names_unique(vars_or_empty(apply_settings(f, settings))),
    decreases settings.len(),
{
    if settings.len() > 0 {
        lemma_apply_settings_unique(f, settings.drop_last());
        lemma_apply_setting_unique(apply_settings(f, settings.drop_last()), settings.last().0, settings.last().1);
    }
}

pub proof fn lemma_fold_entries_unique(es: Seq<RawMetadataEntry>)
    ensures
        names_unique(vars_or_empty(fold_entries(es))),
    decreases es.len(),
{
    if es.len() > 0 {
        lemma_fold_entries_unique(es.drop_last());
        lemma_apply_settings_unique(fold_entries(es.drop_last()), settings_view(es.last().settings@));
    }
}

/// Settings of one scope folded from its entries: the last value of each
/// recognized scalar key, and the shell variables merged name by name.
pub struct Folded {
    pub scalars: Vec<Option<RawValue>>,
    pub vars: Option<Vec<(String, String)>>,
}

pub struct FoldedV {
    pub scalars: Seq<Option<RawValueV>>,
    pub vars: Option<Seq<(Seq<char>, Seq<char>)>>,
}

pub open spec fn opt_value_view(v: Option<RawValue>) -> Option<RawValueV> {
    match v {
        Some(x) => Some(x@),
        None => None,
    }
}

impl View for Folded {
    type V = FoldedV;

    open spec fn view(&self) -> FoldedV {
        FoldedV {
            scalars: self.scalars@.map_values(|v: Option<RawValue>| opt_value_view(v)),
            vars: match self.vars {
                Some(v) => Some(pairs_view(v@)),
                None => None,
            },
        }
    }
}

pub open spec fn empty_folded() -> FoldedV {
    FoldedV { scalars: Seq::new(6, |i: int| None), vars: None }
}

/// Folds one setting in: a scalar key replaces the earlier value; a list of
/// shell variables is merged name by name, and a malformed one adds nothing
/// (though the key counts as present).
pub open spec fn apply_setting(f: FoldedV, key: Seq<char>, value: RawValueV) -> FoldedV {
    let slot = key_slot(key);
    if slot < 6 {
        FoldedV { scalars: f.scalars.update(slot, Some(value)), ..f }
    } else if slot == 6 {
        let base = match f.vars {
            Some(v) => v,
            None => Seq::empty(),
        };
        FoldedV {
            vars: Some(
                match value {
                    RawValueV::Vars(pairs) => set_vars(base, pairs),
                    _ => base,
                },
            ),
            ..f
        }
    } else {
        f
    }
}

pub open spec fn apply_settings(f: FoldedV, settings: Seq<(Seq<char>, RawValueV)>) -> FoldedV
    decreases settings.len(),
{
    if settings.len() == 0 {
        f
    } else {
        let prev = apply_settings(f, settings.drop_last());
        apply_setting(prev, settings.last().0, settings.last().1)
    }
}

/// Folds entries, in the order given, starting from no settings.
pub open spec fn fold_entries(es: Seq<RawMetadataEntry>) -> FoldedV
    decreases es.len(),
{
    if es.len() == 0 {
        empty_folded()
    } else {
        apply_settings(fold_entries(es.drop_last()), settings_view(es.last().settings@))
    }
}

impl Folded {
    pub open spec fn wf(&self) -> bool {
        &&& self.scalars@.len() == 6
        &&& names_unique(vars_or_empty(self@))
    }

    pub fn new() -> (r: Folded)
        ensures
            r.wf(),
            r@ == empty_folded(),
    {
        let mut scalars: Vec<Option<RawValue>> = Vec::new();
        let mut i: usize = 0;
        while i < 6
            invariant
                i <= 6,
                scalars@.len() == i,
                forall|j: int| 0 <= j < i ==> scalars@[j] is None,
            decreases 6 - i,
        {
            scalars.push(None);
            i += 1;
        }
        let r = Folded { scalars, vars: None };
        assert(r@.scalars =~= empty_folded().scalars);
        r
    }
}

/// Index of the first variable of `vars` named `name`, or its length.
pub fn find_var_index(vars: &Vec<(String, String)>, name: &str) -> (r: usize)
    ensures
        r == find_var(pairs_view(vars@), name@),
{
    let ghost pv = pairs_view(vars@);
    let mut i: usize = 0;
    assert(pv.skip(0) =~= pv);
    while i < vars.len()
        invariant
            pv == pairs_view(vars@),
            i <= vars@.len(),
            find_var(pv, name@) == i + find_var(pv.skip(i as int), name@),
        decreases vars@.len() - i,
    {
        if str_eq(vars[i].0.as_str(), name) {
            return i;
        }
        assert(pv.skip(i as int).drop_first() =~= pv.skip(i + 1));
        i += 1;
    }
    i
}

/// Sets the variables of `pairs`, in order, on `vars`.
fn set_vars_exec(vars: &mut Vec<(String, String)>, pairs: &Vec<(String, String)>)
    ensures
        pairs_view(final(vars)@) == set_vars(pairs_view(old(vars)@), pairs_view(pairs@)),
{
    let ghost start = pairs_view(vars@);
    let ghost all = pairs_view(pairs@);
    let mut k: usize = 0;
    while k < pairs.len()
        invariant
            all == pairs_view(pairs@),
            k <= pairs@.len(),
            pairs_view(vars@) == set_vars(start, all.take(k as int)),
        decreases pairs@.len() - k,
    {
        let name = pairs[k].0.clone();
        let value = pairs[k].1.clone();
        let i = find_var_index(vars, name.as_str());
        let ghost before = pairs_view(vars@);
        proof {
            lemma_find_var_bound(before, name@);
        }
        if i < vars.len() {
            vars.set(i, (name, value));
        } else {
            vars.push((name, value));
        }
        proof {
            assert(all.take(k + 1).drop_last() =~= all.take(k as int));
            assert(pairs_view(vars@) =~= set_var(before, all[k as int].0, all[k as int].1));
        }
        k += 1;
    }
    assert(all.take(pairs@.len() as int) =~= all);
}

impl Folded {
    /// Folds the settings of one entry in, in their order.
    pub fn apply_settings(&mut self, settings: Vec<(String, RawValue)>)
        requires
            old(self).wf(),
        ensures
            final(self).wf(),
            final(self)@ == apply_settings(old(self)@, settings_view(settings@)),
    {
        let ghost f0 = self@;
        let ghost all = settings_view(settings@);
        let n = settings.len();
        let mut rest = settings;
        let mut k: usize = 0;
        assert(all.skip(0) =~= all);
        assert(all.take(0) =~= Seq::<(Seq<char>, RawValueV)>::empty());
        while k < n
            invariant
                n == all.len(),
                k <= n,
                settings_view(rest@) == all.skip(k as int),
                rest@.len() == n - k,
                self.wf(),
                self@ == apply_settings(f0, all.take(k as int)),
            decreases n - k,
        {
            let ghost prev = self@;
            assert(settings_view(rest@)[0] == (rest@[0].0@, rest@[0].1@));
            assert(all.skip(k as int)[0] == all[k as int]);
            let ghost old_rest = rest@;
            let (key, value) = rest.remove(0);
            assert forall|j: int| 0 <= j < rest@.len() implies settings_view(rest@)[j] == all.skip(k + 1)[j] by {
                assert(rest@[j] == old_rest[j + 1]);
                assert(settings_view(old_rest)[j + 1] == all.skip(k as int)[j + 1]);
            }
            let slot = key_slot_of(key.as_str());
            if slot < 6 {
                self.scalars.set(slot, Some(value));
            } else if slot == SHELL_VARIABLES {
                let mut base = match self.vars.take() {
                    Some(v) => v,
                    None => Vec::new(),
                };
                assert(pairs_view(base@) =~= match prev.vars {
                    Some(v) => v,
                    None => Seq::empty(),
                });
                match value {
                    RawValue::Vars(pairs) => set_vars_exec(&mut base, &pairs),
                    _ => {},
                }
                self.vars = Some(base);
            }
            proof {
                assert(all.take(k + 1).drop_last() =~= all.take(k as int));
                assert(settings_view(rest@) =~= all.skip(k + 1));
                assert(self@.scalars =~= apply_setting(prev, key@, value@).scalars);
                assert(self@.vars == apply_setting(prev, key@, value@).vars);
                lemma_apply_setting_unique(prev, key@, value@);
            }
            k += 1;
        }
        assert(all.take(n as int) =~= all);
    }
}

} // verus!
