//! The typed settings of one scope selector, built from its folded raw
//! settings, with the comment markers derived from its shell variables.

use vstd::prelude::*;
use crate::pattern::Pattern;
use crate::raw::{
    find_var_index, has_var, lemma_find_var_bound, pairs_view, var_value, vars_or_empty, FoldedV,
    RawValueV,
};

verus! {

/// Why no settings could be built for a scope.
#[derive(Clone, Copy, Debug, PartialEq, Eq, Structural)]
pub enum FragmentError {
    /// None of the recognized keys is present.
    NothingRecognized,
    /// A pattern is not a string, or `indentParens` is not a boolean.
    MalformedValue,
}

/// Indentation patterns, comment markers and shell variables of one scope.
#[derive(Clone)]
pub struct MetadataItems {
    pub increase_indent_pattern: Option<Pattern>,
    pub decrease_indent_pattern: Option<Pattern>,
    pub bracket_indent_next_line_pattern: Option<Pattern>,
    pub disable_indent_next_line_pattern: Option<Pattern>,
    pub unindented_line_pattern: Option<Pattern>,
    pub indent_parens: Option<bool>,
    /// Variable names and values, in the order the names were first set.
    pub shell_variables: Vec<(String, String)>,
    /// The start marker of the first comment slot with a start and no end.
    pub line_comment: Option<String>,
    /// The markers of the first comment slot with both a start and an end.
    pub block_comment: Option<(String, String)>,
}

pub struct MetadataItemsV {
    /// The five patterns' sources, in slot order.
    pub patterns: Seq<Option<Seq<char>>>,
    pub indent_parens: Option<bool>,
    pub vars: Seq<(Seq<char>, Seq<char>)>,
    pub line_comment: Option<Seq<char>>,
    pub block_comment: Option<(Seq<char>, Seq<char>)>,
}

pub open spec fn opt_pattern_view(p: Option<Pattern>) -> Option<Seq<char>> {
    match p {
        Some(p) => Some(p@),
        None => None,
    }
}

impl View for MetadataItems {
    type V = MetadataItemsV;

    open spec fn view(&self) -> MetadataItemsV {
        MetadataItemsV {
            patterns: seq![
                opt_pattern_view(self.increase_indent_pattern),
                opt_pattern_view(self.decrease_indent_pattern),
                opt_pattern_view(self.bracket_indent_next_line_pattern),
                opt_pattern_view(self.disable_indent_next_line_pattern),
                opt_pattern_view(self.unindented_line_pattern),
            ],
            indent_parens: self.indent_parens,
            vars: pairs_view(self.shell_variables@),
            line_comment: match self.line_comment {
                Some(s) => Some(s@),
                None => None,
            },
            block_comment: match self.block_comment {
                Some(p) => Some((p.0@, p.1@)),
                None => None,
            },
        }
    }
}

/// The start and end variable names of a comment slot, in priority order.
pub open spec fn comment_start(slot: int) -> Seq<char> {
    if slot == 0 {
        "TM_COMMENT_START"@
    } else if slot == 1 {
        "TM_COMMENT_START_2"@
    } else {
        "TM_COMMENT_START_3"@
    }
}

pub open spec fn comment_end(slot: int) -> Seq<char> {
    if slot == 0 {
        "TM_COMMENT_END"@
    } else if slot == 1 {
        "TM_COMMENT_END_2"@
    } else {
        "TM_COMMENT_END_3"@
    }
}

/// Whether comment slot `slot` has a start and no end.
pub open spec fn is_line_slot(vars: Seq<(Seq<char>, Seq<char>)>, slot: int) -> bool {
    has_var(vars, comment_start(slot)) && !has_var(vars, comment_end(slot))
}

/// Whether comment slot `slot` has both a start and an end.
pub open spec fn is_block_slot(vars: Seq<(Seq<char>, Seq<char>)>, slot: int) -> bool {
    has_var(vars, comment_start(slot)) && has_var(vars, comment_end(slot))
}

/// The line comment marker: the start of the first slot that has a start
/// and no end.
pub open spec fn line_comment_of(vars: Seq<(Seq<char>, Seq<char>)>) -> Option<Seq<char>> {
    if is_line_slot(vars, 0) {
        Some(var_value(vars, comment_start(0)))
    } else if is_line_slot(vars, 1) {
        Some(var_value(vars, comment_start(1)))
    } else if is_line_slot(vars, 2) {
        Some(var_value(vars, comment_start(2)))
    } else {
        None
    }
}

/// The block comment markers: start and end of the first slot that has both.
pub open spec fn block_comment_of(vars: Seq<(Seq<char>, Seq<char>)>) -> Option<(Seq<char>, Seq<char>)> {
    if is_block_slot(vars, 0) {
        Some((var_value(vars, comment_start(0)), var_value(vars, comment_end(0))))
    } else if is_block_slot(vars, 1) {
        Some((var_value(vars, comment_start(1)), var_value(vars, comment_end(1))))
    } else if is_block_slot(vars, 2) {
        Some((var_value(vars, comment_start(2)), var_value(vars, comment_end(2))))
    } else {
        None
    }
}

/// A pattern setting: absent, a string, or (outer `None`) of the wrong type.
pub open spec fn pattern_of(v: Option<RawValueV>) -> Option<Option<Seq<char>>> {
    match v {
        None => Some(None),
        Some(RawValueV::Str(s)) => Some(Some(s)),
        Some(_) => None,
    }
}

pub open spec fn bool_of(v: Option<RawValueV>) -> Option<Option<bool>> {
    match v {
        None => Some(None),
        Some(RawValueV::Bool(b)) => Some(Some(b)),
        Some(_) => None,
    }
}

/// Whether any recognized key is present.
pub open spec fn recognized(f: FoldedV) -> bool {
    f.vars is Some || exists|i: int| 0 <= i < 6 && (#[trigger] f.scalars[i]) is Some
}

/// The typed settings built from folded ones.
pub open spec fn items_of(f: FoldedV) -> Result<MetadataItemsV, FragmentError> {
    if !recognized(f) {
        Err(FragmentError::NothingRecognized)
    } else if !(forall|i: int| 0 <= i < 5 ==> (#[trigger] pattern_of(f.scalars[i])) is Some)
        || bool_of(f.scalars[5]) is None {
        Err(FragmentError::MalformedValue)
    } else {
        Ok(MetadataItemsV {
            patterns: Seq::new(5, |i: int| pattern_of(f.scalars[i])->0),
            indent_parens: bool_of(f.scalars[5])->0,
            vars: vars_or_empty(f),
            line_comment: line_comment_of(vars_or_empty(f)),
            block_comment: block_comment_of(vars_or_empty(f)),
        })
    }
}

/// The value of variable `name`, if it is set.
pub fn lookup_var<'a>(vars: &'a Vec<(String, String)>, name: &str) -> (r: Option<&'a String>)
    ensures
        r is Some == has_var(pairs_view(vars@), name@),
        r matches Some(v) ==> v@ == var_value(pairs_view(vars@), name@),
{
    let i = find_var_index(vars, name);
    proof {
        lemma_find_var_bound(pairs_view(vars@), name@);
    }
    if i < vars.len() {
        Some(&vars[i].1)
    } else {
        None
    }
}

fn line_slot(vars: &Vec<(String, String)>, start: &str, end: &str) -> (r: Option<String>)
    ensures
        r is Some == (has_var(pairs_view(vars@), start@) && !has_var(pairs_view(vars@), end@)),
        r matches Some(v) ==> v@ == var_value(pairs_view(vars@), start@),
{
    match lookup_var(vars, start) {
        Some(s) => {
            if lookup_var(vars, end).is_none() {
                Some(s.clone())
            } else {
                None
            }
        },
        None => None,
    }
}

fn block_slot(vars: &Vec<(String, String)>, start: &str, end: &str) -> (r: Option<(String, String)>)
    ensures
        r is Some == (has_var(pairs_view(vars@), start@) && has_var(pairs_view(vars@), end@)),
        r matches Some(p) ==> p.0@ == var_value(pairs_view(vars@), start@) && p.1@ == var_value(
            pairs_view(vars@),
            end@,
        ),
{
    match (lookup_var(vars, start), lookup_var(vars, end)) {
        (Some(s), Some(e)) => Some((s.clone(), e.clone())),
        _ => None,
    }
}

/// The line comment marker of a set of shell variables.
pub fn get_line_comment_marker(vars: &Vec<(String, String)>) -> (r: Option<String>)
    ensures
        r matches Some(s) ==> line_comment_of(pairs_view(vars@)) == Some(s@),
        r is None ==> line_comment_of(pairs_view(vars@)) is None,
{
    let r = line_slot(vars, "TM_COMMENT_START", "TM_COMMENT_END");
    if r.is_some() {
        return r;
    }
    let r = line_slot(vars, "TM_COMMENT_START_2", "TM_COMMENT_END_2");
    if r.is_some() {
        return r;
    }
    line_slot(vars, "TM_COMMENT_START_3", "TM_COMMENT_END_3")
}

/// The block comment markers of a set of shell variables.
pub fn get_block_comment_markers(vars: &Vec<(String, String)>) -> (r: Option<(String, String)>)
    ensures
        r matches Some(p) ==> block_comment_of(pairs_view(vars@)) == Some((p.0@, p.1@)),
        r is None ==> block_comment_of(pairs_view(vars@)) is None,
{
    let r = block_slot(vars, "TM_COMMENT_START", "TM_COMMENT_END");
    if r.is_some() {
        return r;
    }
    let r = block_slot(vars, "TM_COMMENT_START_2", "TM_COMMENT_END_2");
    if r.is_some() {
        return r;
    }
    block_slot(vars, "TM_COMMENT_START_3", "TM_COMMENT_END_3")
}

impl MetadataItems {
    /// The value of shell variable `name`, if it is set.
    pub fn shell_variable(&self, name: &str) -> (r: Option<&String>)
        ensures
            r is Some == has_var(self@.vars, name@),
            r matches Some(v) ==> v@ == var_value(self@.vars, name@),
    {
        lookup_var(&self.shell_variables, name)
    }
}

} // verus!
