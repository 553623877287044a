//! Resolving settings for a stack of scopes: the sets whose selector matches
//! are ranked by score, and each field is taken from the best-ranked set that
//! defines it.

use vstd::prelude::*;
use crate::pattern::{regex_match_outcome, regex_valid, Pattern};
use crate::items::{MetadataItems, MetadataItemsV};
use crate::metadata::Metadata;

verus! {

/// The fields that the cascade resolves, each on its own.
#[derive(Clone, Copy, Debug, PartialEq, Eq, Structural)]
pub enum MetadataField {
    IncreaseIndent,
    DecreaseIndent,
    BracketIndentNextLine,
    DisableIndentNextLine,
    UnindentedLine,
    LineComment,
    BlockComment,
}

/// The slot of a pattern field among the five patterns.
pub open spec fn pattern_slot(f: MetadataField) -> int {
    match f {
        MetadataField::IncreaseIndent => 0,
        MetadataField::DecreaseIndent => 1,
        MetadataField::BracketIndentNextLine => 2,
        MetadataField::DisableIndentNextLine => 3,
        MetadataField::UnindentedLine => 4,
        _ => 5,
    }
}

pub open spec fn is_pattern_field(f: MetadataField) -> bool {
    pattern_slot(f) < 5
}

/// Whether settings give a value for field `f`.
pub open spec fn defines(items: MetadataItemsV, f: MetadataField) -> bool {
    match f {
        MetadataField::LineComment => items.line_comment is Some,
        MetadataField::BlockComment => items.block_comment is Some,
        _ => items.patterns[pattern_slot(f)] is Some,
    }
}

impl MetadataItems {
    /// The pattern of a pattern field.
    pub fn pattern(&self, f: MetadataField) -> (r: Option<&Pattern>)
        ensures
            is_pattern_field(f) ==> match r {
                Some(p) => self@.patterns[pattern_slot(f)] == Some(p@),
                None => self@.patterns[pattern_slot(f)] is None,
            },
            !is_pattern_field(f) ==> r is None,
    {
        let r = match f {
            MetadataField::IncreaseIndent => &self.increase_indent_pattern,
            MetadataField::DecreaseIndent => &self.decrease_indent_pattern,
            MetadataField::BracketIndentNextLine => &self.bracket_indent_next_line_pattern,
            MetadataField::DisableIndentNextLine => &self.disable_indent_next_line_pattern,
            MetadataField::UnindentedLine => &self.unindented_line_pattern,
            _ => return None,
        };
        match r {
            Some(p) => Some(p),
            None => None,
        }
    }

    pub fn defines(&self, f: MetadataField) -> (r: bool)
        ensures
            r == defines(self@, f),
    {
        match f {
            MetadataField::LineComment => self.line_comment.is_some(),
            MetadataField::BlockComment => self.block_comment.is_some(),
            _ => self.pattern(f).is_some(),
        }
    }
}

/// The score of set `i`; sets past the end of `scores` do not match.
pub open spec fn score_at(scores: Seq<Option<u64>>, i: int) -> Option<u64> {
    if 0 <= i < scores.len() {
        scores[i]
    } else {
        None
    }
}

/// The rank order: a higher score first, and of equal scores the set that
/// comes first in the collection.
pub open spec fn ranked_before(a: (u64, usize), b: (u64, usize)) -> bool {
    a.0 > b.0 || (a.0 == b.0 && a.1 < b.1)
}

/// `items` lists, in rank order, the score and index of each of the `n` sets
/// that has a score.
pub open spec fn is_ranking(items: Seq<(u64, usize)>, scores: Seq<Option<u64>>, n: int) -> bool {
    &&& forall|i: int, j: int| 0 <= i < j < items.len() ==> ranked_before(#[trigger] items[i], #[trigger] items[j])
    &&& forall|i: int| 0 <= i < items.len() ==> (#[trigger] items[i]).1 < n && score_at(scores, items[i].1 as int) == Some(items[i].0)
    &&& forall|k: int| 0 <= k < n && (#[trigger] score_at(scores, k)) is Some ==> exists|i: int| 0 <= i < items.len() && (#[trigger] items[i]).1 == k
}

/// The sets of a `Metadata` that match a scope stack, best match first.
pub struct ScopedMetadata<'a> {
    pub metadata: &'a Metadata,
    /// Score and index of each matching set, in rank order.
    pub items: Vec<(u64, usize)>,
}

impl<'a> ScopedMetadata<'a> {
    pub open spec fn wf(&self) -> bool {
        forall|i: int| 0 <= i < self.items@.len() ==> (#[trigger] self.items@[i]).1 < self.metadata.scoped_metadata@.len()
    }

    /// The settings of the set at rank `i`.
    pub open spec fn entry(&self, i: int) -> MetadataItemsV {
        self.metadata.scoped_metadata@[self.items@[i].1 as int].items@
    }

    /// The rank of the first set, from rank `i` on, that defines `f`.
    pub open spec fn first_from(&self, f: MetadataField, i: int) -> Option<int>
        decreases self.items@.len() - i,
    {
        if i < 0 || i >= self.items@.len() {
            None
        } else if defines(self.entry(i), f) {
            Some(i)
        } else {
            self.first_from(f, i + 1)
        }
    }

    pub proof fn lemma_first_from(&self, f: MetadataField, i: int)
        ensures
            self.first_from(f, i) matches Some(j) ==> {
                &&& 0 <= i <= j < self.items@.len()
                &&& defines(self.entry(j), f)
                &&& forall|k: int| i <= k < j ==> !defines(#[trigger] self.entry(k), f)
            },
            self.first_from(f, i) is None ==> forall|k: int| i <= k < self.items@.len() && 0 <= i ==> !defines(#[trigger] self.entry(k), f),
        decreases self.items@.len() - i,
    {
        if 0 <= i < self.items@.len() && !defines(self.entry(i), f) {
            self.lemma_first_from(f, i + 1);
        }
    }

    /// The rank of the best set that defines `f`.
    pub open spec fn first_defining(&self, f: MetadataField) -> Option<int> {
        self.first_from(f, 0)
    }

    /// The pattern source that the cascade picks for a pattern field.
    pub open spec fn cascade_pattern(&self, f: MetadataField) -> Option<Seq<char>> {
        match self.first_defining(f) {
            Some(i) => self.entry(i).patterns[pattern_slot(f)],
            None => None,
        }
    }

    /// Whether the pattern that the cascade picks for `f`, if any, compiles.
    pub open spec fn cascade_valid(&self, f: MetadataField) -> bool {
        match self.cascade_pattern(f) {
            Some(p) => regex_valid(p),
            None => true,
        }
    }

    /// What the cascade answers for a pattern field on `line`: the match
    /// outcome of the pattern it picks, and `Some(false)` when it picks none.
    pub open spec fn cascade_outcome(&self, f: MetadataField, line: Seq<char>) -> Option<bool> {
        match self.cascade_pattern(f) {
            Some(p) => regex_match_outcome(p, line),
            None => Some(false),
        }
    }

    pub open spec fn cascade_line_comment(&self) -> Option<Seq<char>> {
        match self.first_defining(MetadataField::LineComment) {
            Some(i) => self.entry(i).line_comment,
            None => None,
        }
    }

    pub open spec fn cascade_block_comment(&self) -> Option<(Seq<char>, Seq<char>)> {
        match self.first_defining(MetadataField::BlockComment) {
            Some(i) => self.entry(i).block_comment,
            None => None,
        }
    }

    /// The rank of the best set that defines `f`: sets that leave `f` out
    /// are passed over for `f` alone.
    pub fn best_match(&self, f: MetadataField) -> (r: Option<usize>)
        requires
            self.wf(),
        ensures
            match r {
                Some(i) => self.first_defining(f) == Some(i as int) && i < self.items@.len(),
                None => self.first_defining(f) is None,
            },
    {
        let mut i: usize = 0;
        while i < self.items.len()
            invariant
                self.wf(),
                i <= self.items@.len(),
                self.first_defining(f) == self.first_from(f, i as int),
            decreases self.items@.len() - i,
        {
            let idx = self.items[i].1;
            if self.metadata.scoped_metadata[idx].items.defines(f) {
                return Some(i);
            }
            i += 1;
        }
        None
    }

    /// The pattern the cascade picks for a pattern field.
    fn best_pattern(&self, f: MetadataField) -> (r: Option<&'a Pattern>)
        requires
            self.wf(),
            is_pattern_field(f),
        ensures
            match r {
                Some(p) => self.cascade_pattern(f) == Some(p@),
                None => self.cascade_pattern(f) is None,
            },
    {
        let metadata: &'a Metadata = self.metadata;
        match self.best_match(f) {
            Some(i) => metadata.scoped_metadata[self.items[i].1].items.pattern(f),
            None => None,
        }
    }

    /// Answers a pattern field on `line`: `Some(false)` when no matching set
    /// defines it, `None` when the regex engine abandons the match.
    fn rule_matches(&self, f: MetadataField, line: &str) -> (r: Option<bool>)
        requires
            self.wf(),
            is_pattern_field(f),
            self.cascade_valid(f),
        ensures
            r == self.cascade_outcome(f, line@),
    {
        match self.best_pattern(f) {
            Some(p) => p.is_match(line),
            None => Some(false),
        }
    }

    pub fn unindented_line(&self, line: &str) -> (r: Option<bool>)
        requires
            self.wf(),
            self.cascade_valid(MetadataField::UnindentedLine),
        ensures
            r == self.cascade_outcome(MetadataField::UnindentedLine, line@),
    {
        self.rule_matches(MetadataField::UnindentedLine, line)
    }

    pub fn decrease_indent(&self, line: &str) -> (r: Option<bool>)
        requires
            self.wf(),
            self.cascade_valid(MetadataField::DecreaseIndent),
        ensures
            r == self.cascade_outcome(MetadataField::DecreaseIndent, line@),
    {
        self.rule_matches(MetadataField::DecreaseIndent, line)
    }

    pub fn increase_indent(&self, line: &str) -> (r: Option<bool>)
        requires
            self.wf(),
            self.cascade_valid(MetadataField::IncreaseIndent),
        ensures
            r == self.cascade_outcome(MetadataField::IncreaseIndent, line@),
    {
        self.rule_matches(MetadataField::IncreaseIndent, line)
    }

    pub fn bracket_increase(&self, line: &str) -> (r: Option<bool>)
        requires
            self.wf(),
            self.cascade_valid(MetadataField::BracketIndentNextLine),
        ensures
            r == self.cascade_outcome(MetadataField::BracketIndentNextLine, line@),
    {
        self.rule_matches(MetadataField::BracketIndentNextLine, line)
    }

    pub fn disable_indent_next_line(&self, line: &str) -> (r: Option<bool>)
        requires
            self.wf(),
            self.cascade_valid(MetadataField::DisableIndentNextLine),
        ensures
            r == self.cascade_outcome(MetadataField::DisableIndentNextLine, line@),
    {
        self.rule_matches(MetadataField::DisableIndentNextLine, line)
    }

    /// Answers a pattern field on `line`, or `None` when the pattern that
    /// the cascade picks does not compile, when the match is abandoned, or
    /// when `f` is no pattern field.
    pub fn checked_match(&self, f: MetadataField, line: &str) -> (r: Option<bool>)
        requires
            self.wf(),
        ensures
            r == if is_pattern_field(f) && self.cascade_valid(f) {
                self.cascade_outcome(f, line@)
            } else {
                None
            },
    {
        if let MetadataField::LineComment = f {
            return None;
        }
        if let MetadataField::BlockComment = f {
            return None;
        }
        let valid = match self.best_pattern(f) {
            Some(p) => p.is_valid(),
            None => true,
        };
        if !valid {
            return None;
        }
        match f {
            MetadataField::IncreaseIndent => self.increase_indent(line),
            MetadataField::DecreaseIndent => self.decrease_indent(line),
            MetadataField::BracketIndentNextLine => self.bracket_increase(line),
            MetadataField::DisableIndentNextLine => self.disable_indent_next_line(line),
            _ => self.unindented_line(line),
        }
    }

    pub fn line_comment(&self) -> (r: Option<&'a str>)
        requires
            self.wf(),
        ensures
            match r {
                Some(s) => self.cascade_line_comment() == Some(s@),
                None => self.cascade_line_comment() is None,
            },
    {
        let metadata: &'a Metadata = self.metadata;
        match self.best_match(MetadataField::LineComment) {
            Some(i) => match &metadata.scoped_metadata[self.items[i].1].items.line_comment {
                Some(s) => Some(s.as_str()),
                None => None,
            },
            None => None,
        }
    }

    pub fn block_comment(&self) -> (r: Option<(&'a str, &'a str)>)
        requires
            self.wf(),
        ensures
            match r {
                Some(p) => self.cascade_block_comment() == Some((p.0@, p.1@)),
                None => self.cascade_block_comment() is None,
            },
    {
        let metadata: &'a Metadata = self.metadata;
        match self.best_match(MetadataField::BlockComment) {
            Some(i) => match &metadata.scoped_metadata[self.items[i].1].items.block_comment {
                Some(p) => Some((p.0.as_str(), p.1.as_str())),
                None => None,
            },
            None => None,
        }
    }

    pub fn is_empty(&self) -> (r: bool)
        ensures
            r == (self.items@.len() == 0),
    {
        self.items.len() == 0
    }
}

impl Metadata {
    /// Ranks the sets for a scope stack. `scores[i]` is how well the selector
    /// of set `i` matches the stack (`None`: it does not match; a higher score
    /// is a more specific match). Sets are ranked by descending score, and
    /// sets of equal score in collection order.
    pub fn metadata_for_scope<'a>(&'a self, scores: &[Option<u64>]) -> (r: ScopedMetadata<'a>)
        ensures
            r.metadata == self,
            r.wf(),
            is_ranking(r.items@, scores@, self.scoped_metadata@.len() as int),
    {
        let n = self.scoped_metadata.len();
        let mut items: Vec<(u64, usize)> = Vec::new();
        let mut k: usize = 0;
        while k < n
            invariant
                n == self.scoped_metadata@.len(),
                k <= n,
                forall|i: int, j: int| 0 <= i < j < items@.len() ==> ranked_before(#[trigger] items@[i], #[trigger] items@[j]),
                forall|i: int| 0 <= i < items@.len() ==> (#[trigger] items@[i]).1 < k && score_at(scores@, items@[i].1 as int) == Some(items@[i].0),
                forall|t: int| 0 <= t < k && (#[trigger] score_at(scores@, t)) is Some ==> exists|i: int| 0 <= i < items@.len() && (#[trigger] items@[i]).1 == t,
            decreases n - k,
        {
            if k < scores.len() {
                if let Some(s) = scores[k] {
                    let mut j: usize = 0;
                    while j < items.len() && items[j].0 >= s
                        invariant
                            j <= items@.len(),
                            forall|t: int| 0 <= t < j ==> (#[trigger] items@[t]).0 >= s,
                        decreases items@.len() - j,
                    {
                        j += 1;
                    }
                    let ghost before = items@;
                    items.insert(j, (s, k));
                    proof {
                        assert forall|a: int, b: int| 0 <= a < b < items@.len() implies ranked_before(#[trigger] items@[a], #[trigger] items@[b]) by {
                            if a < j && b > j {
                                assert(ranked_before(before[a], before[b - 1]));
                            }
                            if a == j && b > j + 1 {
                                assert(ranked_before(before[j as int], before[b - 1]));
                            }
                        }
                        assert forall|t: int| 0 <= t < k + 1 && (#[trigger] score_at(scores@, t)) is Some implies exists|i: int| 0 <= i < items@.len() && (#[trigger] items@[i]).1 == t by {
                            if t < k {
                                let i = choose|i: int| 0 <= i < before.len() && (#[trigger] before[i]).1 == t;
                                if i < j {
                                    assert(items@[i] == before[i]);
                                } else {
                                    assert(items@[i + 1] == before[i]);
                                }
                            } else {
                                assert(items@[j as int].1 == t);
                            }
                        }
                    }
                }
            }
            k += 1;
        }
        ScopedMetadata { metadata: self, items }
    }
}

} // verus!
