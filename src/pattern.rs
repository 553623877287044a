//! Regex patterns that are compiled on first use and cached.

use vstd::prelude::*;
use lazycell::AtomicLazyCell;
use onig::{MatchParam, Regex, SearchOptions};

verus! {

#[verifier::external_type_specification]
#[verifier::external_body]
pub struct ExRegex(Regex);

#[verifier::external_type_specification]
#[verifier::external_body]
#[verifier::reject_recursive_types(T)]
pub struct ExAtomicLazyCell<T>(AtomicLazyCell<T>);

/// Whether oniguruma accepts `pattern` as a regular expression.
pub uninterp spec fn regex_valid(pattern: Seq<char>) -> bool;

/// What oniguruma answers when the regular expression `pattern` is matched
/// against `text` at its start (an anchored match at offset zero) with the
/// default match parameters: whether it matches, or `None` when the engine
/// abandons the match (its retry limit is reached).
pub uninterp spec fn regex_match_outcome(pattern: Seq<char>, text: Seq<char>) -> Option<bool>;

/// A compiled regular expression together with the source it was compiled
/// from. Values of it are only made by `compile_regex`.
pub struct CompiledRegex {
    source: String,
    regex: Regex,
}

impl CompiledRegex {
    /// The source text this regex was compiled from.
    pub closed spec fn source(&self) -> Seq<char> {
        self.source@
    }

    /// Only a valid source compiles.
    #[verifier::type_invariant]
    closed spec fn compiled_from_valid_source(&self) -> bool {
        regex_valid(self.source@)
    }
}

/// Relies on onig::Regex::new: it succeeds exactly when the pattern is a
/// valid regular expression.
#[verifier::external_body]
fn compile_regex(source: &String) -> (r: Option<CompiledRegex>)
    ensures
        r.is_some() == regex_valid(source@),
        r matches Some(c) ==> c.source() == source@,
{
    match Regex::new(source.as_str()) {
        Ok(regex) => Some(CompiledRegex { source: source.clone(), regex }),
        Err(_) => None,
    }
}

/// Relies on onig::Regex::match_with_param at offset zero, with no search
/// options, no region and default match parameters: `Ok(Some(_))` when the
/// regex matches there, `Ok(None)` when it does not, and `Err` when the match
/// is abandoned (the retry limit is reached).
#[verifier::external_body]
fn regex_match_at_start(c: &CompiledRegex, text: &str) -> (r: Option<bool>)
    ensures
        r == regex_match_outcome(c.source(), text@),
{
    match c.regex.match_with_param(text, 0, SearchOptions::SEARCH_OPTION_NONE, None, MatchParam::default()) {
        Ok(m) => Some(m.is_some()),
        Err(_) => None,
    }
}

/// Relies on lazycell::AtomicLazyCell::new: an empty cell.
#[verifier::external_body]
fn empty_cell() -> (r: AtomicLazyCell<CompiledRegex>) {
    AtomicLazyCell::new()
}

/// Relies on lazycell::AtomicLazyCell::borrow: the value stored, if any.
#[verifier::external_body]
fn cell_borrow(cell: &AtomicLazyCell<CompiledRegex>) -> (r: Option<&CompiledRegex>) {
    cell.borrow()
}

/// Relies on lazycell::AtomicLazyCell::fill: stores the value unless the cell
/// is already full, in which case the value is handed back.
#[verifier::external_body]
fn cell_fill(cell: &AtomicLazyCell<CompiledRegex>, value: CompiledRegex) -> (r: Result<(), CompiledRegex>) {
    cell.fill(value)
}

/// A regular expression kept as its source text, compiled on the first match
/// and cached. Equality, cloning and serialization see the source only.
pub struct Pattern {
    pub regex_str: String,
    pub regex: AtomicLazyCell<CompiledRegex>,
}

impl View for Pattern {
    type V = Seq<char>;

    open spec fn view(&self) -> Seq<char> {
        self.regex_str@
    }
}

impl Pattern {
    /// A pattern over `regex_str` that has not been compiled yet.
    pub fn new(regex_str: String) -> (r: Pattern)
        ensures
            r@ == regex_str@,
    {
        Pattern { regex_str, regex: empty_cell() }
    }

    /// The source text.
    pub fn as_str(&self) -> (r: &str)
        ensures
            r@ == self@,
    {
        self.regex_str.as_str()
    }

    /// The compiled regex in the cache, when it is one for this source.
    fn cached(&self) -> (r: Option<&CompiledRegex>)
        ensures
            r matches Some(c) ==> c.source() == self@,
    {
        match cell_borrow(&self.regex) {
            Some(c) => {
                if c.source == self.regex_str {
                    Some(c)
                } else {
                    None
                }
            },
            None => None,
        }
    }

    /// Compiles the source (once) and tells whether it is a valid regular
    /// expression. A valid one is left in the cache.
    pub fn is_valid(&self) -> (r: bool)
        ensures
            r == regex_valid(self@),
    {
        if let Some(c) = self.cached() {
            proof { use_type_invariant(c); }
            return true;
        }
        match compile_regex(&self.regex_str) {
            Some(c) => {
                let _ = cell_fill(&self.regex, c);
                true
            },
            None => false,
        }
    }
}

impl Pattern {
    /// Whether the pattern matches `text` at its start; `None` when the
    /// regex engine abandons the match. The pattern is compiled on the first
    /// call and the compiled form is kept; a second compilation racing with
    /// this one is discarded.
    pub fn is_match(&self, text: &str) -> (r: Option<bool>)
        requires
            regex_valid(self@),
        ensures
            r == regex_match_outcome(self@, text@),
    {
        if let Some(c) = self.cached() {
            return regex_match_at_start(c, text);
        }
        match compile_regex(&self.regex_str) {
            Some(c) => {
                let r = regex_match_at_start(&c, text);
                let _ = cell_fill(&self.regex, c);
                r
            },
            None => None,
        }
    }

    /// Matches `text` when the pattern compiles; `None` when it does not, or
    /// when the match is abandoned.
    pub fn try_is_match(&self, text: &str) -> (r: Option<bool>)
        ensures
            r == if regex_valid(self@) {
                regex_match_outcome(self@, text@)
            } else {
                None
            },
    {
        if self.is_valid() {
            self.is_match(text)
        } else {
            None
        }
    }
}

impl Clone for Pattern {
    /// A pattern with the same source and an empty cache.
    fn clone(&self) -> (r: Self)
        ensures
            r@ == self@,
    {
        Pattern::new(self.regex_str.clone())
    }
}

impl PartialEq for Pattern {
    fn eq(&self, other: &Pattern) -> (r: bool) {
        self.regex_str == other.regex_str
    }
}

impl vstd::std_specs::cmp::PartialEqSpecImpl for Pattern {
    open spec fn obeys_eq_spec() -> bool {
        true
    }

    open spec fn eq_spec(&self, other: &Pattern) -> bool {
        self@ == other@
    }
}

impl Eq for Pattern {
}

} // verus!
