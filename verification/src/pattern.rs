//! The pattern engine: a query fragment as a matcher of directory names.
//!
//! A fragment with `*` or `?` is a wildcard and is matched through an
//! anchored regular expression; any other fragment is compared as text.

use vstd::prelude::*;

use crate::config::DirMatch;
use crate::text::{chars_of, contains_char, lowercase_of, starts_with};

verus! {

/// Whether the fragment is a wildcard: it holds `*` or `?`.
pub open spec fn has_wildcard(fragment: Seq<char>) -> bool {
    fragment.contains('*') || fragment.contains('?')
}

/// What one character of a wildcard fragment becomes in the regular
/// expression: a dot is escaped, `?` is any one character, `*` any run of
/// characters, and every other character stands for itself.
pub open spec fn char_pattern(c: char) -> Seq<char> {
    if c == '.' {
        seq!['\\', '.']
    } else if c == '?' {
        seq!['.']
    } else if c == '*' {
        seq!['.', '*']
    } else {
        seq![c]
    }
}

/// What the fragment's characters become, one after the other.
pub open spec fn pattern_body(fragment: Seq<char>) -> Seq<char>
    decreases fragment.len(),
{
    if fragment.len() == 0 {
        Seq::empty()
    } else {
        pattern_body(fragment.drop_last()) + char_pattern(fragment.last())
    }
}

/// The regular expression for a wildcard fragment: what its characters
/// become, between `^` and `$`, so that it matches a whole name or nothing.
pub open spec fn anchored_pattern(fragment: Seq<char>) -> Seq<char> {
    seq!['^'] + pattern_body(fragment) + seq!['$']
}

/// What the `regex` crate says of a pattern and a text: `None` where the
/// pattern does not compile, else whether it matches somewhere in the text.
pub uninterp spec fn regex_match(pattern: Seq<char>, case_insensitive: bool, text: Seq<char>)
    -> Option<bool>;

/// `regex::RegexBuilder::new(pattern).case_insensitive(..).build()` and, on
/// the expression it gives, `regex::Regex::is_match(text)`. A pattern that
/// the crate rejects gives `None`. The outcome depends on the three
/// arguments alone.
#[verifier::external_body]
fn regex_is_match(pattern: &str, case_insensitive: bool, text: &str) -> (outcome: Option<bool>)
    ensures
        outcome == regex_match(pattern@, case_insensitive, text@),
{
    match regex::RegexBuilder::new(pattern).case_insensitive(case_insensitive).build() {
        Ok(re) => Some(re.is_match(text)),
        Err(_) => None,
    }
}

/// The regular expression that stands for a wildcard fragment.
pub fn wildcard_pattern(fragment: &str) -> (pattern: String)
    ensures
        pattern@ == anchored_pattern(fragment@),
{
    let chars = chars_of(fragment);
    let mut pattern = String::new();
    pattern.push('^');
    let mut i: usize = 0;
    while i < chars.len()
        invariant
            i <= chars.len(),
            chars@ == fragment@,
            pattern@ == seq!['^'] + pattern_body(chars@.take(i as int)),
        decreases chars.len() - i,
    {
        let c = chars[i];
        proof {
            let next = chars@.take(i + 1);
            assert(next.drop_last() =~= chars@.take(i as int));
            assert(next.last() == c);
        }
        if c == '.' {
            pattern.push('\\');
            pattern.push('.');
        } else if c == '?' {
            pattern.push('.');
        } else if c == '*' {
            pattern.push('.');
            pattern.push('*');
        } else {
            pattern.push(c);
        }
        assert(pattern@ =~= seq!['^'] + pattern_body(chars@.take(i + 1)));
        i += 1;
    }
    assert(chars@.take(chars.len() as int) =~= chars@);
    pattern.push('$');
    pattern
}

/// The mathematical value of a matcher: the fragment and the case rule.
pub struct MatcherView {
    pub fragment: Seq<char>,
    pub exact: bool,
}

impl MatcherView {
    /// Whether the fragment is a wildcard.
    pub open spec fn is_wildcard(self) -> bool {
        has_wildcard(self.fragment)
    }

    /// Text equality with the fragment: character for character when
    /// `exact`, else after lowercasing both.
    pub open spec fn equals(self, name: Seq<char>) -> bool {
        if self.exact {
            name == self.fragment
        } else {
            lowercase_of(name) == lowercase_of(self.fragment)
        }
    }

    /// Whether the name, lowercased, begins with the lowercased fragment.
    pub open spec fn is_prefix_of(self, name: Seq<char>) -> bool {
        lowercase_of(self.fragment).is_prefix_of(lowercase_of(name))
    }

    /// Whether a directory of this name matches the fragment: through the
    /// anchored pattern for a wildcard that compiles, case-insensitively
    /// unless `exact`, and by text equality otherwise.
    pub open spec fn accepts(self, name: Seq<char>) -> bool {
        if self.is_wildcard() {
            match regex_match(anchored_pattern(self.fragment), !self.exact, name) {
                Some(matched) => matched,
                None => self.equals(name),
            }
        } else {
            self.equals(name)
        }
    }

    /// Whether a directory of this name is collected by a contents scan: a
    /// wildcard collects what it accepts, and a plain fragment what it
    /// equals and, in a fuzzy scan that is not exact, what it is a prefix
    /// of without regard to case.
    pub open spec fn accepts_in_scan(self, kind: DirMatch, name: Seq<char>) -> bool {
        if self.is_wildcard() {
            self.accepts(name)
        } else {
            self.equals(name) || (kind == DirMatch::Fuzzy && !self.exact && self.is_prefix_of(name))
        }
    }
}

/// A matcher made from one query fragment, for that fragment alone.
///
/// It holds the fragment, its lowercase form, whether it is a wildcard and,
/// for a wildcard, the anchored pattern as text, which is handed to the
/// `regex` crate at each match.
pub struct PatternMatcher {
    raw: String,
    lower: String,
    wildcard: bool,
    exact: bool,
    pattern: Option<String>,
}

impl View for PatternMatcher {
    type V = MatcherView;

    closed spec fn view(&self) -> MatcherView {
        MatcherView { fragment: self.raw@, exact: self.exact }
    }
}

impl PatternMatcher {
    #[verifier::type_invariant]
    spec fn well_formed(&self) -> bool {
        &&& self.lower@ == lowercase_of(self.raw@)
        &&& self.wildcard == has_wildcard(self.raw@)
        &&& match self.pattern {
            Some(p) => self.wildcard && p@ == anchored_pattern(self.raw@),
            None => !self.wildcard,
        }
    }

    /// The matcher for `fragment`; `exact` asks for the casing as written.
    pub fn new(fragment: &str, exact: bool) -> (m: PatternMatcher)
        ensures
            m@ == (MatcherView { fragment: fragment@, exact }),
    {
        let wildcard = contains_char(fragment, '*') || contains_char(fragment, '?');
        let pattern = if wildcard {
            Some(wildcard_pattern(fragment))
        } else {
            None
        };
        PatternMatcher {
            raw: fragment.to_owned(),
            lower: fragment.to_lowercase(),
            wildcard,
            exact,
            pattern,
        }
    }

    /// Whether the fragment holds `*` or `?`.
    pub fn is_wildcard(&self) -> (w: bool)
        ensures
            w == self@.is_wildcard(),
    {
        proof {
            use_type_invariant(self);
        }
        self.wildcard
    }

    /// Whether the casing must be the fragment's own.
    pub fn is_exact(&self) -> (e: bool)
        ensures
            e == self@.exact,
    {
        self.exact
    }

    /// The fragment as it was given.
    pub fn fragment(&self) -> (f: &str)
        ensures
            f@ == self@.fragment,
    {
        self.raw.as_str()
    }

    /// Whether `name` equals the fragment: exactly, or without regard to
    /// case where the matcher is not exact.
    pub fn matches_exact_or_case_insensitive(&self, name: &str) -> (m: bool)
        ensures
            m == self@.equals(name@),
    {
        proof {
            use_type_invariant(self);
        }
        if self.exact {
            name.to_owned() == self.raw
        } else {
            name.to_lowercase() == self.lower
        }
    }

    /// Whether a directory called `name` matches the fragment.
    pub fn matches_directory_name(&self, name: &str) -> (m: bool)
        ensures
            m == self@.accepts(name@),
    {
        proof {
            use_type_invariant(self);
        }
        match &self.pattern {
            Some(p) => match regex_is_match(p.as_str(), !self.exact, name) {
                Some(matched) => matched,
                None => self.matches_exact_or_case_insensitive(name),
            },
            None => self.matches_exact_or_case_insensitive(name),
        }
    }

    /// Whether a contents scan of kind `kind` collects a directory called
    /// `name`.
    pub fn matches_in_scan(&self, kind: DirMatch, name: &str) -> (m: bool)
        ensures
            m == self@.accepts_in_scan(kind, name@),
    {
        proof {
            use_type_invariant(self);
        }
        if self.wildcard {
            self.matches_directory_name(name)
        } else if self.matches_exact_or_case_insensitive(name) {
            true
        } else if self.exact {
            false
        } else {
            match kind {
                DirMatch::AsIs => false,
                DirMatch::Fuzzy => {
                    let lowered = name.to_lowercase();
                    starts_with(lowered.as_str(), self.lower.as_str())
                },
            }
        }
    }
}

} // verus!
