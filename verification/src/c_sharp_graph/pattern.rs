//! Dotted query patterns.
//!
//! A query such as `System.Configuration.*` is cut at every `.` into parts.
//! A part without `*` matches by equality; a part with `*` is turned into a
//! regular expression and matches wherever that expression finds a match.

use crate::text::{chars_of, split_chars, split_on, views};
use vstd::prelude::*;

verus! {

/// `regex::Regex`, a compiled regular expression. Nothing is known of its
/// inside.
#[verifier::external_type_specification]
#[verifier::external_body]
pub struct ExRegex(regex::Regex);

/// `regex::Error`, what the regex engine says of a pattern that it refuses.
/// Nothing is known of its inside.
#[verifier::external_type_specification]
#[verifier::external_body]
pub struct ExRegexError(regex::Error);

/// What `regex::Regex::new` returns for `pattern`: the compiled expression,
/// or `None` where the pattern is refused.
pub uninterp spec fn regex_new(pattern: Seq<char>) -> Option<regex::Regex>;

/// What `regex::Regex::is_match` returns: whether `re` finds a match
/// anywhere in `haystack`.
pub uninterp spec fn regex_is_match(re: regex::Regex, haystack: Seq<char>) -> bool;

/// Whether a compiled expression finds a match in every haystack.
pub open spec fn matches_everything(re: regex::Regex) -> bool {
    forall|haystack: Seq<char>| #[trigger] regex_is_match(re, haystack)
}

/// Calls `regex::Regex::new`. Compiling depends on the pattern text alone, so
/// the outcome is the named value `regex_new(pattern)`; the error itself
/// carries nothing the contract speaks of. One pattern is spelled out: `.*`
/// is accepted, and as the crate documents `.` as any character but a new
/// line, `x*` as zero or more of `x`, and a match anywhere in the haystack
/// as enough, it matches the empty text at the start of every haystack.
#[verifier::external_body]
fn compile(pattern: &str) -> (res: Result<regex::Regex, regex::Error>)
    ensures
        res.ok() == regex_new(pattern@),
        pattern@ == seq!['.', '*'] ==> res is Ok && matches_everything(res->Ok_0),
{
    regex::Regex::new(pattern)
}

/// Calls `regex::Regex::is_match`, whose answer depends on the compiled
/// expression and the haystack alone.
#[verifier::external_body]
fn is_match(re: &regex::Regex, haystack: &str) -> (found: bool)
    ensures
        found == regex_is_match(*re, haystack@),
{
    re.is_match(haystack)
}

/// What one pattern character contributes to the expression text: `*`
/// becomes the group `(.*)`, anything else stands for itself.
pub open spec fn expand_char(c: char) -> Seq<char> {
    if c == '*' {
        seq!['(', '.', '*', ')']
    } else {
        seq![c]
    }
}

/// `part` with every `*` replaced by `(.*)`.
pub open spec fn star_to_group(part: Seq<char>) -> Seq<char>
    decreases part.len(),
{
    if part.len() == 0 {
        Seq::empty()
    } else {
        star_to_group(part.drop_last()) + expand_char(part.last())
    }
}

/// The expression text of a part that holds `*`: `.*` for the lone star,
/// otherwise the part with each `*` replaced by `(.*)`.
pub open spec fn regex_text(part: Seq<char>) -> Seq<char> {
    if part == seq!['*'] {
        seq!['.', '*']
    } else {
        star_to_group(part)
    }
}

/// Whether a part is the lone star `*`.
pub open spec fn is_lone_star(part: Seq<char>) -> bool {
    part == seq!['*']
}

/// Whether every part is the lone star.
pub open spec fn all_lone_stars(parts: Seq<Seq<char>>) -> bool {
    forall|i: int| 0 <= i < parts.len() ==> is_lone_star(#[trigger] parts[i])
}

/// Whether the lone star is the only wildcard part among the parts.
pub open spec fn only_lone_stars(parts: Seq<Seq<char>>) -> bool {
    forall|i: int|
        0 <= i < parts.len() && is_wildcard(#[trigger] parts[i]) ==> is_lone_star(parts[i])
}

/// Whether a part is a wildcard part.
pub open spec fn is_wildcard(part: Seq<char>) -> bool {
    part.contains('*')
}

/// Whether a query can be compiled: every wildcard part must give an
/// expression that the regex engine accepts.
pub open spec fn compilable(query: Seq<char>) -> bool {
    forall|i: int|
        0 <= i < split_on(query, '.').len() && is_wildcard(#[trigger] split_on(query, '.')[i])
            ==> regex_new(regex_text(split_on(query, '.')[i])) is Some
}

/// Whether the pattern part `part` matches `text`.
pub open spec fn part_matches(part: Seq<char>, text: Seq<char>) -> bool {
    if is_wildcard(part) {
        match regex_new(regex_text(part)) {
            Some(re) => regex_is_match(re, text),
            None => false,
        }
    } else {
        part == text
    }
}

/// Whether each of the leading components of a dotted symbol matches the
/// pattern part at the same position. Components beyond the pattern's
/// length, and pattern parts beyond the symbol's length, are not looked at.
pub open spec fn prefix_matches(parts: Seq<Seq<char>>, symbol: Seq<char>) -> bool {
    forall|i: int|
        0 <= i < parts.len() && i < split_on(symbol, '.').len() ==> part_matches(
            #[trigger] parts[i],
            split_on(symbol, '.')[i],
        )
}

/// Why a query could not be compiled.
#[derive(Debug, Clone, Copy, PartialEq, Eq, Structural)]
pub enum PatternError {
    /// A wildcard part did not give a valid regular expression.
    BadPattern,
}

/// One part of a compiled pattern.
pub struct SearchPart {
    part: String,
    regex: Option<regex::Regex>,
}

impl SearchPart {
    #[verifier::type_invariant]
    spec fn well_formed(&self) -> bool {
        &&& self.regex == if is_wildcard(self.part@) {
            regex_new(regex_text(self.part@))
        } else {
            None
        }
        &&& is_wildcard(self.part@) ==> self.regex is Some
        &&& is_lone_star(self.part@) && self.regex is Some ==> matches_everything(
            self.regex->Some_0,
        )
    }

    /// The text of this part, as it stood in the query.
    pub closed spec fn view(&self) -> Seq<char> {
        self.part@
    }

    /// The text of this part.
    pub fn text(&self) -> (t: &String)
        ensures
            t@ == self@,
    {
        &self.part
    }

    /// Whether this part matches `match_string`. The lone star matches
    /// everything.
    pub fn matches(&self, match_string: &str) -> (b: bool)
        ensures
            b == part_matches(self@, match_string@),
            is_lone_star(self@) ==> b,
    {
        proof {
            use_type_invariant(self);
            if is_lone_star(self.part@) {
                assert(self.part@[0] == '*');
            }
        }
        match &self.regex {
            None => *self.part.as_str() == *match_string,
            Some(r) => is_match(r, match_string),
        }
    }
}

/// Builds the expression text for a wildcard part.
pub fn regex_text_of(part: &str) -> (text: String)
    ensures
        text@ == regex_text(part@),
{
    let chars = chars_of(part);
    let mut text = String::new();
    if chars.len() == 1 && chars[0] == '*' {
        assert(part@ =~= seq!['*']);
        text.push('.');
        text.push('*');
        assert(text@ =~= seq!['.', '*']);
        return text;
    }
    let mut i: usize = 0;
    while i < chars.len()
        invariant
            0 <= i <= chars.len(),
            chars@ == part@,
            text@ == star_to_group(part@.take(i as int)),
        decreases chars.len() - i,
    {
        let c = chars[i];
        proof {
            assert(part@.take(i + 1).drop_last() =~= part@.take(i as int));
            assert(part@.take(i + 1).last() == c);
        }
        if c == '*' {
            text.push('(');
            text.push('.');
            text.push('*');
            text.push(')');
            assert(text@ =~= star_to_group(part@.take(i as int)) + expand_char(c));
        } else {
            text.push(c);
            assert(text@ =~= star_to_group(part@.take(i as int)) + expand_char(c));
        }
        i += 1;
    }
    assert(part@.take(i as int) =~= part@);
    text
}

/// Whether `part` holds a `*`.
pub fn has_star(part: &str) -> (b: bool)
    ensures
        b == is_wildcard(part@),
{
    let chars = chars_of(part);
    let mut i: usize = 0;
    while i < chars.len()
        invariant
            0 <= i <= chars.len(),
            chars@ == part@,
            forall|j: int| 0 <= j < i ==> part@[j] != '*',
        decreases chars.len() - i,
    {
        if chars[i] == '*' {
            return true;
        }
        i += 1;
    }
    false
}

/// The views of a sequence of parts.
pub open spec fn part_views(parts: Seq<SearchPart>) -> Seq<Seq<char>> {
    Seq::new(parts.len(), |i: int| parts[i]@)
}

/// A compiled pattern: the parts of a dotted query, in order.
pub struct Search {
    parts: Vec<SearchPart>,
}

impl Search {
    #[verifier::type_invariant]
    spec fn well_formed(&self) -> bool {
        self.parts@.len() >= 1
    }

    /// The texts of the parts, in order.
    pub closed spec fn view(&self) -> Seq<Seq<char>> {
        part_views(self.parts@)
    }

    /// Compiles a dotted query. The query is cut at every `.`; it compiles
    /// exactly when each wildcard part gives a valid expression. A query
    /// whose only wildcard parts are lone stars always compiles.
    pub fn create_search(query: String) -> (res: Result<Search, PatternError>)
        ensures
            res is Ok <==> compilable(query@),
            only_lone_stars(split_on(query@, '.')) ==> res is Ok,
            res matches Ok(search) ==> search@ == split_on(query@, '.'),
            res matches Err(e) ==> e == PatternError::BadPattern,
    {
        let pieces = split_chars(query.as_str(), '.');
        let mut parts: Vec<SearchPart> = Vec::new();
        let mut i: usize = 0;
        while i < pieces.len()
            invariant
                0 <= i <= pieces.len(),
                views(pieces@) == split_on(query@, '.'),
                parts@.len() == i,
                forall|j: int| 0 <= j < i ==> (#[trigger] parts@[j])@ == pieces@[j]@,
                forall|j: int|
                    0 <= j < i && is_wildcard(#[trigger] split_on(query@, '.')[j]) ==> regex_new(
                        regex_text(split_on(query@, '.')[j]),
                    ) is Some,
            decreases pieces.len() - i,
        {
            let piece = &pieces[i];
            assert(views(pieces@)[i as int] == piece@);
            if has_star(piece.as_str()) {
                let text = regex_text_of(piece.as_str());
                match compile(text.as_str()) {
                    Ok(re) => {
                        parts.push(SearchPart { part: piece.clone(), regex: Some(re) });
                    },
                    Err(_) => {
                        return Err(PatternError::BadPattern);
                    },
                }
            } else {
                parts.push(SearchPart { part: piece.clone(), regex: None });
            }
            i += 1;
        }
        assert(part_views(parts@) =~= views(pieces@));
        Ok(Search { parts })
    }

    /// The number of parts.
    pub fn len(&self) -> (n: usize)
        ensures
            n == self@.len(),
            n >= 1,
    {
        proof {
            use_type_invariant(self);
        }
        self.parts.len()
    }

    /// The last part of the pattern, the one that leaves are matched
    /// against.
    pub fn last_part(&self) -> (part: &SearchPart)
        ensures
            part@ == self@.last(),
    {
        proof {
            use_type_invariant(self);
        }
        &self.parts[self.parts.len() - 1]
    }

    /// Whether the leading components of an import's dotted name match the
    /// pattern, position by position.
    pub fn partial_namespace(&self, symbol: &str) -> (b: bool)
        ensures
            b == prefix_matches(self@, symbol@),
            all_lone_stars(self@) ==> b,
    {
        self.leading_parts_match(symbol)
    }

    /// Whether a namespace's dotted name matches the pattern, position by
    /// position; pattern parts beyond the name's length are not looked at.
    pub fn match_namespace(&self, symbol: &str) -> (b: bool)
        ensures
            b == prefix_matches(self@, symbol@),
            all_lone_stars(self@) ==> b,
    {
        self.leading_parts_match(symbol)
    }

    /// Whether the last part of the pattern matches `symbol`. A pattern
    /// that ends in the lone star matches every symbol.
    pub fn match_symbol(&self, symbol: &str) -> (b: bool)
        ensures
            b == part_matches(self@.last(), symbol@),
            is_lone_star(self@.last()) ==> b,
    {
        self.last_part().matches(symbol)
    }

    /// Whether the components of `symbol` match the pattern parts at their
    /// positions, as far as both reach.
    fn leading_parts_match(&self, symbol: &str) -> (b: bool)
        ensures
            b == prefix_matches(self@, symbol@),
            all_lone_stars(self@) ==> b,
    {
        let pieces = split_chars(symbol, '.');
        let mut i: usize = 0;
        while i < pieces.len() && i < self.parts.len()
            invariant
                0 <= i <= pieces.len(),
                i <= self.parts@.len(),
                views(pieces@) == split_on(symbol@, '.'),
                forall|j: int|
                    0 <= j < i ==> part_matches(
                        #[trigger] self@[j],
                        split_on(symbol@, '.')[j],
                    ),
            decreases pieces.len() - i,
        {
            assert(views(pieces@)[i as int] == pieces@[i as int]@);
            assert(self@[i as int] == self.parts@[i as int]@);
            if !self.parts[i].matches(pieces[i].as_str()) {
                return false;
            }
            i += 1;
        }
        true
    }
}

} // verus!
