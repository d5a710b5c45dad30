//! Name filters: alternatives separated by `|`, regular expressions, and the
//! exclusion of framework code.
use crate::analysis::symbols;
use crate::text;
use regex::Regex;
use vstd::prelude::*;

verus! {

/// A compiled regular expression.
#[verifier::external_type_specification]
#[verifier::external_body]
pub struct ExRegex(regex::Regex);

/// What `Regex::new` says is wrong with a pattern, if anything.
pub uninterp spec fn regex_error(pattern: Seq<char>) -> Option<Seq<char>>;

/// The pattern that an expression was compiled from, which `Regex::as_str` gives back.
pub uninterp spec fn regex_pattern(re: regex::Regex) -> Seq<char>;

/// Whether `Regex::is_match` finds a match of a pattern anywhere in a text.
pub uninterp spec fn regex_finds(pattern: Seq<char>, text: Seq<char>) -> bool;

/// `Regex::new` compiles a pattern. It fails on an invalid pattern with a
/// message that depends on the pattern alone; else the result carries the
/// pattern.
#[verifier::external_body]
fn compile_regex(pattern: &str) -> (r: Result<Regex, String>)
    ensures
        match r {
            Ok(re) => regex_error(pattern@) is None && regex_pattern(re) == pattern@,
            Err(message) => regex_error(pattern@) == Some(message@),
        },
{
    Regex::new(pattern).map_err(|e| e.to_string())
}

/// `Regex::is_match`: whether the expression matches anywhere in the text.
#[verifier::external_body]
pub(crate) fn regex_is_match(re: &Regex, text: &str) -> (r: bool)
    ensures
        r == regex_finds(regex_pattern(*re), text@),
{
    re.is_match(text)
}

/// Whether some non-empty alternative of a `|`-separated list stands in a
/// value, when both are lowercased.
pub open spec fn any_alternative(value: Seq<char>, patterns: Seq<char>) -> bool {
    let alternatives = text::pieces(patterns, seq!['|']);
    exists|i: int|
        0 <= i < alternatives.len() && alternative_found(value, #[trigger] alternatives[i])
}

/// Whether a trimmed, non-empty alternative stands in a value, when both are lowercased.
pub open spec fn alternative_found(value: Seq<char>, alternative: Seq<char>) -> bool {
    let p = text::trimmed(alternative);
    p.len() > 0 && text::has_text(text::unicode_lowercase(value), text::unicode_lowercase(p))
}

/// Whether some non-empty alternative stands in the value. Alternatives are
/// separated by `|`, trimmed, and compared without regard to case.
pub fn pattern_matches(value: &str, patterns: &str) -> (r: bool)
    ensures
        r == any_alternative(value@, patterns@),
{
    let lower = text::to_lowercase(value);
    let mut bar: Vec<char> = Vec::new();
    bar.push('|');
    let alternatives = text::split_pieces(&text::chars_of(patterns), &bar);
    let ghost views = text::char_views(alternatives@);
    assert(bar@ =~= seq!['|']);
    let mut i: usize = 0;
    while i < alternatives.len()
        invariant
            i <= alternatives@.len(),
            views == text::char_views(alternatives@),
            views == text::pieces(patterns@, seq!['|']),
            lower@ == text::unicode_lowercase(value@),
            forall|k: int| 0 <= k < i ==> !alternative_found(value@, #[trigger] views[k]),
        decreases alternatives@.len() - i,
    {
        let p = text::trim_chars(&alternatives[i]);
        assert(views[i as int] == alternatives@[i as int]@);
        if p.len() > 0 {
            let needle = text::to_lowercase(text::string_of(&p).as_str());
            if text::contains_text(lower.as_str(), needle.as_str()) {
                return true;
            }
        }
        i += 1;
    }
    false
}

/// Whether a name satisfies a query: equal to it in the mode `exact`, else
/// containing it without regard to case.
pub open spec fn name_matches(name: Seq<char>, query: Seq<char>, match_mode: Seq<char>) -> bool {
    if match_mode == "exact"@ {
        name == query
    } else {
        text::has_text(text::unicode_lowercase(name), text::unicode_lowercase(query))
    }
}

/// Whether a name satisfies a query: equal to it in the mode `exact`, else
/// containing it without regard to case.
pub fn function_matches(name: &str, query: &str, match_mode: &str) -> (r: bool)
    ensures
        r == name_matches(name@, query@, match_mode@),
{
    if text::text_eq(match_mode, "exact") {
        text::text_eq(name, query)
    } else {
        let hay = text::to_lowercase(name);
        let needle = text::to_lowercase(query);
        text::contains_text(hay.as_str(), needle.as_str())
    }
}

/// The pattern that an optional text asks for: trimmed, and none if empty.
pub open spec fn requested_pattern(pattern: Option<Seq<char>>) -> Option<Seq<char>> {
    match pattern {
        Some(p) => if text::trimmed(p).len() > 0 {
            Some(text::trimmed(p))
        } else {
            None
        },
        None => None,
    }
}

/// The message for a pattern that does not compile.
pub open spec fn pattern_error(label: Seq<char>, pattern: Seq<char>, reason: Seq<char>) -> Seq<char> {
    "Invalid "@ + label + " regex '"@ + pattern + "': "@ + reason
}

/// What is wrong with an optional pattern, if anything.
pub open spec fn optional_pattern_error(
    pattern: Option<Seq<char>>,
    label: Seq<char>,
) -> Option<Seq<char>> {
    match requested_pattern(pattern) {
        Some(p) => match regex_error(p) {
            Some(reason) => Some(pattern_error(label, p, reason)),
            None => None,
        },
        None => None,
    }
}

/// The pattern of an optional compiled expression.
pub open spec fn pattern_in(re: Option<Regex>) -> Option<Seq<char>> {
    match re {
        Some(re) => Some(regex_pattern(re)),
        None => None,
    }
}

/// The message for a pattern that does not compile.
pub fn invalid_pattern_message(label: &str, pattern: &str, reason: &str) -> (r: String)
    ensures
        r@ == pattern_error(label@, pattern@, reason@),
{
    let mut message = "Invalid ".to_string();
    text::push_text(&mut message, label);
    text::push_text(&mut message, " regex '");
    text::push_text(&mut message, pattern);
    text::push_text(&mut message, "': ");
    text::push_text(&mut message, reason);
    message
}

/// Compiles a pattern if one is given that is not blank.
pub fn compile_optional_regex(pattern: &Option<String>, label: &str) -> (r: Result<
    Option<Regex>,
    String,
>)
    ensures
        match r {
            Ok(re) => optional_pattern_error(text::opt(*pattern), label@) is None && pattern_in(re)
                == requested_pattern(text::opt(*pattern)),
            Err(message) => optional_pattern_error(text::opt(*pattern), label@) == Some(message@),
        },
{
    let pattern = match pattern {
        Some(pattern) => text::trim(pattern.as_str()),
        None => {
            return Ok(None);
        },
    };
    if pattern.as_str().is_empty() {
        return Ok(None);
    }
    match compile_regex(pattern.as_str()) {
        Ok(re) => Ok(Some(re)),
        Err(reason) => Err(invalid_pattern_message(label, pattern.as_str(), reason.as_str())),
    }
}

/// What is wrong with the patterns of a request, if anything.
pub open spec fn request_error(
    include_regex: Option<Seq<char>>,
    exclude_regex: Option<Seq<char>>,
) -> Option<Seq<char>> {
    match optional_pattern_error(include_regex, "include"@) {
        Some(e) => Some(e),
        None => optional_pattern_error(exclude_regex, "exclude"@),
    }
}

/// Whether a name passes, by what its tests said: every test that a name has
/// to pass was passed, and none that rules it out was.
pub fn frame_verdict(
    include_hit: Option<bool>,
    include_regex_hit: Option<bool>,
    exclude_hit: Option<bool>,
    exclude_regex_hit: Option<bool>,
    framework: bool,
) -> (r: bool)
    ensures
        r == (include_hit != Some(false) && include_regex_hit != Some(false) && exclude_hit != Some(
            true,
        ) && exclude_regex_hit != Some(true) && !framework),
{
    let included: bool = match (include_hit, include_regex_hit) {
        (Some(false), _) => false,
        (_, Some(false)) => false,
        _ => true,
    };
    let excluded: bool = match (exclude_hit, exclude_regex_hit) {
        (Some(true), _) => true,
        (_, Some(true)) => true,
        _ => framework,
    };
    included && !excluded
}

/// Which frames a call tree shows.
pub struct FrameNameFilter {
    pub include_names: Option<String>,
    pub exclude_names: Option<String>,
    pub include_regex: Option<Regex>,
    pub exclude_regex: Option<Regex>,
    pub exclude_framework: bool,
}

impl FrameNameFilter {
    /// Whether a name passes every part of the filter.
    pub open spec fn passes(self, name: Seq<char>) -> bool {
        &&& self.include_names matches Some(p) ==> any_alternative(name, p@)
        &&& self.include_regex matches Some(re) ==> regex_finds(regex_pattern(re), name)
        &&& self.exclude_names matches Some(p) ==> !any_alternative(name, p@)
        &&& self.exclude_regex matches Some(re) ==> !regex_finds(regex_pattern(re), name)
        &&& self.exclude_framework ==> !symbols::framework_function(name, None)
    }

    /// Whether the filter is the one that a request describes.
    pub open spec fn is_requested(
        self,
        include_names: Option<Seq<char>>,
        exclude_names: Option<Seq<char>>,
        include_regex: Option<Seq<char>>,
        exclude_regex: Option<Seq<char>>,
        exclude_framework: bool,
    ) -> bool {
        &&& text::opt(self.include_names) == include_names
        &&& text::opt(self.exclude_names) == exclude_names
        &&& pattern_in(self.include_regex) == requested_pattern(include_regex)
        &&& pattern_in(self.exclude_regex) == requested_pattern(exclude_regex)
        &&& self.exclude_framework == exclude_framework
    }

    /// The filter that a request describes.
    pub fn new(
        include_names: &Option<String>,
        exclude_names: &Option<String>,
        include_regex: &Option<String>,
        exclude_regex: &Option<String>,
        exclude_framework: bool,
    ) -> (r: Result<Self, String>)
        ensures
            match r {
                Ok(filter) => request_error(text::opt(*include_regex), text::opt(*exclude_regex)) is None
                    && filter.is_requested(
                    text::opt(*include_names),
                    text::opt(*exclude_names),
                    text::opt(*include_regex),
                    text::opt(*exclude_regex),
                    exclude_framework,
                ),
                Err(message) => request_error(
                    text::opt(*include_regex),
                    text::opt(*exclude_regex),
                ) == Some(message@),
            },
    {
        let include_regex = match compile_optional_regex(include_regex, "include") {
            Ok(re) => re,
            Err(message) => {
                return Err(message);
            },
        };
        let exclude_regex = match compile_optional_regex(exclude_regex, "exclude") {
            Ok(re) => re,
            Err(message) => {
                return Err(message);
            },
        };
        Ok(
            FrameNameFilter {
                include_names: include_names.clone(),
                exclude_names: exclude_names.clone(),
                include_regex,
                exclude_regex,
                exclude_framework,
            },
        )
    }

    /// Whether the filter only leaves out framework code, if asked to.
    pub open spec fn is_framework_filter(self, exclude_framework: bool) -> bool {
        forall|name: Seq<char>| #[trigger]
            self.passes(name) == !(exclude_framework && symbols::framework_function(name, None))
    }

    /// The filter that only leaves out framework code, if asked to.
    pub fn framework_only(exclude_framework: bool) -> (r: Self)
        ensures
            r.is_framework_filter(exclude_framework),
    {
        FrameNameFilter {
            include_names: None,
            exclude_names: None,
            include_regex: None,
            exclude_regex: None,
            exclude_framework,
        }
    }

    /// Whether a name passes every part of the filter.
    pub fn includes(&self, name: &str) -> (r: bool)
        ensures
            r == self.passes(name@),
    {
        let include_hit: Option<bool> = match &self.include_names {
            Some(patterns) => Some(pattern_matches(name, patterns.as_str())),
            None => None,
        };
        let include_regex_hit: Option<bool> = match &self.include_regex {
            Some(re) => Some(regex_is_match(re, name)),
            None => None,
        };
        let exclude_hit: Option<bool> = match &self.exclude_names {
            Some(patterns) => Some(pattern_matches(name, patterns.as_str())),
            None => None,
        };
        let exclude_regex_hit: Option<bool> = match &self.exclude_regex {
            Some(re) => Some(regex_is_match(re, name)),
            None => None,
        };
        let framework: bool = self.exclude_framework && symbols::is_framework_function(name, None);
        frame_verdict(include_hit, include_regex_hit, exclude_hit, exclude_regex_hit, framework)
    }
}

proof fn lemma_bar_at(s: Seq<char>, i: int)
    ensures
        text::occurs_at(s, seq!['|'], i) <==> 0 <= i < s.len() && s[i] == '|',
{
    let bar = seq!['|'];
    if 0 <= i < s.len() {
        assert(s.subrange(i, i + 1) =~= seq![s[i]]);
        assert(seq![s[i]][0] == s[i]);
        assert(bar[0] == '|');
        if s[i] == '|' {
            assert(s.subrange(i, i + 1) =~= bar);
        }
    }
}

proof fn lemma_pieces_of_both(a: Seq<char>, b: Seq<char>)
    ensures
        text::pieces(a + seq!['|'] + b, seq!['|']) == text::pieces(a, seq!['|']) + text::pieces(
            b,
            seq!['|'],
        ),
    decreases a.len(),
{
    let bar = seq!['|'];
    let s = a + bar + b;
    text::lemma_find_from(s, bar, 0);
    text::lemma_find_from(a, bar, 0);
    lemma_bar_at(s, a.len() as int);
    assert(text::occurs_at(s, bar, a.len() as int));
    let i = text::find_from(s, bar, 0)->0;
    lemma_bar_at(s, i);
    match text::find_from(a, bar, 0) {
        Some(j) => {
            lemma_bar_at(a, j);
            lemma_bar_at(s, j);
            lemma_bar_at(a, i);
            assert(s[j] == a[j]);
            assert(i <= j);
            if i < j {
                assert(s[i] == a[i]);
            }
            assert(i == j);
            let rest = a.skip(j + 1);
            lemma_pieces_of_both(rest, b);
            assert(s.skip(i + 1) =~= rest + bar + b);
            assert(s.take(i) =~= a.take(j));
            assert(text::pieces(s, bar) =~= text::pieces(a, bar) + text::pieces(b, bar));
        },
        None => {
            if i < a.len() {
                lemma_bar_at(a, i);
                assert(s[i] == a[i]);
            }
            assert(i == a.len());
            assert(s.take(i) =~= a);
            assert(s.skip(i + 1) =~= b);
            assert(text::pieces(s, bar) =~= text::pieces(a, bar) + text::pieces(b, bar));
        },
    }
}

/// Two lists of alternatives joined by `|` match what one of them matches.
pub proof fn law_alternatives_combine(value: Seq<char>, a: Seq<char>, b: Seq<char>)
    ensures
        any_alternative(value, a + seq!['|'] + b) <==> any_alternative(value, a) || any_alternative(
            value,
            b,
        ),
{
    let bar = seq!['|'];
    let all = text::pieces(a + bar + b, bar);
    let x = text::pieces(a, bar);
    let y = text::pieces(b, bar);
    lemma_pieces_of_both(a, b);
    assert(all == x + y);
    if any_alternative(value, a + bar + b) {
        let i = choose|i: int| 0 <= i < all.len() && alternative_found(value, #[trigger] all[i]);
        if i < x.len() {
            assert(alternative_found(value, x[i]));
        } else {
            assert(alternative_found(value, y[i - x.len()]));
        }
    }
    if any_alternative(value, a) {
        let i = choose|i: int| 0 <= i < x.len() && alternative_found(value, #[trigger] x[i]);
        assert(alternative_found(value, all[i]));
    }
    if any_alternative(value, b) {
        let i = choose|i: int| 0 <= i < y.len() && alternative_found(value, #[trigger] y[i]);
        assert(alternative_found(value, all[x.len() + i]));
    }
}

/// One alternative matches where it stands in the value, whatever the case of
/// either and the white space around it, and a blank one matches nothing.
pub proof fn law_one_alternative(value: Seq<char>, pattern: Seq<char>)
    requires
        !pattern.contains('|'),
    ensures
        any_alternative(value, pattern) <==> text::trimmed(pattern).len() > 0 && exists|i: int|
            #[trigger] text::occurs_at(
                text::unicode_lowercase(value),
                text::unicode_lowercase(text::trimmed(pattern)),
                i,
            ),
{
    let bar = seq!['|'];
    text::lemma_find_from(pattern, bar, 0);
    if let Some(i) = text::find_from(pattern, bar, 0) {
        lemma_bar_at(pattern, i);
        assert(pattern[i] == '|');
    }
    let all = text::pieces(pattern, bar);
    assert(all =~= seq![pattern]);
    assert(all[0] == pattern);
    if alternative_found(value, pattern) {
        assert(alternative_found(value, all[0]));
    }
}

/// A name passes a filter exactly where it matches all that it has to and
/// nothing that it must not.
pub proof fn law_filters_combine(filter: FrameNameFilter, name: Seq<char>)
    ensures
        filter.passes(name) <==> !(filter.include_names is Some && !any_alternative(
            name,
            filter.include_names->0@,
        )) && !(filter.include_regex is Some && !regex_finds(
            regex_pattern(filter.include_regex->0),
            name,
        )) && !(filter.exclude_names is Some && any_alternative(name, filter.exclude_names->0@))
            && !(filter.exclude_regex is Some && regex_finds(
            regex_pattern(filter.exclude_regex->0),
            name,
        )) && !(filter.exclude_framework && symbols::framework_function(name, None)),
{
}

}
