//! Business-logic pattern tagging for source text.
//!
//! The analyzer walks a source file line by line and records a pattern for
//! every hit of a fixed rule set: ten regular-expression rules (validation,
//! authentication, state management) and two keyword rules (error handling,
//! API integration). Each record carries the matched text, a category label,
//! a fixed confidence in millionths, the file path, the one-based line
//! number, and the trimmed line as a snippet.

use vstd::prelude::*;
use vstd::string::StrSliceExecFns;

use crate::correlator::type_counts_add;

verus! {

/// A business-logic pattern found in code.
#[derive(Debug)]
pub struct BusinessLogicPattern {
    pub name: String,
    pub category: String,
    pub confidence_ppm: u64,
    pub file_path: String,
    pub line_number: usize,
    pub code_snippet: String,
}

/// Mathematical model of a pattern record.
#[verifier::ext_equal]
pub struct PatternView {
    pub name: Seq<char>,
    pub category: Seq<char>,
    pub confidence_ppm: int,
    pub line_number: int,
    pub file_path: Seq<char>,
    pub snippet: Seq<char>,
}

impl View for BusinessLogicPattern {
    type V = PatternView;

    open spec fn view(&self) -> PatternView {
        PatternView {
            name: self.name@,
            category: self.category@,
            confidence_ppm: self.confidence_ppm as int,
            line_number: self.line_number as int,
            file_path: self.file_path@,
            snippet: self.code_snippet@,
        }
    }
}

impl DeepView for BusinessLogicPattern {
    type V = PatternView;

    open spec fn deep_view(&self) -> PatternView {
        self.view()
    }
}

impl Clone for BusinessLogicPattern {
    /// Clones preserve every field of the model exactly.
    fn clone(&self) -> (r: Self)
        ensures
            r@ == self@,
    {
        BusinessLogicPattern {
            name: self.name.clone(),
            category: self.category.clone(),
            confidence_ppm: self.confidence_ppm,
            file_path: self.file_path.clone(),
            line_number: self.line_number,
            code_snippet: self.code_snippet.clone(),
        }
    }
}

/// Categories of business logic.
#[derive(Debug, Clone, Copy, PartialEq, Eq, Structural)]
pub enum LogicCategory {
    Validation,
    Authentication,
    Authorization,
    DataTransformation,
    BusinessRule,
    StateManagement,
    ErrorHandling,
    Integration,
}

/// The canonical label of a category.
pub open spec fn spec_category_label(c: LogicCategory) -> Seq<char> {
    match c {
        LogicCategory::Validation => "Validation"@,
        LogicCategory::Authentication => "Authentication"@,
        LogicCategory::Authorization => "Authorization"@,
        LogicCategory::DataTransformation => "DataTransformation"@,
        LogicCategory::BusinessRule => "BusinessRule"@,
        LogicCategory::StateManagement => "StateManagement"@,
        LogicCategory::ErrorHandling => "ErrorHandling"@,
        LogicCategory::Integration => "Integration"@,
    }
}

impl LogicCategory {
    /// The canonical label of the category.
    pub fn as_str(&self) -> (r: &'static str)
        ensures
            r@ == spec_category_label(*self),
    {
        match self {
            LogicCategory::Validation => "Validation",
            LogicCategory::Authentication => "Authentication",
            LogicCategory::Authorization => "Authorization",
            LogicCategory::DataTransformation => "DataTransformation",
            LogicCategory::BusinessRule => "BusinessRule",
            LogicCategory::StateManagement => "StateManagement",
            LogicCategory::ErrorHandling => "ErrorHandling",
            LogicCategory::Integration => "Integration",
        }
    }
}

// ------------------------------------------------------------------
// The leftmost regex match, as a named outside result
// ------------------------------------------------------------------

/// The text of the leftmost match of the regular expression `pattern` in
/// `haystack`, if any. Both the compilation of the pattern and the search
/// are deterministic functions of the two strings.
pub uninterp spec fn regex_find_of(pattern: Seq<char>, haystack: Seq<char>) -> Option<Seq<char>>;

/// Relies on regex::Regex::new and regex::Regex::find: compiles `pattern`
/// and returns the text of its leftmost match in `haystack`; `None` when
/// the pattern does not compile or does not match.
#[verifier::external_body]
fn regex_find(pattern: &str, haystack: &str) -> (r: Option<String>)
    ensures
        r is Some <==> regex_find_of(pattern@, haystack@) is Some,
        r is Some ==> regex_find_of(pattern@, haystack@) == Some(r.unwrap()@),
{
    match regex::Regex::new(pattern) {
        Ok(re) => re.find(haystack).map(|m| m.as_str().to_string()),
        Err(_) => None,
    }
}

// ------------------------------------------------------------------
// Character-level lines, trimming, and substring search
// ------------------------------------------------------------------

/// Index of the first line feed character, or the length if there is none.
pub open spec fn first_nl_char(s: Seq<char>) -> int
    decreases s.len(),
{
    if s.len() == 0 {
        0
    } else if s[0] == '\n' {
        0
    } else {
        1 + first_nl_char(s.drop_first())
    }
}

/// The newline-separated segments of the source, as character sequences.
pub open spec fn split_lines_chars(s: Seq<char>) -> Seq<Seq<char>>
    decreases s.len(),
{
    let i = first_nl_char(s);
    if i < 0 || i >= s.len() {
        seq![s]
    } else {
        seq![s.take(i)] + split_lines_chars(s.skip(i + 1))
    }
}

proof fn lemma_first_nl_char_at(s: Seq<char>, i: int)
    requires
        0 <= i <= s.len(),
        forall|k: int| 0 <= k < i ==> s[k] != '\n',
        i < s.len() ==> s[i] == '\n',
    ensures
        first_nl_char(s) == i,
    decreases s.len(),
{
    if s.len() > 0 && s[0] != '\n' {
        lemma_first_nl_char_at(s.drop_first(), i - 1);
    }
}

/// ASCII whitespace characters.
pub open spec fn is_space_char(c: char) -> bool {
    c == ' ' || c == '\t' || c == '\n' || c == '\r' || c == '\u{B}' || c == '\u{C}'
}

/// Decides [`is_space_char`].
fn char_is_space(c: char) -> (r: bool)
    ensures
        r == is_space_char(c),
{
    c == ' ' || c == '\t' || c == '\n' || c == '\r' || c == '\u{B}' || c == '\u{C}'
}

/// Count of leading whitespace characters.
pub open spec fn leading_ws_chars(line: Seq<char>) -> int
    decreases line.len(),
{
    if line.len() == 0 {
        0
    } else if is_space_char(line[0]) {
        1 + leading_ws_chars(line.drop_first())
    } else {
        0
    }
}

/// Count of trailing whitespace characters.
pub open spec fn trailing_ws_chars(line: Seq<char>) -> int
    decreases line.len(),
{
    if line.len() == 0 {
        0
    } else if is_space_char(line.last()) {
        1 + trailing_ws_chars(line.drop_last())
    } else {
        0
    }
}

/// The line with leading and trailing whitespace removed.
pub open spec fn spec_trim_chars(line: Seq<char>) -> Seq<char> {
    if leading_ws_chars(line) == line.len() {
        Seq::<char>::empty()
    } else {
        line.subrange(leading_ws_chars(line), line.len() - trailing_ws_chars(line))
    }
}

proof fn lemma_leading_ws_chars_at(line: Seq<char>, i: int)
    requires
        0 <= i <= line.len(),
        forall|k: int| 0 <= k < i ==> is_space_char(line[k]),
        i < line.len() ==> !is_space_char(line[i]),
    ensures
        leading_ws_chars(line) == i,
    decreases line.len(),
{
    if line.len() > 0 && is_space_char(line[0]) {
        lemma_leading_ws_chars_at(line.drop_first(), i - 1);
    }
}

proof fn lemma_trailing_ws_chars_at(line: Seq<char>, i: int)
    requires
        0 <= i <= line.len(),
        forall|k: int| line.len() - i <= k < line.len() ==> is_space_char(line[k]),
        i < line.len() ==> !is_space_char(line[line.len() - i - 1]),
    ensures
        trailing_ws_chars(line) == i,
    decreases line.len(),
{
    if line.len() > 0 && is_space_char(line.last()) {
        lemma_trailing_ws_chars_at(line.drop_last(), i - 1);
    }
}

/// The trimmed line, as an owned string.
fn trim_chars(line: &str) -> (r: String)
    ensures
        r@ == spec_trim_chars(line@),
{
    let n = line.unicode_len();
    let mut lo: usize = 0;
    while lo < n && char_is_space(line.get_char(lo))
        invariant
            n == line@.len(),
            lo <= n,
            forall|k: int| 0 <= k < lo ==> is_space_char(line@[k]),
        decreases n - lo,
    {
        lo += 1;
    }
    proof {
        lemma_leading_ws_chars_at(line@, lo as int);
    }
    if lo == n {
        let r = String::new();
        proof {
            assert(r@ =~= spec_trim_chars(line@));
        }
        return r;
    }
    let mut back: usize = 0;
    while back < n && char_is_space(line.get_char(n - 1 - back))
        invariant
            n == line@.len(),
            back <= n,
            forall|k: int| n - back <= k < n ==> is_space_char(line@[k]),
            leading_ws_chars(line@) == lo < n,
            !is_space_char(line@[lo as int]),
        decreases n - back,
    {
        back += 1;
        proof {
            if back == n {
                assert(is_space_char(line@[lo as int]));
                assert(false);
            }
        }
    }
    proof {
        lemma_trailing_ws_chars_at(line@, back as int);
        if n - back <= lo {
            assert(is_space_char(line@[lo as int]));
            assert(false);
        }
    }
    let piece = line.substring_char(lo, n - back);
    let r = String::from_str(piece);
    proof {
        assert(r@ =~= spec_trim_chars(line@));
    }
    r
}

/// `needle` occurs as a contiguous substring of `hay`.
pub open spec fn contains_sub(hay: Seq<char>, needle: Seq<char>) -> bool {
    exists|i: int|
        0 <= i && i + needle.len() <= hay.len() && #[trigger] hay.subrange(
            i,
            i + needle.len(),
        ) == needle
}

/// Whether `needle` matches `hay` at offset `i`.
fn needle_matches_at(hay: &str, needle: &str, i: usize) -> (r: bool)
    requires
        i + needle@.len() <= hay@.len(),
        hay@.len() <= usize::MAX as int,
    ensures
        r == (hay@.subrange(i as int, i as int + needle@.len()) == needle@),
{
    let m = needle.unicode_len();
    let mut j: usize = 0;
    while j < m
        invariant
            m == needle@.len(),
            i + m <= hay@.len(),
            hay@.len() <= usize::MAX as int,
            j <= m,
            forall|q: int| 0 <= q < j ==> hay@[i + q] == needle@[q],
        decreases m - j,
    {
        if hay.get_char(i + j) != needle.get_char(j) {
            proof {
                let sub = hay@.subrange(i as int, i as int + needle@.len());
                assert(sub[j as int] != needle@[j as int]);
            }
            return false;
        }
        j += 1;
    }
    proof {
        assert(hay@.subrange(i as int, i as int + needle@.len()) =~= needle@);
    }
    true
}

/// Decides [`contains_sub`].
fn str_contains_sub(hay: &str, needle: &str) -> (r: bool)
    ensures
        r == contains_sub(hay@, needle@),
{
    let n = hay.unicode_len();
    let m = needle.unicode_len();
    if m > n {
        proof {
            assert(!contains_sub(hay@, needle@));
        }
        return false;
    }
    if m == 0 {
        proof {
            let z: int = 0;
            assert(hay@.subrange(z, z + needle@.len()) =~= needle@);
        }
        return true;
    }
    let mut i: usize = 0;
    while i <= n - m
        invariant
            n == hay@.len(),
            m == needle@.len(),
            1 <= m <= n,
            i <= n - m + 1,
            forall|ii: int|
                0 <= ii < i ==> #[trigger] hay@.subrange(ii, ii + needle@.len()) != needle@,
        decreases n - m - i + 1,
    {
        if needle_matches_at(hay, needle, i) {
            return true;
        }
        i += 1;
    }
    false
}

/// Splits the source into newline-separated lines.
fn split_source_lines(source: &str) -> (r: Vec<String>)
    ensures
        r.deep_view() == split_lines_chars(source@),
{
    let n = source.unicode_len();
    let mut out: Vec<String> = Vec::new();
    let mut start: usize = 0;
    let mut p: usize = 0;
    proof {
        assert(source@.skip(0) =~= source@);
        assert(out.deep_view() + split_lines_chars(source@) =~= split_lines_chars(source@));
    }
    while p < n
        invariant
            n == source@.len(),
            start <= p <= n,
            forall|k: int| start <= k < p ==> source@[k] != '\n',
            split_lines_chars(source@) == out.deep_view() + split_lines_chars(
                source@.skip(start as int),
            ),
        decreases n - p,
    {
        if source.get_char(p) == '\n' {
            proof {
                let rest = source@.skip(start as int);
                lemma_first_nl_char_at(rest, p - start);
                assert(rest.take(p - start) =~= source@.subrange(start as int, p as int));
                assert(rest.skip(p - start + 1) =~= source@.skip(p + 1));
            }
            let piece = source.substring_char(start, p);
            let ghost old_out = out.deep_view();
            out.push(String::from_str(piece));
            proof {
                assert(out.deep_view() =~~= old_out.push(source@.subrange(
                    start as int,
                    p as int,
                )));
                assert(out.deep_view() + split_lines_chars(source@.skip(p + 1)) =~~= old_out
                    + (seq![source@.subrange(start as int, p as int)] + split_lines_chars(
                    source@.skip(p + 1),
                )));
            }
            start = p + 1;
        }
        p += 1;
    }
    proof {
        let rest = source@.skip(start as int);
        lemma_first_nl_char_at(rest, n - start);
        assert(rest =~= source@.subrange(start as int, n as int));
        assert(split_lines_chars(rest) == seq![rest]);
    }
    let piece = source.substring_char(start, n);
    let ghost old_out = out.deep_view();
    out.push(String::from_str(piece));
    proof {
        assert(out.deep_view() =~~= old_out.push(source@.skip(start as int)));
        assert(out.deep_view() =~~= split_lines_chars(source@));
    }
    out
}

// ------------------------------------------------------------------
// The rule set
// ------------------------------------------------------------------

/// The regular expression of rule `r`: four validation rules, three
/// authentication rules, three state-management rules.
pub open spec fn rule_pattern(r: int) -> Seq<char> {
    if r == 0 {
        r"(?i)(validate|check|verify|ensure|require|assert)[A-Z]\w+"@
    } else if r == 1 {
        r"(?i)(is_?valid|is_?empty|is_?null|has_?error)"@
    } else if r == 2 {
        r"\.length\s*[<>=]+\s*\d+"@
    } else if r == 3 {
        r"(?i)(email|phone|password|username).*validation"@
    } else if r == 4 {
        r"(?i)(login|logout|sign_?in|sign_?out|authenticate)"@
    } else if r == 5 {
        r"(?i)(token|session|credentials|password|auth)"@
    } else if r == 6 {
        r"(?i)(is_?authenticated|is_?logged_?in|has_?permission)"@
    } else if r == 7 {
        r"(?i)(state|store|redux|mobx|riverpod)"@
    } else if r == 8 {
        r"(?i)(get_?state|set_?state|update_?state)"@
    } else {
        r"(?i)(observable|stream|subject|controller)"@
    }
}

/// The category of rule `r`.
pub open spec fn rule_category(r: int) -> LogicCategory {
    if r < 4 {
        LogicCategory::Validation
    } else if r < 7 {
        LogicCategory::Authentication
    } else {
        LogicCategory::StateManagement
    }
}

/// The confidence attached by rule `r`, in millionths.
pub open spec fn rule_confidence_ppm(r: int) -> int {
    if r < 4 {
        800_000
    } else if r < 7 {
        850_000
    } else {
        750_000
    }
}

/// The regular expression of rule `r`.
fn rule_pattern_str(r: usize) -> (p: &'static str)
    requires
        r < 10,
    ensures
        p@ == rule_pattern(r as int),
{
    if r == 0 {
        r"(?i)(validate|check|verify|ensure|require|assert)[A-Z]\w+"
    } else if r == 1 {
        r"(?i)(is_?valid|is_?empty|is_?null|has_?error)"
    } else if r == 2 {
        r"\.length\s*[<>=]+\s*\d+"
    } else if r == 3 {
        r"(?i)(email|phone|password|username).*validation"
    } else if r == 4 {
        r"(?i)(login|logout|sign_?in|sign_?out|authenticate)"
    } else if r == 5 {
        r"(?i)(token|session|credentials|password|auth)"
    } else if r == 6 {
        r"(?i)(is_?authenticated|is_?logged_?in|has_?permission)"
    } else if r == 7 {
        r"(?i)(state|store|redux|mobx|riverpod)"
    } else if r == 8 {
        r"(?i)(get_?state|set_?state|update_?state)"
    } else {
        r"(?i)(observable|stream|subject|controller)"
    }
}

/// The category label of rule `r`, as an owned string.
fn rule_category_string(r: usize) -> (c: String)
    requires
        r < 10,
    ensures
        c@ == spec_category_label(rule_category(r as int)),
{
    let cat = if r < 4 {
        LogicCategory::Validation
    } else if r < 7 {
        LogicCategory::Authentication
    } else {
        LogicCategory::StateManagement
    };
    String::from_str(cat.as_str())
}

/// The confidence attached by rule `r`.
fn rule_confidence(r: usize) -> (c: u64)
    requires
        r < 10,
    ensures
        c as int == rule_confidence_ppm(r as int),
{
    if r < 4 {
        800_000
    } else if r < 7 {
        850_000
    } else {
        750_000
    }
}

// ------------------------------------------------------------------
// What one line contributes
// ------------------------------------------------------------------

/// The records of the regex rules below `r` on one line, in rule order.
pub open spec fn rule_emissions(
    file: Seq<char>,
    line_no: int,
    line: Seq<char>,
    r: int,
) -> Seq<PatternView>
    decreases r,
{
    if r <= 0 {
        Seq::<PatternView>::empty()
    } else {
        rule_emissions(file, line_no, line, r - 1) + match regex_find_of(
            rule_pattern(r - 1),
            line,
        ) {
            Option::Some(text) => seq![
                PatternView {
                    name: text,
                    category: spec_category_label(rule_category(r - 1)),
                    confidence_ppm: rule_confidence_ppm(r - 1),
                    line_number: line_no,
                    file_path: file,
                    snippet: spec_trim_chars(line),
                },
            ],
            Option::None => Seq::<PatternView>::empty(),
        }
    }
}

/// The line mentions exception handling.
pub open spec fn mentions_error_handling(line: Seq<char>) -> bool {
    contains_sub(line, "try"@) || contains_sub(line, "catch"@) || contains_sub(
        line,
        "except"@,
    )
}

/// The line mentions an API integration.
pub open spec fn mentions_integration(line: Seq<char>) -> bool {
    contains_sub(line, "fetch"@) || contains_sub(line, "request"@) || contains_sub(
        line,
        "api"@,
    )
}

/// The record of the error-handling keyword rule, if the line trips it.
pub open spec fn error_handling_emission(
    file: Seq<char>,
    line_no: int,
    line: Seq<char>,
) -> Seq<PatternView> {
    if mentions_error_handling(line) {
        seq![
            PatternView {
                name: "ErrorHandling"@,
                category: "ErrorHandling"@,
                confidence_ppm: 900_000,
                line_number: line_no,
                file_path: file,
                snippet: spec_trim_chars(line),
            },
        ]
    } else {
        Seq::<PatternView>::empty()
    }
}

/// The record of the API-integration keyword rule, if the line trips it.
pub open spec fn integration_emission(
    file: Seq<char>,
    line_no: int,
    line: Seq<char>,
) -> Seq<PatternView> {
    if mentions_integration(line) {
        seq![
            PatternView {
                name: "APIIntegration"@,
                category: "Integration"@,
                confidence_ppm: 700_000,
                line_number: line_no,
                file_path: file,
                snippet: spec_trim_chars(line),
            },
        ]
    } else {
        Seq::<PatternView>::empty()
    }
}

/// Everything one line contributes: the ten regex rules in order, then the
/// two keyword rules.
pub open spec fn spec_line_patterns(
    file: Seq<char>,
    line_no: int,
    line: Seq<char>,
) -> Seq<PatternView> {
    rule_emissions(file, line_no, line, 10) + error_handling_emission(file, line_no, line)
        + integration_emission(file, line_no, line)
}

/// The records of the first `i` lines, with one-based line numbers.
pub open spec fn lines_upto(file: Seq<char>, lines: Seq<Seq<char>>, i: int) -> Seq<PatternView>
    decreases i,
{
    if i <= 0 {
        Seq::<PatternView>::empty()
    } else {
        lines_upto(file, lines, i - 1) + spec_line_patterns(file, i, lines[i - 1])
    }
}

/// The full analysis of one source file.
pub open spec fn spec_analyze_patterns(file: Seq<char>, source: Seq<char>) -> Seq<PatternView> {
    lines_upto(
        file,
        split_lines_chars(source),
        split_lines_chars(source).len() as int,
    )
}

/// Appends everything one line contributes.
fn process_line(
    patterns: &mut Vec<BusinessLogicPattern>,
    file_path: &String,
    line_no: usize,
    line: &str,
)
    ensures
        final(patterns).deep_view() == old(patterns).deep_view() + spec_line_patterns(
            file_path@,
            line_no as int,
            line@,
        ),
{
    let mut r: usize = 0;
    while r < 10
        invariant
            r <= 10,
            patterns.deep_view() == old(patterns).deep_view() + rule_emissions(
                file_path@,
                line_no as int,
                line@,
                r as int,
            ),
        decreases 10 - r,
    {
        let pat = rule_pattern_str(r);
        match regex_find(pat, line) {
            Option::Some(text) => {
                let record = BusinessLogicPattern {
                    name: text,
                    category: rule_category_string(r),
                    confidence_ppm: rule_confidence(r),
                    file_path: file_path.clone(),
                    line_number: line_no,
                    code_snippet: trim_chars(line),
                };
                let ghost before = patterns.deep_view();
                patterns.push(record);
                proof {
                    assert(patterns.deep_view() =~~= before + seq![
                        PatternView {
                            name: regex_find_of(rule_pattern(r as int), line@).unwrap(),
                            category: spec_category_label(rule_category(r as int)),
                            confidence_ppm: rule_confidence_ppm(r as int),
                            line_number: line_no as int,
                            file_path: file_path@,
                            snippet: spec_trim_chars(line@),
                        },
                    ]);
                }
            },
            Option::None => {
            },
        }
        r += 1;
    }
    if str_contains_sub(line, "try") || str_contains_sub(line, "catch") || str_contains_sub(
        line,
        "except",
    ) {
        let record = BusinessLogicPattern {
            name: String::from_str("ErrorHandling"),
            category: String::from_str("ErrorHandling"),
            confidence_ppm: 900_000,
            file_path: file_path.clone(),
            line_number: line_no,
            code_snippet: trim_chars(line),
        };
        let ghost before = patterns.deep_view();
        patterns.push(record);
        proof {
            assert(patterns.deep_view() =~~= before + error_handling_emission(
                file_path@,
                line_no as int,
                line@,
            ));
        }
    }
    if str_contains_sub(line, "fetch") || str_contains_sub(line, "request") || str_contains_sub(
        line,
        "api",
    ) {
        let record = BusinessLogicPattern {
            name: String::from_str("APIIntegration"),
            category: String::from_str("Integration"),
            confidence_ppm: 700_000,
            file_path: file_path.clone(),
            line_number: line_no,
            code_snippet: trim_chars(line),
        };
        let ghost before = patterns.deep_view();
        patterns.push(record);
        proof {
            assert(patterns.deep_view() =~~= before + integration_emission(
                file_path@,
                line_no as int,
                line@,
            ));
        }
    }
}

// ------------------------------------------------------------------
// The analyzer
// ------------------------------------------------------------------

/// Aggregate statistics of the found patterns. The average confidence is a
/// truncated fixed-point value and reports zero when there are no patterns.
#[derive(Debug)]
pub struct BusinessLogicStats {
    pub total_patterns: usize,
    pub avg_confidence_ppm: u64,
    pub by_category: Vec<(String, usize)>,
}

/// Sum of the confidences of a pattern list.
pub open spec fn sum_pattern_confidence(ps: Seq<PatternView>) -> int
    decreases ps.len(),
{
    if ps.len() == 0 {
        0
    } else {
        sum_pattern_confidence(ps.drop_last()) + ps.last().confidence_ppm
    }
}

/// Count of patterns per category label, in discovery order.
pub open spec fn spec_by_category(ps: Seq<PatternView>) -> Seq<(Seq<char>, int)>
    decreases ps.len(),
{
    if ps.len() == 0 {
        Seq::<(Seq<char>, int)>::empty()
    } else {
        type_counts_add(spec_by_category(ps.drop_last()), ps.last().category)
    }
}

/// The patterns of `ps` whose category label is `cat`, below index `i`.
pub open spec fn filter_category_upto(ps: Seq<PatternView>, cat: Seq<char>, i: int) -> Seq<
    PatternView,
>
    decreases i,
{
    if i <= 0 {
        Seq::<PatternView>::empty()
    } else {
        filter_category_upto(ps, cat, i - 1) + (if ps[i - 1].category == cat {
            seq![ps[i - 1]]
        } else {
            Seq::<PatternView>::empty()
        })
    }
}

/// The business-logic analyzer: the patterns found by the last analysis.
pub struct RustBusinessLogicAnalyzer {
    patterns: Vec<BusinessLogicPattern>,
}

impl RustBusinessLogicAnalyzer {
    /// The recorded patterns, in discovery order.
    pub closed spec fn spec_patterns(&self) -> Seq<PatternView> {
        self.patterns.deep_view()
    }

    /// Creates an analyzer with no recorded patterns.
    pub fn new() -> (r: RustBusinessLogicAnalyzer)
        ensures
            r.spec_patterns() == Seq::<PatternView>::empty(),
    {
        let patterns: Vec<BusinessLogicPattern> = Vec::new();
        proof {
            assert(patterns.deep_view() =~= Seq::<PatternView>::empty());
        }
        RustBusinessLogicAnalyzer { patterns }
    }

    /// Analyzes one source file: discards earlier findings and records, line
    /// by line, every hit of the rule set.
    pub fn analyze_file(&mut self, file_path: String, source: String)
        ensures
            final(self).spec_patterns() == spec_analyze_patterns(file_path@, source@),
    {
        self.patterns.clear();
        proof {
            assert(self.patterns.deep_view() =~= Seq::<PatternView>::empty());
        }
        let lines = split_source_lines(source.as_str());
        let ghost lv = lines.deep_view();
        let n = lines.len();
        let mut i: usize = 0;
        while i < n
            invariant
                n == lines@.len(),
                lv == lines.deep_view(),
                lv == split_lines_chars(source@),
                i <= n,
                self.patterns.deep_view() == lines_upto(file_path@, lv, i as int),
            decreases n - i,
        {
            proof {
                assert(lv[i as int] =~~= lines@[i as int]@);
            }
            process_line(&mut self.patterns, &file_path, i + 1, lines[i].as_str());
            i += 1;
        }
    }

    /// Copies of all recorded patterns, in discovery order.
    pub fn get_patterns(&self) -> (r: Vec<BusinessLogicPattern>)
        ensures
            r.deep_view() == self.spec_patterns(),
    {
        let n = self.patterns.len();
        let mut out: Vec<BusinessLogicPattern> = Vec::new();
        proof {
            assert(out.deep_view() =~= self.spec_patterns().take(0));
        }
        let mut i: usize = 0;
        while i < n
            invariant
                n == self.patterns@.len(),
                i <= n,
                out.deep_view() == self.spec_patterns().take(i as int),
            decreases n - i,
        {
            let ghost before = out.deep_view();
            out.push(self.patterns[i].clone());
            proof {
                assert(out.deep_view() =~~= before.push(self.patterns@[i as int]@));
                assert(out.deep_view() =~~= self.spec_patterns().take(i + 1));
            }
            i += 1;
        }
        proof {
            assert(self.spec_patterns().take(n as int) =~= self.spec_patterns());
        }
        out
    }

    /// Copies of the recorded patterns of one category, in discovery order.
    pub fn get_patterns_by_category(&self, category: String) -> (r: Vec<BusinessLogicPattern>)
        ensures
            r.deep_view() == filter_category_upto(
                self.spec_patterns(),
                category@,
                self.spec_patterns().len() as int,
            ),
    {
        let n = self.patterns.len();
        let mut out: Vec<BusinessLogicPattern> = Vec::new();
        proof {
            assert(out.deep_view() =~= filter_category_upto(self.spec_patterns(), category@, 0));
        }
        let mut i: usize = 0;
        while i < n
            invariant
                n == self.patterns@.len(),
                i <= n,
                out.deep_view() == filter_category_upto(
                    self.spec_patterns(),
                    category@,
                    i as int,
                ),
        decreases n - i,
        {
            if self.patterns[i].category == category {
                proof {
                    assert(self.spec_patterns()[i as int].category == category@);
                }
                let ghost before = out.deep_view();
                out.push(self.patterns[i].clone());
                proof {
                    assert(out.deep_view() =~~= before.push(self.patterns@[i as int]@));
                    assert(out.deep_view() =~~= filter_category_upto(
                        self.spec_patterns(),
                        category@,
                        i + 1,
                    ));
                }
            } else {
                proof {
                    assert(out.deep_view() =~~= filter_category_upto(
                        self.spec_patterns(),
                        category@,
                        i + 1,
                    ));
                }
            }
            i += 1;
        }
        out
    }

    /// Recomputes the summary: total count, truncated mean confidence, and
    /// the per-category counts in discovery order.
    pub fn get_statistics(&self) -> (st: BusinessLogicStats)
        ensures
            st.total_patterns == self.spec_patterns().len(),
            st.avg_confidence_ppm as int == (if self.spec_patterns().len() == 0 {
                0int
            } else {
                sum_pattern_confidence(self.spec_patterns())
                    / self.spec_patterns().len() as int
            }),
            crate::correlator::by_type_view(st.by_category@) == spec_by_category(
                self.spec_patterns(),
            ),
    {
        let ghost ps = self.spec_patterns();
        let n = self.patterns.len();
        let mut sum_c: u128 = 0;
        let mut bc: Vec<(String, usize)> = Vec::new();
        proof {
            assert(crate::correlator::by_type_view(bc@) =~= Seq::<(Seq<char>, int)>::empty());
            assert(ps.take(0) =~= Seq::<PatternView>::empty());
        }
        let mut i: usize = 0;
        while i < n
            invariant
                n == self.patterns@.len(),
                ps == self.spec_patterns(),
                i <= n,
                sum_c as int == sum_pattern_confidence(ps.take(i as int)),
                sum_c as int <= (i as int) * (u64::MAX as int),
                crate::correlator::by_type_view(bc@) == spec_by_category(ps.take(i as int)),
                forall|k: int| 0 <= k < bc@.len() ==> (#[trigger] bc@[k]).1 as int <= i as int,
            decreases n - i,
        {
            proof {
                assert(ps.take(i + 1).drop_last() =~= ps.take(i as int));
                assert(ps.take(i + 1).last() == ps[i as int]);
                assert(ps[i as int] == self.patterns@[i as int]@);
                assert((i as int + 1) * (u64::MAX as int) == (i as int) * (u64::MAX as int) + (
                u64::MAX as int)) by (nonlinear_arith);
                assert((i as int + 1) * (u64::MAX as int) <= 0x10000000000000000int * (
                u64::MAX as int)) by (nonlinear_arith)
                    requires
                        0 <= i as int + 1 <= 0x10000000000000000int,
                ;
            }
            sum_c = sum_c + (self.patterns[i].confidence_ppm as u128);
            crate::correlator::add_type_count(&mut bc, &self.patterns[i].category, Ghost(i as int));
            i += 1;
        }
        proof {
            assert(ps.take(n as int) =~= ps);
        }
        let avg_c: u64 = if n == 0 {
            0
        } else {
            proof {
                vstd::arithmetic::div_mod::lemma_div_is_ordered(
                    sum_c as int,
                    (n as int) * (u64::MAX as int),
                    n as int,
                );
                vstd::arithmetic::div_mod::lemma_div_multiples_vanish(
                    u64::MAX as int,
                    n as int,
                );
                vstd::arithmetic::div_mod::lemma_div_pos_is_pos(sum_c as int, n as int);
            }
            (sum_c / (n as u128)) as u64
        };
        BusinessLogicStats {
            total_patterns: n,
            avg_confidence_ppm: avg_c,
            by_category: bc,
        }
    }

    /// Discards all recorded patterns.
    pub fn clear(&mut self)
        ensures
            final(self).spec_patterns() == Seq::<PatternView>::empty(),
    {
        self.patterns.clear();
        proof {
            assert(self.patterns.deep_view() =~= Seq::<PatternView>::empty());
        }
    }

    /// Number of recorded patterns.
    pub fn len(&self) -> (n: usize)
        ensures
            n == self.spec_patterns().len(),
    {
        self.patterns.len()
    }
}

} // verus!
