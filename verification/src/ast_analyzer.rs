//! Line-heuristic complexity metrics for source text.
//!
//! The analyzer walks a source file line by line and derives cyclomatic and
//! cognitive complexity, the maximum nesting depth, and a line count, from
//! indentation and a fixed set of control-flow keywords. The model works on
//! the UTF-8 bytes of the source: lines are newline-separated segments (so a
//! trailing newline contributes a final empty segment), and whitespace means
//! ASCII whitespace.

use vstd::prelude::*;
use vstd::string::StringSliceAdditionalSpecFns;

use crate::correlator::assoc_has_key;
use crate::correlator::assoc_key_index;

verus! {

/// Complexity metrics for one piece of source text.
#[derive(Debug, Clone, Copy, PartialEq, Eq, Structural)]
pub struct ComplexityMetrics {
    pub cyclomatic_complexity: usize,
    pub cognitive_complexity: usize,
    pub max_nesting_depth: usize,
    pub lines_of_code: usize,
}

impl Default for ComplexityMetrics {
    /// A fresh metrics record: cyclomatic complexity starts at one, the
    /// other counters at zero.
    fn default() -> (r: Self)
        ensures
            r.cyclomatic_complexity == 1,
            r.cognitive_complexity == 0,
            r.max_nesting_depth == 0,
            r.lines_of_code == 0,
    {
        ComplexityMetrics {
            cyclomatic_complexity: 1,
            cognitive_complexity: 0,
            max_nesting_depth: 0,
            lines_of_code: 0,
        }
    }
}

// ------------------------------------------------------------------
// Lines and whitespace
// ------------------------------------------------------------------

/// ASCII whitespace: tab, line feed, vertical tab, form feed, carriage
/// return, space.
pub open spec fn is_space(b: u8) -> bool {
    b == 9 || b == 10 || b == 11 || b == 12 || b == 13 || b == 32
}

/// Decides [`is_space`].
fn byte_is_space(b: u8) -> (r: bool)
    ensures
        r == is_space(b),
{
    b == 9 || b == 10 || b == 11 || b == 12 || b == 13 || b == 32
}

/// Index of the first line feed, or the length if there is none.
pub open spec fn first_nl(s: Seq<u8>) -> int
    decreases s.len(),
{
    if s.len() == 0 {
        0
    } else if s[0] == 10 {
        0
    } else {
        1 + first_nl(s.drop_first())
    }
}

/// The newline-separated segments of the source. A trailing newline yields
/// a final empty segment, so the count is the newline count plus one.
pub open spec fn split_lines(s: Seq<u8>) -> Seq<Seq<u8>>
    decreases s.len(),
{
    let i = first_nl(s);
    if i < 0 || i >= s.len() {
        seq![s]
    } else {
        seq![s.take(i)] + split_lines(s.skip(i + 1))
    }
}

proof fn lemma_first_nl_bounds(s: Seq<u8>)
    ensures
        0 <= first_nl(s) <= s.len(),
        forall|k: int| 0 <= k < first_nl(s) ==> s[k] != 10,
        first_nl(s) < s.len() ==> s[first_nl(s)] == 10,
    decreases s.len(),
{
    if s.len() > 0 && s[0] != 10 {
        lemma_first_nl_bounds(s.drop_first());
        assert forall|k: int| 0 <= k < first_nl(s) implies s[k] != 10 by {
            if k > 0 {
                assert(s.drop_first()[k - 1] == s[k]);
            }
        }
    }
}

proof fn lemma_first_nl_at(s: Seq<u8>, i: int)
    requires
        0 <= i <= s.len(),
        forall|k: int| 0 <= k < i ==> s[k] != 10,
        i < s.len() ==> s[i] == 10,
    ensures
        first_nl(s) == i,
    decreases s.len(),
{
    if s.len() > 0 && s[0] != 10 {
        lemma_first_nl_at(s.drop_first(), i - 1);
    }
}

proof fn lemma_split_lines_count(s: Seq<u8>)
    ensures
        1 <= split_lines(s).len() <= s.len() + 1,
    decreases s.len(),
{
    lemma_first_nl_bounds(s);
    if first_nl(s) < s.len() {
        lemma_split_lines_count(s.skip(first_nl(s) + 1));
    }
}

/// Splits the source bytes into newline-separated segments.
fn split_lines_exec(bytes: &[u8]) -> (r: Vec<Vec<u8>>)
    ensures
        r.deep_view() == split_lines(bytes@),
{
    let n = bytes.len();
    let mut out: Vec<Vec<u8>> = Vec::new();
    let mut cur: Vec<u8> = Vec::new();
    let mut start: usize = 0;
    let mut p: usize = 0;
    proof {
        assert(bytes@.skip(0) =~= bytes@);
        assert(cur@ =~= bytes@.subrange(0, 0));
        assert(out.deep_view() + split_lines(bytes@) =~= split_lines(bytes@));
    }
    while p < n
        invariant
            n == bytes@.len(),
            start <= p <= n,
            cur@ == bytes@.subrange(start as int, p as int),
            forall|k: int| start <= k < p ==> bytes@[k] != 10,
            split_lines(bytes@) == out.deep_view() + split_lines(
                bytes@.skip(start as int),
            ),
        decreases n - p,
    {
        let b = bytes[p];
        if b == 10 {
            proof {
                let rest = bytes@.skip(start as int);
                lemma_first_nl_at(rest, p - start);
                assert(rest.take(p - start) =~= bytes@.subrange(start as int, p as int));
                assert(rest.skip(p - start + 1) =~= bytes@.skip(p + 1));
                assert(split_lines(rest) == seq![cur@] + split_lines(bytes@.skip(p + 1)));
            }
            let ghost old_out = out.deep_view();
            out.push(cur);
            proof {
                assert(out.deep_view() =~~= old_out.push(bytes@.subrange(
                    start as int,
                    p as int,
                )));
                assert(out.deep_view() + split_lines(bytes@.skip(p + 1)) =~~= old_out + (seq![
                    bytes@.subrange(start as int, p as int),
                ] + split_lines(bytes@.skip(p + 1))));
            }
            cur = Vec::new();
            start = p + 1;
            proof {
                assert(cur@ =~= bytes@.subrange(start as int, start as int));
            }
        } else {
            cur.push(b);
            proof {
                assert(cur@ =~= bytes@.subrange(start as int, p + 1));
            }
        }
        p += 1;
    }
    proof {
        let rest = bytes@.skip(start as int);
        lemma_first_nl_at(rest, n - start);
        assert(rest =~= bytes@.subrange(start as int, n as int));
        assert(split_lines(rest) == seq![rest]);
    }
    let ghost old_out = out.deep_view();
    out.push(cur);
    proof {
        assert(out.deep_view() =~~= old_out.push(bytes@.skip(start as int)));
        assert(out.deep_view() =~~= split_lines(bytes@));
    }
    out
}

/// Count of leading ASCII whitespace bytes.
pub open spec fn leading_ws(line: Seq<u8>) -> int
    decreases line.len(),
{
    if line.len() == 0 {
        0
    } else if is_space(line[0]) {
        1 + leading_ws(line.drop_first())
    } else {
        0
    }
}

/// Count of trailing ASCII whitespace bytes.
pub open spec fn trailing_ws(line: Seq<u8>) -> int
    decreases line.len(),
{
    if line.len() == 0 {
        0
    } else if is_space(line.last()) {
        1 + trailing_ws(line.drop_last())
    } else {
        0
    }
}

/// The line with leading and trailing ASCII whitespace removed.
pub open spec fn spec_trim(line: Seq<u8>) -> Seq<u8> {
    if leading_ws(line) == line.len() {
        Seq::<u8>::empty()
    } else {
        line.subrange(leading_ws(line), line.len() - trailing_ws(line))
    }
}

proof fn lemma_leading_ws_bounds(line: Seq<u8>)
    ensures
        0 <= leading_ws(line) <= line.len(),
        forall|k: int| 0 <= k < leading_ws(line) ==> is_space(line[k]),
        leading_ws(line) < line.len() ==> !is_space(line[leading_ws(line)]),
    decreases line.len(),
{
    if line.len() > 0 && is_space(line[0]) {
        lemma_leading_ws_bounds(line.drop_first());
        assert forall|k: int| 0 <= k < leading_ws(line) implies is_space(line[k]) by {
            if k > 0 {
                assert(line.drop_first()[k - 1] == line[k]);
            }
        }
    }
}

proof fn lemma_leading_ws_at(line: Seq<u8>, i: int)
    requires
        0 <= i <= line.len(),
        forall|k: int| 0 <= k < i ==> is_space(line[k]),
        i < line.len() ==> !is_space(line[i]),
    ensures
        leading_ws(line) == i,
    decreases line.len(),
{
    if line.len() > 0 && is_space(line[0]) {
        lemma_leading_ws_at(line.drop_first(), i - 1);
    }
}

proof fn lemma_trailing_ws_bounds(line: Seq<u8>)
    ensures
        0 <= trailing_ws(line) <= line.len(),
        forall|k: int| line.len() - trailing_ws(line) <= k < line.len() ==> is_space(line[k]),
        trailing_ws(line) < line.len() ==> !is_space(
            line[line.len() - trailing_ws(line) - 1],
        ),
    decreases line.len(),
{
    if line.len() > 0 && is_space(line.last()) {
        lemma_trailing_ws_bounds(line.drop_last());
        assert forall|k: int| line.len() - trailing_ws(line) <= k < line.len() implies is_space(
            line[k],
        ) by {
            if k < line.len() - 1 {
                assert(line.drop_last()[k] == line[k]);
            }
        }
    }
}

proof fn lemma_trailing_ws_at(line: Seq<u8>, i: int)
    requires
        0 <= i <= line.len(),
        forall|k: int| line.len() - i <= k < line.len() ==> is_space(line[k]),
        i < line.len() ==> !is_space(line[line.len() - i - 1]),
    ensures
        trailing_ws(line) == i,
    decreases line.len(),
{
    if line.len() > 0 && is_space(line.last()) {
        lemma_trailing_ws_at(line.drop_last(), i - 1);
    }
}

/// Extracts the trimmed line, and its leading-whitespace count as the
/// indentation level.
fn trim_line(line: &Vec<u8>) -> (r: (Vec<u8>, usize))
    ensures
        r.0@ == spec_trim(line@),
        r.1 as int == leading_ws(line@),
{
    let n = line.len();
    let mut lo: usize = 0;
    while lo < n && byte_is_space(line[lo])
        invariant
            n == line@.len(),
            lo <= n,
            forall|k: int| 0 <= k < lo ==> is_space(line@[k]),
        decreases n - lo,
    {
        lo += 1;
    }
    proof {
        lemma_leading_ws_at(line@, lo as int);
    }
    if lo == n {
        let t: Vec<u8> = Vec::new();
        proof {
            assert(t@ =~= spec_trim(line@));
        }
        return (t, lo);
    }
    let mut back: usize = 0;
    while back < n && byte_is_space(line[n - 1 - back])
        invariant
            n == line@.len(),
            back <= n,
            forall|k: int| n - back <= k < n ==> is_space(line@[k]),
            leading_ws(line@) == lo < n,
        decreases n - back,
    {
        back += 1;
        proof {
            if back == n {
                assert(is_space(line@[lo as int]));
                lemma_leading_ws_bounds(line@);
                assert(false);
            }
        }
    }
    proof {
        lemma_trailing_ws_at(line@, back as int);
        lemma_leading_ws_bounds(line@);
        lemma_trailing_ws_bounds(line@);
        if n - back <= lo {
            assert(is_space(line@[lo as int]));
            assert(false);
        }
    }
    let hi = n - back;
    let mut t: Vec<u8> = Vec::new();
    let mut p: usize = lo;
    while p < hi
        invariant
            n == line@.len(),
            lo <= p <= hi <= n,
            t@ == line@.subrange(lo as int, p as int),
        decreases hi - p,
    {
        t.push(line[p]);
        proof {
            assert(t@ =~= line@.subrange(lo as int, p + 1));
        }
        p += 1;
    }
    proof {
        assert(t@ =~= spec_trim(line@));
    }
    (t, lo)
}

// ------------------------------------------------------------------
// Control-flow keywords
// ------------------------------------------------------------------

/// The bytes of the control-flow keyword with the given index:
/// if, else, elif, for, while, try, except, with.
pub open spec fn keyword_bytes(k: int) -> Seq<u8> {
    if k == 0 {
        seq![105u8, 102u8]  // if
    } else if k == 1 {
        seq![101u8, 108u8, 115u8, 101u8]  // else
    } else if k == 2 {
        seq![101u8, 108u8, 105u8, 102u8]  // elif
    } else if k == 3 {
        seq![102u8, 111u8, 114u8]  // for
    } else if k == 4 {
        seq![119u8, 104u8, 105u8, 108u8, 101u8]  // while
    } else if k == 5 {
        seq![116u8, 114u8, 121u8]  // try
    } else if k == 6 {
        seq![101u8, 120u8, 99u8, 101u8, 112u8, 116u8]  // except
    } else {
        seq![119u8, 105u8, 116u8, 104u8]  // with
    }
}

/// Whether the keyword opens a nesting level: everything except the
/// continuation keywords else, elif and except.
pub open spec fn keyword_nests(k: int) -> bool {
    k != 1 && k != 2 && k != 6
}

/// The trimmed line starts with the keyword, followed by a space, a colon,
/// an opening parenthesis, or the end of the line.
pub open spec fn line_matches_keyword(t: Seq<u8>, k: int) -> bool {
    let kw = keyword_bytes(k);
    let m = kw.len() as int;
    &&& t.len() >= kw.len()
    &&& t.take(m) == kw
    &&& (t.len() == kw.len() || t[m] == 32 || t[m] == 58 || t[m] == 40)
}

/// The first matching keyword index from `k` on, if any.
pub open spec fn first_keyword(t: Seq<u8>, k: int) -> Option<int>
    decreases 8 - k,
{
    if k >= 8 {
        None
    } else if line_matches_keyword(t, k) {
        Some(k)
    } else {
        first_keyword(t, k + 1)
    }
}

/// The bytes of keyword `k`, as a vector.
fn keyword_pattern(k: usize) -> (p: Vec<u8>)
    requires
        k < 8,
    ensures
        p@ == keyword_bytes(k as int),
{
    let p: Vec<u8> = if k == 0 {
        vec![105u8, 102u8]
    } else if k == 1 {
        vec![101u8, 108u8, 115u8, 101u8]
    } else if k == 2 {
        vec![101u8, 108u8, 105u8, 102u8]
    } else if k == 3 {
        vec![102u8, 111u8, 114u8]
    } else if k == 4 {
        vec![119u8, 104u8, 105u8, 108u8, 101u8]
    } else if k == 5 {
        vec![116u8, 114u8, 121u8]
    } else if k == 6 {
        vec![101u8, 120u8, 99u8, 101u8, 112u8, 116u8]
    } else {
        vec![119u8, 105u8, 116u8, 104u8]
    };
    proof {
        assert(p@ =~= keyword_bytes(k as int));
    }
    p
}

/// Decides [`line_matches_keyword`].
fn matches_keyword(t: &Vec<u8>, k: usize) -> (r: bool)
    requires
        k < 8,
    ensures
        r == line_matches_keyword(t@, k as int),
{
    let kw = keyword_pattern(k);
    let m = kw.len();
    if t.len() < m {
        return false;
    }
    let mut p: usize = 0;
    while p < m
        invariant
            m == kw@.len() <= t@.len(),
            p <= m,
            kw@ == keyword_bytes(k as int),
            forall|q: int| 0 <= q < p ==> t@[q] == kw@[q],
        decreases m - p,
    {
        if t[p] != kw[p] {
            proof {
                assert(t@.take(m as int)[p as int] != kw@[p as int]);
            }
            return false;
        }
        p += 1;
    }
    proof {
        assert(t@.take(m as int) =~= kw@);
    }
    if t.len() == m {
        return true;
    }
    let next = t[m];
    next == 32 || next == 58 || next == 40
}

/// Finds the first matching keyword of the trimmed line, if any.
fn find_keyword(t: &Vec<u8>) -> (r: Option<usize>)
    ensures
        match r {
            Some(k) => k < 8 && first_keyword(t@, 0) == Some(k as int),
            None => first_keyword(t@, 0) is None,
        },
{
    let mut k: usize = 0;
    while k < 8
        invariant
            k <= 8,
            first_keyword(t@, 0) == first_keyword(t@, k as int),
        decreases 8 - k,
    {
        if matches_keyword(t, k) {
            return Some(k);
        }
        k += 1;
    }
    None
}

// ------------------------------------------------------------------
// The line-by-line analysis
// ------------------------------------------------------------------

/// The running state of the analysis: the counters, the current nesting
/// level, and the stack of indentation levels of the open nesting blocks.
pub struct AnalysisState {
    pub complexity: int,
    pub cognitive: int,
    pub max_nesting: int,
    pub current_nesting: int,
    pub indent_stack: Seq<int>,
}

/// The state before any line: cyclomatic complexity one, an indentation
/// stack holding the base level.
pub open spec fn initial_state() -> AnalysisState {
    AnalysisState {
        complexity: 1,
        cognitive: 0,
        max_nesting: 0,
        current_nesting: 0,
        indent_stack: seq![0],
    }
}

/// Pops indentation levels above the current line's indentation, closing one
/// nesting level per popped entry (never below zero, and the base entry
/// stays).
pub open spec fn unwind(stack: Seq<int>, nesting: int, indent: int) -> (Seq<int>, int)
    decreases stack.len(),
{
    if stack.len() > 1 && indent < stack.last() {
        unwind(
            stack.drop_last(),
            if nesting > 0 {
                nesting - 1
            } else {
                0
            },
            indent,
        )
    } else {
        (stack, nesting)
    }
}

/// One line of the analysis: blank lines change nothing; otherwise the
/// indentation stack is unwound to the line's level, and a leading
/// control-flow keyword bumps the counters and, unless it is a
/// continuation keyword, opens a nesting level.
pub open spec fn step_line(st: AnalysisState, line: Seq<u8>) -> AnalysisState {
    let t = spec_trim(line);
    if t.len() == 0 {
        st
    } else {
        let indent = leading_ws(line);
        let popped = unwind(st.indent_stack, st.current_nesting, indent);
        match first_keyword(t, 0) {
            Option::None => AnalysisState {
                indent_stack: popped.0,
                current_nesting: popped.1,
                ..st
            },
            Option::Some(k) => {
                if keyword_nests(k) {
                    AnalysisState {
                        complexity: st.complexity + 1,
                        cognitive: st.cognitive + 1 + popped.1,
                        current_nesting: popped.1 + 1,
                        max_nesting: if popped.1 + 1 > st.max_nesting {
                            popped.1 + 1
                        } else {
                            st.max_nesting
                        },
                        indent_stack: popped.0.push(indent),
                    }
                } else {
                    AnalysisState {
                        complexity: st.complexity + 1,
                        cognitive: st.cognitive + 1 + popped.1,
                        current_nesting: popped.1,
                        max_nesting: st.max_nesting,
                        indent_stack: popped.0,
                    }
                }
            },
        }
    }
}

/// The state after the first `i` lines.
pub open spec fn state_after(lines: Seq<Seq<u8>>, i: int) -> AnalysisState
    decreases i,
{
    if i <= 0 {
        initial_state()
    } else {
        step_line(state_after(lines, i - 1), lines[i - 1])
    }
}

proof fn lemma_unwind_bounds(stack: Seq<int>, nesting: int, indent: int)
    requires
        stack.len() >= 1,
        nesting >= 0,
    ensures
        1 <= unwind(stack, nesting, indent).0.len() <= stack.len(),
        0 <= unwind(stack, nesting, indent).1 <= nesting,
    decreases stack.len(),
{
    if stack.len() > 1 && indent < stack.last() {
        lemma_unwind_bounds(
            stack.drop_last(),
            if nesting > 0 {
                nesting - 1
            } else {
                0
            },
            indent,
        );
    }
}

proof fn lemma_state_bounds(lines: Seq<Seq<u8>>, i: int)
    requires
        0 <= i,
    ensures
        1 <= state_after(lines, i).complexity <= 1 + i,
        0 <= state_after(lines, i).current_nesting <= i,
        0 <= state_after(lines, i).max_nesting <= i,
        0 <= state_after(lines, i).cognitive <= i * (i + 1),
        1 <= state_after(lines, i).indent_stack.len() <= 1 + i,
    decreases i,
{
    if i > 0 {
        lemma_state_bounds(lines, i - 1);
        let st = state_after(lines, i - 1);
        lemma_unwind_bounds(
            st.indent_stack,
            st.current_nesting,
            leading_ws(lines[i - 1]),
        );
        assert((i - 1) * i + 1 + (i - 1) <= i * (i + 1)) by (nonlinear_arith)
            requires
                i >= 1,
        ;
        assert(i * (i + 1) >= 0) by (nonlinear_arith)
            requires
                i >= 0,
        ;
    }
}

/// Maps an indentation stack held in a vector to its model.
pub open spec fn stack_view(s: Seq<usize>) -> Seq<int> {
    s.map_values(|x: usize| x as int)
}

/// Truncates an unbounded counter into a `usize`, saturating at the
/// maximum.
pub open spec fn to_usize_sat(x: int) -> int {
    if x > usize::MAX as int {
        usize::MAX as int
    } else {
        x
    }
}

fn usize_sat(x: u128) -> (r: usize)
    requires
        x >= 0,
    ensures
        r as int == to_usize_sat(x as int),
{
    if x > usize::MAX as u128 {
        usize::MAX
    } else {
        x as usize
    }
}

/// The line-heuristic source analyzer, with a cache of per-file results.
pub struct RustAstAnalyzer {
    cache: Vec<(String, ComplexityMetrics)>,
}

/// Model of the analyzer's cache.
pub open spec fn cache_view(c: Seq<(String, ComplexityMetrics)>) -> Seq<
    (Seq<char>, ComplexityMetrics),
> {
    c.map_values(|p: (String, ComplexityMetrics)| (p.0@, p.1))
}

impl RustAstAnalyzer {
    /// The cached results, in insertion order.
    pub closed spec fn spec_cache(&self) -> Seq<(Seq<char>, ComplexityMetrics)> {
        cache_view(self.cache@)
    }

    /// Creates an analyzer with an empty cache.
    pub fn new() -> (r: RustAstAnalyzer)
        ensures
            r.spec_cache() == Seq::<(Seq<char>, ComplexityMetrics)>::empty(),
    {
        let cache: Vec<(String, ComplexityMetrics)> = Vec::new();
        proof {
            assert(cache_view(cache@) =~= Seq::<(Seq<char>, ComplexityMetrics)>::empty());
        }
        RustAstAnalyzer { cache }
    }

    /// The cached metrics for a file path, if present.
    pub fn lookup_cache(&self, file_path: &String) -> (r: Option<ComplexityMetrics>)
        ensures
            r == (if assoc_has_key(self.spec_cache(), file_path@) {
                Some(self.spec_cache()[assoc_key_index(self.spec_cache(), file_path@)].1)
            } else {
                Option::<ComplexityMetrics>::None
            }),
    {
        let n = self.cache.len();
        let mut i: usize = 0;
        while i < n
            invariant
                n == self.cache@.len(),
                i <= n,
                forall|k: int| 0 <= k < i ==> cache_view(self.cache@)[k].0 != file_path@,
            decreases n - i,
        {
            if self.cache[i].0 == *file_path {
                proof {
                    assert(cache_view(self.cache@)[i as int].0 == file_path@);
                    crate::correlator::lemma_assoc_key_index_found(
                        cache_view(self.cache@),
                        file_path@,
                        i as int,
                    );
                }
                return Some(self.cache[i].1);
            }
            i += 1;
        }
        None
    }

    /// Stores metrics for a file path, replacing an earlier entry.
    pub fn store_cache(&mut self, file_path: String, metrics: ComplexityMetrics)
        ensures
            final(self).spec_cache() == (if assoc_has_key(old(self).spec_cache(), file_path@) {
                old(self).spec_cache().update(
                    assoc_key_index(old(self).spec_cache(), file_path@),
                    (file_path@, metrics),
                )
            } else {
                old(self).spec_cache().push((file_path@, metrics))
            }),
    {
        let n = self.cache.len();
        let mut i: usize = 0;
        while i < n
            invariant
                n == self.cache@.len(),
                i <= n,
                *self == *old(self),
                forall|k: int| 0 <= k < i ==> cache_view(self.cache@)[k].0 != file_path@,
            decreases n - i,
        {
            if self.cache[i].0 == file_path {
                proof {
                    assert(cache_view(self.cache@)[i as int].0 == file_path@);
                    crate::correlator::lemma_assoc_key_index_found(
                        cache_view(self.cache@),
                        file_path@,
                        i as int,
                    );
                }
                self.cache.set(i, (file_path, metrics));
                proof {
                    assert(cache_view(self.cache@) =~~= old(self).spec_cache().update(
                        assoc_key_index(old(self).spec_cache(), file_path@),
                        (file_path@, metrics),
                    ));
                }
                return ;
            }
            i += 1;
        }
        self.cache.push((file_path, metrics));
        proof {
            assert(!assoc_has_key(old(self).spec_cache(), file_path@));
            assert(cache_view(self.cache@) =~~= old(self).spec_cache().push((
                file_path@,
                metrics,
            )));
        }
    }

    /// Empties the cache.
    pub fn clear_cache(&mut self)
        ensures
            final(self).spec_cache() == Seq::<(Seq<char>, ComplexityMetrics)>::empty(),
    {
        self.cache.clear();
        proof {
            assert(cache_view(self.cache@) =~= Seq::<(Seq<char>, ComplexityMetrics)>::empty());
        }
    }

    /// Number of cached results.
    pub fn cache_size(&self) -> (n: usize)
        ensures
            n == self.spec_cache().len(),
    {
        self.cache.len()
    }

    /// Analyzes source text: walks its lines, tracking indentation-based
    /// nesting and the control-flow keywords, and reports the metrics of
    /// the final state (counters saturate at the machine maximum).
    pub fn analyze_source(&self, source: &str) -> (m: ComplexityMetrics)
        requires
            source.spec_bytes().len() < usize::MAX as int,
        ensures
            ({
                let lines = split_lines(source.spec_bytes());
                let st = state_after(lines, lines.len() as int);
                &&& m.cyclomatic_complexity as int == to_usize_sat(st.complexity)
                &&& m.cognitive_complexity as int == to_usize_sat(st.cognitive)
                &&& m.max_nesting_depth as int == to_usize_sat(st.max_nesting)
                &&& m.lines_of_code as int == lines.len() as int
            }),
    {
        let bytes = source.as_bytes();
        let lines = split_lines_exec(bytes);
        let ghost ldv = lines.deep_view();
        let n = lines.len();
        proof {
            lemma_split_lines_count(bytes@);
        }
        let mut complexity: u128 = 1;
        let mut cognitive: u128 = 0;
        let mut max_nesting: u128 = 0;
        let mut nesting: u128 = 0;
        let mut stack: Vec<usize> = Vec::new();
        stack.push(0);
        proof {
            assert(stack_view(stack@) =~= seq![0int]);
        }
        let mut i: usize = 0;
        while i < n
            invariant
                n == lines@.len(),
                ldv == lines.deep_view(),
                n as int == split_lines(bytes@).len() as int,
                ldv == split_lines(bytes@),
                n as int <= bytes@.len() + 1,
                bytes@.len() < usize::MAX as int,
                i <= n,
                complexity as int == state_after(ldv, i as int).complexity,
                cognitive as int == state_after(ldv, i as int).cognitive,
                max_nesting as int == state_after(ldv, i as int).max_nesting,
                nesting as int == state_after(ldv, i as int).current_nesting,
                stack_view(stack@) == state_after(ldv, i as int).indent_stack,
            decreases n - i,
        {
            proof {
                lemma_state_bounds(ldv, i as int);
                assert((i as int + 1) * (i as int + 2) <= u128::MAX as int) by (nonlinear_arith)
                    requires
                        0 <= i as int + 2 <= 0x10000000000000000int,
                ;
            }
            let (t, indent) = trim_line(&lines[i]);
            proof {
                assert(ldv[i as int] =~~= lines@[i as int]@);
            }
            if t.len() > 0 {
                while stack.len() > 1 && indent < stack[stack.len() - 1]
                    invariant
                        stack@.len() >= 1,
                        nesting as int >= 0,
                        nesting as int <= i,
                        i < n,
                        ldv == split_lines(bytes@),
                        unwind(
                            state_after(ldv, i as int).indent_stack,
                            state_after(ldv, i as int).current_nesting,
                            leading_ws(ldv[i as int]),
                        ) == unwind(
                            stack_view(stack@),
                            nesting as int,
                            leading_ws(ldv[i as int]),
                        ),
                        indent as int == leading_ws(ldv[i as int]),
                    decreases stack@.len(),
                {
                    proof {
                        assert(stack_view(stack@).last() == stack@.last() as int);
                        assert(stack_view(stack@.drop_last()) =~= stack_view(
                            stack@,
                        ).drop_last());
                    }
                    stack.pop();
                    if nesting > 0 {
                        nesting = nesting - 1;
                    }
                }
                proof {
                    assert(stack_view(stack@).len() == stack@.len());
                    if stack@.len() > 1 {
                        assert(stack_view(stack@).last() == stack@.last() as int);
                    }
                    assert(unwind(
                        stack_view(stack@),
                        nesting as int,
                        leading_ws(ldv[i as int]),
                    ) == (stack_view(stack@), nesting as int));
                }
                match find_keyword(&t) {
                    Option::Some(k) => {
                        proof {
                            assert(cognitive as int + 1 + nesting as int <= (i as int + 1) * (
                            i as int + 2)) by (nonlinear_arith)
                                requires
                                    cognitive as int <= (i as int) * (i as int + 1),
                                    0 <= nesting as int <= i as int,
                                    0 <= i as int,
                            ;
                        }
                        complexity = complexity + 1;
                        cognitive = cognitive + 1 + nesting;
                        let nests = !(k == 1 || k == 2 || k == 6);
                        if nests {
                            nesting = nesting + 1;
                            if nesting > max_nesting {
                                max_nesting = nesting;
                            }
                            stack.push(indent);
                            proof {
                                assert(stack_view(stack@) =~= state_after(
                                    ldv,
                                    i + 1,
                                ).indent_stack);
                            }
                        }
                    },
                    Option::None => {
                    },
                }
            }
            i += 1;
        }
        proof {
            lemma_state_bounds(ldv, n as int);
        }
        ComplexityMetrics {
            cyclomatic_complexity: usize_sat(complexity),
            cognitive_complexity: usize_sat(cognitive),
            max_nesting_depth: usize_sat(max_nesting),
            lines_of_code: n,
        }
    }
}

} // verus!
