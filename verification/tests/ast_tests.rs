use observe_core::ComplexityMetrics;
use observe_core::RustAstAnalyzer;

#[test]
fn test_simple_function() {
    let analyzer = RustAstAnalyzer::new();
    let source = r#"
def simple_function():
    return 42
"#;
    let metrics = analyzer.analyze_source(source);
    assert_eq!(metrics.lines_of_code, 4);
    assert_eq!(metrics.cyclomatic_complexity, 1);
}

#[test]
fn test_complex_function() {
    let analyzer = RustAstAnalyzer::new();
    let source = r#"
def complex_function(x):
    if x > 10:
        for i in range(x):
            if i % 2 == 0:
                print(i)
    else:
        return 0
"#;
    let metrics = analyzer.analyze_source(source);
    assert!(metrics.cyclomatic_complexity > 3);
    assert!(metrics.max_nesting_depth >= 2);
}

#[test]
fn default_metrics_start_at_baseline() {
    let m = ComplexityMetrics::default();
    assert_eq!(m.cyclomatic_complexity, 1);
    assert_eq!(m.cognitive_complexity, 0);
    assert_eq!(m.max_nesting_depth, 0);
    assert_eq!(m.lines_of_code, 0);
}

#[test]
fn nesting_and_cognitive_track_indentation() {
    let analyzer = RustAstAnalyzer::new();
    let source = "if a:\n    while b:\n        x = 1\nif c:\n    y = 2\n";
    let metrics = analyzer.analyze_source(source);
    // Keywords: if, while, then if again after the indent stack unwinds to
    // the base block (whose zero-indent entry never pops).
    assert_eq!(metrics.cyclomatic_complexity, 4);
    assert_eq!(metrics.max_nesting_depth, 2);
    // Cognitive: 1, then 2, then 2.
    assert_eq!(metrics.cognitive_complexity, 5);
    assert_eq!(metrics.lines_of_code, 6);
}

#[test]
fn continuation_keywords_do_not_nest() {
    let analyzer = RustAstAnalyzer::new();
    let source = "try:\n    f()\nexcept:\n    g()\nelse:\n    h()\n";
    let metrics = analyzer.analyze_source(source);
    // try, except and else all count toward complexity; only try nests.
    assert_eq!(metrics.cyclomatic_complexity, 4);
    assert_eq!(metrics.max_nesting_depth, 1);
}

#[test]
fn keywords_inside_identifiers_are_ignored() {
    let analyzer = RustAstAnalyzer::new();
    let source = "iffy = 1\nelsewhere = 2\nforty(2)\n";
    let metrics = analyzer.analyze_source(source);
    assert_eq!(metrics.cyclomatic_complexity, 1);
    assert_eq!(metrics.cognitive_complexity, 0);
}

#[test]
fn cache_stores_and_replaces_entries() {
    let mut analyzer = RustAstAnalyzer::new();
    assert_eq!(analyzer.cache_size(), 0);
    assert!(analyzer.lookup_cache(&"a.py".to_string()).is_none());

    let first = analyzer.analyze_source("x = 1\n");
    analyzer.store_cache("a.py".to_string(), first);
    assert_eq!(analyzer.cache_size(), 1);
    assert_eq!(analyzer.lookup_cache(&"a.py".to_string()), Some(first));

    let second = analyzer.analyze_source("if a:\n    x = 1\n");
    analyzer.store_cache("a.py".to_string(), second);
    assert_eq!(analyzer.cache_size(), 1);
    assert_eq!(analyzer.lookup_cache(&"a.py".to_string()), Some(second));

    analyzer.clear_cache();
    assert_eq!(analyzer.cache_size(), 0);
}
