use observe_core::LogicCategory;
use observe_core::RustBusinessLogicAnalyzer;

#[test]
fn test_analyzer_creation() {
    let analyzer = RustBusinessLogicAnalyzer::new();
    assert_eq!(analyzer.len(), 0);
}

#[test]
fn test_validation_detection() {
    let mut analyzer = RustBusinessLogicAnalyzer::new();

    let source = r#"
            def validateEmail(email):
                return email.contains('@')
        "#;

    analyzer.analyze_file("test.py".to_string(), source.to_string());

    assert!(analyzer.len() > 0);
    assert!(analyzer.get_patterns().iter().any(|p| p.category == "Validation"));
}

#[test]
fn test_auth_detection() {
    let mut analyzer = RustBusinessLogicAnalyzer::new();

    let source = "await login(username, password)";

    analyzer.analyze_file("test.py".to_string(), source.to_string());

    assert!(analyzer.len() > 0);
    assert!(analyzer.get_patterns().iter().any(|p| p.category == "Authentication"));
}

#[test]
fn test_error_handling_detection() {
    let mut analyzer = RustBusinessLogicAnalyzer::new();

    let source = r#"
            try:
                risky_operation()
            except Exception as e:
                log_error(e)
        "#;

    analyzer.analyze_file("test.py".to_string(), source.to_string());

    assert!(analyzer.len() > 0);
    assert!(analyzer.get_patterns().iter().any(|p| p.category == "ErrorHandling"));
}

#[test]
fn matched_text_and_snippet_are_recorded() {
    let mut analyzer = RustBusinessLogicAnalyzer::new();
    analyzer.analyze_file("app.py".to_string(), "  await login(x)\n".to_string());

    let patterns = analyzer.get_patterns();
    assert_eq!(patterns.len(), 1);
    let p = &patterns[0];
    assert_eq!(p.name, "login");
    assert_eq!(p.category, "Authentication");
    assert_eq!(p.confidence_ppm, 850_000);
    assert_eq!(p.file_path, "app.py");
    assert_eq!(p.line_number, 1);
    assert_eq!(p.code_snippet, "await login(x)");
}

#[test]
fn integration_keywords_are_tagged() {
    let mut analyzer = RustBusinessLogicAnalyzer::new();
    analyzer.analyze_file(
        "net.py".to_string(),
        "data = fetch(url)\nother = 1\n".to_string(),
    );

    let patterns = analyzer.get_patterns();
    assert_eq!(patterns.len(), 1);
    assert_eq!(patterns[0].name, "APIIntegration");
    assert_eq!(patterns[0].category, "Integration");
    assert_eq!(patterns[0].confidence_ppm, 700_000);
}

#[test]
fn patterns_filter_by_category() {
    let mut analyzer = RustBusinessLogicAnalyzer::new();
    analyzer.analyze_file(
        "mix.py".to_string(),
        "await login(x)\ntry:\n".to_string(),
    );

    let auth = analyzer.get_patterns_by_category("Authentication".to_string());
    assert_eq!(auth.len(), 1);
    assert_eq!(auth[0].name, "login");

    let errors = analyzer.get_patterns_by_category("ErrorHandling".to_string());
    assert_eq!(errors.len(), 1);

    let none = analyzer.get_patterns_by_category("BusinessRule".to_string());
    assert_eq!(none.len(), 0);
}

#[test]
fn statistics_average_and_counts() {
    let mut analyzer = RustBusinessLogicAnalyzer::new();
    analyzer.analyze_file(
        "mix.py".to_string(),
        "await login(x)\ntry:\n".to_string(),
    );

    let stats = analyzer.get_statistics();
    assert_eq!(stats.total_patterns, 2);
    // (850000 + 900000) / 2
    assert_eq!(stats.avg_confidence_ppm, 875_000);
    assert_eq!(stats.by_category.len(), 2);
    assert_eq!(stats.by_category[0], ("Authentication".to_string(), 1));
    assert_eq!(stats.by_category[1], ("ErrorHandling".to_string(), 1));

    analyzer.clear();
    assert_eq!(analyzer.len(), 0);
    let empty = analyzer.get_statistics();
    assert_eq!(empty.total_patterns, 0);
    assert_eq!(empty.avg_confidence_ppm, 0);
    assert!(empty.by_category.is_empty());
}

#[test]
fn category_labels_are_canonical() {
    assert_eq!(LogicCategory::Validation.as_str(), "Validation");
    assert_eq!(LogicCategory::Authentication.as_str(), "Authentication");
    assert_eq!(LogicCategory::Authorization.as_str(), "Authorization");
    assert_eq!(LogicCategory::DataTransformation.as_str(), "DataTransformation");
    assert_eq!(LogicCategory::BusinessRule.as_str(), "BusinessRule");
    assert_eq!(LogicCategory::StateManagement.as_str(), "StateManagement");
    assert_eq!(LogicCategory::ErrorHandling.as_str(), "ErrorHandling");
    assert_eq!(LogicCategory::Integration.as_str(), "Integration");
}
