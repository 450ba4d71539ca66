use aeditor::diagnostics::{
    report, rule_column_in, rule_of, DiagnosticError, DiagnosticsManager, Patterns, Rule,
};

fn error(file: &str, line: usize, column: usize, message: &str) -> DiagnosticError {
    DiagnosticError {
        id: format!("{}-{}", file, line),
        severity: "warning".to_string(),
        message: message.to_string(),
        file: file.to_string(),
        line,
        column,
        code: None,
        suggestion: None,
        fixable: None,
        source: None,
    }
}

fn column(rule: Rule, line: &str) -> Option<usize> {
    let chars: Vec<char> = line.chars().collect();
    rule_column_in(rule, &chars, &Patterns::new())
}

#[test]
fn new_manager_is_empty() {
    assert!(DiagnosticsManager::new().get_errors().is_empty());
}

#[test]
fn add_error_appends() {
    let mut manager = DiagnosticsManager::new();
    manager.add_error(error("a.ts", 1, 1, "m"));
    manager.add_error(error("a.ts", 2, 1, "m"));
    let errors = manager.get_errors();
    assert_eq!(errors.len(), 2);
    assert_eq!(errors[0].line, 1);
    assert_eq!(errors[1].line, 2);
}

#[test]
fn add_error_drops_the_same_report() {
    let mut manager = DiagnosticsManager::new();
    manager.add_error(error("a.ts", 1, 1, "m"));
    let mut again = error("a.ts", 1, 1, "m");
    again.id = "other".to_string();
    again.severity = "info".to_string();
    manager.add_error(again);
    assert_eq!(manager.get_errors().len(), 1);
    assert_eq!(manager.get_errors()[0].id, "a.ts-1");
}

#[test]
fn add_error_keeps_reports_that_differ_in_one_part() {
    let mut manager = DiagnosticsManager::new();
    manager.add_error(error("a.ts", 1, 1, "m"));
    manager.add_error(error("b.ts", 1, 1, "m"));
    manager.add_error(error("a.ts", 2, 1, "m"));
    manager.add_error(error("a.ts", 1, 2, "m"));
    manager.add_error(error("a.ts", 1, 1, "n"));
    assert_eq!(manager.get_errors().len(), 5);
}

#[test]
fn clear_file_errors_keeps_other_files_in_order() {
    let mut manager = DiagnosticsManager::new();
    manager.add_error(error("a.ts", 1, 1, "m"));
    manager.add_error(error("b.ts", 1, 1, "m"));
    manager.add_error(error("a.ts", 2, 1, "m"));
    manager.add_error(error("c.ts", 3, 1, "m"));
    manager.clear_file_errors("a.ts");
    let errors = manager.get_errors();
    assert_eq!(errors.len(), 2);
    assert_eq!(errors[0].file, "b.ts");
    assert_eq!(errors[1].file, "c.ts");
}

#[test]
fn clear_removes_everything() {
    let mut manager = DiagnosticsManager::new();
    manager.add_error(error("a.ts", 1, 1, "m"));
    manager.clear();
    assert!(manager.get_errors().is_empty());
}

#[test]
fn analyze_reports_console_log() {
    let mut manager = DiagnosticsManager::new();
    manager.analyze_file("src/a.js", "let x = 1;\n  console.log(x);\n");
    let errors = manager.get_errors();
    assert_eq!(errors.len(), 1);
    assert_eq!(errors[0].id, "src/a.js-2-console");
    assert_eq!(errors[0].severity, "warning");
    assert_eq!(errors[0].message, "Uso de console.log() detectado");
    assert_eq!(errors[0].file, "src/a.js");
    assert_eq!(errors[0].line, 2);
    assert_eq!(errors[0].column, 3);
    assert_eq!(errors[0].code.as_deref(), Some("no-console"));
    assert_eq!(errors[0].suggestion.as_deref(), Some("Considera usar un logger apropiado"));
    assert_eq!(errors[0].fixable, Some(true));
    assert_eq!(errors[0].source.as_deref(), Some("aeditor"));
}

#[test]
fn analyze_applies_every_rule_in_order() {
    let mut manager = DiagnosticsManager::new();
    manager.analyze_file("f.js", "  var a = b == c; // TODO console.log()");
    let errors = manager.get_errors();
    let ids: Vec<&str> = errors.iter().map(|e| e.id.as_str()).collect();
    assert_eq!(ids, vec!["f.js-1-console", "f.js-1-var", "f.js-1-eqeq", "f.js-1-semi", "f.js-1-todo"]);
    let columns: Vec<usize> = errors.iter().map(|e| e.column).collect();
    assert_eq!(columns, vec![27, 3, 12, 39, 22]);
    assert_eq!(errors[1].message, "Uso de 'var' está desaconsejado");
    assert_eq!(errors[1].code.as_deref(), Some("no-var"));
    assert_eq!(errors[1].suggestion.as_deref(), Some("Usa 'const' o 'let' en su lugar"));
    assert_eq!(errors[2].message, "Usa '===' en lugar de '=='");
    assert_eq!(errors[2].code.as_deref(), Some("eqeqeq"));
    assert_eq!(errors[2].suggestion.as_deref(), Some("Usa '===' para comparación estricta"));
    assert_eq!(errors[3].severity, "info");
    assert_eq!(errors[3].message, "Falta punto y coma");
    assert_eq!(errors[3].code.as_deref(), Some("semi"));
    assert_eq!(errors[3].suggestion, None);
    assert_eq!(errors[3].fixable, Some(true));
    assert_eq!(errors[4].severity, "info");
    assert_eq!(errors[4].message, "Comentario TODO pendiente");
    assert_eq!(errors[4].code.as_deref(), Some("no-warning-comments"));
    assert_eq!(errors[4].suggestion, None);
    assert_eq!(errors[4].fixable, Some(false));
}

#[test]
fn analyze_replaces_the_findings_of_the_file() {
    let mut manager = DiagnosticsManager::new();
    manager.analyze_file("a.js", "console.log(1);\n");
    manager.analyze_file("b.js", "var x;\n");
    manager.analyze_file("a.js", "ok();\n// FIXME later\n");
    let errors = manager.get_errors();
    let ids: Vec<&str> = errors.iter().map(|e| e.id.as_str()).collect();
    assert_eq!(ids, vec!["b.js-1-var", "a.js-2-todo"]);
    assert_eq!(errors[1].column, 4);
}

#[test]
fn analyze_of_clean_text_reports_nothing() {
    let mut manager = DiagnosticsManager::new();
    manager.analyze_file("a.js", "const a = b === c;\nfoo();\n");
    assert!(manager.get_errors().is_empty());
    manager.analyze_file("a.js", "");
    assert!(manager.get_errors().is_empty());
}

#[test]
fn analyze_twice_gives_the_same_findings() {
    let mut manager = DiagnosticsManager::new();
    let content = "var a\nfoo()\nconsole.log(a == b)\n";
    manager.analyze_file("a.js", content);
    let first: Vec<String> = manager.get_errors().iter().map(|e| e.id.clone()).collect();
    manager.analyze_file("a.js", content);
    let second: Vec<String> = manager.get_errors().iter().map(|e| e.id.clone()).collect();
    assert_eq!(first, second);
    assert_eq!(first, vec!["a.js-1-var", "a.js-2-semi", "a.js-3-console", "a.js-3-eqeq", "a.js-3-semi"]);
}

#[test]
fn columns_count_bytes() {
    assert_eq!(column(Rule::Console, "é console.log"), Some(4));
    assert_eq!(column(Rule::Semicolon, "f(é)  "), Some(7));
    assert_eq!(column(Rule::Todo, "☃ FIXME"), Some(5));
}

#[test]
fn console_rule() {
    assert_eq!(column(Rule::Console, "console.log"), Some(1));
    assert_eq!(column(Rule::Console, "x console.log console.log"), Some(3));
    assert_eq!(column(Rule::Console, "console.lo"), None);
}

#[test]
fn var_rule() {
    assert_eq!(column(Rule::Var, "var x"), Some(1));
    assert_eq!(column(Rule::Var, "\t var x"), Some(3));
    assert_eq!(column(Rule::Var, "var"), None);
    assert_eq!(column(Rule::Var, "variable = 1"), None);
    assert_eq!(column(Rule::Var, "let var x"), None);
}

#[test]
fn loose_equality_rule() {
    assert_eq!(column(Rule::LooseEquality, "a == b"), Some(2));
    assert_eq!(column(Rule::LooseEquality, "a == b === c"), None);
    assert_eq!(column(Rule::LooseEquality, "a==b"), None);
}

#[test]
fn semicolon_rule() {
    assert_eq!(column(Rule::Semicolon, "foo()"), Some(5));
    assert_eq!(column(Rule::Semicolon, "  foo()  "), Some(9));
    assert_eq!(column(Rule::Semicolon, "foo();"), None);
    assert_eq!(column(Rule::Semicolon, "if (x) {"), None);
    assert_eq!(column(Rule::Semicolon, ""), None);
    assert_eq!(column(Rule::Semicolon, "   "), None);
}

#[test]
fn todo_rule() {
    assert_eq!(column(Rule::Todo, "// TODO"), Some(4));
    assert_eq!(column(Rule::Todo, "// FIXME and TODO"), Some(14));
    assert_eq!(column(Rule::Todo, "// FIXME"), Some(4));
    assert_eq!(column(Rule::Todo, "// todo"), None);
}

#[test]
fn rules_come_in_a_fixed_order() {
    assert!(matches!(rule_of(0), Rule::Console));
    assert!(matches!(rule_of(1), Rule::Var));
    assert!(matches!(rule_of(2), Rule::LooseEquality));
    assert!(matches!(rule_of(3), Rule::Semicolon));
    assert!(matches!(rule_of(4), Rule::Todo));
}

#[test]
fn report_builds_the_identifier_from_file_line_and_rule() {
    let e = report("dir/x.ts", 120, 7, Rule::LooseEquality);
    assert_eq!(e.id, "dir/x.ts-120-eqeq");
    assert_eq!(e.line, 120);
    assert_eq!(e.column, 7);
    assert_eq!(e.file, "dir/x.ts");
}

#[test]
fn diagnostic_clone_keeps_every_field() {
    let e = report("x.ts", 1, 2, Rule::Var);
    let c = e.clone();
    assert_eq!(format!("{:?}", e), format!("{:?}", c));
}
