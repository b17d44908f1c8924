use adamantium::diagnostics::warnings;

fn analyze(source: &str) -> Vec<String> {
    let program = adamantium::syntax::parse(source).unwrap();
    adamantium::typed::check(&program).unwrap();
    warnings(&program)
}

#[test]
fn ignores_dead_reads_and_calls() {
    let result = analyze(
        "fun main() { entry(); }\nfun entry() r:int {\nvar unused = 10;\nr = 0;\nreturn r;\nprint.newline(unused);\ndead();\n}\nfun dead() r:int { r = 1; }",
    );
    assert!(result.iter().any(|s| s.starts_with("6:1: warning[W001]")));
    assert!(
        result
            .iter()
            .any(|s| s.contains("unused variable 'unused'"))
    );
    assert!(result.iter().any(|s| s.contains("unused function 'dead'")));
    assert_eq!(result.len(), 3);
}

#[test]
fn follows_calls_and_reports_disconnected_cycles() {
    let result = analyze(
        "fun main() { print.newline(a()); } fun a() r:int { r = b(); } fun b() r:int { r = 1; } fun x() r:int { r = y(); } fun y() r:int { r = x(); }",
    );
    assert_eq!(result.len(), 2);
    assert!(result[0].contains("unused function 'x'"));
    assert!(result[1].contains("unused function 'y'"));
}

#[test]
fn distinguishes_reads_writes_parameters_and_intentional_unused_names() {
    let result = analyze(
        "fun main() { var written = 1; written = 2; var _ignored = 1; print.newline(f(1,2)); } fun f(used:int,unused:int) r:int { var value = used; value =+ 1; value.clamp(0,10); r = value; } fun _reserved() r:None {}",
    );
    assert_eq!(result.len(), 2);
    assert!(result[0].contains("unused variable 'written'"));
    assert!(result[1].contains("unused parameter 'unused'"));
}

#[test]
fn result_variables_and_arguments_are_used() {
    assert!(analyze("fun main() { var a = 1; var result = add(a,2); print.newline(result); } fun add(a:int,b:int) r:int { r = a+b; return r; }").is_empty());
}

#[test]
fn reports_each_unreachable_block_once() {
    let result = analyze(
        "fun main() { var a = f(); print.newline(a); } fun f() r:int {\nr = 1;\nreturn r;\nr = 2;\nr = 3;\n}",
    );
    assert_eq!(result, vec!["4:1: warning[W001]: unreachable code after return".to_string()]);
}

#[test]
fn multiple_errors_are_reported_one_per_line() {
    let text = adamantium::diagnostics::multiple_errors(vec!["first".into(), "second".into()]);
    assert_eq!(text, "error[E400]: first\nerror[E400]: second");
}
