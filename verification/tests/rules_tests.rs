use adamantium::diagnostics::warnings;
use adamantium::manifest::{
    default_value, identifier, manifest_type, package_module, parse_manifest, project_configuration,
    project_errors, validate_manifest, TomlValue,
};
use adamantium::project::{
    action, add_test_entry, closest_name, installed_line, is_wasm, package_download_url,
    result_line, running_line, select_tests, test_source, test_status_line, valid_github_owner,
    valid_github_repository, valid_project_name, Action, Package, TestDefinition,
};
use adamantium::types::Type;

fn text(value: &str) -> TomlValue {
    TomlValue::String(value.to_string())
}

fn table(entries: Vec<(&str, TomlValue)>) -> Vec<(String, TomlValue)> {
    entries.into_iter().map(|(key, value)| (key.to_string(), value)).collect()
}

#[test]
fn project_names_follow_the_rules() {
    assert_eq!(valid_project_name("my-project_2"), Ok(()));
    assert_eq!(
        valid_project_name("my project").unwrap_err(),
        "project name must contain only ASCII letters, digits, underscores or hyphens"
    );
    assert!(valid_project_name("").is_err());
    assert_eq!(
        valid_project_name("com1").unwrap_err(),
        "project name is a reserved Windows device name"
    );
    assert!(valid_project_name("Nul").is_err());
    assert_eq!(valid_project_name("console"), Ok(()));
    assert!(valid_github_owner("Ada-Lang"));
    assert!(!valid_github_owner("ada_lang"));
    assert!(valid_github_repository("adamantium.packet_1"));
    assert!(!valid_github_repository("bad/name"));
}

#[test]
fn test_files_mark_functions_with_attributes() {
    let source = "// helpers\n#[test]\nfun adds() {\n    assert(1 == 1);\n}\n\n#[test]\n\n// comment\nfun _second ()\r\nfun helper() {}\n";
    let (output, tests) = test_source("code/tests.ad", source).unwrap();
    let names: Vec<&str> = tests.iter().map(|test| test.name.as_str()).collect();
    assert_eq!(names, vec!["adds", "_second"]);
    assert_eq!(
        output,
        "// helpers\nfun adds() result:None {\n    assert(1 == 1);\n}\n\n\n// comment\nfun _second () result:None\nfun helper() {}\n"
    );
}

#[test]
fn malformed_test_files_are_rejected_with_their_line() {
    let error = |source: &str| match test_source("t.ad", source) {
        Err(error) => error,
        Ok(_) => panic!("accepted {source:?}"),
    };
    assert_eq!(error("#[test]\n#[test]\nfun a() {}"), "t.ad:2: duplicate #[test] attribute");
    assert_eq!(error("#[test]\nvar a = 1;"), "t.ad:2: #[test] must annotate a function");
    assert_eq!(error("#[test]\nfun 9a() {}"), "t.ad:2: invalid test function name");
    assert_eq!(error("#[test]\nfun a(x:int) {}"), "t.ad:2: test functions cannot have parameters");
    assert_eq!(error("#[test]\nfun a() {}\n#[test]\nfun a() {}"), "t.ad:4: duplicate test 'a'");
    assert_eq!(error("fun a() {}\n#[test]"), "t.ad: #[test] must annotate a function");
    assert_eq!(error("fun a() {}"), "t.ad: no #[test] functions found");
}

#[test]
fn tests_are_selected_and_reported() {
    let tests = vec![TestDefinition { name: "first".into() }, TestDefinition { name: "second".into() }];
    let selected = select_tests(tests, Some("second")).unwrap();
    assert_eq!(selected.len(), 1);
    assert_eq!(selected[0].name, "second");
    let missing = select_tests(vec![TestDefinition { name: "a".into() }], Some("b"));
    assert_eq!(missing.err(), Some("test 'b' was not found".to_string()));
    assert_eq!(select_tests(Vec::new(), None).err(), Some("no tests found".to_string()));
    assert_eq!(running_line(1), "running 1 test");
    assert_eq!(running_line(3), "running 3 tests");
    assert_eq!(test_status_line("a", true), "test a ... ok");
    assert_eq!(test_status_line("a", false), "test a ... FAILED");
    assert_eq!(result_line(2, 0), "\ntest result: ok. 2 passed; 0 failed");
    assert_eq!(result_line(1, 1), "\ntest result: FAILED. 1 passed; 1 failed");
    let mut sources = vec![("util".to_string(), "fun u() {}".to_string()), (String::new(), "fun main() {}".to_string())];
    add_test_entry(&mut sources, "fun t() result:None {}\n", "t").unwrap();
    assert_eq!(
        sources[1].1,
        "fun main() {}\nfun t() result:None {}\n\nfun __adamantium_test_entry() result:None { t(); }\n"
    );
}

fn args(items: &[&str]) -> Vec<String> {
    items.iter().map(|item| item.to_string()).collect()
}

#[test]
fn command_lines_choose_actions() {
    let here: Result<String, String> = Ok("/work".into());
    let run = |items: &[&str], exists: bool| {
        let list = args(items);
        let projects = vec![false; list.len()];
        action(&list, &here, exists, &projects)
    };
    assert!(matches!(run(&[], false), Ok(Action::Help)));
    assert!(matches!(run(&["--version"], false), Ok(Action::Version)));
    assert!(matches!(run(&["build"], false), Ok(Action::Build(root)) if root == "/work"));
    assert!(matches!(run(&["check", "demo"], false), Ok(Action::Check(root)) if root == "demo"));
    assert!(matches!(run(&["clear"], false), Ok(Action::Clean(root)) if root == "/work"));
    assert!(matches!(run(&["run", "--name", "x"], false), Ok(Action::Run(root, rest)) if root == "/work" && rest.len() == 2));
    assert!(matches!(run(&["test", "run", "only", "--verbose"], false), Ok(Action::TestRun(root, Some(name), true)) if root == "/work" && name == "only"));
    assert_eq!(run(&["biuld"], false).err(), Some("unknown command 'biuld'. Did you mean 'build'? use --help.".to_string()));
    assert!(matches!(run(&["biuld"], true), Ok(Action::Build(root)) if root == "biuld"));
    assert_eq!(run(&["--bogus"], false).err(), Some("unknown option '--bogus'; use --help".to_string()));
    assert_eq!(run(&["build", "a", "b"], false).err(), Some("too many arguments; use --help".to_string()));
    assert_eq!(closest_name("tset", &["test", "new"]), Some("test"));
    assert_eq!(closest_name("zzzzzz", &["test", "new"]), None);
}

#[test]
fn packages_download_from_github_releases() {
    let package = Package {
        name: "json".into(),
        source: "https://github.com/adamantium-lang/json".into(),
        version: "1.2.3".into(),
    };
    assert_eq!(
        package_download_url(&package),
        "https://github.com/adamantium-lang/json/releases/download/adamantium_packet_1_2_3/adamantium_packet.wasm"
    );
    assert!(is_wasm(b"\0asm\x01\0\0\0rest"));
    assert!(!is_wasm(b"\0asm\x02\0\0\0"));
    assert!(!is_wasm(b"\0asm"));
    assert_eq!(installed_line(1), "Installed 1 package");
    assert_eq!(installed_line(2), "Installed 2 packages");
}

#[test]
fn project_configuration_reports_every_error() {
    let project = table(vec![("name", TomlValue::Other), ("version", TomlValue::Other), ("authors", text("x"))]);
    let requirements = table(vec![("packages", TomlValue::Table(table(vec![("unknown", text("1"))])))]);
    let (name, errors) = project_errors(&project);
    assert_eq!(name, None);
    assert_eq!(
        errors,
        vec![
            "project.toml: name must be a string".to_string(),
            "project.toml: version must be a string".to_string(),
            "project.toml: description must be a string".to_string(),
            "project.toml: authors must be an array of strings".to_string(),
        ]
    );
    let report = project_configuration(&project, &requirements).unwrap_err();
    assert_eq!(report.matches("error[E400]").count(), 5);
    assert!(report.contains("package source"));
    let good = table(vec![
        ("name", text("Demo")),
        ("version", text("0.1.0")),
        ("description", text("")),
        ("authors", TomlValue::Array(vec![text("Ada")])),
    ]);
    let none = table(vec![("packages", TomlValue::Table(Vec::new()))]);
    assert_eq!(project_configuration(&good, &none), Ok("Demo".to_string()));
}

fn manifest_document(version: &str, permission: Option<&str>, functions: Vec<(&str, TomlValue)>) -> Vec<(String, TomlValue)> {
    let mut document = table(vec![(
        "package",
        TomlValue::Table(table(vec![("name", text("json")), ("version", text(version)), ("abi", text("wasi-command-v1"))])),
    )]);
    if let Some(permission) = permission {
        document.push(("permissions".into(), TomlValue::Table(table(vec![("filesystem", text(permission))]))));
    }
    document.push(("functions".into(), TomlValue::Table(table(functions))));
    document
}

fn function(parameters: &[&str], result: &str) -> TomlValue {
    TomlValue::Table(table(vec![
        ("parameters", TomlValue::Array(parameters.iter().map(|p| text(p)).collect())),
        ("result", text(result)),
    ]))
}

#[test]
fn package_manifests_declare_functions() {
    let document = manifest_document(
        "1.0.0",
        Some("read"),
        vec![("parse", function(&["string"], "bool")), ("count", function(&["string", "i32"], "i64"))],
    );
    let manifest = parse_manifest(&document, "m.toml", "1.0.0").unwrap();
    assert_eq!(manifest.name, "json");
    assert_eq!(manifest.filesystem, 1);
    let names: Vec<&str> = manifest.functions.iter().map(|f| f.name.as_str()).collect();
    assert_eq!(names, vec!["count", "parse"]);
    assert_eq!(manifest.functions[0].parameters, vec![Type::String, Type::I32]);
    assert_eq!(manifest.functions[0].command, "count");
    let (declarations, bindings) = package_module("tools/json", "p.wasm", &manifest);
    assert_eq!(
        declarations,
        "pub fun count(_p0:string,_p1:i32) result:i64 { result = 0:i64; }\npub fun parse(_p0:string) result:bool { result = false; }\n"
    );
    assert_eq!(bindings[0].canonical, "admod__tools__json__count");
    assert_eq!(bindings[1].function.wasm_path, "p.wasm");
    assert_eq!(bindings[1].function.filesystem, 1);
    assert_eq!(default_value(Type::String), "\"\"");
    assert_eq!(default_value(Type::NoneType), "None");
    assert!(identifier("_json2"));
    assert!(!identifier("2json"));
}

#[test]
fn package_manifests_name_their_errors() {
    let error = |document: Vec<(String, TomlValue)>, expected: &str| match parse_manifest(&document, "m.toml", expected) {
        Err(error) => error,
        Ok(_) => panic!("accepted a broken manifest"),
    };
    assert_eq!(
        error(manifest_document("2.0.0", None, vec![]), "1.0.0"),
        "m.toml: manifest version '2.0.0' does not match requirement '1.0.0'"
    );
    assert_eq!(
        error(manifest_document("1.0.0", Some("all"), vec![]), "1.0.0"),
        "m.toml: invalid filesystem permission 'all'"
    );
    assert_eq!(
        error(manifest_document("1.0.0", None, vec![("f", function(&["None"], "i32"))]), "1.0.0"),
        "m.toml: functions.f cannot use None as a parameter"
    );
    assert_eq!(
        error(manifest_document("1.0.0", None, vec![("f", function(&["f128"], "i32"))]), "1.0.0"),
        "m.toml: f128 is not supported by wasi-command-v1"
    );
    assert_eq!(
        error(manifest_document("1.0.0", None, vec![("f", function(&["i32"; 9], "i32"))]), "1.0.0"),
        "m.toml: functions.f has more than 8 parameters"
    );
    assert_eq!(error(table(vec![]), "1.0.0"), "m.toml: expected [package]");
    assert_eq!(validate_manifest(&manifest_document("1.0.0", None, vec![]), "m.toml", "1.0.0"), Ok(()));
    assert_eq!(manifest_type("m.toml", Some("text")).unwrap_err(), "m.toml: unsupported package type 'text'");
    assert_eq!(manifest_type("m.toml", None).unwrap_err(), "m.toml: package type must be a string");
}

#[test]
fn main_and_what_it_calls_are_never_unused() {
    let program = adamantium::syntax::parse(
        "fun main() { helper(); } fun helper() r:None { deeper(); } fun deeper() r:None {} fun lonely() r:None {}",
    )
    .unwrap();
    let found = warnings(&program);
    assert_eq!(found.len(), 1);
    assert!(found[0].contains("warning[W003]: unused function 'lonely' (not reachable from main)"));
}
