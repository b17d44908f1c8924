use adamantium::codegen::assembly_entry;
use adamantium::loader::{is_module_path, LoadStep, ModuleLoader};
use adamantium::project::{analyze_sources, project_files};
use adamantium::toolchain::{
    linux_link_arguments, msvc_link_arguments, object_format, output_files, response_text,
    split_words,
};

fn load(files: &[(&str, &str)]) -> Result<Vec<(String, String)>, String> {
    let mut loader = ModuleLoader::new();
    loop {
        match loader.next_step() {
            LoadStep::Read(module) => {
                let path = if module.is_empty() { "code/main.ad".to_string() } else { format!("code/{module}.ad") };
                let source = files
                    .iter()
                    .find(|(name, _)| *name == module)
                    .map(|(_, source)| source.to_string())
                    .ok_or_else(|| "No such file or directory (os error 2)".to_string());
                loader.provide(&path, source);
            }
            LoadStep::Done(modules) => return Ok(modules),
            LoadStep::Failed(message) => return Err(message),
        }
    }
}

#[test]
fn modules_load_after_their_imports() {
    let modules = load(&[
        ("", "pack util/math;\npack util/text;\nfun main() { }"),
        ("util/math", "pack util/text;\nfun add() { }"),
        ("util/text", "fun show() { }"),
    ])
    .unwrap();
    let names: Vec<&str> = modules.iter().map(|(name, _)| name.as_str()).collect();
    assert_eq!(names, vec!["util/text", "util/math", ""]);
    assert_eq!(modules[0].1, "fun show() { }");
}

#[test]
fn circular_imports_are_reported() {
    let error = load(&[("", "pack a;\nfun main() { }"), ("a", "pack b;"), ("b", "pack a;")]).unwrap_err();
    assert_eq!(error, "circular pack dependency: a -> b -> a");
}

#[test]
fn unreadable_modules_name_the_path() {
    let error = load(&[("", "pack missing;\nfun main() { }")]).unwrap_err();
    assert_eq!(
        error,
        "could not load module 'missing': code/missing.ad: No such file or directory (os error 2)"
    );
    let error = load(&[]).unwrap_err();
    assert_eq!(error, "could not load module 'main': code/main.ad: No such file or directory (os error 2)");
}

#[test]
fn module_paths_are_checked() {
    assert!(is_module_path("util/math_2"));
    assert!(is_module_path("_private"));
    assert!(!is_module_path("2fast"));
    assert!(!is_module_path("a//b"));
    assert!(!is_module_path("a/"));
    assert!(!is_module_path(""));
    assert!(!is_module_path("a-b"));
}

#[test]
fn build_outputs_depend_on_the_platform() {
    assert_eq!(
        output_files("demo", true),
        ("demo.asm".to_string(), "demo.o".to_string(), "demo".to_string())
    );
    assert_eq!(
        output_files("demo", false),
        ("demo.asm".to_string(), "demo.obj".to_string(), "demo.exe".to_string())
    );
    assert_eq!(object_format(true), "elf64");
    assert_eq!(object_format(false), "win64");
}

#[test]
fn linker_arguments() {
    assert_eq!(split_words("  -lc\n -lm\t"), vec!["-lc".to_string(), "-lm".to_string()]);
    assert!(split_words(" \n").is_empty());
    assert_eq!(
        linux_link_arguments("a.o", "rt.lib", "-lc -lm", "a"),
        vec!["-no-pie", "a.o", "rt.lib", "-lc", "-lm", "-o", "a"]
    );
    assert_eq!(
        msvc_link_arguments("a.obj", "rt.lib", "ws2_32.lib", "a.exe"),
        vec![
            "/nologo",
            "/machine:x64",
            "/subsystem:console",
            "/dynamicbase",
            "/nxcompat",
            "/out:a.exe",
            "a.obj",
            "rt.lib",
            "ws2_32.lib",
            "kernel32.lib"
        ]
    );
    let arguments = vec!["/out:C:\\x y.exe".to_string(), "say \"hi\"".to_string()];
    assert_eq!(response_text(&arguments), "\"/out:C:\\x y.exe\"\n\"say \\\"hi\\\"\"");
}

#[test]
fn new_projects_hold_four_files() {
    let files = project_files("demo");
    assert_eq!(files.len(), 4);
    assert_eq!(files[0].0, "project.toml");
    assert_eq!(files[0].1, "name = \"demo\"\nversion = \"0.1.0\"\ndescription = \"\"\nauthors = []\n");
    assert_eq!(files[1], ("requirement.toml".to_string(), "[packages]\n".to_string()));
    assert_eq!(
        files[2],
        ("code/main.ad".to_string(), "fun main() {\n    print.newline(\"Hello, Adamantium!\");\n}\n".to_string())
    );
    assert_eq!(files[3], (".gitignore".to_string(), "/target/\n/packages/\n".to_string()));
}

#[test]
fn analysis_prefixes_errors_with_the_main_file() {
    let sources = vec![(String::new(), "fun main() { print.newline(1); }".to_string())];
    let (program, warnings) = analyze_sources("code/main.ad", &sources).unwrap();
    assert!(warnings.is_empty());
    let assembly = assembly_entry(&program, "main", "", true);
    assert!(assembly.contains("ad_fun_main"));
    let broken = vec![(String::new(), "fun main() { print.newline(missing); }".to_string())];
    match analyze_sources("code/main.ad", &broken) {
        Err(error) => assert!(error.starts_with("code/main.ad:"), "{error}"),
        Ok(_) => panic!("an undeclared variable must be rejected"),
    }
}

#[test]
fn malformed_pack_declarations_name_the_file() {
    let error = load(&[("", "pack ;\nfun main() { }")]).unwrap_err();
    assert_eq!(error, "code/main.ad:1:1: expected module path after 'pack'");
    let error = load(&[("", "pack a;\nfun main() { }"), ("a", "\n  pack b")]).unwrap_err();
    assert_eq!(error, "code/a.ad:2:3: expected ';' after module path");
}

#[test]
fn assembly_ends_with_the_argument_table_of_main() {
    let sources = vec![(
        String::new(),
        "fun main(count:int, $label:string) { print.newline(count); }".to_string(),
    )];
    let (program, _) = analyze_sources("code/main.ad", &sources).unwrap();
    let table = "ad_argument_specs:\n    dq ad_argument_name_0\n    dq 5\n    dd 2\n    dd 0\n    dq ad_argument_name_1\n    dq 5\n    dd 268435481\n    dd 1\nad_argument_name_0:\n    db 99, 111, 117, 110, 116\nad_argument_name_1:\n    db 108, 97, 98, 101, 108\n";
    for linux in [false, true] {
        let assembly = assembly_entry(&program, "main", "; runtime\n", linux);
        assert!(assembly.starts_with("; runtime\n"));
        assert!(assembly.ends_with(table), "{assembly}");
    }
    let sources = vec![(String::new(), "fun main() { }".to_string())];
    let (program, _) = analyze_sources("code/main.ad", &sources).unwrap();
    assert!(assembly_entry(&program, "main", "", false).ends_with("ad_argument_specs:\n    dq 0\n"));
}

#[test]
fn generated_code_short_circuits_and_labels_public_fields() {
    let sources = vec![(
        String::new(),
        "class Point(pub x:int, y:int, pub z:int) { fun __new__() {} } fun main(a:bool, b:bool) { print.newline(a and b); print.newline(a or b); var p = Point(x=1, y=2, z=3); print.newline(p); }".to_string(),
    )];
    let (program, _) = analyze_sources("code/main.ad", &sources).unwrap();
    let assembly = assembly_entry(&program, "main", "", false);
    assert!(assembly.contains("    test rax, rax\n    jz ad_logical_skip_"), "{assembly}");
    assert!(assembly.contains("    test rax, rax\n    jnz ad_logical_skip_"), "{assembly}");
    assert!(assembly.contains(":\n    mov eax, 0\n    xor edx, edx\nad_logical_end_"), "{assembly}");
    assert!(assembly.contains(":\n    mov eax, 1\n    xor edx, edx\nad_logical_end_"), "{assembly}");
    let constants: Vec<&str> = assembly
        .lines()
        .filter(|line| line.starts_with("    db ") && *line != "    db 0")
        .map(|line| &line[7..])
        .collect();
    let labels = ["80, 111, 105, 110, 116, 40", "120, 61", "44, 32", "122, 61", "41"];
    assert!(constants.windows(labels.len()).any(|window| window == labels), "{constants:?}");
    assert!(assembly.contains("ad_fun_main:\n    push rbp\n    mov rbp, rsp\n"), "{assembly}");
    assert!(assembly.contains("    call ad_print\n"));
    let linux = assembly_entry(&program, "main", "", true);
    assert!(linux.contains("    call ad_linux_print\n"));
    assert!(!linux.contains("    call ad_print\n"));
}
