use adamantium::manifest::{packages, toml_file, TomlValue};
use adamantium::project::{
    community_package_warning, edit_distance, is_official_package_source, Package,
};

fn parse_document(text: &str) -> Vec<(String, TomlValue)> {
    toml_file("test.toml", text).unwrap()
}

#[test]
fn parses_github_wasm_packages_and_versions() {
    let table = parse_document(
        r#"[packages]
"https://github.com/AdmerPRO/Math" = "1.2.3"
"https://github.com/community/text-tools" = "0.4.0"
"#,
    );
    assert_eq!(
        packages(&table).unwrap(),
        [
            Package {
                name: "Math".into(),
                source: "https://github.com/AdmerPRO/Math".into(),
                version: "1.2.3".into(),
            },
            Package {
                name: "text-tools".into(),
                source: "https://github.com/community/text-tools".into(),
                version: "0.4.0".into(),
            },
        ]
    );
}

#[test]
fn identifies_official_package_owners() {
    assert!(is_official_package_source(
        "https://github.com/AdmerPRO/Math"
    ));
    assert!(is_official_package_source(
        "https://github.com/AdamantiumORG/Math"
    ));
    assert!(!is_official_package_source(
        "https://github.com/community/Math"
    ));
}

#[test]
fn warns_about_community_packages() {
    let community = Package {
        name: "some.package".into(),
        source: "https://github.com/community/some.package".into(),
        version: "1.0.0".into(),
    };
    assert_eq!(
        community_package_warning(&community).as_deref(),
        Some(
            "warning: package 'some.package' is a community package and is not controlled by Adamantium"
        )
    );

    let official = Package {
        name: "Math".into(),
        source: "https://github.com/AdamantiumORG/Math".into(),
        version: "1.0.0".into(),
    };
    assert_eq!(community_package_warning(&official), None);
}

#[test]
fn rejects_invalid_package_sources_and_versions() {
    for manifest in [
        "[packages]\n\"https://gitlab.com/Other/Name\"=\"1.0.0\"",
        "[packages]\n\"https://github.com/Owner/Name/extra\"=\"1.0.0\"",
        "[packages]\n\"https://github.com/AdmerPRO/../Name\"=\"1.0.0\"",
        "[packages]\n\"https://github.com/AdmerPRO/Name\"=\"latest\"",
    ] {
        assert!(packages(&parse_document(manifest)).is_err(), "{manifest}");
    }
}

#[test]
fn owners_are_compared_ignoring_ascii_case() {
    assert!(is_official_package_source("https://github.com/admerpro/Math"));
    assert!(is_official_package_source("https://github.com/ADAMANTIUMorg/x"));
    assert!(!is_official_package_source("https://github.com/AdmerPRO"));
    assert!(!is_official_package_source("http://github.com/AdmerPRO/Math"));
}

#[test]
fn packages_are_sorted_by_name() {
    let table = parse_document(
        "[packages]\n\"https://github.com/a/zeta\"=\"1.0.0\"\n\"https://github.com/b/alpha\"=\"2.0.0\"",
    );
    let sorted = packages(&table).unwrap();
    let names: Vec<&str> = sorted.iter().map(|p| p.name.as_str()).collect();
    assert_eq!(names, ["alpha", "zeta"]);
}

#[test]
fn packages_need_only_a_packages_table() {
    assert_eq!(
        packages(&parse_document("[other]\n")).unwrap_err(),
        "requirement.toml: expected a [packages] table"
    );
    assert_eq!(
        packages(&parse_document("[packages]\n[other]\n")).unwrap_err(),
        "requirement.toml: only the [packages] table is supported"
    );
    assert_eq!(
        packages(&parse_document("[packages]\n\"https://github.com/a/b\"=1\n")).unwrap_err(),
        "requirement.toml: package 'https://github.com/a/b' version must be a string"
    );
    for version in ["1.2", "1.2.3.4", ".1.2", "1..2", "1.2.", "1.a.3", ""] {
        let text = format!("[packages]\n\"https://github.com/a/b\"=\"{version}\"\n");
        assert!(packages(&parse_document(&text)).is_err(), "{version}");
    }
}

#[test]
fn edit_distance_counts_single_character_edits() {
    assert_eq!(edit_distance("build", "build"), 0);
    assert_eq!(edit_distance("biuld", "build"), 2);
    assert_eq!(edit_distance("", "run"), 3);
    assert_eq!(edit_distance("kitten", "sitting"), 3);
    assert_eq!(edit_distance("Żółw", "Zolw"), 3);
}

#[test]
fn toml_files_parse_or_report_their_path() {
    let table = toml_file("project.toml", "name = \"demo\"\n").unwrap();
    assert_eq!(table.len(), 1);
    assert_eq!(table[0].0, "name");
    assert!(matches!(&table[0].1, TomlValue::String(text) if text == "demo"));
    match toml_file("project.toml", "name = ") {
        Err(error) => assert!(error.starts_with("project.toml: ")),
        Ok(_) => panic!("an incomplete document parsed"),
    }
}

#[test]
fn edit_distance_is_symmetric_and_zero_only_for_equal_text() {
    assert_eq!(edit_distance("kitten", "sitting"), 3);
    assert_eq!(edit_distance("sitting", "kitten"), 3);
    assert_eq!(edit_distance("test", "tset"), edit_distance("tset", "test"));
    assert_eq!(edit_distance("run", "run"), 0);
    assert!(edit_distance("run", "rum") > 0);
}
