use rustskill::extract::{
    manifest_dependencies, recognize, scan_manifest, scan_source, source_imports, Manifest,
};
use rustskill::fingerprint::{accept_token, normalize, Fingerprint};
use rustskill::signals::{file_extension, is_source_extension, observe_file, scan_line};
use rustskill::text::{chars_of, string_of};
use rustskill::walker::is_noise_dir;

fn strings(tokens: Vec<Vec<char>>) -> Vec<String> {
    tokens.iter().map(|t| string_of(t)).collect()
}

fn sorted(mut v: Vec<String>) -> Vec<String> {
    v.sort();
    v
}

fn token_of(line: &str) -> Option<String> {
    scan_line(&chars_of(line)).map(|t| string_of(&t))
}

fn extension(name: &str) -> Option<String> {
    file_extension(&chars_of(name)).map(|t| string_of(&t))
}

#[test]
fn import_lines_contribute_their_module() {
    assert_eq!(strings(source_imports("import os\n")), vec!["os"]);
    assert_eq!(strings(source_imports("use tokio::time;\n")), vec!["tokio"]);
    assert_eq!(strings(source_imports("import \"fmt\"\n")), vec!["fmt"]);
}

#[test]
fn import_keyword_takes_the_first_path_segment() {
    assert_eq!(token_of("import numpy.linalg as la"), Some("numpy".to_string()));
    assert_eq!(token_of("from flask.views import View"), Some("flask".to_string()));
    assert_eq!(token_of("import React from 'react';"), Some("React".to_string()));
    assert_eq!(token_of("import 'side-effect';"), Some("side-effect".to_string()));
    assert_eq!(token_of("   import os   "), Some("os".to_string()));
}

#[test]
fn use_keyword_takes_the_first_namespace_segment() {
    assert_eq!(token_of("use serde::{Deserialize, Serialize};"), Some("serde".to_string()));
    assert_eq!(token_of("use anyhow;"), Some("anyhow".to_string()));
    assert_eq!(token_of("use a:b::c;"), Some("a:b".to_string()));
    assert_eq!(token_of("use   std::fs;"), Some("std".to_string()));
}

#[test]
fn quoted_import_takes_the_last_path_segment() {
    assert_eq!(token_of("import \"net/http\""), Some("http".to_string()));
    assert_eq!(token_of("import \"github.com/gin-gonic/gin\";"), Some("gin".to_string()));
    assert_eq!(token_of("import \"fmt\""), Some("fmt".to_string()));
}

#[test]
fn other_lines_contribute_nothing() {
    assert_eq!(token_of("fn main() {}"), None);
    assert_eq!(token_of("importos"), None);
    assert_eq!(token_of("import"), None);
    assert_eq!(token_of("use"), None);
    assert_eq!(token_of("// import os"), None);
    assert_eq!(token_of(""), None);
    assert_eq!(token_of("import\tos"), None);
}

#[test]
fn only_the_first_hundred_lines_are_searched() {
    let mut text = String::new();
    for i in 0..99 {
        text.push_str(&format!("let x{} = 1;\n", i));
    }
    text.push_str("import hundredth\n");
    text.push_str("import beyond\n");
    assert_eq!(strings(source_imports(&text)), vec!["hundredth"]);
}

#[test]
fn carriage_returns_end_lines_too() {
    assert_eq!(strings(source_imports("import os\r\nuse serde::de;\r\n")), vec!["os", "serde"]);
    assert_eq!(strings(source_imports("import os")), vec!["os"]);
    assert!(source_imports("").is_empty());
}

#[test]
fn scan_source_records_lowercase_signals() {
    let mut fp = Fingerprint::new();
    scan_source(&mut fp, "import React from 'react'\nimport Vue from 'vue'\nimport React\n");
    assert_eq!(sorted(fp.dependency_tokens()), vec!["react", "vue"]);
    assert_eq!(fp.dependency_count(), 2);
    assert_eq!(fp.extension_count(), 0);
}

#[test]
fn extension_is_what_follows_the_last_dot() {
    assert_eq!(extension("main.rs"), Some("rs".to_string()));
    assert_eq!(extension("archive.tar.gz"), Some("gz".to_string()));
    assert_eq!(extension("Makefile"), None);
    assert_eq!(extension(".gitignore"), None);
    assert_eq!(extension(".config.yml"), Some("yml".to_string()));
    assert_eq!(extension("trailing."), Some(String::new()));
    assert_eq!(extension(""), None);
}

#[test]
fn observe_file_records_the_normalized_extension() {
    let mut fp = Fingerprint::new();
    assert!(observe_file(&mut fp, "Main.RS"));
    assert!(observe_file(&mut fp, "lib.rs"));
    assert!(!observe_file(&mut fp, "README.md"));
    assert!(!observe_file(&mut fp, "Makefile"));
    assert!(!observe_file(&mut fp, "trailing."));
    assert!(observe_file(&mut fp, "app.tsx"));
    assert_eq!(sorted(fp.extension_tokens()), vec!["md", "rs", "tsx"]);
    assert_eq!(fp.extension_count(), 3);
    assert!(fp.dependency_tokens().is_empty());
}

#[test]
fn source_extensions_are_a_fixed_list() {
    for ext in ["rs", "py", "go", "js", "ts", "tsx"] {
        assert!(is_source_extension(&chars_of(ext)));
    }
    for ext in ["md", "jsx", "toml", "RS", ""] {
        assert!(!is_source_extension(&chars_of(ext)));
    }
}

#[test]
fn tokens_are_trimmed_and_lowercased() {
    assert_eq!(normalize(&chars_of("  Serde \t")).map(|t| string_of(&t)), Some("serde".to_string()));
    assert_eq!(normalize(&chars_of("ÉCOLE")).map(|t| string_of(&t)), Some("école".to_string()));
    assert_eq!(normalize(&chars_of("   ")), None);
    assert_eq!(normalize(&chars_of("")), None);
    assert_eq!(normalize(&chars_of("\u{2003}x\u{00a0}")).map(|t| string_of(&t)), Some("x".to_string()));
}

#[test]
fn accept_token_refuses_empty_and_untrimmed_tokens() {
    assert_eq!(accept_token(chars_of("ok")), Some(chars_of("ok")));
    assert_eq!(accept_token(chars_of("")), None);
    assert_eq!(accept_token(chars_of(" ok")), None);
    assert_eq!(accept_token(chars_of("ok\n")), None);
    assert_eq!(accept_token(chars_of("a b")), Some(chars_of("a b")));
}

#[test]
fn fingerprint_holds_each_signal_once() {
    let mut fp = Fingerprint::new();
    fp.add_extension("rs");
    fp.add_extension("RS");
    fp.add_extension(" rs ");
    fp.add_extension("");
    fp.add_dependency("Serde");
    fp.add_dependency("serde");
    assert_eq!(fp.extension_tokens(), vec!["rs"]);
    assert_eq!(fp.dependency_tokens(), vec!["serde"]);
    assert!(fp.has_extension(&chars_of("rs")));
    assert!(!fp.has_extension(&chars_of("serde")));
    assert!(fp.has_dependency(&chars_of("serde")));
    assert!(fp.has_signal(&chars_of("rs")) && fp.has_signal(&chars_of("serde")));
    assert!(!fp.has_signal(&chars_of("RS")));
}

#[test]
fn cargo_manifest_declares_both_dependency_tables() {
    let text = "[package]\nname = \"x\"\n\n[dependencies]\ntokio = { version = \"1\" }\nserde = \"1\"\n\n[dev-dependencies]\nproptest = \"1\"\n\n[build-dependencies]\ncc = \"1\"\n";
    assert_eq!(
        strings(manifest_dependencies(Manifest::Cargo, text)),
        vec!["serde", "tokio", "proptest"]
    );
}

#[test]
fn cargo_manifest_without_tables_declares_nothing() {
    assert!(manifest_dependencies(Manifest::Cargo, "[package]\nname = \"x\"\n").is_empty());
    assert!(manifest_dependencies(Manifest::Cargo, "dependencies = 3\n").is_empty());
    assert!(manifest_dependencies(Manifest::Cargo, "").is_empty());
}

#[test]
fn malformed_cargo_manifest_is_skipped() {
    assert!(manifest_dependencies(Manifest::Cargo, "[dependencies\nserde = \"1\"").is_empty());
    let mut fp = Fingerprint::new();
    fp.add_dependency("kept");
    scan_manifest(&mut fp, Manifest::Cargo, "[dependencies\nserde = ");
    assert_eq!(fp.dependency_tokens(), vec!["kept"]);
}

#[test]
fn package_json_declares_both_dependency_objects() {
    let text = "{\"name\": \"x\", \"dependencies\": {\"react\": \"18\", \"Axios\": \"1\"}, \"devDependencies\": {\"jest\": \"29\"}, \"peerDependencies\": {\"vue\": \"3\"}}";
    assert_eq!(
        strings(manifest_dependencies(Manifest::Package, text)),
        vec!["Axios", "react", "jest"]
    );
    let mut fp = Fingerprint::new();
    scan_manifest(&mut fp, Manifest::Package, text);
    assert_eq!(sorted(fp.dependency_tokens()), vec!["axios", "jest", "react"]);
}

#[test]
fn truncated_package_json_is_skipped() {
    let text = "{\"dependencies\": {\"react\"";
    assert!(manifest_dependencies(Manifest::Package, text).is_empty());
    let mut fp = Fingerprint::new();
    fp.add_dependency("kept");
    scan_manifest(&mut fp, Manifest::Package, text);
    assert_eq!(fp.dependency_tokens(), vec!["kept"]);
}

#[test]
fn package_json_of_another_shape_declares_nothing() {
    assert!(manifest_dependencies(Manifest::Package, "[1, 2, 3]").is_empty());
    assert!(manifest_dependencies(Manifest::Package, "{\"dependencies\": [\"react\"]}").is_empty());
    assert!(manifest_dependencies(Manifest::Package, "{}").is_empty());
}

#[test]
fn requirements_give_the_leading_name_of_each_line() {
    let text = "flask==2.0\n# a comment\n\nDjango>=3.2\nrequests\nscikit-learn~=1.0\nmy_pkg[extra]\n   # indented comment\n";
    assert_eq!(
        strings(manifest_dependencies(Manifest::Requirements, text)),
        vec!["flask", "Django", "requests", "scikit-learn", "my_pkg"]
    );
}

#[test]
fn indented_requirement_yields_no_signal() {
    assert_eq!(strings(manifest_dependencies(Manifest::Requirements, "  numpy\n")), vec![""]);
    let mut fp = Fingerprint::new();
    scan_manifest(&mut fp, Manifest::Requirements, "  numpy\nPandas==2\n");
    assert_eq!(fp.dependency_tokens(), vec!["pandas"]);
}

#[test]
fn go_mod_gives_module_paths_and_their_last_segment() {
    let text = "module example.com/app\n\ngo 1.21\n\n// a comment\nrequire github.com/gin-gonic/gin v1.9.0\n\nrequire (\n\tgithub.com/Stretchr/Testify v1.8.0\n)\n\nreplace a/b => ../b\n";
    assert_eq!(
        strings(manifest_dependencies(Manifest::GoModule, text)),
        vec![
            "github.com/gin-gonic/gin",
            "gin",
            "(",
            "(",
            "github.com/Stretchr/Testify",
            "Testify"
        ]
    );
    let mut fp = Fingerprint::new();
    scan_manifest(&mut fp, Manifest::GoModule, text);
    assert_eq!(
        sorted(fp.dependency_tokens()),
        vec!["(", "gin", "github.com/gin-gonic/gin", "github.com/stretchr/testify", "testify"]
    );
}

#[test]
fn manifests_are_recognized_by_their_exact_name() {
    assert_eq!(recognize("Cargo.toml"), Some(Manifest::Cargo));
    assert_eq!(recognize("package.json"), Some(Manifest::Package));
    assert_eq!(recognize("requirements.txt"), Some(Manifest::Requirements));
    assert_eq!(recognize("go.mod"), Some(Manifest::GoModule));
    assert_eq!(recognize("cargo.toml"), None);
    assert_eq!(recognize("Cargo.lock"), None);
}

#[test]
fn noise_directories_are_left_out() {
    for name in ["target", "node_modules", ".git", "venv", "dist", "build"] {
        assert!(is_noise_dir(name));
    }
    for name in ["src", "Target", "builds", ".github", "", "."] {
        assert!(!is_noise_dir(name));
    }
}
