use rustskill::catalog::{find_by_id, find_by_locator, SkillEntry};
use rustskill::extract::Manifest;
use rustskill::fingerprint::Fingerprint;
use rustskill::installed::{file_stem, materialized_name, InstalledMarker};
use rustskill::matcher::{
    audit, ecosystem_reasons, reasons_for, status_for, trigger_reasons, Ecosystem, Reason, Status,
};
use rustskill::text::{chars_of, string_of};
use rustskill::tree::{fingerprint_of, wants_text, FileSeen, ManifestSeen};
use rustskill::walker::keeps;

fn entry(id: &str, triggers: Option<Vec<&str>>) -> SkillEntry {
    SkillEntry {
        id: id.to_string(),
        category: "general".to_string(),
        url: format!("https://example.com/{}.json", id),
        premium: false,
        triggers: triggers.map(|t| t.iter().map(|s| s.to_string()).collect()),
    }
}

fn file(name: &str, text: Option<&str>) -> FileSeen {
    FileSeen { dirs: Vec::new(), name: name.to_string(), text: text.map(|t| t.to_string()) }
}

fn file_below(dirs: &[&str], name: &str, text: Option<&str>) -> FileSeen {
    FileSeen {
        dirs: dirs.iter().map(|d| d.to_string()).collect(),
        name: name.to_string(),
        text: text.map(|t| t.to_string()),
    }
}

fn fingerprint(extensions: &[&str], dependencies: &[&str]) -> Fingerprint {
    let mut fp = Fingerprint::new();
    for e in extensions {
        fp.add_extension(e);
    }
    for d in dependencies {
        fp.add_dependency(d);
    }
    fp
}

fn installed(names: &[&str]) -> InstalledMarker {
    InstalledMarker::from_file_names(&names.iter().map(|n| n.to_string()).collect())
}

fn words(reasons: &[Reason]) -> Vec<String> {
    reasons.iter().map(|r| r.describe()).collect()
}

fn sorted(mut v: Vec<String>) -> Vec<String> {
    v.sort();
    v
}

#[test]
fn rust_project_with_serde_activates_the_serde_rule() {
    let files = vec![
        file("main.rs", Some("fn main() {}\n")),
        file("Cargo.toml", None),
    ];
    let manifests = vec![ManifestSeen {
        kind: Manifest::Cargo,
        text: "[dependencies]\nserde = \"1\"\n".to_string(),
    }];
    let fp = fingerprint_of(&files, &manifests);
    assert_eq!(sorted(fp.extension_tokens()), vec!["rs", "toml"]);
    assert_eq!(fp.dependency_tokens(), vec!["serde"]);
    let catalog = vec![entry("rust/serde", Some(vec!["serde"]))];
    let report = audit(&catalog, &fp, &installed(&[]));
    assert_eq!(report.rows.len(), 1);
    assert_eq!(report.rows[0].entry, 0);
    assert_eq!(report.rows[0].status, Status::Missing);
    assert_eq!(report.rows[0].justification(), "Gatilho 'serde' detectado");
    assert!(report.rows[0].justification().contains("serde"));
    assert_eq!(report.missing, 1);
}

#[test]
fn installed_status_ignores_the_extension_of_the_file() {
    let rule = entry("rust/clean-code", None);
    assert_eq!(status_for(&rule, &installed(&["rust-clean-code.mdc"])), Status::Installed);
    assert_eq!(status_for(&rule, &installed(&["rust-clean-code.md"])), Status::Installed);
    assert_eq!(status_for(&rule, &installed(&["other.mdc", "rust-clean-code.txt"])), Status::Installed);
    assert_eq!(status_for(&rule, &installed(&["rust-clean-code"])), Status::Installed);
    assert_eq!(status_for(&rule, &installed(&[])), Status::Missing);
    assert_eq!(status_for(&rule, &installed(&["rust-clean.mdc"])), Status::Missing);
    assert_eq!(status_for(&rule, &installed(&["rust/clean-code.mdc"])), Status::Missing);
    assert_eq!(status_for(&rule, &installed(&["rust-clean-code.mdc.bak"])), Status::Missing);
    assert_eq!(status_for(&rule, &installed(&["Rust-Clean-Code.mdc"])), Status::Missing);
}

#[test]
fn stem_strips_only_the_last_extension() {
    assert_eq!(string_of(&file_stem(&chars_of("rust-clean-code.mdc"))), "rust-clean-code");
    assert_eq!(string_of(&file_stem(&chars_of("a.b.c"))), "a.b");
    assert_eq!(string_of(&file_stem(&chars_of("plain"))), "plain");
    assert_eq!(string_of(&file_stem(&chars_of(".hidden"))), ".hidden");
    assert_eq!(string_of(&file_stem(&chars_of("dot."))), "dot");
    assert_eq!(string_of(&file_stem(&chars_of(""))), "");
}

#[test]
fn materialized_name_replaces_every_slash() {
    assert_eq!(string_of(&materialized_name("rust/clean-code")), "rust-clean-code");
    assert_eq!(string_of(&materialized_name("a/b/c")), "a-b-c");
    assert_eq!(string_of(&materialized_name("plain")), "plain");
    assert!(installed(&["a-b-c.mdc"]).contains("a/b/c"));
    assert!(installed(&["a-b-c.mdc"]).contains("a-b/c"));
    assert!(!installed(&["a-b-c.mdc"]).contains("a/b"));
}

#[test]
fn triggers_match_either_set_without_regard_to_case() {
    let fp = fingerprint(&["tsx"], &["react"]);
    let triggers: Vec<String> = vec!["React".into(), "vue".into(), "TSX".into(), "react".into()];
    let reasons = trigger_reasons(&triggers, &fp);
    assert_eq!(
        words(&reasons),
        vec!["Gatilho 'React' detectado", "Gatilho 'TSX' detectado", "Gatilho 'react' detectado"]
    );
}

#[test]
fn ecosystem_fallback_needs_the_word_and_the_extension() {
    let fp = fingerprint(&["rs", "go"], &[]);
    assert_eq!(words(&ecosystem_reasons("Rust/clean-code", &fp)), vec!["Ecossistema Rust detectado"]);
    assert_eq!(words(&ecosystem_reasons("golang/errors", &fp)), vec!["Ecossistema Go detectado"]);
    assert!(ecosystem_reasons("python/typing", &fp).is_empty());
    assert!(ecosystem_reasons("node/express", &fp).is_empty());
    assert_eq!(
        words(&ecosystem_reasons("interop/rust-python-go", &fp)),
        vec!["Ecossistema Rust detectado", "Ecossistema Go detectado"]
    );
    let py = fingerprint(&["py"], &[]);
    assert_eq!(words(&ecosystem_reasons("python/typing", &py)), vec!["Ecossistema Python detectado"]);
    assert!(matches!(ecosystem_reasons("python/typing", &py)[0], Reason::Ecosystem(Ecosystem::Python)));
}

#[test]
fn fallback_applies_only_where_no_trigger_fired() {
    let fp = fingerprint(&["rs"], &["serde"]);
    let by_trigger = entry("rust/serde", Some(vec!["serde", "absent"]));
    assert_eq!(words(&reasons_for(&by_trigger, &fp)), vec!["Gatilho 'serde' detectado"]);
    let by_fallback = entry("rust/async", Some(vec!["tokio"]));
    assert_eq!(words(&reasons_for(&by_fallback, &fp)), vec!["Ecossistema Rust detectado"]);
    let without_triggers = entry("rust/clean-code", None);
    assert_eq!(words(&reasons_for(&without_triggers, &fp)), vec!["Ecossistema Rust detectado"]);
    let unrelated = entry("node/express", Some(vec!["express"]));
    assert!(reasons_for(&unrelated, &fp).is_empty());
}

#[test]
fn report_follows_catalog_order_and_leaves_out_inactive_rules() {
    let fp = fingerprint(&["rs", "py"], &["serde", "flask"]);
    let catalog = vec![
        entry("python/flask", Some(vec!["flask"])),
        entry("node/react", Some(vec!["react"])),
        entry("rust/serde", Some(vec!["serde", "SERDE"])),
        entry("go/errors", None),
        entry("rust/clean-code", None),
    ];
    let report = audit(&catalog, &fp, &installed(&["rust-serde.mdc", "node-react.mdc"]));
    let entries: Vec<usize> = report.rows.iter().map(|r| r.entry).collect();
    assert_eq!(entries, vec![0, 2, 4]);
    let statuses: Vec<Status> = report.rows.iter().map(|r| r.status).collect();
    assert_eq!(statuses, vec![Status::Missing, Status::Installed, Status::Missing]);
    assert_eq!(report.missing, 2);
    assert_eq!(
        report.rows[1].justification(),
        "Gatilho 'serde' detectado, Gatilho 'SERDE' detectado"
    );
    assert_eq!(report.rows[2].justification(), "Ecossistema Rust detectado");
}

#[test]
fn empty_catalog_gives_an_empty_report() {
    let report = audit(&Vec::new(), &fingerprint(&["rs"], &[]), &installed(&[]));
    assert!(report.rows.is_empty());
    assert_eq!(report.missing, 0);
}

#[test]
fn plain_tree_has_no_dependencies_and_exactly_its_extensions() {
    let files = vec![
        file("README.MD", None),
        file("notes.txt", Some("import os\n")),
        file("logo.PNG", None),
        file("LICENSE", None),
        file("second.md", None),
    ];
    let fp = fingerprint_of(&files, &Vec::new());
    assert!(fp.dependency_tokens().is_empty());
    assert_eq!(sorted(fp.extension_tokens()), vec!["md", "png", "txt"]);
}

#[test]
fn files_below_noise_directories_are_passed_over() {
    let files = vec![
        file_below(&["src"], "main.rs", Some("use serde::Serialize;\n")),
        file_below(&["node_modules", "react"], "index.js", Some("import fs\n")),
        file_below(&["target", "debug"], "build.d", None),
        file_below(&["docs", ".git"], "HEAD.ref", None),
        file_below(&["src", "builder"], "notes.txt", None),
    ];
    let fp = fingerprint_of(&files, &Vec::new());
    assert_eq!(sorted(fp.extension_tokens()), vec!["rs", "txt"]);
    assert_eq!(fp.dependency_tokens(), vec!["serde"]);
    assert!(keeps(&vec!["src".to_string(), "lib".to_string()]));
    assert!(keeps(&Vec::new()));
    assert!(!keeps(&vec!["src".to_string(), "venv".to_string(), "lib".to_string()]));
    assert!(!keeps(&vec!["dist".to_string()]));
}

#[test]
fn source_text_is_searched_only_for_source_files() {
    assert!(wants_text("main.py"));
    assert!(wants_text("INDEX.JS"));
    assert!(!wants_text("notes.txt"));
    assert!(!wants_text("py"));
    let files = vec![
        file("app.py", Some("import flask\n")),
        file("unread.py", None),
        file("notes.txt", Some("import ignored\n")),
    ];
    let fp = fingerprint_of(&files, &Vec::new());
    assert_eq!(fp.dependency_tokens(), vec!["flask"]);
}

#[test]
fn audit_does_not_depend_on_the_order_of_the_walk() {
    let a = file("main.rs", Some("use serde::Serialize;\nuse tokio::time;\n"));
    let b = file("app.py", Some("import flask\n"));
    let c = file("README.md", None);
    let manifest = "[dependencies]\nanyhow = \"1\"\n";
    let m = || vec![ManifestSeen { kind: Manifest::Cargo, text: manifest.to_string() }];
    let first = fingerprint_of(&vec![file("main.rs", a.text.as_deref()), file("app.py", b.text.as_deref()), file("README.md", None)], &m());
    let second = fingerprint_of(&vec![c, b, a, file("README.md", None)], &m());
    assert_eq!(sorted(first.extension_tokens()), sorted(second.extension_tokens()));
    assert_eq!(sorted(first.dependency_tokens()), sorted(second.dependency_tokens()));
    let catalog = vec![
        entry("rust/serde", Some(vec!["serde"])),
        entry("python/flask", Some(vec!["flask"])),
        entry("go/errors", None),
    ];
    let one = audit(&catalog, &first, &installed(&["python-flask.mdc", "x.mdc"]));
    let two = audit(&catalog, &second, &installed(&["x.mdc", "python-flask.mdc"]));
    let again = audit(&catalog, &first, &installed(&["python-flask.mdc", "x.mdc"]));
    for other in [&two, &again] {
        assert_eq!(one.missing, other.missing);
        assert_eq!(one.rows.len(), other.rows.len());
        for (x, y) in one.rows.iter().zip(other.rows.iter()) {
            assert_eq!(x.entry, y.entry);
            assert_eq!(x.status, y.status);
            assert_eq!(x.justification(), y.justification());
        }
    }
}

#[test]
fn adding_a_file_only_adds_recommendations() {
    let catalog = vec![
        entry("rust/serde", Some(vec!["serde"])),
        entry("python/typing", Some(vec!["py"])),
        entry("go/errors", None),
    ];
    let mut files = vec![file("main.rs", Some("use serde::Serialize;\n"))];
    let before = audit(&catalog, &fingerprint_of(&files, &Vec::new()), &installed(&[]));
    files.push(file("tool.py", None));
    let after = audit(&catalog, &fingerprint_of(&files, &Vec::new()), &installed(&[]));
    let entries_before: Vec<usize> = before.rows.iter().map(|r| r.entry).collect();
    let entries_after: Vec<usize> = after.rows.iter().map(|r| r.entry).collect();
    assert_eq!(entries_before, vec![0]);
    assert_eq!(entries_after, vec![0, 1]);
    assert_eq!(after.rows[0].status, before.rows[0].status);
}

#[test]
fn catalog_lookup_finds_the_first_match() {
    let mut catalog = vec![
        entry("rust/serde", None),
        entry("python/flask", None),
        entry("rust/serde", None),
    ];
    catalog[1].url = "https://cdn.example.com/flask".to_string();
    assert_eq!(find_by_id(&catalog, "rust/serde"), Some(0));
    assert_eq!(find_by_id(&catalog, "python/flask"), Some(1));
    assert_eq!(find_by_id(&catalog, "Rust/serde"), None);
    assert_eq!(find_by_id(&catalog, "https://cdn.example.com/flask"), None);
    assert_eq!(find_by_locator(&catalog, "https://cdn.example.com/flask"), Some(1));
    assert_eq!(find_by_locator(&catalog, "python/flask"), Some(1));
    assert_eq!(find_by_locator(&catalog, "missing"), None);
    assert_eq!(find_by_id(&Vec::new(), "x"), None);
}
