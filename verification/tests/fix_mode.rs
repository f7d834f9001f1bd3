use rustskill::catalog::SkillEntry;
use rustskill::download::{
    admission, bearer_header, check_registry_status, check_status, decimal_of, is_success,
    plan_request, registry_url, validation_url, Admission, FetchError,
};
use rustskill::fingerprint::Fingerprint;
use rustskill::installed::InstalledMarker;
use rustskill::installer::{
    lacks_manifest, managed_content, plan_install, rules_directory, safe_file_name, InstallError,
};
use rustskill::matcher::audit;
use rustskill::reconcile::{install_plan, should_fix, Outcome, Reconciler, Step};

fn entry(id: &str, premium: bool, triggers: Vec<&str>) -> SkillEntry {
    SkillEntry {
        id: id.to_string(),
        category: "general".to_string(),
        url: format!("https://example.com/{}.json", id),
        premium,
        triggers: Some(triggers.iter().map(|s| s.to_string()).collect()),
    }
}

fn rust_project() -> Fingerprint {
    let mut fp = Fingerprint::new();
    fp.add_extension("rs");
    fp.add_dependency("serde");
    fp.add_dependency("tokio");
    fp
}

fn installed(names: &[&str]) -> InstalledMarker {
    InstalledMarker::from_file_names(&names.iter().map(|n| n.to_string()).collect())
}

#[test]
fn failed_download_does_not_stop_the_run() {
    let catalog = vec![entry("rust/serde", false, vec!["serde"]), entry("rust/tokio", false, vec!["tokio"])];
    let mut run = Reconciler::start(&catalog, &rust_project(), &installed(&[]), false);
    assert!(!run.is_finished());
    assert_eq!(run.next_step(), Step::Fetch(0));
    run.record(Outcome::DownloadFailed);
    assert_eq!(run.next_step(), Step::Fetch(1));
    run.record(Outcome::Installed);
    assert_eq!(run.next_step(), Step::Finished);
    assert!(run.is_finished());
    assert_eq!(run.outcomes(), &vec![(0, Outcome::DownloadFailed), (1, Outcome::Installed)]);
}

#[test]
fn failed_install_does_not_stop_the_run() {
    let catalog = vec![entry("rust/serde", false, vec!["serde"]), entry("rust/tokio", false, vec!["tokio"])];
    let mut run = Reconciler::start(&catalog, &rust_project(), &installed(&[]), true);
    assert_eq!(run.next_step(), Step::Fetch(0));
    assert_eq!(run.next_step(), Step::Fetch(0));
    run.record(Outcome::InstallFailed);
    assert_eq!(run.next_step(), Step::Fetch(1));
    run.record(Outcome::InstallFailed);
    assert_eq!(run.next_step(), Step::Finished);
    run.record(Outcome::Installed);
    assert_eq!(run.outcomes(), &vec![(0, Outcome::InstallFailed), (1, Outcome::InstallFailed)]);
}

#[test]
fn only_missing_recommended_rules_are_planned() {
    let catalog = vec![
        entry("rust/serde", false, vec!["serde"]),
        entry("node/react", false, vec!["react"]),
        entry("rust/tokio", false, vec!["tokio"]),
        entry("rust/clean-code", false, vec![]),
    ];
    let marker = installed(&["rust-tokio.mdc"]);
    let report = audit(&catalog, &rust_project(), &marker);
    assert_eq!(install_plan(&report), vec![0, 3]);
    assert!(should_fix(&report, true));
    assert!(!should_fix(&report, false));
    let mut run = Reconciler::start(&catalog, &rust_project(), &marker, false);
    assert_eq!(run.next_step(), Step::Fetch(0));
    run.record(Outcome::Installed);
    assert_eq!(run.next_step(), Step::Fetch(3));
    run.record(Outcome::Installed);
    assert_eq!(run.next_step(), Step::Finished);
}

#[test]
fn nothing_missing_means_nothing_to_fix() {
    let catalog = vec![entry("rust/serde", false, vec!["serde"])];
    let marker = installed(&["rust-serde.mdc"]);
    let report = audit(&catalog, &rust_project(), &marker);
    assert_eq!(report.missing, 0);
    assert!(!should_fix(&report, true));
    assert!(install_plan(&report).is_empty());
    let mut run = Reconciler::start(&catalog, &rust_project(), &marker, true);
    assert!(run.is_finished());
    assert_eq!(run.next_step(), Step::Finished);
    assert!(run.outcomes().is_empty());
}

#[test]
fn premium_rule_without_credential_is_refused_and_others_proceed() {
    let catalog = vec![entry("rust/serde", true, vec!["serde"]), entry("rust/tokio", false, vec!["tokio"])];
    let mut run = Reconciler::start(&catalog, &rust_project(), &installed(&[]), false);
    assert_eq!(run.next_step(), Step::Refused(0));
    assert_eq!(run.next_step(), Step::Fetch(1));
    run.record(Outcome::Installed);
    assert_eq!(run.next_step(), Step::Finished);
    assert_eq!(run.outcomes(), &vec![(0, Outcome::CredentialRequired), (1, Outcome::Installed)]);
    let mut with = Reconciler::start(&catalog, &rust_project(), &installed(&[]), true);
    assert_eq!(with.next_step(), Step::Fetch(0));
}

#[test]
fn decimal_writing_is_exact() {
    assert_eq!(decimal_of(0), "0");
    assert_eq!(decimal_of(7), "7");
    assert_eq!(decimal_of(10), "10");
    assert_eq!(decimal_of(1234567890), "1234567890");
    assert_eq!(decimal_of(1700000000), "1700000000");
    assert_eq!(decimal_of(u64::MAX), "18446744073709551615");
}

#[test]
fn public_rule_is_asked_of_its_own_address() {
    let rule = entry("rust/serde", false, vec![]);
    let request = plan_request(&rule, None, 42).unwrap();
    assert_eq!(request.url, "https://example.com/rust/serde.json?t=42");
    assert_eq!(request.authorization, None);
    let mut with_query = entry("rust/serde", false, vec![]);
    with_query.url = "https://example.com/get?id=1".to_string();
    let request = plan_request(&with_query, Some("ignored"), 1700000000).unwrap();
    assert_eq!(request.url, "https://example.com/get?id=1&t=1700000000");
    assert_eq!(request.authorization, None);
}

#[test]
fn premium_rule_is_asked_of_the_service_with_the_credential() {
    let rule = entry("rust/serde", true, vec![]);
    let request = plan_request(&rule, Some("s3cr3t"), 99).unwrap();
    assert_eq!(request.url, "https://api.rustskill.com/v1/skills/content/rust/serde?t=99");
    assert_eq!(request.authorization, Some("Bearer s3cr3t".to_string()));
}

#[test]
fn premium_rule_needs_a_credential() {
    let rule = entry("rust/serde", true, vec![]);
    assert_eq!(plan_request(&rule, None, 1).err(), Some(FetchError::CredentialRequired));
    assert_eq!(plan_request(&rule, Some(""), 1).err(), Some(FetchError::CredentialRequired));
}

#[test]
fn status_codes_are_read_as_success_denial_or_failure() {
    assert_eq!(check_status(200), Ok(()));
    assert_eq!(check_status(204), Ok(()));
    assert_eq!(check_status(299), Ok(()));
    assert_eq!(check_status(401), Err(FetchError::Denied));
    assert_eq!(check_status(403), Err(FetchError::Denied));
    assert_eq!(check_status(404), Err(FetchError::Failed(404)));
    assert_eq!(check_status(500), Err(FetchError::Failed(500)));
    assert_eq!(check_status(199), Err(FetchError::Failed(199)));
    assert_eq!(check_status(300), Err(FetchError::Failed(300)));
    assert_eq!(check_registry_status(200), Ok(()));
    assert_eq!(check_registry_status(403), Err(FetchError::Failed(403)));
    assert_eq!(check_registry_status(503), Err(FetchError::Failed(503)));
    assert!(is_success(250) && !is_success(300) && !is_success(199));
}

#[test]
fn addresses_and_headers_are_exact() {
    assert_eq!(
        registry_url(5),
        "https://raw.githubusercontent.com/cleitonaugusto/rustskill-registry/main/registry.json?t=5"
    );
    assert_eq!(validation_url(), "https://api.rustskill.com/v1/auth/validate");
    assert_eq!(bearer_header("abc"), "Bearer abc");
}

#[test]
fn admission_depends_on_premium_and_credential() {
    assert_eq!(admission(false, false), Admission::Open);
    assert_eq!(admission(false, true), Admission::Open);
    assert_eq!(admission(true, true), Admission::Validate);
    assert_eq!(admission(true, false), Admission::LoginRequired);
}

#[test]
fn file_names_are_cut_down_to_one_segment() {
    assert_eq!(safe_file_name("rule.mdc"), Some("rule.mdc".to_string()));
    assert_eq!(safe_file_name("../../etc/passwd"), Some("passwd".to_string()));
    assert_eq!(safe_file_name("/abs/path/rule.mdc"), Some("rule.mdc".to_string()));
    assert_eq!(safe_file_name("dir/"), Some("dir".to_string()));
    assert_eq!(safe_file_name("dir//"), Some("dir".to_string()));
    assert_eq!(safe_file_name("dir/."), Some("dir".to_string()));
    assert_eq!(safe_file_name("./rule.mdc"), Some("rule.mdc".to_string()));
    assert_eq!(safe_file_name("a/./b/./"), Some("b".to_string()));
    assert_eq!(safe_file_name("..."), Some("...".to_string()));
    assert_eq!(safe_file_name("a\\b"), Some("a\\b".to_string()));
}

#[test]
fn file_names_that_name_no_file_are_refused() {
    for name in ["", "/", "//", ".", "./", "..", "../", "a/..", "a/../", "/.", "a/../."] {
        assert_eq!(safe_file_name(name), None);
        assert_eq!(plan_install("text", name, "rule").err(), Some(InstallError::InvalidFileName));
    }
}

#[test]
fn managed_file_opens_with_the_header() {
    assert_eq!(
        managed_content("Clean Code", "Be kind.\n"),
        "# Gerenciado pelo RustSkill - Skill: Clean Code\n# Modificações manuais podem ser sobrescritas em atualizações.\n\nBe kind.\n"
    );
    let plan = plan_install("body", "../x/rule.mdc", "R").unwrap();
    assert_eq!(plan.file_name, "rule.mdc");
    assert_eq!(
        plan.body,
        "# Gerenciado pelo RustSkill - Skill: R\n# Modificações manuais podem ser sobrescritas em atualizações.\n\nbody"
    );
}

#[test]
fn rules_directory_is_fixed() {
    assert_eq!(rules_directory(), vec![".cursor", "rules"]);
}

#[test]
fn warning_is_due_without_any_manifest() {
    assert!(lacks_manifest(false, false));
    assert!(!lacks_manifest(true, false));
    assert!(!lacks_manifest(false, true));
    assert!(!lacks_manifest(true, true));
}
