//! What holds of the audit as a whole.

use crate::catalog::Rule;
use crate::fingerprint::{signal_of, Signals};
use crate::installed::{materialized, stem, stems};
use crate::matcher::{
    activated, audit_rows, causes, causes_by_trigger, ecosystem_cause, ecosystem_causes,
    ecosystem_fires, last_row, status_of, trigger_causes, trigger_fires, Ecosystem, Row, Status,
};
use crate::signals::{extension_of, is_source_name};
use crate::walker::is_kept;
use crate::text::{lemma_tail_run_len, other_than};
use crate::tree::{
    file_imports, file_shows, lemma_tree_push_file, manifest_declares,
    tree_dependencies, tree_extensions, tree_signals, FileView, ManifestView,
};
use vstd::prelude::*;

verus! {

/// Whether the report has a row for the rule at position `k` of the catalog.
pub open spec fn has_row(rows: Seq<Row>, k: int) -> bool {
    exists|j: int| 0 <= j < rows.len() && (#[trigger] rows[j]).entry == k
}

/// Whether the file at `i` is reached by the walk and has an extension
/// whose normalized form is `t`.
pub open spec fn has_extension(files: Seq<FileView>, i: int, t: Seq<char>) -> bool {
    0 <= i < files.len() && is_kept(files[i].dirs) && match extension_of(files[i].name) {
        Some(e) => signal_of(e) == Some(t),
        None => false,
    }
}

/// A tree with no manifest and no source file has no dependency signals,
/// and its extension signals are exactly the normalized extensions of the
/// files that the walk reaches.
pub proof fn law_plain_tree(files: Seq<FileView>, manifests: Seq<ManifestView>)
    requires
        manifests.len() == 0,
        forall|i: int|
            0 <= i < files.len() && is_kept((#[trigger] files[i]).dirs) ==> !is_source_name(
                files[i].name,
            ),
    ensures
        tree_signals(files, manifests).dependencies == Set::<Seq<char>>::empty(),
        forall|t: Seq<char>|
            tree_signals(files, manifests).extensions.contains(t) <==> exists|i: int|
                #[trigger] has_extension(files, i, t),
{
    let deps = tree_dependencies(files, manifests);
    assert forall|t: Seq<char>| !deps.contains(t) by {
        if exists|i: int| #[trigger] file_imports(files, i, t) {
            let i = choose|i: int| #[trigger] file_imports(files, i, t);
            assert(!is_source_name(files[i].name));
        }
        if exists|j: int| #[trigger] manifest_declares(manifests, j, t) {
            let j = choose|j: int| #[trigger] manifest_declares(manifests, j, t);
            assert(manifest_declares(manifests, j, t));
        }
    }
    assert(deps =~= Set::<Seq<char>>::empty());
    let exts = tree_extensions(files);
    assert forall|t: Seq<char>| exts.contains(t) <==> exists|i: int| #[trigger]
        has_extension(files, i, t) by {
        if exts.contains(t) {
            let i = choose|i: int| #[trigger] file_shows(files, i, t);
            assert(has_extension(files, i, t));
        }
        if exists|i: int| #[trigger] has_extension(files, i, t) {
            let i = choose|i: int| #[trigger] has_extension(files, i, t);
            assert(file_shows(files, i, t));
        }
    }
}

/// A file below a directory that the walk leaves out changes nothing.
pub proof fn law_noise_is_left_out(
    files: Seq<FileView>,
    manifests: Seq<ManifestView>,
    hidden: FileView,
)
    requires
        !is_kept(hidden.dirs),
    ensures
        tree_signals(files.push(hidden), manifests) == tree_signals(files, manifests),
{
    lemma_tree_push_file(files, manifests, hidden);
    assert(tree_dependencies(files, manifests).union(Set::<Seq<char>>::empty())
        =~= tree_dependencies(files, manifests));
}

/// The signals of a tree depend on which files and manifests it holds,
/// not on the order in which they were met nor on how often.
pub proof fn law_signals_ignore_order(
    files: Seq<FileView>,
    manifests: Seq<ManifestView>,
    files2: Seq<FileView>,
    manifests2: Seq<ManifestView>,
)
    requires
        forall|f: FileView| files.contains(f) <==> files2.contains(f),
        forall|m: ManifestView| manifests.contains(m) <==> manifests2.contains(m),
    ensures
        tree_signals(files, manifests) == tree_signals(files2, manifests2),
{
    lemma_signals_within(files, manifests, files2, manifests2);
    lemma_signals_within(files2, manifests2, files, manifests);
    assert(tree_extensions(files) =~= tree_extensions(files2));
    assert(tree_dependencies(files, manifests) =~= tree_dependencies(files2, manifests2));
}

/// A tree whose files and manifests all occur in another tree has no
/// signal that the other lacks.
pub proof fn lemma_signals_within(
    files: Seq<FileView>,
    manifests: Seq<ManifestView>,
    files2: Seq<FileView>,
    manifests2: Seq<ManifestView>,
)
    requires
        forall|f: FileView| files.contains(f) ==> files2.contains(f),
        forall|m: ManifestView| manifests.contains(m) ==> manifests2.contains(m),
    ensures
        tree_signals(files, manifests).within(tree_signals(files2, manifests2)),
{
    assert forall|t: Seq<char>| tree_extensions(files).contains(t) implies tree_extensions(
        files2,
    ).contains(t) by {
        let i = choose|i: int| #[trigger] file_shows(files, i, t);
        assert(files.contains(files[i]));
        let k = choose|k: int| 0 <= k < files2.len() && files2[k] == files[i];
        assert(file_shows(files2, k, t));
    }
    assert forall|t: Seq<char>| tree_dependencies(files, manifests).contains(
        t,
    ) implies tree_dependencies(files2, manifests2).contains(t) by {
        if exists|i: int| #[trigger] file_imports(files, i, t) {
            let i = choose|i: int| #[trigger] file_imports(files, i, t);
            assert(files.contains(files[i]));
            let k = choose|k: int| 0 <= k < files2.len() && files2[k] == files[i];
            assert(file_imports(files2, k, t));
        } else {
            let j = choose|j: int| #[trigger] manifest_declares(manifests, j, t);
            assert(manifests.contains(manifests[j]));
            let k = choose|k: int| 0 <= k < manifests2.len() && manifests2[k] == manifests[j];
            assert(manifest_declares(manifests2, k, t));
        }
    }
}

/// An audit of the same catalog over the same tree and the same rules
/// directory gives the same report, whatever the order in which the files
/// of either were listed.
pub proof fn law_audit_repeats(
    catalog: Seq<Rule>,
    files: Seq<FileView>,
    manifests: Seq<ManifestView>,
    installed_names: Seq<Seq<char>>,
    files2: Seq<FileView>,
    manifests2: Seq<ManifestView>,
    installed_names2: Seq<Seq<char>>,
)
    requires
        forall|f: FileView| files.contains(f) <==> files2.contains(f),
        forall|m: ManifestView| manifests.contains(m) <==> manifests2.contains(m),
        forall|n: Seq<char>| installed_names.contains(n) <==> installed_names2.contains(n),
    ensures
        audit_rows(catalog, tree_signals(files, manifests), stems(installed_names)) == audit_rows(
            catalog,
            tree_signals(files2, manifests2),
            stems(installed_names2),
        ),
{
    law_signals_ignore_order(files, manifests, files2, manifests2);
    assert forall|t: Seq<char>| stems(installed_names).contains(t) <==> stems(
        installed_names2,
    ).contains(t) by {
        if stems(installed_names).contains(t) {
            let i = choose|i: int|
                0 <= i < installed_names.len() && stem(#[trigger] installed_names[i]) == t;
            assert(installed_names.contains(installed_names[i]));
            let k = choose|k: int|
                0 <= k < installed_names2.len() && installed_names2[k] == installed_names[i];
            assert(stem(installed_names2[k]) == t);
        }
        if stems(installed_names2).contains(t) {
            let i = choose|i: int|
                0 <= i < installed_names2.len() && stem(#[trigger] installed_names2[i]) == t;
            assert(installed_names2.contains(installed_names2[i]));
            let k = choose|k: int|
                0 <= k < installed_names.len() && installed_names[k] == installed_names2[i];
            assert(stem(installed_names[k]) == t);
        }
    }
    assert(stems(installed_names) =~= stems(installed_names2));
}

/// Triggers give a cause exactly when one of them fires.
pub proof fn lemma_trigger_causes(triggers: Seq<Seq<char>>, s: Signals)
    ensures
        trigger_causes(triggers, s).len() > 0 <==> exists|i: int|
            0 <= i < triggers.len() && trigger_fires(#[trigger] triggers[i], s),
    decreases triggers.len(),
{
    if triggers.len() > 0 {
        let front = triggers.drop_last();
        lemma_trigger_causes(front, s);
        if trigger_causes(triggers, s).len() > 0 {
            if trigger_fires(triggers.last(), s) {
                assert(trigger_fires(triggers[triggers.len() - 1], s));
            } else {
                let i = choose|i: int| 0 <= i < front.len() && trigger_fires(#[trigger] front[i], s);
                assert(trigger_fires(triggers[i], s));
            }
        }
        if exists|i: int| 0 <= i < triggers.len() && trigger_fires(#[trigger] triggers[i], s) {
            let i = choose|i: int|
                0 <= i < triggers.len() && trigger_fires(#[trigger] triggers[i], s);
            if i < front.len() {
                assert(trigger_fires(front[i], s));
            }
        }
    }
}

/// Ecosystems give a cause exactly when one of them speaks for the rule.
pub proof fn lemma_ecosystem_causes(id: Seq<char>, s: Signals)
    ensures
        ecosystem_causes(id, s).len() > 0 <==> exists|e: Ecosystem| ecosystem_fires(e, id, s),
{
    if ecosystem_causes(id, s).len() > 0 {
        assert(ecosystem_fires(Ecosystem::Rust, id, s) || ecosystem_fires(Ecosystem::Python, id, s)
            || ecosystem_fires(Ecosystem::Go, id, s));
    }
    if exists|e: Ecosystem| ecosystem_fires(e, id, s) {
        let e = choose|e: Ecosystem| ecosystem_fires(e, id, s);
        assert(ecosystem_cause(e, id, s).len() == 1);
    }
}

/// More signals never take a recommendation away: a rule that is
/// recommended for some signals is recommended for every superset of them.
pub proof fn law_more_signals_keep_rules(rule: Rule, s: Signals, more: Signals)
    requires
        s.within(more),
    ensures
        activated(rule, s) ==> activated(rule, more),
{
    if activated(rule, s) {
        if causes_by_trigger(rule, s).len() > 0 {
            let triggers = rule.triggers->0;
            lemma_trigger_causes(triggers, s);
            lemma_trigger_causes(triggers, more);
            let i = choose|i: int|
                0 <= i < triggers.len() && trigger_fires(#[trigger] triggers[i], s);
            assert(trigger_fires(triggers[i], more));
        } else {
            lemma_ecosystem_causes(rule.id, s);
            lemma_ecosystem_causes(rule.id, more);
            let e = choose|e: Ecosystem| ecosystem_fires(e, rule.id, s);
            assert(ecosystem_fires(e, rule.id, more));
        }
    }
}

/// The report has a row for a rule exactly when the rule is recommended,
/// and that row tells whether the rule is installed.
pub proof fn lemma_rows(catalog: Seq<Rule>, s: Signals, installed: Set<Seq<char>>, k: int)
    ensures
        has_row(audit_rows(catalog, s, installed), k) <==> 0 <= k < catalog.len() && activated(
            catalog[k],
            s,
        ),
        forall|j: int|
            0 <= j < audit_rows(catalog, s, installed).len() && (#[trigger] audit_rows(
                catalog,
                s,
                installed,
            )[j]).entry == k ==> 0 <= k < catalog.len() && audit_rows(catalog, s, installed)[j]
                == (Row {
                entry: k,
                causes: causes(catalog[k], s),
                status: status_of(catalog[k], installed),
            }),
    decreases catalog.len(),
{
    let rows = audit_rows(catalog, s, installed);
    if catalog.len() > 0 {
        let front = catalog.drop_last();
        let before = audit_rows(front, s, installed);
        let tail = last_row(catalog, s, installed);
        lemma_rows(front, s, installed, k);
        lemma_rows_bounded(front, s, installed);
        assert(rows == before + tail);
        assert forall|j: int| 0 <= j < rows.len() && (#[trigger] rows[j]).entry == k implies 0 <= k
            < catalog.len() && rows[j] == (Row {
            entry: k,
            causes: causes(catalog[k], s),
            status: status_of(catalog[k], installed),
        }) by {
            if j < before.len() {
                assert(rows[j] == before[j]);
                assert(front[k] == catalog[k]);
            } else {
                assert(rows[j] == tail[j - before.len()]);
            }
        }
        if has_row(rows, k) {
            let j = choose|j: int| 0 <= j < rows.len() && (#[trigger] rows[j]).entry == k;
            if j < before.len() {
                assert(before[j].entry == k);
                assert(has_row(before, k));
                assert(front[k] == catalog[k]);
            } else {
                assert(rows[j] == tail[j - before.len()]);
            }
        }
        if 0 <= k < catalog.len() && activated(catalog[k], s) {
            if k < front.len() {
                assert(front[k] == catalog[k]);
                let j = choose|j: int| 0 <= j < before.len() && (#[trigger] before[j]).entry == k;
                assert(rows[j] == before[j]);
            } else {
                assert(rows[before.len() as int] == tail[0]);
            }
        }
    }
}

/// Every row of a report stands for a rule of the catalog.
pub proof fn lemma_rows_bounded(catalog: Seq<Rule>, s: Signals, installed: Set<Seq<char>>)
    ensures
        forall|j: int|
            0 <= j < audit_rows(catalog, s, installed).len() ==> 0 <= (#[trigger] audit_rows(
                catalog,
                s,
                installed,
            )[j]).entry < catalog.len(),
    decreases catalog.len(),
{
    let rows = audit_rows(catalog, s, installed);
    if catalog.len() > 0 {
        let before = audit_rows(catalog.drop_last(), s, installed);
        let tail = last_row(catalog, s, installed);
        lemma_rows_bounded(catalog.drop_last(), s, installed);
        assert forall|j: int| 0 <= j < rows.len() implies 0 <= (#[trigger] rows[j]).entry
            < catalog.len() by {
            if j < before.len() {
                assert(rows[j] == before[j]);
            } else {
                assert(rows[j] == tail[j - before.len()]);
            }
        }
    }
}

/// The rows of a report follow the order of the catalog.
pub proof fn law_rows_follow_catalog(catalog: Seq<Rule>, s: Signals, installed: Set<Seq<char>>)
    ensures
        forall|i: int, j: int|
            0 <= i < j < audit_rows(catalog, s, installed).len() ==> (#[trigger] audit_rows(
                catalog,
                s,
                installed,
            )[i]).entry < (#[trigger] audit_rows(catalog, s, installed)[j]).entry,
    decreases catalog.len(),
{
    let rows = audit_rows(catalog, s, installed);
    if catalog.len() > 0 {
        let front = catalog.drop_last();
        let before = audit_rows(front, s, installed);
        let tail = last_row(catalog, s, installed);
        law_rows_follow_catalog(front, s, installed);
        lemma_rows_bounded(front, s, installed);
        assert forall|i: int, j: int| 0 <= i < j < rows.len() implies (#[trigger] rows[i]).entry < (
        #[trigger] rows[j]).entry by {
            assert(rows[i] == before[i]);
            if j < before.len() {
                assert(rows[j] == before[j]);
            } else {
                assert(rows[j] == tail[j - before.len()]);
            }
        }
    }
}

/// A file that is added to a tree can only add recommendations: every
/// rule that the report had a row for keeps its row, with the same status.
pub proof fn law_added_file_keeps_rows(
    catalog: Seq<Rule>,
    files: Seq<FileView>,
    manifests: Seq<ManifestView>,
    added: FileView,
    installed: Set<Seq<char>>,
    k: int,
)
    requires
        has_row(audit_rows(catalog, tree_signals(files, manifests), installed), k),
    ensures
        tree_signals(files, manifests).within(tree_signals(files.push(added), manifests)),
        has_row(audit_rows(catalog, tree_signals(files.push(added), manifests), installed), k),
        forall|j: int|
            0 <= j < audit_rows(
                catalog,
                tree_signals(files.push(added), manifests),
                installed,
            ).len() && (#[trigger] audit_rows(
                catalog,
                tree_signals(files.push(added), manifests),
                installed,
            )[j]).entry == k ==> audit_rows(
                catalog,
                tree_signals(files.push(added), manifests),
                installed,
            )[j].status == status_of(catalog[k], installed),
{
    let s = tree_signals(files, manifests);
    let more = tree_signals(files.push(added), manifests);
    lemma_tree_push_file(files, manifests, added);
    assert(s.within(more));
    lemma_rows(catalog, s, installed, k);
    law_more_signals_keep_rules(catalog[k], s, more);
    lemma_rows(catalog, more, installed, k);
}

/// A rule counts as installed exactly when the rules directory holds a
/// file whose name, without its extension, is the rule's id with `-` for
/// every `/`.
pub proof fn law_installed_iff_file_present(rule: Rule, file_names: Seq<Seq<char>>)
    ensures
        status_of(rule, stems(file_names)) == Status::Installed <==> exists|i: int|
            0 <= i < file_names.len() && stem(#[trigger] file_names[i]) == materialized(rule.id),
{
}

/// A rule counts as installed as soon as the rules directory holds a file
/// named by the rule's materialized id, a dot and any extension.
pub proof fn law_any_extension_installs(rule: Rule, file_names: Seq<Seq<char>>, ext: Seq<char>)
    requires
        rule.id.len() > 0,
        !ext.contains('.'),
        file_names.contains(materialized(rule.id) + seq!['.'] + ext),
    ensures
        status_of(rule, stems(file_names)) == Status::Installed,
{
    let name = materialized(rule.id) + seq!['.'] + ext;
    law_extension_is_ignored(materialized(rule.id), ext);
    let i = choose|i: int| 0 <= i < file_names.len() && file_names[i] == name;
    assert(stem(file_names[i]) == materialized(rule.id));
}

/// The extension of a file in the rules directory does not matter: a name
/// made of a non-empty stem, a dot and any extension without a dot has
/// that stem.
pub proof fn law_extension_is_ignored(name: Seq<char>, ext: Seq<char>)
    requires
        name.len() > 0,
        !ext.contains('.'),
    ensures
        stem(name + seq!['.'] + ext) == name,
{
    let full = name + seq!['.'] + ext;
    assert forall|j: int| full.len() - ext.len() <= j < full.len() implies other_than('.')(
        #[trigger] full[j],
    ) by {
        assert(full[j] == ext[j - name.len() - 1]);
        assert(ext.contains(ext[j - name.len() - 1]));
    }
    assert(full[full.len() - ext.len() - 1] == '.');
    lemma_tail_run_len(full, other_than('.'), ext.len() as int);
    assert(full.take(name.len() as int) =~= name);
}

} // verus!
