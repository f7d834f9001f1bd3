//! Matching the rules of a catalog against a fingerprint.
//!
//! A rule is activated by its triggers or, where none of them fires, by
//! the ecosystem that its id names. Activated rules make up the report,
//! in the order of the catalog, each with its reasons and with whether it
//! is already installed.

use crate::catalog::{rules, Rule, SkillEntry};
use crate::fingerprint::{Fingerprint, Signals};
use crate::installed::{materialized, InstalledMarker};
use crate::split::{contains, has_substring, lowered};
use crate::text::{chars_of, lowercase, texts};
use vstd::prelude::*;
use vstd::string::StringExecFns;

verus! {

/// The ecosystems that a rule can belong to by the wording of its id.
#[derive(Clone, Copy, Debug, PartialEq, Eq, Structural)]
pub enum Ecosystem {
    Rust,
    Python,
    Go,
}

impl Ecosystem {
    /// The word that the lowercased id of a rule of this ecosystem holds.
    pub open spec fn word(self) -> Seq<char> {
        match self {
            Ecosystem::Rust => "rust"@,
            Ecosystem::Python => "python"@,
            Ecosystem::Go => "go"@,
        }
    }

    /// The extension signal that shows the ecosystem to be in use.
    pub open spec fn extension(self) -> Seq<char> {
        match self {
            Ecosystem::Rust => "rs"@,
            Ecosystem::Python => "py"@,
            Ecosystem::Go => "go"@,
        }
    }

    /// The name of the ecosystem as it is written in a reason.
    pub open spec fn label(self) -> Seq<char> {
        match self {
            Ecosystem::Rust => "Rust"@,
            Ecosystem::Python => "Python"@,
            Ecosystem::Go => "Go"@,
        }
    }
}

/// Why a rule is recommended, as plain values.
pub ghost enum Cause {
    /// A trigger of the rule, as the catalog writes it, is among the signals.
    Trigger(Seq<char>),
    /// The id names an ecosystem whose extension is among the signals.
    Ecosystem(Ecosystem),
}

/// Why a rule is recommended.
#[derive(Debug)]
pub enum Reason {
    /// A trigger of the rule, as the catalog writes it, is among the signals.
    Trigger(String),
    /// The id names an ecosystem whose extension is among the signals.
    Ecosystem(Ecosystem),
}

impl Reason {
    /// The reason as plain values.
    pub open spec fn view(&self) -> Cause {
        match self {
            Reason::Trigger(t) => Cause::Trigger(t@),
            Reason::Ecosystem(e) => Cause::Ecosystem(*e),
        }
    }

    /// The reason in words.
    pub fn describe(&self) -> (text: String)
        ensures
            text@ == description(self@),
    {
        match self {
            Reason::Trigger(t) => {
                let mut text = String::from_str("Gatilho '");
                text.append(t.as_str());
                text.append("' detectado");
                text
            },
            Reason::Ecosystem(e) => {
                let mut text = String::from_str("Ecossistema ");
                match e {
                    Ecosystem::Rust => text.append("Rust"),
                    Ecosystem::Python => text.append("Python"),
                    Ecosystem::Go => text.append("Go"),
                }
                text.append(" detectado");
                text
            },
        }
    }
}

/// A cause in words.
pub open spec fn description(c: Cause) -> Seq<char> {
    match c {
        Cause::Trigger(t) => "Gatilho '"@ + t + "' detectado"@,
        Cause::Ecosystem(e) => "Ecossistema "@ + e.label() + " detectado"@,
    }
}

/// The causes of a row in words, separated by commas.
pub open spec fn joined(causes: Seq<Cause>) -> Seq<char>
    decreases causes.len(),
{
    if causes.len() == 0 {
        Seq::empty()
    } else if causes.len() == 1 {
        description(causes[0])
    } else {
        joined(causes.drop_last()) + ", "@ + description(causes.last())
    }
}

/// A list of reasons as plain values.
pub open spec fn causes_of(reasons: Seq<Reason>) -> Seq<Cause> {
    Seq::new(reasons.len(), |i: int| reasons[i]@)
}

/// Whether a trigger fires: its lowercase form is a signal of either kind.
pub open spec fn trigger_fires(trigger: Seq<char>, s: Signals) -> bool {
    s.has(lowercase(trigger))
}

/// One cause for each trigger that fires, in the order of the triggers.
pub open spec fn trigger_causes(triggers: Seq<Seq<char>>, s: Signals) -> Seq<Cause>
    decreases triggers.len(),
{
    if triggers.len() == 0 {
        Seq::empty()
    } else if trigger_fires(triggers.last(), s) {
        trigger_causes(triggers.drop_last(), s).push(Cause::Trigger(triggers.last()))
    } else {
        trigger_causes(triggers.drop_last(), s)
    }
}

/// Whether an ecosystem speaks for the rule `id`: the lowercased id holds
/// the ecosystem's word, and the ecosystem's extension is a signal.
pub open spec fn ecosystem_fires(e: Ecosystem, id: Seq<char>, s: Signals) -> bool {
    has_substring(lowercase(id), e.word()) && s.extensions.contains(e.extension())
}

/// The cause that one ecosystem gives, if it speaks for the rule.
pub open spec fn ecosystem_cause(e: Ecosystem, id: Seq<char>, s: Signals) -> Seq<Cause> {
    if ecosystem_fires(e, id, s) {
        seq![Cause::Ecosystem(e)]
    } else {
        Seq::empty()
    }
}

/// One cause for each ecosystem that speaks for the rule.
pub open spec fn ecosystem_causes(id: Seq<char>, s: Signals) -> Seq<Cause> {
    ecosystem_cause(Ecosystem::Rust, id, s) + ecosystem_cause(Ecosystem::Python, id, s)
        + ecosystem_cause(Ecosystem::Go, id, s)
}

/// The causes that the triggers of a rule give.
pub open spec fn causes_by_trigger(rule: Rule, s: Signals) -> Seq<Cause> {
    match rule.triggers {
        Some(t) => trigger_causes(t, s),
        None => Seq::empty(),
    }
}

/// Why a rule is recommended: by its triggers, or, where none fires, by
/// its ecosystem. No cause means that the rule is not recommended.
pub open spec fn causes(rule: Rule, s: Signals) -> Seq<Cause> {
    if causes_by_trigger(rule, s).len() > 0 {
        causes_by_trigger(rule, s)
    } else {
        ecosystem_causes(rule.id, s)
    }
}

/// Whether a rule is recommended for these signals.
pub open spec fn activated(rule: Rule, s: Signals) -> bool {
    causes(rule, s).len() > 0
}

/// Whether a recommended rule is already in the rules directory.
#[derive(Clone, Copy, Debug, PartialEq, Eq, Structural)]
pub enum Status {
    Installed,
    Missing,
}

/// Whether the rule is present among the installed names.
pub open spec fn status_of(rule: Rule, installed: Set<Seq<char>>) -> Status {
    if installed.contains(materialized(rule.id)) {
        Status::Installed
    } else {
        Status::Missing
    }
}

/// One row of the report, as plain values.
pub ghost struct Row {
    /// Position of the rule in the catalog.
    pub entry: int,
    pub causes: Seq<Cause>,
    pub status: Status,
}

/// One row of the report: a recommended rule.
#[derive(Debug)]
pub struct Recommendation {
    /// Position of the rule in the catalog.
    pub entry: usize,
    pub reasons: Vec<Reason>,
    pub status: Status,
}

impl Recommendation {
    /// The row as plain values.
    pub open spec fn view(&self) -> Row {
        Row { entry: self.entry as int, causes: causes_of(self.reasons@), status: self.status }
    }

    /// The reasons of the row in words, separated by commas.
    pub fn justification(&self) -> (text: String)
        ensures
            text@ == joined(causes_of(self.reasons@)),
    {
        let ghost all = causes_of(self.reasons@);
        let mut text = String::new();
        let mut i: usize = 0;
        while i < self.reasons.len()
            invariant
                i <= self.reasons@.len(),
                all == causes_of(self.reasons@),
                text@ == joined(all.take(i as int)),
            decreases self.reasons.len() - i,
        {
            proof {
                assert(all.take(i + 1).drop_last() == all.take(i as int));
                assert(all.take(i + 1).last() == self.reasons@[i as int]@);
                assert(all.take(i + 1)[0] == all[0]);
            }
            if i > 0 {
                text.append(", ");
            }
            let words = self.reasons[i].describe();
            text.append(words.as_str());
            assert(text@ =~= joined(all.take(i + 1)));
            i += 1;
        }
        assert(all.take(all.len() as int) == all);
        text
    }
}

/// The rows of a report as plain values.
pub open spec fn rows_of(rows: Seq<Recommendation>) -> Seq<Row> {
    Seq::new(rows.len(), |i: int| rows[i]@)
}

/// The row of the rule at the end of `catalog`, if it is recommended.
pub open spec fn last_row(catalog: Seq<Rule>, s: Signals, installed: Set<Seq<char>>) -> Seq<Row> {
    let rule = catalog.last();
    if activated(rule, s) {
        seq![
            Row {
                entry: catalog.len() - 1,
                causes: causes(rule, s),
                status: status_of(rule, installed),
            },
        ]
    } else {
        Seq::empty()
    }
}

/// The report: one row for each recommended rule, in catalog order.
pub open spec fn audit_rows(catalog: Seq<Rule>, s: Signals, installed: Set<Seq<char>>) -> Seq<Row>
    decreases catalog.len(),
{
    if catalog.len() == 0 {
        Seq::empty()
    } else {
        audit_rows(catalog.drop_last(), s, installed) + last_row(catalog, s, installed)
    }
}

/// How many rows are missing.
pub open spec fn missing_count(rows: Seq<Row>) -> nat
    decreases rows.len(),
{
    if rows.len() == 0 {
        0
    } else if rows.last().status == Status::Missing {
        missing_count(rows.drop_last()) + 1
    } else {
        missing_count(rows.drop_last())
    }
}

/// The outcome of an audit.
#[derive(Debug)]
pub struct Report {
    /// The recommended rules, in catalog order.
    pub rows: Vec<Recommendation>,
    /// How many of them are not installed.
    pub missing: usize,
}

/// The reasons that the triggers of a rule give.
pub fn trigger_reasons(triggers: &Vec<String>, fp: &Fingerprint) -> (out: Vec<Reason>)
    ensures
        causes_of(out@) == trigger_causes(texts(triggers@), fp@),
{
    let ghost given = texts(triggers@);
    let mut out: Vec<Reason> = Vec::new();
    let mut i: usize = 0;
    assert(causes_of(out@) =~= trigger_causes(given.take(0), fp@));
    while i < triggers.len()
        invariant
            i <= triggers@.len(),
            given == texts(triggers@),
            causes_of(out@) == trigger_causes(given.take(i as int), fp@),
        decreases triggers.len() - i,
    {
        let ghost before = causes_of(out@);
        proof {
            assert(given.take(i + 1).drop_last() == given.take(i as int));
            assert(given.take(i + 1).last() == triggers@[i as int]@);
        }
        let raw = chars_of(triggers[i].as_str());
        let lower = lowered(raw.as_slice());
        if fp.has_signal(lower.as_slice()) {
            out.push(Reason::Trigger(triggers[i].clone()));
            assert(causes_of(out@) =~= before.push(Cause::Trigger(triggers@[i as int]@)));
        }
        i += 1;
    }
    assert(given.take(given.len() as int) == given);
    out
}

/// The extension by which an ecosystem shows.
fn ecosystem_extension(e: Ecosystem) -> (v: Vec<char>)
    ensures
        v@ == e.extension(),
{
    match e {
        Ecosystem::Rust => chars_of("rs"),
        Ecosystem::Python => chars_of("py"),
        Ecosystem::Go => chars_of("go"),
    }
}

/// The word by which an id names an ecosystem.
fn ecosystem_word(e: Ecosystem) -> (v: Vec<char>)
    ensures
        v@ == e.word(),
{
    match e {
        Ecosystem::Rust => chars_of("rust"),
        Ecosystem::Python => chars_of("python"),
        Ecosystem::Go => chars_of("go"),
    }
}

/// Adds the reason that one ecosystem gives for a rule, if it gives one.
fn push_ecosystem(out: &mut Vec<Reason>, e: Ecosystem, id_lower: &[char], fp: &Fingerprint)
    ensures
        causes_of(final(out)@) == causes_of(old(out)@) + (if has_substring(id_lower@, e.word())
            && fp@.extensions.contains(e.extension()) {
            seq![Cause::Ecosystem(e)]
        } else {
            Seq::empty()
        }),
{
    let word = ecosystem_word(e);
    let ext = ecosystem_extension(e);
    let ghost before = causes_of(out@);
    if contains(id_lower, word.as_slice()) && fp.has_extension(ext.as_slice()) {
        out.push(Reason::Ecosystem(e));
        assert(causes_of(out@) =~= before + seq![Cause::Ecosystem(e)]);
    } else {
        assert(before + Seq::<Cause>::empty() =~= before);
    }
}

/// The reasons that the ecosystems give for the rule `id`.
pub fn ecosystem_reasons(id: &str, fp: &Fingerprint) -> (out: Vec<Reason>)
    ensures
        causes_of(out@) == ecosystem_causes(id@, fp@),
{
    let raw = chars_of(id);
    let lower = lowered(raw.as_slice());
    let mut out: Vec<Reason> = Vec::new();
    assert(causes_of(out@) =~= Seq::<Cause>::empty());
    push_ecosystem(&mut out, Ecosystem::Rust, lower.as_slice(), fp);
    push_ecosystem(&mut out, Ecosystem::Python, lower.as_slice(), fp);
    push_ecosystem(&mut out, Ecosystem::Go, lower.as_slice(), fp);
    assert(causes_of(out@) =~= ecosystem_causes(id@, fp@));
    out
}

/// Why a rule is recommended for a fingerprint; empty if it is not.
pub fn reasons_for(entry: &SkillEntry, fp: &Fingerprint) -> (out: Vec<Reason>)
    ensures
        causes_of(out@) == causes(entry@, fp@),
        (out@.len() > 0) == activated(entry@, fp@),
{
    let by_trigger = match &entry.triggers {
        Some(triggers) => trigger_reasons(triggers, fp),
        None => {
            let none: Vec<Reason> = Vec::new();
            assert(causes_of(none@) =~= Seq::<Cause>::empty());
            none
        },
    };
    if by_trigger.len() > 0 {
        by_trigger
    } else {
        ecosystem_reasons(entry.id.as_str(), fp)
    }
}

/// Whether a rule is installed.
pub fn status_for(entry: &SkillEntry, installed: &InstalledMarker) -> (status: Status)
    ensures
        status == status_of(entry@, installed@),
{
    if installed.contains(entry.id.as_str()) {
        Status::Installed
    } else {
        Status::Missing
    }
}

/// Matches every rule of the catalog against the fingerprint.
pub fn audit(catalog: &Vec<SkillEntry>, fp: &Fingerprint, installed: &InstalledMarker) -> (report:
    Report)
    ensures
        rows_of(report.rows@) == audit_rows(rules(catalog@), fp@, installed@),
        report.missing == missing_count(rows_of(report.rows@)),
        forall|j: int| 0 <= j < report.rows@.len() ==> (#[trigger] report.rows@[j]).entry < catalog@.len(),
{
    let ghost all = rules(catalog@);
    let mut rows: Vec<Recommendation> = Vec::new();
    let mut missing: usize = 0;
    let mut i: usize = 0;
    assert(rows_of(rows@) =~= audit_rows(all.take(0), fp@, installed@));
    while i < catalog.len()
        invariant
            i <= catalog@.len(),
            all == rules(catalog@),
            rows_of(rows@) == audit_rows(all.take(i as int), fp@, installed@),
            missing == missing_count(rows_of(rows@)),
            rows@.len() <= i,
            missing <= rows@.len(),
            forall|j: int| 0 <= j < rows@.len() ==> (#[trigger] rows@[j]).entry < i,
        decreases catalog.len() - i,
    {
        let ghost before = rows_of(rows@);
        proof {
            assert(all.take(i + 1).drop_last() == all.take(i as int));
            assert(all.take(i + 1).last() == catalog@[i as int]@);
        }
        let reasons = reasons_for(&catalog[i], fp);
        if reasons.len() > 0 {
            let status = status_for(&catalog[i], installed);
            let row = Recommendation { entry: i, reasons, status };
            rows.push(row);
            proof {
                assert(rows_of(rows@) =~= before + seq![row@]);
                assert(rows_of(rows@).drop_last() =~= before);
            }
            if status == Status::Missing {
                missing += 1;
            }
        } else {
            assert(before + Seq::<Row>::empty() =~= before);
        }
        i += 1;
    }
    assert(all.take(all.len() as int) == all);
    Report { rows, missing }
}

} // verus!
