//! Fix mode: which rules are to be installed, and the bookkeeping of the run.
//!
//! Fetching and writing are the caller's work. The caller asks for the
//! next step, does it, and reports how it went; a step that failed does
//! not stop the run.

use crate::catalog::{rules, Rule, SkillEntry};
use crate::fingerprint::{Fingerprint, Signals};
use crate::installed::InstalledMarker;
use crate::laws::lemma_rows;
use crate::matcher::{
    activated, audit, audit_rows, rows_of, status_of, Recommendation, Report, Row, Status,
};
use vstd::prelude::*;

verus! {

/// Catalog positions of the rows that are missing, in the order of the report.
pub open spec fn missing_entries(rows: Seq<Row>) -> Seq<int>
    decreases rows.len(),
{
    if rows.len() == 0 {
        Seq::empty()
    } else if rows.last().status == Status::Missing {
        missing_entries(rows.drop_last()).push(rows.last().entry)
    } else {
        missing_entries(rows.drop_last())
    }
}

/// A list of positions as integers.
pub open spec fn positions(plan: Seq<usize>) -> Seq<int> {
    Seq::new(plan.len(), |i: int| plan[i] as int)
}

/// Whether some row of the report stands for the rule at `position`.
pub open spec fn names_row(rows: Seq<Recommendation>, position: usize) -> bool {
    exists|i: int| 0 <= i < rows.len() && (#[trigger] rows[i]).entry == position
}

/// Whether fix mode has work to do: it was asked for, and something is missing.
pub fn should_fix(report: &Report, fix: bool) -> (r: bool)
    ensures
        r == (fix && report.missing > 0),
{
    fix && report.missing > 0
}

/// Catalog positions of the rules to install: the missing rows of the report.
pub fn install_plan(report: &Report) -> (plan: Vec<usize>)
    ensures
        positions(plan@) == missing_entries(rows_of(report.rows@)),
        forall|j: int| 0 <= j < plan@.len() ==> names_row(report.rows@, #[trigger] plan@[j]),
{
    let ghost rows = rows_of(report.rows@);
    let mut plan: Vec<usize> = Vec::new();
    let mut i: usize = 0;
    assert(positions(plan@) =~= missing_entries(rows.take(0)));
    while i < report.rows.len()
        invariant
            i <= report.rows@.len(),
            rows == rows_of(report.rows@),
            positions(plan@) == missing_entries(rows.take(i as int)),
            forall|j: int| 0 <= j < plan@.len() ==> names_row(report.rows@, #[trigger] plan@[j]),
        decreases report.rows.len() - i,
    {
        let ghost before = positions(plan@);
        proof {
            assert(rows.take(i + 1).drop_last() == rows.take(i as int));
            assert(rows.take(i + 1).last() == report.rows@[i as int]@);
        }
        if report.rows[i].status == Status::Missing {
            plan.push(report.rows[i].entry);
            assert(positions(plan@) =~= before.push(report.rows@[i as int].entry as int));
        }
        i += 1;
    }
    assert(rows.take(rows.len() as int) == rows);
    plan
}

/// Whether `k` is among the positions `plan`.
pub open spec fn planned(plan: Seq<int>, k: int) -> bool {
    exists|j: int| 0 <= j < plan.len() && #[trigger] plan[j] == k
}

/// Every planned position is that of a missing row, and the other way round.
pub proof fn lemma_missing_entries(rows: Seq<Row>, k: int)
    ensures
        planned(missing_entries(rows), k) <==> exists|j: int|
            0 <= j < rows.len() && (#[trigger] rows[j]).entry == k && rows[j].status
                == Status::Missing,
    decreases rows.len(),
{
    if rows.len() > 0 {
        let front = rows.drop_last();
        let plan = missing_entries(rows);
        let before = missing_entries(front);
        lemma_missing_entries(front, k);
        if planned(plan, k) {
            let j = choose|j: int| 0 <= j < plan.len() && #[trigger] plan[j] == k;
            if j < before.len() {
                assert(before[j] == k);
                assert(planned(before, k));
                let i = choose|i: int|
                    0 <= i < front.len() && (#[trigger] front[i]).entry == k && front[i].status
                        == Status::Missing;
                assert(rows[i] == front[i]);
            } else {
                assert(rows[rows.len() - 1].entry == k);
            }
        }
        if exists|j: int|
            0 <= j < rows.len() && (#[trigger] rows[j]).entry == k && rows[j].status
                == Status::Missing {
            let j = choose|j: int|
                0 <= j < rows.len() && (#[trigger] rows[j]).entry == k && rows[j].status
                    == Status::Missing;
            if j < front.len() {
                assert(front[j] == rows[j]);
                let i = choose|i: int| 0 <= i < before.len() && #[trigger] before[i] == k;
                assert(plan[i] == k);
            } else {
                assert(plan[plan.len() - 1] == k);
            }
        }
    }
}

/// Fix mode and the report agree: a rule is to be installed exactly when
/// it is recommended and not installed.
pub proof fn law_plan_matches_report(
    catalog: Seq<Rule>,
    s: Signals,
    installed: Set<Seq<char>>,
    k: int,
)
    ensures
        planned(missing_entries(audit_rows(catalog, s, installed)), k) <==> 0 <= k < catalog.len()
            && activated(catalog[k], s) && status_of(catalog[k], installed) == Status::Missing,
{
    let rows = audit_rows(catalog, s, installed);
    lemma_missing_entries(rows, k);
    lemma_rows(catalog, s, installed, k);
    if 0 <= k < catalog.len() && activated(catalog[k], s) && status_of(catalog[k], installed)
        == Status::Missing {
        let j = choose|j: int| 0 <= j < rows.len() && (#[trigger] rows[j]).entry == k;
        assert(rows[j].status == Status::Missing);
    }
}

/// How the installation of one rule went.
#[derive(Clone, Copy, Debug, PartialEq, Eq, Structural)]
pub enum Outcome {
    /// Fetched and written.
    Installed,
    /// The payload could not be fetched.
    DownloadFailed,
    /// The payload was fetched but could not be written.
    InstallFailed,
    /// The rule is premium and the run has no credential: nothing was fetched.
    CredentialRequired,
}

/// What the caller is to do next.
#[derive(Clone, Copy, Debug, PartialEq, Eq, Structural)]
pub enum Step {
    /// Fetch and install the rule at this position of the catalog, then report with `record`.
    Fetch(usize),
    /// The rule at this position was passed over for want of a credential.
    Refused(usize),
    /// Nothing is left to do.
    Finished,
}

/// One rule of the plan.
#[derive(Clone, Copy, Debug, PartialEq, Eq, Structural)]
pub struct Planned {
    /// Position of the rule in the catalog.
    pub entry: usize,
    /// Whether the rule is premium and the run has no credential.
    pub gated: bool,
}

/// The state of a run of fix mode.
pub struct Reconciler {
    plan: Vec<Planned>,
    log: Vec<(usize, Outcome)>,
}

/// The plan for a catalog: one item for each position, gated where the
/// rule is premium and there is no credential.
pub open spec fn plan_for(catalog: Seq<Rule>, queue: Seq<int>, has_credential: bool) -> Seq<Planned> {
    Seq::new(
        queue.len(),
        |i: int|
            Planned {
                entry: queue[i] as usize,
                gated: 0 <= queue[i] < catalog.len() && catalog[queue[i]].premium
                    && !has_credential,
            },
    )
}

impl Reconciler {
    /// The rules to install, in order.
    pub closed spec fn plan(&self) -> Seq<Planned> {
        self.plan@
    }

    /// The rules dealt with so far, in the order of the plan: the catalog
    /// position of each, and how it went.
    pub closed spec fn log(&self) -> Seq<(usize, Outcome)> {
        self.log@
    }

    /// What is next: the first rule of the plan that has no outcome yet.
    pub open spec fn pending(&self) -> Option<Planned> {
        if self.log().len() < self.plan().len() {
            Some(self.plan()[self.log().len() as int])
        } else {
            None
        }
    }

    /// Starts a run: audits the catalog and plans the installation of
    /// every rule that is recommended and missing.
    pub fn start(
        catalog: &Vec<SkillEntry>,
        fp: &Fingerprint,
        installed: &InstalledMarker,
        has_credential: bool,
    ) -> (run: Reconciler)
        ensures
            run.plan() == plan_for(
                rules(catalog@),
                missing_entries(audit_rows(rules(catalog@), fp@, installed@)),
                has_credential,
            ),
            run.log() == Seq::<(usize, Outcome)>::empty(),
            forall|i: int|
                0 <= i < run.plan().len() ==> (#[trigger] run.plan()[i]).entry < catalog@.len(),
    {
        let report = audit(catalog, fp, installed);
        let queue = install_plan(&report);
        let ghost wanted = plan_for(rules(catalog@), positions(queue@), has_credential);
        let mut plan: Vec<Planned> = Vec::new();
        let mut i: usize = 0;
        while i < queue.len()
            invariant
                i <= queue@.len(),
                wanted == plan_for(rules(catalog@), positions(queue@), has_credential),
                plan@ == wanted.take(i as int),
                forall|j: int| 0 <= j < queue@.len() ==> (#[trigger] queue@[j]) < catalog@.len(),
            decreases queue.len() - i,
        {
            let entry = queue[i];
            let gated = entry < catalog.len() && catalog[entry].premium && !has_credential;
            plan.push(Planned { entry, gated });
            assert(plan@ =~= wanted.take(i + 1));
            i += 1;
        }
        assert(wanted.take(wanted.len() as int) == wanted);
        Reconciler { plan, log: Vec::new() }
    }

    /// Tells what to do next. A rule that is premium, when the run has no
    /// credential, is passed over here: its outcome is logged and the run
    /// moves on.
    pub fn next_step(&mut self) -> (step: Step)
        ensures
            final(self).plan() == old(self).plan(),
            match old(self).pending() {
                None => step == Step::Finished && final(self).log() == old(self).log(),
                Some(p) => if p.gated {
                    step == Step::Refused(p.entry) && final(self).log() == old(self).log().push(
                        (p.entry, Outcome::CredentialRequired),
                    )
                } else {
                    step == Step::Fetch(p.entry) && final(self).log() == old(self).log()
                },
            },
    {
        if self.log.len() < self.plan.len() {
            let p = self.plan[self.log.len()];
            if p.gated {
                self.log.push((p.entry, Outcome::CredentialRequired));
                Step::Refused(p.entry)
            } else {
                Step::Fetch(p.entry)
            }
        } else {
            Step::Finished
        }
    }

    /// Reports how the pending rule went. Whatever the outcome, the run
    /// moves on to the next rule. With nothing pending, nothing changes.
    pub fn record(&mut self, outcome: Outcome)
        ensures
            final(self).plan() == old(self).plan(),
            final(self).log() == match old(self).pending() {
                Some(p) => old(self).log().push((p.entry, outcome)),
                None => old(self).log(),
            },
    {
        if self.log.len() < self.plan.len() {
            let p = self.plan[self.log.len()];
            self.log.push((p.entry, outcome));
        }
    }

    /// Whether every rule of the plan has its outcome.
    pub fn is_finished(&self) -> (r: bool)
        ensures
            r == (self.pending() is None),
    {
        self.log.len() >= self.plan.len()
    }

    /// The rules dealt with so far: the catalog position of each, and how it went.
    pub fn outcomes(&self) -> (out: &Vec<(usize, Outcome)>)
        ensures
            out@ == self.log(),
    {
        &self.log
    }
}

} // verus!
