//! The catalog of rules and the payload of one rule.

use crate::split::is_text;
use crate::text::{chars_of, texts};
use vstd::prelude::*;

verus! {

/// One rule of the catalog.
#[derive(Clone, Debug)]
pub struct SkillEntry {
    /// Unique, slash-namespaced name, such as `rust/clean-code`.
    pub id: String,
    /// Display grouping.
    pub category: String,
    /// Where the payload is fetched from.
    pub url: String,
    /// Whether a credential is needed to fetch the payload.
    pub premium: bool,
    /// Tokens that activate the rule when the fingerprint holds one of them.
    pub triggers: Option<Vec<String>>,
}

/// What is fetched for one rule and written into the rules directory.
#[derive(Debug)]
pub struct SkillPayload {
    pub name: String,
    pub instruction: String,
    pub file_name: String,
}

/// A catalog entry as plain values.
pub ghost struct Rule {
    pub id: Seq<char>,
    pub category: Seq<char>,
    pub url: Seq<char>,
    pub premium: bool,
    pub triggers: Option<Seq<Seq<char>>>,
}

impl SkillEntry {
    /// The entry as plain values.
    pub open spec fn view(&self) -> Rule {
        Rule {
            id: self.id@,
            category: self.category@,
            url: self.url@,
            premium: self.premium,
            triggers: match self.triggers {
                Some(t) => Some(texts(t@)),
                None => None,
            },
        }
    }
}

/// The entries of a catalog as plain values.
pub open spec fn rules(catalog: Seq<SkillEntry>) -> Seq<Rule> {
    Seq::new(catalog.len(), |i: int| catalog[i]@)
}

/// Whether `input` names the rule, by its id or by its locator.
pub open spec fn names_rule(rule: Rule, input: Seq<char>) -> bool {
    rule.id == input || rule.url == input
}

/// Position of the first entry whose id is `alias`.
pub fn find_by_id(catalog: &Vec<SkillEntry>, alias: &str) -> (r: Option<usize>)
    ensures
        match r {
            Some(i) => i < catalog@.len() && catalog@[i as int].id@ == alias@ && forall|j: int|
                0 <= j < i ==> (#[trigger] catalog@[j]).id@ != alias@,
            None => forall|j: int| 0 <= j < catalog@.len() ==> (#[trigger] catalog@[j]).id@ != alias@,
        },
{
    let mut i: usize = 0;
    while i < catalog.len()
        invariant
            i <= catalog@.len(),
            forall|j: int| 0 <= j < i ==> (#[trigger] catalog@[j]).id@ != alias@,
        decreases catalog.len() - i,
    {
        let id = chars_of(catalog[i].id.as_str());
        if is_text(id.as_slice(), alias) {
            return Some(i);
        }
        i += 1;
    }
    None
}

/// Position of the first entry that `input` names, by id or by locator.
pub fn find_by_locator(catalog: &Vec<SkillEntry>, input: &str) -> (r: Option<usize>)
    ensures
        match r {
            Some(i) => i < catalog@.len() && names_rule(catalog@[i as int]@, input@) && forall|
                j: int,
            |
                0 <= j < i ==> !names_rule((#[trigger] catalog@[j])@, input@),
            None => forall|j: int|
                0 <= j < catalog@.len() ==> !names_rule((#[trigger] catalog@[j])@, input@),
        },
{
    let mut i: usize = 0;
    while i < catalog.len()
        invariant
            i <= catalog@.len(),
            forall|j: int| 0 <= j < i ==> !names_rule((#[trigger] catalog@[j])@, input@),
        decreases catalog.len() - i,
    {
        let id = chars_of(catalog[i].id.as_str());
        let url = chars_of(catalog[i].url.as_str());
        if is_text(id.as_slice(), input) || is_text(url.as_slice(), input) {
            return Some(i);
        }
        i += 1;
    }
    None
}

} // verus!
