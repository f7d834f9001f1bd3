//! What is written into the rules directory, and under which name.
//!
//! Writing is the caller's work. Here the file name that a payload asks
//! for is cut down to a single path segment, and the text of the file is
//! put together.

use crate::split::{after_last, is_text, tail_without};
use crate::text::{
    chars_of, copy_range, lemma_tail_run_len_holds, other_than, string_of, tail_run_len, texts,
};
use vstd::prelude::*;
use vstd::string::StringExecFns;

verus! {

/// Why nothing can be written for a payload.
#[derive(Clone, Copy, Debug, PartialEq, Eq, Structural)]
pub enum InstallError {
    /// The file name of the payload names no file.
    InvalidFileName,
}

/// A file to write into the rules directory.
#[derive(Debug)]
pub struct InstallPlan {
    /// Name of the file, a single path segment.
    pub file_name: String,
    /// Text of the file.
    pub body: String,
}

/// The last segment of a path, where it names a file. Separators and `.`
/// segments at the end are passed over; a path that ends in `..`, or that
/// has no segment left, names no file.
pub open spec fn safe_name(path: Seq<char>) -> Option<Seq<char>>
    decreases path.len(),
{
    let last = after_last(path, '/');
    if path.len() == 0 {
        None
    } else if last.len() == 0 || last == "."@ {
        if last.len() < path.len() {
            safe_name(path.take(path.len() - last.len() - 1))
        } else {
            None
        }
    } else if last == ".."@ {
        None
    } else {
        Some(last)
    }
}

/// The line that opens every file written into the rules directory.
pub open spec fn banner() -> Seq<char> {
    "# Gerenciado pelo RustSkill - Skill: "@
}

/// The lines that follow the name of the rule.
pub open spec fn notice() -> Seq<char> {
    "\n# Modificações manuais podem ser sobrescritas em atualizações.\n\n"@
}

/// The text of the file for a rule: a header that names the rule, then its instruction.
pub open spec fn managed(skill_name: Seq<char>, content: Seq<char>) -> Seq<char> {
    banner() + skill_name + notice() + content
}

/// The rules directory, as the directories that lead to it from the root
/// of the project.
pub open spec fn rules_path() -> Seq<Seq<char>> {
    seq![".cursor"@, "rules"@]
}

/// The last segment of a path holds no separator.
pub proof fn lemma_after_last(path: Seq<char>, c: char)
    ensures
        !after_last(path, c).contains(c),
        after_last(path, c).len() <= path.len(),
{
    lemma_tail_run_len_holds(path, other_than(c));
    let n = tail_run_len(path, other_than(c));
    let last = after_last(path, c);
    assert forall|i: int| 0 <= i < last.len() implies last[i] != c by {
        assert(last[i] == path[path.len() - n + i]);
        assert(other_than(c)(path[path.len() - n + i]));
    }
}

/// A safe name is a single path segment: it is not empty, holds no
/// separator, and is neither `.` nor `..`.
pub proof fn law_safe_name_is_one_segment(path: Seq<char>)
    ensures
        safe_name(path) matches Some(name) ==> name.len() > 0 && !name.contains('/') && name
            != "."@ && name != ".."@,
    decreases path.len(),
{
    let last = after_last(path, '/');
    lemma_after_last(path, '/');
    if path.len() > 0 && (last.len() == 0 || last == "."@) && last.len() < path.len() {
        law_safe_name_is_one_segment(path.take(path.len() - last.len() - 1));
    }
}

/// The last segment of a path, where it names a file.
pub fn safe_file_name(file_name: &str) -> (r: Option<String>)
    ensures
        match r {
            Some(name) => safe_name(file_name@) == Some(name@),
            None => safe_name(file_name@) is None,
        },
{
    let path = chars_of(file_name);
    let mut end: usize = path.len();
    assert(path@.take(end as int) == path@);
    loop
        invariant
            end <= path@.len(),
            path@ == file_name@,
            safe_name(file_name@) == safe_name(path@.take(end as int)),
        decreases end,
    {
        let head = copy_range(path.as_slice(), 0, end);
        assert(head@ == path@.take(end as int));
        if end == 0 {
            return None;
        }
        let n = tail_without(head.as_slice(), '/');
        let last = copy_range(head.as_slice(), end - n, end);
        assert(last@ == after_last(head@, '/'));
        if n == 0 || is_text(last.as_slice(), ".") {
            if n < end {
                assert(head@.take(end - n - 1) == path@.take(end - n - 1));
                end = end - n - 1;
            } else {
                return None;
            }
        } else if is_text(last.as_slice(), "..") {
            return None;
        } else {
            return Some(string_of(last.as_slice()));
        }
    }
}

/// The rules directory, as the directories that lead to it from the root
/// of the project.
pub fn rules_directory() -> (dirs: Vec<String>)
    ensures
        texts(dirs@) == rules_path(),
{
    let mut dirs: Vec<String> = Vec::new();
    dirs.push(String::from_str(".cursor"));
    dirs.push(String::from_str("rules"));
    assert(texts(dirs@) =~= rules_path());
    dirs
}

/// The text of the file for a rule.
pub fn managed_content(skill_name: &str, content: &str) -> (body: String)
    ensures
        body@ == managed(skill_name@, content@),
{
    let mut body = String::from_str("# Gerenciado pelo RustSkill - Skill: ");
    body.append(skill_name);
    body.append("\n# Modificações manuais podem ser sobrescritas em atualizações.\n\n");
    body.append(content);
    body
}

/// What is to be written for a payload: under the safe form of the file
/// name that it asks for, the managed text. A file name that names no
/// file is an error.
pub fn plan_install(content: &str, file_name: &str, skill_name: &str) -> (r: Result<
    InstallPlan,
    InstallError,
>)
    ensures
        match r {
            Ok(plan) => safe_name(file_name@) == Some(plan.file_name@) && plan.body@ == managed(
                skill_name@,
                content@,
            ),
            Err(e) => e == InstallError::InvalidFileName && safe_name(file_name@) is None,
        },
{
    match safe_file_name(file_name) {
        Some(name) => Ok(InstallPlan { file_name: name, body: managed_content(skill_name, content) }),
        None => Err(InstallError::InvalidFileName),
    }
}

/// Whether the caller is to warn that the directory looks like no
/// project: it holds neither a `package.json` nor a `Cargo.toml`.
pub fn lacks_manifest(has_package_json: bool, has_cargo_toml: bool) -> (r: bool)
    ensures
        r == (!has_package_json && !has_cargo_toml),
{
    !has_package_json && !has_cargo_toml
}

} // verus!
