//! Extraction over whole texts: the import scan of a source file and the
//! reading of the four manifests, each as a list of raw tokens and as an
//! update of a fingerprint.

use crate::fingerprint::{token_signals, Fingerprint};
use crate::manifest::{
    cargo_dependencies, cargo_names, go_mod_line, go_mod_tokens, json_outline, no_tokens,
    package_dependencies, package_names, requirement_line, requirement_tokens, toml_outline,
};
use crate::signals::{import_token, scan_line, SCAN_LIMIT};
use crate::split::{all_lines, first_lines, is_text, lines};
use crate::text::{chars_of, views};
use vstd::prelude::*;
use vstd::string::StringExecFns;

verus! {

/// The line-by-line formats that are read here.
#[derive(Clone, Copy, Debug, PartialEq, Eq, Structural)]
pub enum Grammar {
    /// Source text, searched for import statements.
    Imports,
    /// A plain-text list of pinned requirements.
    Requirements,
    /// A Go module declaration.
    GoModule,
}

/// The manifest files that are recognized at the root of a project.
#[derive(Clone, Copy, Debug, PartialEq, Eq, Structural)]
pub enum Manifest {
    /// `Cargo.toml`
    Cargo,
    /// `package.json`
    Package,
    /// `requirements.txt`
    Requirements,
    /// `go.mod`
    GoModule,
}

/// The tokens of one line of source text: the name it imports, if it imports one.
pub open spec fn import_tokens_of_line(line: Seq<char>) -> Seq<Seq<char>> {
    match import_token(line) {
        Some(t) => seq![t],
        None => Seq::empty(),
    }
}

/// The tokens that one line gives under a grammar.
pub open spec fn line_tokens(g: Grammar, line: Seq<char>) -> Seq<Seq<char>> {
    match g {
        Grammar::Imports => import_tokens_of_line(line),
        Grammar::Requirements => requirement_tokens(line),
        Grammar::GoModule => go_mod_tokens(line),
    }
}

/// The tokens of all lines under a grammar, in the order of the lines.
pub open spec fn gather(g: Grammar, all: Seq<Seq<char>>) -> Seq<Seq<char>>
    decreases all.len(),
{
    if all.len() == 0 {
        Seq::empty()
    } else {
        gather(g, all.drop_last()) + line_tokens(g, all.last())
    }
}

/// The lines of a source text that are searched: the first `SCAN_LIMIT`.
pub open spec fn searched_lines(content: Seq<char>) -> Seq<Seq<char>> {
    let all = lines(content);
    if all.len() <= SCAN_LIMIT {
        all
    } else {
        all.take(SCAN_LIMIT as int)
    }
}

/// The raw tokens that the imports of a source text name.
pub open spec fn import_tokens(content: Seq<char>) -> Seq<Seq<char>> {
    gather(Grammar::Imports, searched_lines(content))
}

/// The file name under which a manifest is looked for.
pub open spec fn manifest_name(m: Manifest) -> Seq<char> {
    match m {
        Manifest::Cargo => "Cargo.toml"@,
        Manifest::Package => "package.json"@,
        Manifest::Requirements => "requirements.txt"@,
        Manifest::GoModule => "go.mod"@,
    }
}

/// The raw dependency names that the text of a manifest declares.
pub open spec fn manifest_tokens(m: Manifest, text: Seq<char>) -> Seq<Seq<char>> {
    match m {
        Manifest::Cargo => cargo_names(text),
        Manifest::Package => package_names(text),
        Manifest::Requirements => gather(Grammar::Requirements, lines(text)),
        Manifest::GoModule => gather(Grammar::GoModule, lines(text)),
    }
}

/// A structured manifest that does not parse is skipped: it declares
/// nothing, and reading it adds nothing to any set of dependencies.
pub proof fn law_unparsed_manifest_is_skipped(m: Manifest, text: Seq<char>, deps: Set<Seq<char>>)
    requires
        (m == Manifest::Cargo && toml_outline(text) is None) || (m == Manifest::Package
            && json_outline(text) is None),
    ensures
        manifest_tokens(m, text) == Seq::<Seq<char>>::empty(),
        deps.union(token_signals(manifest_tokens(m, text))) == deps,
{
    assert(deps.union(token_signals(Seq::<Seq<char>>::empty())) =~= deps);
}

/// The tokens that one line gives under a grammar.
pub fn tokens_of_line(g: Grammar, line: &[char]) -> (out: Vec<Vec<char>>)
    ensures
        views(out@) == line_tokens(g, line@),
{
    match g {
        Grammar::Imports => match scan_line(line) {
            Some(token) => {
                let mut out: Vec<Vec<char>> = Vec::new();
                out.push(token);
                assert(views(out@) =~= seq![token@]);
                out
            },
            None => no_tokens(),
        },
        Grammar::Requirements => requirement_line(line),
        Grammar::GoModule => go_mod_line(line),
    }
}

/// The tokens of all lines under a grammar, in the order of the lines.
pub fn tokens_of_lines(g: Grammar, all: &Vec<Vec<char>>) -> (out: Vec<Vec<char>>)
    ensures
        views(out@) == gather(g, views(all@)),
{
    let ghost given = views(all@);
    let mut out: Vec<Vec<char>> = no_tokens();
    let mut i: usize = 0;
    assert(given.take(0).len() == 0);
    while i < all.len()
        invariant
            i <= all@.len(),
            given == views(all@),
            views(out@) == gather(g, given.take(i as int)),
        decreases all.len() - i,
    {
        let ghost before = views(out@);
        proof {
            assert(all@[i as int]@ == given[i as int]);
            assert(given.take(i + 1).drop_last() == given.take(i as int));
            assert(given.take(i + 1).last() == given[i as int]);
        }
        let mut found = tokens_of_line(g, all[i].as_slice());
        let ghost added = views(found@);
        out.append(&mut found);
        assert(views(out@) =~= before + added);
        i += 1;
    }
    assert(given.take(given.len() as int) == given);
    out
}

/// The raw tokens that the imports in the first `SCAN_LIMIT` lines of a source text name.
pub fn source_imports(content: &str) -> (out: Vec<Vec<char>>)
    ensures
        views(out@) == import_tokens(content@),
{
    let text = chars_of(content);
    let head = first_lines(text.as_slice(), SCAN_LIMIT);
    proof {
        let all = lines(content@);
        assert(all.take(all.len() as int) == all);
    }
    tokens_of_lines(Grammar::Imports, &head)
}

/// The raw dependency names that the text of a manifest declares. Text
/// that cannot be parsed declares none.
pub fn manifest_dependencies(m: Manifest, text: &str) -> (out: Vec<Vec<char>>)
    ensures
        views(out@) == manifest_tokens(m, text@),
{
    match m {
        Manifest::Cargo => cargo_dependencies(text),
        Manifest::Package => package_dependencies(text),
        Manifest::Requirements => {
            let content = chars_of(text);
            let all = all_lines(content.as_slice());
            tokens_of_lines(Grammar::Requirements, &all)
        },
        Manifest::GoModule => {
            let content = chars_of(text);
            let all = all_lines(content.as_slice());
            tokens_of_lines(Grammar::GoModule, &all)
        },
    }
}

/// The manifests that are looked for, in the order in which they are read.
pub fn known_manifests() -> (all: Vec<Manifest>)
    ensures
        all@ == seq![
            Manifest::Cargo,
            Manifest::Package,
            Manifest::Requirements,
            Manifest::GoModule,
        ],
{
    let mut all: Vec<Manifest> = Vec::new();
    all.push(Manifest::Cargo);
    all.push(Manifest::Package);
    all.push(Manifest::Requirements);
    all.push(Manifest::GoModule);
    assert(all@ =~= seq![
        Manifest::Cargo,
        Manifest::Package,
        Manifest::Requirements,
        Manifest::GoModule,
    ]);
    all
}

/// The file name under which a manifest is looked for.
pub fn manifest_file_name(m: Manifest) -> (name: String)
    ensures
        name@ == manifest_name(m),
{
    match m {
        Manifest::Cargo => String::from_str("Cargo.toml"),
        Manifest::Package => String::from_str("package.json"),
        Manifest::Requirements => String::from_str("requirements.txt"),
        Manifest::GoModule => String::from_str("go.mod"),
    }
}

/// Which manifest, if any, a file name at the root of the project stands for.
pub fn recognize(file_name: &str) -> (r: Option<Manifest>)
    ensures
        match r {
            Some(m) => manifest_name(m) == file_name@,
            None => forall|m: Manifest| manifest_name(m) != file_name@,
        },
{
    let name = chars_of(file_name);
    let n = name.as_slice();
    if is_text(n, "Cargo.toml") {
        Some(Manifest::Cargo)
    } else if is_text(n, "package.json") {
        Some(Manifest::Package)
    } else if is_text(n, "requirements.txt") {
        Some(Manifest::Requirements)
    } else if is_text(n, "go.mod") {
        Some(Manifest::GoModule)
    } else {
        None
    }
}

/// Searches the first `SCAN_LIMIT` lines of a source text for imports and
/// records what they name as dependency signals.
pub fn scan_source(fp: &mut Fingerprint, content: &str)
    ensures
        final(fp).dependencies() == old(fp).dependencies().union(
            token_signals(import_tokens(content@)),
        ),
        final(fp).extensions() == old(fp).extensions(),
        final(fp).clean(),
{
    let tokens = source_imports(content);
    fp.add_dependencies(&tokens);
}

/// Records the dependency names that the text of a manifest declares.
/// Text that cannot be parsed leaves the fingerprint as it was.
pub fn scan_manifest(fp: &mut Fingerprint, m: Manifest, text: &str)
    ensures
        final(fp).dependencies() == old(fp).dependencies().union(
            token_signals(manifest_tokens(m, text@)),
        ),
        final(fp).extensions() == old(fp).extensions(),
        final(fp).clean(),
{
    let tokens = manifest_dependencies(m, text);
    fp.add_dependencies(&tokens);
}

} // verus!
