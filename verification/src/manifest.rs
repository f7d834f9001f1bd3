//! Dependency names declared in the manifest files at the root of a project.
//!
//! Four manifests are known. The two structured ones are parsed by the
//! `toml` and `serde_json` crates, which hand back an outline of the
//! document; the two plain-text ones are read line by line here.

use crate::split::{
    after_last, first_word, is_one_of, is_text, second_word, split_word, tail_after, trim,
    trimmed,
};
use crate::text::{
    alphanumeric, chars_of, chars_of_all, copy_range, lemma_run_len, run_len, starts_with, texts,
    views,
};
use vstd::prelude::*;

verus! {

/// A top-level entry of a structured manifest: its name and, where its
/// value is a table, the keys of that table.
pub struct Section {
    pub name: String,
    pub keys: Option<Vec<String>>,
}

impl Section {
    /// The entry as plain sequences.
    pub open spec fn view(&self) -> (Seq<char>, Option<Seq<Seq<char>>>) {
        (
            self.name@,
            match self.keys {
                Some(k) => Some(texts(k@)),
                None => None,
            },
        )
    }
}

/// The entries of an outline as plain sequences.
pub open spec fn outline(v: Seq<Section>) -> Seq<(Seq<char>, Option<Seq<Seq<char>>>)> {
    Seq::new(v.len(), |i: int| v[i].view())
}

/// The top-level entries of a TOML document, in the order in which the
/// `toml` crate holds them; `None` where the text is no TOML document.
pub uninterp spec fn toml_outline(text: Seq<char>) -> Option<Seq<(Seq<char>, Option<Seq<Seq<char>>>)>>;

/// The members of the object that a JSON text holds, in the order in which
/// `serde_json` holds them; none where the text holds another kind of
/// value, and `None` where the text is not JSON.
pub uninterp spec fn json_outline(text: Seq<char>) -> Option<Seq<(Seq<char>, Option<Seq<Seq<char>>>)>>;

/// Parses a TOML document with `toml::Table`'s `FromStr`, and lists its
/// top-level entries, each with the keys of its table where it is one.
/// Trusted: the result is the outline that the `toml` crate gives for this
/// text, and `None` exactly where the crate reports an error.
#[verifier::external_body]
fn parse_toml(text: &str) -> (r: Option<Vec<Section>>)
    ensures
        match r {
            Some(v) => toml_outline(text@) == Some(outline(v@)),
            None => toml_outline(text@) is None,
        },
{
    let table = text.parse::<toml::Table>().ok()?;
    let mut out = Vec::new();
    for (name, value) in table.iter() {
        let keys = value.as_table().map(|t| t.keys().cloned().collect());
        out.push(Section { name: name.clone(), keys });
    }
    Some(out)
}

/// Parses a JSON text with `serde_json::from_str`, and lists the members
/// of its object, each with the keys of its own object where it is one.
/// Trusted: the result is the outline that `serde_json` gives for this
/// text, and `None` exactly where the crate reports an error.
#[verifier::external_body]
fn parse_json(text: &str) -> (r: Option<Vec<Section>>)
    ensures
        match r {
            Some(v) => json_outline(text@) == Some(outline(v@)),
            None => json_outline(text@) is None,
        },
{
    let value = serde_json::from_str::<serde_json::Value>(text).ok()?;
    let mut out = Vec::new();
    if let Some(object) = value.as_object() {
        for (name, inner) in object.iter() {
            let keys = inner.as_object().map(|m| m.keys().cloned().collect());
            out.push(Section { name: name.clone(), keys });
        }
    }
    Some(out)
}

/// The keys of the first entry called `name`, where that entry is a
/// table; no keys where there is no such entry or it is no table.
pub open spec fn section_keys(
    o: Seq<(Seq<char>, Option<Seq<Seq<char>>>)>,
    name: Seq<char>,
) -> Seq<Seq<char>>
    decreases o.len(),
{
    if o.len() == 0 {
        Seq::empty()
    } else if o.first().0 == name {
        match o.first().1 {
            Some(k) => k,
            None => Seq::empty(),
        }
    } else {
        section_keys(o.drop_first(), name)
    }
}

/// The names that an outline declares in two sections, those of `first`
/// before those of `second`.
pub open spec fn declared(
    o: Seq<(Seq<char>, Option<Seq<Seq<char>>>)>,
    first: Seq<char>,
    second: Seq<char>,
) -> Seq<Seq<char>> {
    section_keys(o, first) + section_keys(o, second)
}

/// The dependency names that a `Cargo.toml` declares: the keys of its
/// `dependencies` and `dev-dependencies` tables. A text that does not
/// parse declares none.
pub open spec fn cargo_names(text: Seq<char>) -> Seq<Seq<char>> {
    match toml_outline(text) {
        Some(o) => declared(o, "dependencies"@, "dev-dependencies"@),
        None => Seq::empty(),
    }
}

/// The dependency names that a `package.json` declares: the keys of its
/// `dependencies` and `devDependencies` objects. A text that does not
/// parse declares none.
pub open spec fn package_names(text: Seq<char>) -> Seq<Seq<char>> {
    match json_outline(text) {
        Some(o) => declared(o, "dependencies"@, "devDependencies"@),
        None => Seq::empty(),
    }
}

/// The keys of the first section called `name`.
pub fn keys_of(sections: &Vec<Section>, name: &str) -> (out: Vec<Vec<char>>)
    ensures
        views(out@) == section_keys(outline(sections@), name@),
{
    let ghost o = outline(sections@);
    let mut i: usize = 0;
    assert(o.skip(0) == o);
    while i < sections.len()
        invariant
            i <= sections@.len(),
            o == outline(sections@),
            section_keys(o, name@) == section_keys(o.skip(i as int), name@),
        decreases sections.len() - i,
    {
        let section = &sections[i];
        let label = chars_of(section.name.as_str());
        proof {
            assert(o.skip(i as int).first() == section.view());
            assert(o.skip(i as int).drop_first() == o.skip(i + 1));
        }
        if is_text(label.as_slice(), name) {
            return match &section.keys {
                Some(keys) => chars_of_all(keys),
                None => {
                    let none: Vec<Vec<char>> = Vec::new();
                    assert(views(none@) =~= Seq::<Seq<char>>::empty());
                    none
                },
            };
        }
        i += 1;
    }
    let none: Vec<Vec<char>> = Vec::new();
    assert(views(none@) =~= Seq::<Seq<char>>::empty());
    none
}

/// The names that parsed sections declare under `first` and under `second`.
pub fn declared_in(sections: &Vec<Section>, first: &str, second: &str) -> (out: Vec<Vec<char>>)
    ensures
        views(out@) == declared(outline(sections@), first@, second@),
{
    let mut out = keys_of(sections, first);
    let mut more = keys_of(sections, second);
    let ghost a = views(out@);
    let ghost b = views(more@);
    out.append(&mut more);
    assert(views(out@) =~= a + b);
    out
}

/// The dependency names declared in the text of a `Cargo.toml`.
pub fn cargo_dependencies(text: &str) -> (out: Vec<Vec<char>>)
    ensures
        views(out@) == cargo_names(text@),
{
    match parse_toml(text) {
        Some(sections) => declared_in(&sections, "dependencies", "dev-dependencies"),
        None => {
            let none: Vec<Vec<char>> = Vec::new();
            assert(views(none@) =~= Seq::<Seq<char>>::empty());
            none
        },
    }
}

/// The dependency names declared in the text of a `package.json`.
pub fn package_dependencies(text: &str) -> (out: Vec<Vec<char>>)
    ensures
        views(out@) == package_names(text@),
{
    match parse_json(text) {
        Some(sections) => declared_in(&sections, "dependencies", "devDependencies"),
        None => {
            let none: Vec<Vec<char>> = Vec::new();
            assert(views(none@) =~= Seq::<Seq<char>>::empty());
            none
        },
    }
}

/// The predicate "may stand in a package name": alphanumeric, `-` or `_`.
pub open spec fn name_char() -> spec_fn(char) -> bool {
    |c: char| alphanumeric(c) || c == '-' || c == '_'
}

/// The tokens of one line of a requirements file. A blank line and a
/// comment give none; any other line gives the run of name characters at
/// its start.
pub open spec fn requirement_tokens(line: Seq<char>) -> Seq<Seq<char>> {
    let l = trim(line);
    if l.len() == 0 || l.first() == '#' {
        Seq::empty()
    } else {
        seq![line.take(run_len(line, name_char()) as int)]
    }
}

/// A module path and its last segment.
pub open spec fn module_tokens(path: Seq<char>) -> Seq<Seq<char>> {
    seq![path, after_last(path, '/')]
}

/// The tokens of one line of a `go.mod`. A blank line and a `//` comment
/// give none. A line `require <path> ...` gives the path and its last
/// segment. Any other line that holds a `/` and does not begin with
/// `module`, `go` or `replace` gives its first word and the last segment
/// of that.
pub open spec fn go_mod_tokens(line: Seq<char>) -> Seq<Seq<char>> {
    let l = trim(line);
    let w1 = first_word(l);
    let w2 = second_word(l);
    if l.len() == 0 || "//"@.is_prefix_of(l) {
        Seq::empty()
    } else if w2.len() > 0 && w1 == "require"@ {
        module_tokens(w2)
    } else if l.contains('/') && w1 != "module"@ && w1 != "go"@ && w1 != "replace"@ {
        module_tokens(w1)
    } else {
        Seq::empty()
    }
}

/// Number of leading name characters of `s`.
fn leading_name(s: &[char]) -> (n: usize)
    ensures
        n == run_len(s@, name_char()),
        n <= s.len(),
{
    let mut i: usize = 0;
    while i < s.len() && (s[i].is_alphanumeric() || s[i] == '-' || s[i] == '_')
        invariant
            i <= s.len(),
            forall|j: int| 0 <= j < i ==> name_char()(#[trigger] s@[j]),
        decreases s.len() - i,
    {
        i += 1;
    }
    proof {
        lemma_run_len(s@, name_char(), i as int);
    }
    i
}

/// A list that holds no token.
pub fn no_tokens() -> (out: Vec<Vec<char>>)
    ensures
        views(out@) == Seq::<Seq<char>>::empty(),
{
    let out: Vec<Vec<char>> = Vec::new();
    assert(views(out@) =~= Seq::<Seq<char>>::empty());
    out
}

/// The tokens of one line of a requirements file.
pub fn requirement_line(line: &[char]) -> (out: Vec<Vec<char>>)
    ensures
        views(out@) == requirement_tokens(line@),
{
    let l = trimmed(line);
    if l.len() == 0 || l[0] == '#' {
        return no_tokens();
    }
    let n = leading_name(line);
    let mut out: Vec<Vec<char>> = Vec::new();
    out.push(copy_range(line, 0, n));
    assert(views(out@) =~= requirement_tokens(line@));
    out
}

/// A module path and its last segment.
fn module_pair(path: Vec<char>) -> (out: Vec<Vec<char>>)
    ensures
        views(out@) == module_tokens(path@),
{
    let short = tail_after(path.as_slice(), '/');
    let mut out: Vec<Vec<char>> = Vec::new();
    out.push(path);
    out.push(short);
    assert(views(out@) =~= module_tokens(path@));
    out
}

/// The tokens of one line of a `go.mod`.
pub fn go_mod_line(line: &[char]) -> (out: Vec<Vec<char>>)
    ensures
        views(out@) == go_mod_tokens(line@),
{
    let trimmed_line = trimmed(line);
    let l = trimmed_line.as_slice();
    let comment = chars_of("//");
    if l.len() == 0 || starts_with(l, comment.as_slice()) {
        return no_tokens();
    }
    let (w1, rest) = split_word(l);
    let (w2, _more) = split_word(rest.as_slice());
    if w2.len() > 0 && is_text(w1.as_slice(), "require") {
        module_pair(w2)
    } else if is_one_of('/', l) && !is_text(w1.as_slice(), "module") && !is_text(
        w1.as_slice(),
        "go",
    ) && !is_text(w1.as_slice(), "replace") {
        module_pair(w1)
    } else {
        no_tokens()
    }
}

} // verus!
