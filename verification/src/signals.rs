//! Signal extraction from file names and from the import lines of source files.

use crate::fingerprint::{normalize, signal_of, Fingerprint};
use crate::split::{
    after_last, before_first, before_sub, head_before, head_before_sub, is_text, second_word,
    split_word, strip_chars, tail_after, tail_without, trim, trimmed, without,
};
use crate::text::{chars_of, copy_range, other_than, starts_with, tail_run_len};
use vstd::prelude::*;

verus! {

/// How many lines of a source file are searched for imports.
pub const SCAN_LIMIT: usize = 100;

/// The extension of a file name: what follows its last dot. A name without
/// a dot has none, nor has one whose only dot comes first.
pub open spec fn extension_of(name: Seq<char>) -> Option<Seq<char>> {
    let n = tail_run_len(name, other_than('.'));
    if n < name.len() && name.len() - n - 1 > 0 {
        Some(name.skip(name.len() - n))
    } else {
        None
    }
}

/// The signal that a file contributes by its name, if any.
pub open spec fn extension_signal(name: Seq<char>) -> Option<Seq<char>> {
    match extension_of(name) {
        Some(e) => signal_of(e),
        None => None,
    }
}

/// Extension signals of the languages whose sources are searched for imports.
pub open spec fn source_extensions() -> Seq<Seq<char>> {
    seq!["rs"@, "py"@, "go"@, "js"@, "ts"@, "tsx"@]
}

/// Whether a file of this name is a source file that is searched for imports.
pub open spec fn is_source_name(name: Seq<char>) -> bool {
    extension_signal(name) matches Some(t) && source_extensions().contains(t)
}

/// The extension of a file name.
pub fn file_extension(name: &[char]) -> (r: Option<Vec<char>>)
    ensures
        match r {
            Some(e) => extension_of(name@) == Some(e@),
            None => extension_of(name@) is None,
        },
{
    let n = tail_without(name, '.');
    if n < name.len() && name.len() - n - 1 > 0 {
        Some(copy_range(name, name.len() - n, name.len()))
    } else {
        None
    }
}

/// Whether `signal` is the extension of a language whose sources are searched.
pub fn is_source_extension(signal: &[char]) -> (r: bool)
    ensures
        r == source_extensions().contains(signal@),
{
    let r = is_text(signal, "rs") || is_text(signal, "py") || is_text(signal, "go") || is_text(
        signal,
        "js",
    ) || is_text(signal, "ts") || is_text(signal, "tsx");
    proof {
        let d = source_extensions();
        if r {
            assert(d[0] == "rs"@ && d[1] == "py"@ && d[2] == "go"@ && d[3] == "js"@ && d[4]
                == "ts"@ && d[5] == "tsx"@);
        }
    }
    r
}

/// Whether a file of this name is a source file that is searched for imports.
pub fn is_source_file(file_name: &[char]) -> (r: bool)
    ensures
        r == is_source_name(file_name@),
{
    match file_extension(file_name) {
        Some(ext) => match normalize(ext.as_slice()) {
            Some(t) => is_source_extension(t.as_slice()),
            None => false,
        },
        None => false,
    }
}

/// Records the extension of a visited file. Returns whether the file is a
/// source file, whose text is to be searched for imports.
pub fn observe_file(fp: &mut Fingerprint, file_name: &str) -> (wanted: bool)
    ensures
        final(fp).extensions() == match extension_signal(file_name@) {
            Some(t) => old(fp).extensions().insert(t),
            None => old(fp).extensions(),
        },
        final(fp).dependencies() == old(fp).dependencies(),
        final(fp).clean(),
        wanted == is_source_name(file_name@),
{
    let name = chars_of(file_name);
    match file_extension(name.as_slice()) {
        Some(ext) => fp.add_extension_chars(ext.as_slice()),
        None => fp.clean_holds(),
    }
    is_source_file(name.as_slice())
}

/// The raw token that an import line names, before normalization.
///
/// Three forms are recognized on the trimmed line, in this order:
/// - `import "a/b"`: the keyword goes, then every space, quote and
///   semicolon; the token is what follows the last `/`.
/// - `import x.y` and `from x.y import z`: the token is the second word up
///   to its first `.`, without semicolons and quotes.
/// - `use x::y;`: the token is the second word up to its first `::`,
///   without semicolons.
/// Any other line names nothing.
pub open spec fn import_token(line: Seq<char>) -> Option<Seq<char>> {
    let l = trim(line);
    if "import \""@.is_prefix_of(l) {
        Some(after_last(without(l.skip("import "@.len() as int), " \";"@), '/'))
    } else if "import "@.is_prefix_of(l) || "from "@.is_prefix_of(l) {
        let w = second_word(l);
        if w.len() > 0 {
            Some(without(before_first(w, '.'), ";\"'"@))
        } else {
            None
        }
    } else if "use "@.is_prefix_of(l) {
        let w = second_word(l);
        if w.len() > 0 {
            Some(without(before_sub(w, "::"@), ";"@))
        } else {
            None
        }
    } else {
        None
    }
}

/// The second whitespace-separated word of `s`; empty if there is none.
fn word_two(s: &[char]) -> (w: Vec<char>)
    ensures
        w@ == second_word(s@),
{
    let (_first, rest) = split_word(s);
    let (second, _more) = split_word(rest.as_slice());
    second
}

/// The raw token that an import line names.
pub fn scan_line(line: &[char]) -> (r: Option<Vec<char>>)
    ensures
        match r {
            Some(t) => import_token(line@) == Some(t@),
            None => import_token(line@) is None,
        },
{
    let trimmed_line = trimmed(line);
    let l = trimmed_line.as_slice();
    let quoted = chars_of("import \"");
    let import = chars_of("import ");
    let from = chars_of("from ");
    let using = chars_of("use ");
    proof {
        reveal_strlit("import \"");
        reveal_strlit("import ");
    }
    if starts_with(l, quoted.as_slice()) {
        let rest = copy_range(l, import.len(), l.len());
        let banned = chars_of(" \";");
        let bare = strip_chars(rest.as_slice(), banned.as_slice());
        Some(tail_after(bare.as_slice(), '/'))
    } else if starts_with(l, import.as_slice()) || starts_with(l, from.as_slice()) {
        let w = word_two(l);
        if w.len() > 0 {
            let head = head_before(w.as_slice(), '.');
            let banned = chars_of(";\"'");
            Some(strip_chars(head.as_slice(), banned.as_slice()))
        } else {
            None
        }
    } else if starts_with(l, using.as_slice()) {
        let w = word_two(l);
        if w.len() > 0 {
            let sep = chars_of("::");
            let head = head_before_sub(w.as_slice(), sep.as_slice());
            let banned = chars_of(";");
            Some(strip_chars(head.as_slice(), banned.as_slice()))
        } else {
            None
        }
    } else {
        None
    }
}

} // verus!
