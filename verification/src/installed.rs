//! Which rules are already present in the rules directory.

use crate::fingerprint::{holds, lemma_token_set_push, token_set};
use crate::split::{replace_char, replaced, tail_without};
use crate::text::{chars_of, copy_range, other_than, tail_run_len, texts};
use vstd::prelude::*;

verus! {

/// A file name without its extension. The extension is what follows the
/// last dot, whatever it is; a name without a dot, or whose only dot comes
/// first, is left whole.
pub open spec fn stem(file_name: Seq<char>) -> Seq<char> {
    let n = tail_run_len(file_name, other_than('.'));
    if n < file_name.len() && file_name.len() - n - 1 > 0 {
        file_name.take(file_name.len() - n - 1)
    } else {
        file_name
    }
}

/// The name under which a rule is written into the rules directory: its
/// id with every `/` turned into `-`.
pub open spec fn materialized(id: Seq<char>) -> Seq<char> {
    replaced(id, '/', '-')
}

/// The stems of a list of file names, as a set.
pub open spec fn stems(names: Seq<Seq<char>>) -> Set<Seq<char>> {
    Set::new(|t: Seq<char>| exists|i: int| 0 <= i < names.len() && stem(#[trigger] names[i]) == t)
}

/// A file name without its extension.
pub fn file_stem(file_name: &[char]) -> (v: Vec<char>)
    ensures
        v@ == stem(file_name@),
{
    let n = tail_without(file_name, '.');
    if n < file_name.len() && file_name.len() - n - 1 > 0 {
        copy_range(file_name, 0, file_name.len() - n - 1)
    } else {
        let whole = copy_range(file_name, 0, file_name.len());
        assert(whole@ == file_name@);
        whole
    }
}

/// The name under which the rule `id` is written into the rules directory.
pub fn materialized_name(id: &str) -> (v: Vec<char>)
    ensures
        v@ == materialized(id@),
{
    let chars = chars_of(id);
    replace_char(chars.as_slice(), '/', '-')
}

/// The rules found in the rules directory, by the names of its files.
pub struct InstalledMarker {
    names: Vec<Vec<char>>,
}

impl InstalledMarker {
    /// The materialized names that are present.
    pub closed spec fn view(&self) -> Set<Seq<char>> {
        token_set(self.names@)
    }

    /// Reads the listing of the rules directory: every file stands for the
    /// rule that its name, without the extension, spells.
    pub fn from_file_names(file_names: &Vec<String>) -> (marker: InstalledMarker)
        ensures
            marker@ == stems(texts(file_names@)),
    {
        let mut names: Vec<Vec<char>> = Vec::new();
        let ghost given = texts(file_names@);
        let mut i: usize = 0;
        assert(token_set(names@) =~= stems(given.take(0)));
        while i < file_names.len()
            invariant
                i <= file_names@.len(),
                given == texts(file_names@),
                token_set(names@) == stems(given.take(i as int)),
            decreases file_names.len() - i,
        {
            let name = chars_of(file_names[i].as_str());
            let s = file_stem(name.as_slice());
            proof {
                lemma_token_set_push(names@, s);
                lemma_stems_push(given.take(i as int), given[i as int]);
                assert(given.take(i + 1) == given.take(i as int).push(given[i as int]));
            }
            names.push(s);
            i += 1;
        }
        assert(given.take(given.len() as int) == given);
        InstalledMarker { names }
    }

    /// Whether the rule `id` is present.
    pub fn contains(&self, id: &str) -> (r: bool)
        ensures
            r == self@.contains(materialized(id@)),
    {
        let name = materialized_name(id);
        holds(&self.names, name.as_slice())
    }
}

/// One more file name adds its stem.
pub proof fn lemma_stems_push(names: Seq<Seq<char>>, name: Seq<char>)
    ensures
        stems(names.push(name)) == stems(names).insert(stem(name)),
{
    let more = names.push(name);
    assert forall|t: Seq<char>| stems(more).contains(t) implies stems(names).insert(
        stem(name),
    ).contains(t) by {
        let i = choose|i: int| 0 <= i < more.len() && stem(#[trigger] more[i]) == t;
        if i < names.len() {
            assert(stem(names[i]) == t);
        }
    }
    assert forall|t: Seq<char>| stems(names).insert(stem(name)).contains(t) implies stems(
        more,
    ).contains(t) by {
        if stems(names).contains(t) {
            let i = choose|i: int| 0 <= i < names.len() && stem(#[trigger] names[i]) == t;
            assert(stem(more[i]) == t);
        } else {
            assert(stem(more[names.len() as int]) == t);
        }
    }
    assert(stems(more) =~= stems(names).insert(stem(name)));
}

} // verus!
