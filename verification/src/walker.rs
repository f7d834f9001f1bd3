//! Which directories a walk over a project tree leaves out.

use crate::split::is_text;
use crate::text::{chars_of, texts};
use vstd::prelude::*;

verus! {

/// Base names of the directories that are never descended into: build
/// output, dependency caches, virtual environments, version-control data.
pub open spec fn noise_dirs() -> Seq<Seq<char>> {
    seq!["target"@, "node_modules"@, ".git"@, "venv"@, "dist"@, "build"@]
}

/// Whether a directory of this base name is left out, with all below it.
pub open spec fn is_noise(name: Seq<char>) -> bool {
    noise_dirs().contains(name)
}

/// Whether a file below these directories is reached: none of them is left out.
pub open spec fn is_kept(dirs: Seq<Seq<char>>) -> bool {
    forall|i: int| 0 <= i < dirs.len() ==> !is_noise(#[trigger] dirs[i])
}

/// Whether the walk skips the directory with base name `name`.
pub fn is_noise_dir(name: &str) -> (r: bool)
    ensures
        r == is_noise(name@),
{
    let n = chars_of(name);
    let s = n.as_slice();
    let r = is_text(s, "target") || is_text(s, "node_modules") || is_text(s, ".git") || is_text(
        s,
        "venv",
    ) || is_text(s, "dist") || is_text(s, "build");
    proof {
        let d = noise_dirs();
        if r {
            assert(d[0] == "target"@ && d[1] == "node_modules"@ && d[2] == ".git"@ && d[3]
                == "venv"@ && d[4] == "dist"@ && d[5] == "build"@);
        }
    }
    r
}

/// Whether the walk reaches a file that lies below the directories
/// `dirs`, given by their base names from the root of the project down.
pub fn keeps(dirs: &Vec<String>) -> (r: bool)
    ensures
        r == is_kept(texts(dirs@)),
{
    let mut i: usize = 0;
    while i < dirs.len()
        invariant
            i <= dirs@.len(),
            forall|j: int| 0 <= j < i ==> !is_noise(#[trigger] texts(dirs@)[j]),
        decreases dirs.len() - i,
    {
        if is_noise_dir(dirs[i].as_str()) {
            assert(is_noise(texts(dirs@)[i as int]));
            return false;
        }
        i += 1;
    }
    true
}

} // verus!
