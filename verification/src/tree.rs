//! The fingerprint of a whole project tree.
//!
//! The walk itself is done by the caller, who reads the files that
//! `wants_text` asks for and hands over what it met, each file with the
//! directories that lead to it. Files below a directory that `walker`
//! names are passed over, so the caller may as well not descend there.
//! Which signals the tree has does not depend on the order in which its
//! files were met.

use crate::extract::{import_tokens, manifest_tokens, scan_manifest, scan_source, Manifest};
use crate::fingerprint::{token_signals, Fingerprint, Signals};
use crate::signals::{extension_signal, is_source_file, is_source_name, observe_file};
use crate::text::{chars_of, texts};
use crate::walker::{is_kept, keeps};
use vstd::prelude::*;

verus! {

/// A file met during the walk.
pub struct FileSeen {
    /// Base names of the directories that lead from the root of the
    /// project to the file.
    pub dirs: Vec<String>,
    /// Base name of the file.
    pub name: String,
    /// Its content, where it was read and is text.
    pub text: Option<String>,
}

/// A manifest found at the root of the project.
pub struct ManifestSeen {
    pub kind: Manifest,
    /// Its content.
    pub text: String,
}

/// A file met during the walk, as plain values.
pub ghost struct FileView {
    pub dirs: Seq<Seq<char>>,
    pub name: Seq<char>,
    pub text: Option<Seq<char>>,
}

/// A manifest found at the root, as plain values.
pub ghost struct ManifestView {
    pub kind: Manifest,
    pub text: Seq<char>,
}

impl FileSeen {
    /// The file as plain values.
    pub open spec fn view(&self) -> FileView {
        FileView {
            dirs: texts(self.dirs@),
            name: self.name@,
            text: match self.text {
                Some(t) => Some(t@),
                None => None,
            },
        }
    }
}

impl ManifestSeen {
    /// The manifest as plain values.
    pub open spec fn view(&self) -> ManifestView {
        ManifestView { kind: self.kind, text: self.text@ }
    }
}

/// A list of files as plain values.
pub open spec fn file_views(files: Seq<FileSeen>) -> Seq<FileView> {
    Seq::new(files.len(), |i: int| files[i]@)
}

/// A list of manifests as plain values.
pub open spec fn manifest_views(manifests: Seq<ManifestSeen>) -> Seq<ManifestView> {
    Seq::new(manifests.len(), |i: int| manifests[i]@)
}

/// The extension signal that one file contributes, if any. A file below a
/// directory that the walk leaves out contributes none.
pub open spec fn file_extension_signal(f: FileView) -> Option<Seq<char>> {
    if is_kept(f.dirs) {
        extension_signal(f.name)
    } else {
        None
    }
}

/// The dependency signals that one file contributes: those of its
/// imports, if it is a source file whose text was read. A file below a
/// directory that the walk leaves out contributes none.
pub open spec fn file_dependencies(f: FileView) -> Set<Seq<char>> {
    match f.text {
        Some(text) => if is_kept(f.dirs) && is_source_name(f.name) {
            token_signals(import_tokens(text))
        } else {
            Set::empty()
        },
        None => Set::empty(),
    }
}

/// The dependency signals that one manifest contributes.
pub open spec fn manifest_signals(m: ManifestView) -> Set<Seq<char>> {
    token_signals(manifest_tokens(m.kind, m.text))
}

/// Whether the file at `i` has the extension signal `t`.
pub open spec fn file_shows(files: Seq<FileView>, i: int, t: Seq<char>) -> bool {
    0 <= i < files.len() && file_extension_signal(files[i]) == Some(t)
}

/// Whether the file at `i` imports what gives the signal `t`.
pub open spec fn file_imports(files: Seq<FileView>, i: int, t: Seq<char>) -> bool {
    0 <= i < files.len() && file_dependencies(files[i]).contains(t)
}

/// Whether the manifest at `j` declares what gives the signal `t`.
pub open spec fn manifest_declares(manifests: Seq<ManifestView>, j: int, t: Seq<char>) -> bool {
    0 <= j < manifests.len() && manifest_signals(manifests[j]).contains(t)
}

/// The extension signals of a tree: those that some file shows.
pub open spec fn tree_extensions(files: Seq<FileView>) -> Set<Seq<char>> {
    Set::new(|t: Seq<char>| exists|i: int| #[trigger] file_shows(files, i, t))
}

/// The dependency signals of a tree: those that some source file imports
/// or some manifest declares.
pub open spec fn tree_dependencies(files: Seq<FileView>, manifests: Seq<ManifestView>) -> Set<
    Seq<char>,
> {
    Set::new(
        |t: Seq<char>|
            (exists|i: int| #[trigger] file_imports(files, i, t)) || (exists|j: int| #[trigger]
                manifest_declares(manifests, j, t)),
    )
}

/// The signals of a tree.
pub open spec fn tree_signals(files: Seq<FileView>, manifests: Seq<ManifestView>) -> Signals {
    Signals {
        extensions: tree_extensions(files),
        dependencies: tree_dependencies(files, manifests),
    }
}

/// Whether the text of a file of this name is wanted: it is for source files.
pub fn wants_text(file_name: &str) -> (r: bool)
    ensures
        r == is_source_name(file_name@),
{
    let name = chars_of(file_name);
    is_source_file(name.as_slice())
}

/// Records one file: its extension and, if it is a source file whose text
/// was read, what it imports.
pub fn record_file(fp: &mut Fingerprint, file: &FileSeen)
    ensures
        final(fp).extensions() == match file_extension_signal(file@) {
            Some(t) => old(fp).extensions().insert(t),
            None => old(fp).extensions(),
        },
        final(fp).dependencies() == old(fp).dependencies().union(file_dependencies(file@)),
        final(fp).clean(),
{
    let ghost before = fp.dependencies();
    if !keeps(&file.dirs) {
        fp.clean_holds();
        assert(before.union(Set::<Seq<char>>::empty()) =~= before);
        return;
    }
    let wanted = observe_file(fp, file.name.as_str());
    match &file.text {
        Some(text) => {
            if wanted {
                scan_source(fp, text.as_str());
            } else {
                assert(before.union(Set::<Seq<char>>::empty()) =~= before);
            }
        },
        None => {
            assert(before.union(Set::<Seq<char>>::empty()) =~= before);
        },
    }
}

/// One more file adds what it shows and what it imports.
pub proof fn lemma_tree_push_file(files: Seq<FileView>, manifests: Seq<ManifestView>, f: FileView)
    ensures
        tree_extensions(files.push(f)) == match file_extension_signal(f) {
            Some(t) => tree_extensions(files).insert(t),
            None => tree_extensions(files),
        },
        tree_dependencies(files.push(f), manifests) == tree_dependencies(files, manifests).union(
            file_dependencies(f),
        ),
{
    let more = files.push(f);
    let ext_after = match file_extension_signal(f) {
        Some(t) => tree_extensions(files).insert(t),
        None => tree_extensions(files),
    };
    assert forall|t: Seq<char>| tree_extensions(more).contains(t) implies ext_after.contains(
        t,
    ) by {
        let i = choose|i: int| #[trigger] file_shows(more, i, t);
        if i < files.len() {
            assert(file_shows(files, i, t));
        }
    }
    assert forall|t: Seq<char>| ext_after.contains(t) implies tree_extensions(more).contains(
        t,
    ) by {
        if tree_extensions(files).contains(t) {
            let i = choose|i: int| #[trigger] file_shows(files, i, t);
            assert(file_shows(more, i, t));
        } else {
            assert(file_shows(more, files.len() as int, t));
        }
    }
    assert(tree_extensions(more) =~= ext_after);
    let dep_after = tree_dependencies(files, manifests).union(file_dependencies(f));
    assert forall|t: Seq<char>| tree_dependencies(more, manifests).contains(
        t,
    ) implies dep_after.contains(t) by {
        if exists|i: int| #[trigger] file_imports(more, i, t) {
            let i = choose|i: int| #[trigger] file_imports(more, i, t);
            if i < files.len() {
                assert(file_imports(files, i, t));
            }
        } else {
            let j = choose|j: int| #[trigger] manifest_declares(manifests, j, t);
            assert(manifest_declares(manifests, j, t));
        }
    }
    assert forall|t: Seq<char>| dep_after.contains(t) implies tree_dependencies(
        more,
        manifests,
    ).contains(t) by {
        if file_dependencies(f).contains(t) {
            assert(file_imports(more, files.len() as int, t));
        } else if exists|i: int| #[trigger] file_imports(files, i, t) {
            let i = choose|i: int| #[trigger] file_imports(files, i, t);
            assert(file_imports(more, i, t));
        } else {
            let j = choose|j: int| #[trigger] manifest_declares(manifests, j, t);
            assert(manifest_declares(manifests, j, t));
        }
    }
    assert(tree_dependencies(more, manifests) =~= dep_after);
}

/// One more manifest adds what it declares.
pub proof fn lemma_tree_push_manifest(
    files: Seq<FileView>,
    manifests: Seq<ManifestView>,
    m: ManifestView,
)
    ensures
        tree_dependencies(files, manifests.push(m)) == tree_dependencies(files, manifests).union(
            manifest_signals(m),
        ),
{
    let more = manifests.push(m);
    let after = tree_dependencies(files, manifests).union(manifest_signals(m));
    assert forall|t: Seq<char>| tree_dependencies(files, more).contains(t) implies after.contains(
        t,
    ) by {
        if exists|i: int| #[trigger] file_imports(files, i, t) {
            let i = choose|i: int| #[trigger] file_imports(files, i, t);
            assert(file_imports(files, i, t));
        } else {
            let j = choose|j: int| #[trigger] manifest_declares(more, j, t);
            if j < manifests.len() {
                assert(manifest_declares(manifests, j, t));
            }
        }
    }
    assert forall|t: Seq<char>| after.contains(t) implies tree_dependencies(files, more).contains(
        t,
    ) by {
        if manifest_signals(m).contains(t) {
            assert(manifest_declares(more, manifests.len() as int, t));
        } else if exists|i: int| #[trigger] file_imports(files, i, t) {
            let i = choose|i: int| #[trigger] file_imports(files, i, t);
            assert(file_imports(files, i, t));
        } else {
            let j = choose|j: int| #[trigger] manifest_declares(manifests, j, t);
            assert(manifest_declares(more, j, t));
        }
    }
    assert(tree_dependencies(files, more) =~= after);
}

/// The fingerprint of a tree, from the files met during the walk and the
/// manifests found at its root.
pub fn fingerprint_of(files: &Vec<FileSeen>, manifests: &Vec<ManifestSeen>) -> (fp: Fingerprint)
    ensures
        fp@ == tree_signals(file_views(files@), manifest_views(manifests@)),
        fp.clean(),
{
    let ghost fs = file_views(files@);
    let ghost ms = manifest_views(manifests@);
    let ghost none = Seq::<ManifestView>::empty();
    let mut fp = Fingerprint::new();
    proof {
        assert(tree_extensions(fs.take(0)) =~= Set::<Seq<char>>::empty());
        assert(tree_dependencies(fs.take(0), none) =~= Set::<Seq<char>>::empty());
    }
    let mut i: usize = 0;
    while i < files.len()
        invariant
            i <= files@.len(),
            fs == file_views(files@),
            none == Seq::<ManifestView>::empty(),
            fp.extensions() == tree_extensions(fs.take(i as int)),
            fp.dependencies() == tree_dependencies(fs.take(i as int), none),
            fp.clean(),
        decreases files.len() - i,
    {
        proof {
            assert(fs.take(i + 1) == fs.take(i as int).push(files@[i as int]@));
            lemma_tree_push_file(fs.take(i as int), none, files@[i as int]@);
        }
        record_file(&mut fp, &files[i]);
        i += 1;
    }
    assert(fs.take(fs.len() as int) == fs);
    assert(ms.take(0) == none);
    let mut j: usize = 0;
    while j < manifests.len()
        invariant
            j <= manifests@.len(),
            ms == manifest_views(manifests@),
            fp.extensions() == tree_extensions(fs),
            fp.dependencies() == tree_dependencies(fs, ms.take(j as int)),
            fp.clean(),
        decreases manifests.len() - j,
    {
        proof {
            assert(ms.take(j + 1) == ms.take(j as int).push(manifests@[j as int]@));
            lemma_tree_push_manifest(fs, ms.take(j as int), manifests@[j as int]@);
        }
        scan_manifest(&mut fp, manifests[j].kind, manifests[j].text.as_str());
        j += 1;
    }
    assert(ms.take(ms.len() as int) == ms);
    fp
}

} // verus!
