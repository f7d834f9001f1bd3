//! The fingerprint of a project tree: the extension and dependency signals found in it.

use crate::split::{is_trimmed, lowered, trim, trimmed};
use crate::text::{chars_of, lowercase, same, strings_of, texts, views};
use vstd::prelude::*;

verus! {

/// What a raw token becomes before it enters a fingerprint: trimmed, then
/// lowercased. A token that is empty once trimmed, or that comes out of
/// lowercasing empty or with whitespace at either end, is no signal.
pub open spec fn signal_of(raw: Seq<char>) -> Option<Seq<char>> {
    let t = lowercase(trim(raw));
    if trim(raw).len() > 0 && t.len() > 0 && is_trimmed(t) {
        Some(t)
    } else {
        None
    }
}

/// A signal is a non-empty, trimmed token in lowercase form.
pub open spec fn is_signal(t: Seq<char>) -> bool {
    &&& t.len() > 0
    &&& is_trimmed(t)
    &&& exists|raw: Seq<char>| t == #[trigger] lowercase(raw)
}

/// Every token of `s` is a signal.
pub open spec fn only_signals(s: Set<Seq<char>>) -> bool {
    forall|t: Seq<char>| s.contains(t) ==> is_signal(t)
}

/// The tokens held by a list, as a set.
pub open spec fn token_set(v: Seq<Vec<char>>) -> Set<Seq<char>> {
    Set::new(|t: Seq<char>| exists|i: int| 0 <= i < v.len() && #[trigger] v[i]@ == t)
}

/// No token occurs twice in the list.
pub open spec fn distinct(v: Seq<Vec<char>>) -> bool {
    forall|i: int, j: int| 0 <= i < j < v.len() ==> #[trigger] v[i]@ != #[trigger] v[j]@
}

/// Whatever `signal_of` yields is a signal.
pub proof fn lemma_signal_of_is_signal(raw: Seq<char>)
    ensures
        signal_of(raw) matches Some(t) ==> is_signal(t),
{
    if signal_of(raw) is Some {
        assert(signal_of(raw)->0 == lowercase(trim(raw)));
    }
}

/// Keeps a lowercased token only if it is fit to be a signal: non-empty,
/// with no whitespace at either end.
pub fn accept_token(t: Vec<char>) -> (r: Option<Vec<char>>)
    ensures
        r == (if t@.len() > 0 && is_trimmed(t@) {
            Some(t)
        } else {
            None
        }),
{
    if t.len() == 0 {
        return None;
    }
    if t[0].is_whitespace() || t[t.len() - 1].is_whitespace() {
        return None;
    }
    Some(t)
}

/// Normalizes a raw token into a signal, if it yields one.
pub fn normalize(raw: &[char]) -> (r: Option<Vec<char>>)
    ensures
        match r {
            Some(t) => signal_of(raw@) == Some(t@),
            None => signal_of(raw@) is None,
        },
{
    let t = trimmed(raw);
    if t.len() == 0 {
        return None;
    }
    let l = lowered(t.as_slice());
    accept_token(l)
}

/// Whether `token` is held by `list`.
pub fn holds(list: &Vec<Vec<char>>, token: &[char]) -> (r: bool)
    ensures
        r == token_set(list@).contains(token@),
{
    let mut i: usize = 0;
    while i < list.len()
        invariant
            i <= list.len(),
            forall|j: int| 0 <= j < i ==> (#[trigger] list@[j])@ != token@,
        decreases list.len() - i,
    {
        if same(list[i].as_slice(), token) {
            return true;
        }
        i += 1;
    }
    false
}

/// The two sets of signals that a fingerprint stands for.
pub ghost struct Signals {
    pub extensions: Set<Seq<char>>,
    pub dependencies: Set<Seq<char>>,
}

impl Signals {
    /// Whether `t` is a signal of either kind.
    pub open spec fn has(self, t: Seq<char>) -> bool {
        self.dependencies.contains(t) || self.extensions.contains(t)
    }

    /// Every signal of `self` is a signal of `other`.
    pub open spec fn within(self, other: Signals) -> bool {
        self.extensions.subset_of(other.extensions) && self.dependencies.subset_of(
            other.dependencies,
        )
    }
}

/// The signals of one project tree, in two sets: file extensions and
/// dependency names.
pub struct Fingerprint {
    extensions: Vec<Vec<char>>,
    dependencies: Vec<Vec<char>>,
}

impl Fingerprint {
    #[verifier::type_invariant]
    spec fn well_formed(&self) -> bool {
        &&& distinct(self.extensions@)
        &&& distinct(self.dependencies@)
        &&& only_signals(token_set(self.extensions@))
        &&& only_signals(token_set(self.dependencies@))
    }

    /// The extension signals.
    pub closed spec fn extensions(&self) -> Set<Seq<char>> {
        token_set(self.extensions@)
    }

    /// The dependency signals.
    pub closed spec fn dependencies(&self) -> Set<Seq<char>> {
        token_set(self.dependencies@)
    }

    /// Whether `t` is a signal of either kind.
    pub open spec fn has(&self, t: Seq<char>) -> bool {
        self.dependencies().contains(t) || self.extensions().contains(t)
    }

    /// The two sets together.
    pub open spec fn view(&self) -> Signals {
        Signals { extensions: self.extensions(), dependencies: self.dependencies() }
    }

    /// Both sets hold signals only.
    pub open spec fn clean(&self) -> bool {
        only_signals(self.extensions()) && only_signals(self.dependencies())
    }

    /// A fingerprint with no signals.
    pub fn new() -> (fp: Fingerprint)
        ensures
            fp.extensions() == Set::<Seq<char>>::empty(),
            fp.dependencies() == Set::<Seq<char>>::empty(),
            fp.clean(),
    {
        let fp = Fingerprint { extensions: Vec::new(), dependencies: Vec::new() };
        assert(fp.extensions() =~= Set::<Seq<char>>::empty());
        assert(fp.dependencies() =~= Set::<Seq<char>>::empty());
        fp
    }

    /// Records a file extension. The token is normalized first; one that
    /// yields no signal is ignored.
    pub fn add_extension(&mut self, raw: &str)
        ensures
            final(self).extensions() == match signal_of(raw@) {
                Some(t) => old(self).extensions().insert(t),
                None => old(self).extensions(),
            },
            final(self).dependencies() == old(self).dependencies(),
            final(self).clean(),
    {
        let raw_chars = chars_of(raw);
        self.add_extension_chars(raw_chars.as_slice());
    }

    /// Records a dependency name. The token is normalized first; one that
    /// yields no signal is ignored.
    pub fn add_dependency(&mut self, raw: &str)
        ensures
            final(self).dependencies() == match signal_of(raw@) {
                Some(t) => old(self).dependencies().insert(t),
                None => old(self).dependencies(),
            },
            final(self).extensions() == old(self).extensions(),
            final(self).clean(),
    {
        let raw_chars = chars_of(raw);
        self.add_dependency_chars(raw_chars.as_slice());
    }

    /// `add_extension` for a token given as characters.
    pub fn add_extension_chars(&mut self, raw: &[char])
        ensures
            final(self).extensions() == match signal_of(raw@) {
                Some(t) => old(self).extensions().insert(t),
                None => old(self).extensions(),
            },
            final(self).dependencies() == old(self).dependencies(),
            final(self).clean(),
    {
        // The lists are reached by value: the invariant of the type
        // forbids lending one of them out mutably.
        let mut taken = Fingerprint::new();
        std::mem::swap(self, &mut taken);
        *self = taken.with_extension(raw);
    }

    /// `add_dependency` for a token given as characters.
    pub fn add_dependency_chars(&mut self, raw: &[char])
        ensures
            final(self).dependencies() == match signal_of(raw@) {
                Some(t) => old(self).dependencies().insert(t),
                None => old(self).dependencies(),
            },
            final(self).extensions() == old(self).extensions(),
            final(self).clean(),
    {
        let mut taken = Fingerprint::new();
        std::mem::swap(self, &mut taken);
        *self = taken.with_dependency(raw);
    }

    /// The fingerprint with one more extension token recorded.
    pub fn with_extension(self, raw: &[char]) -> (fp: Fingerprint)
        ensures
            fp.extensions() == match signal_of(raw@) {
                Some(t) => self.extensions().insert(t),
                None => self.extensions(),
            },
            fp.dependencies() == self.dependencies(),
            fp.clean(),
    {
        proof {
            use_type_invariant(&self);
            lemma_signal_of_is_signal(raw@);
        }
        let Fingerprint { mut extensions, dependencies } = self;
        match normalize(raw) {
            Some(t) => {
                if !holds(&extensions, t.as_slice()) {
                    proof {
                        lemma_token_set_push(extensions@, t);
                    }
                    extensions.push(t);
                } else {
                    assert(token_set(extensions@) =~= token_set(extensions@).insert(t@));
                }
            },
            None => {},
        }
        Fingerprint { extensions, dependencies }
    }

    /// The fingerprint with one more dependency token recorded.
    pub fn with_dependency(self, raw: &[char]) -> (fp: Fingerprint)
        ensures
            fp.dependencies() == match signal_of(raw@) {
                Some(t) => self.dependencies().insert(t),
                None => self.dependencies(),
            },
            fp.extensions() == self.extensions(),
            fp.clean(),
    {
        proof {
            use_type_invariant(&self);
            lemma_signal_of_is_signal(raw@);
        }
        let Fingerprint { extensions, mut dependencies } = self;
        match normalize(raw) {
            Some(t) => {
                if !holds(&dependencies, t.as_slice()) {
                    proof {
                        lemma_token_set_push(dependencies@, t);
                    }
                    dependencies.push(t);
                } else {
                    assert(token_set(dependencies@) =~= token_set(dependencies@).insert(t@));
                }
            },
            None => {},
        }
        Fingerprint { extensions, dependencies }
    }

    /// Records every token of `raws` as a dependency name.
    pub fn add_dependencies(&mut self, raws: &Vec<Vec<char>>)
        ensures
            final(self).dependencies() == old(self).dependencies().union(
                token_signals(views(raws@)),
            ),
            final(self).extensions() == old(self).extensions(),
            final(self).clean(),
    {
        self.clean_holds();
        let ghost start = self.dependencies();
        assert(start.union(token_signals(views(raws@).take(0))) =~= start);
        let mut i: usize = 0;
        while i < raws.len()
            invariant
                i <= raws@.len(),
                self.extensions() == old(self).extensions(),
                self.clean(),
                self.dependencies() == start.union(token_signals(views(raws@).take(i as int))),
            decreases raws.len() - i,
        {
            proof {
                let all = views(raws@);
                assert(all.take(i + 1) == all.take(i as int).push(raws@[i as int]@));
                lemma_token_signals_push(all.take(i as int), raws@[i as int]@);
            }
            self.add_dependency_chars(raws[i].as_slice());
            assert(self.dependencies() =~= start.union(
                token_signals(views(raws@).take(i + 1)),
            ));
            i += 1;
        }
        assert(views(raws@).take(raws@.len() as int) == views(raws@));
    }

    /// The invariant of the type, for callers: whatever was recorded, both
    /// sets hold signals only. Compiles to nothing.
    pub fn clean_holds(&self)
        ensures
            self.clean(),
    {
        proof {
            use_type_invariant(self);
        }
    }

    /// The extension signals, each once.
    pub fn extension_tokens(&self) -> (out: Vec<String>)
        ensures
            texts(out@).no_duplicates(),
            texts(out@).to_set() == self.extensions(),
    {
        proof {
            use_type_invariant(self);
        }
        list_tokens(&self.extensions)
    }

    /// The dependency signals, each once.
    pub fn dependency_tokens(&self) -> (out: Vec<String>)
        ensures
            texts(out@).no_duplicates(),
            texts(out@).to_set() == self.dependencies(),
    {
        proof {
            use_type_invariant(self);
        }
        list_tokens(&self.dependencies)
    }

    /// How many extension signals there are.
    pub fn extension_count(&self) -> (n: usize)
        ensures
            self.extensions().finite(),
            n == self.extensions().len(),
    {
        proof {
            use_type_invariant(self);
            lemma_distinct_count(self.extensions@);
        }
        self.extensions.len()
    }

    /// How many dependency signals there are.
    pub fn dependency_count(&self) -> (n: usize)
        ensures
            self.dependencies().finite(),
            n == self.dependencies().len(),
    {
        proof {
            use_type_invariant(self);
            lemma_distinct_count(self.dependencies@);
        }
        self.dependencies.len()
    }

    /// Whether `token` is among the extension signals.
    pub fn has_extension(&self, token: &[char]) -> (r: bool)
        ensures
            r == self.extensions().contains(token@),
    {
        holds(&self.extensions, token)
    }

    /// Whether `token` is among the dependency signals.
    pub fn has_dependency(&self, token: &[char]) -> (r: bool)
        ensures
            r == self.dependencies().contains(token@),
    {
        holds(&self.dependencies, token)
    }

    /// Whether `token` is a signal of either kind.
    pub fn has_signal(&self, token: &[char]) -> (r: bool)
        ensures
            r == self.has(token@),
    {
        holds(&self.dependencies, token) || holds(&self.extensions, token)
    }
}

/// The signals that a list of raw tokens yields.
pub open spec fn token_signals(raws: Seq<Seq<char>>) -> Set<Seq<char>> {
    Set::new(
        |t: Seq<char>| exists|k: int| 0 <= k < raws.len() && signal_of(#[trigger] raws[k]) == Some(t),
    )
}

/// One more raw token adds its signal, if it yields one.
pub proof fn lemma_token_signals_push(raws: Seq<Seq<char>>, raw: Seq<char>)
    ensures
        token_signals(raws.push(raw)) == match signal_of(raw) {
            Some(t) => token_signals(raws).insert(t),
            None => token_signals(raws),
        },
{
    let more = raws.push(raw);
    let a = token_signals(more);
    let b = match signal_of(raw) {
        Some(t) => token_signals(raws).insert(t),
        None => token_signals(raws),
    };
    assert forall|t: Seq<char>| a.contains(t) implies b.contains(t) by {
        let k = choose|k: int| 0 <= k < more.len() && signal_of(#[trigger] more[k]) == Some(t);
        if k < raws.len() {
            assert(signal_of(raws[k]) == Some(t));
        }
    }
    assert forall|t: Seq<char>| b.contains(t) implies a.contains(t) by {
        if token_signals(raws).contains(t) {
            let k = choose|k: int| 0 <= k < raws.len() && signal_of(#[trigger] raws[k]) == Some(t);
            assert(signal_of(more[k]) == Some(t));
        } else {
            assert(signal_of(more[raws.len() as int]) == Some(t));
        }
    }
    assert(a =~= b);
}

/// The token set of a list is the set of the sequences that it holds.
pub proof fn lemma_token_set_views(v: Seq<Vec<char>>)
    ensures
        views(v).to_set() == token_set(v),
        distinct(v) ==> views(v).no_duplicates(),
{
    let s = views(v);
    assert forall|t: Seq<char>| s.to_set().contains(t) <==> token_set(v).contains(t) by {
        if s.to_set().contains(t) {
            let i = choose|i: int| 0 <= i < s.len() && s[i] == t;
            assert(v[i]@ == t);
        }
        if token_set(v).contains(t) {
            let i = choose|i: int| 0 <= i < v.len() && #[trigger] v[i]@ == t;
            assert(s[i] == t);
        }
    }
    assert(s.to_set() =~= token_set(v));
    if distinct(v) {
        assert forall|i: int, j: int| 0 <= i < s.len() && 0 <= j < s.len() && i != j implies s[i]
            != s[j] by {
            if i < j {
                assert(v[i]@ != v[j]@);
            } else {
                assert(v[j]@ != v[i]@);
            }
        }
    }
}

/// A list without repetition holds as many tokens as its token set.
pub proof fn lemma_distinct_count(v: Seq<Vec<char>>)
    requires
        distinct(v),
    ensures
        token_set(v).finite(),
        token_set(v).len() == v.len(),
{
    lemma_token_set_views(v);
    views(v).unique_seq_to_set();
}

/// The tokens of a list as strings.
fn list_tokens(list: &Vec<Vec<char>>) -> (out: Vec<String>)
    requires
        distinct(list@),
    ensures
        texts(out@).no_duplicates(),
        texts(out@).to_set() == token_set(list@),
{
    let out = strings_of(list);
    proof {
        lemma_token_set_views(list@);
    }
    out
}

/// Pushing a token onto a list adds it to the list's token set.
pub proof fn lemma_token_set_push(v: Seq<Vec<char>>, t: Vec<char>)
    ensures
        token_set(v.push(t)) == token_set(v).insert(t@),
{
    let a = token_set(v.push(t));
    let b = token_set(v).insert(t@);
    assert forall|x: Seq<char>| a.contains(x) implies b.contains(x) by {
        let i = choose|i: int| 0 <= i < v.push(t).len() && #[trigger] v.push(t)[i]@ == x;
        if i < v.len() {
            assert(v[i]@ == x);
        }
    }
    assert forall|x: Seq<char>| b.contains(x) implies a.contains(x) by {
        if x == t@ {
            assert(v.push(t)[v.len() as int]@ == x);
        } else {
            let i = choose|i: int| 0 <= i < v.len() && #[trigger] v[i]@ == x;
            assert(v.push(t)[i]@ == x);
        }
    }
    assert(a =~= b);
}

} // verus!
