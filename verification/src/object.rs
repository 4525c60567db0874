//! The record accessor: path-addressed read/write/enumerate over the event
//! being transformed.
//!
//! `Object` is the contract every record store must satisfy; the engine
//! assumes nothing beyond it. `Record` is a store of this crate that
//! implements the contract, used to run compiled expressions over plain
//! key/value data.

use vstd::prelude::*;
use crate::path::Path;
use crate::path::is_prefix;
use crate::value::Value;
use crate::value::ValueV;

verus! {

/// The contents of a record after removing `p` from `m`: with `recursive`
/// the whole subtree under `p` goes, otherwise only the exact path.
pub open spec fn remove_map(m: Map<Seq<u8>, ValueV>, p: Seq<u8>, recursive: bool) -> Map<
    Seq<u8>,
    ValueV,
> {
    Map::new(
        |k: Seq<u8>| m.dom().contains(k) && !(k == p || (recursive && is_prefix(p, k))),
        |k: Seq<u8>| m[k],
    )
}

/// The contract of a record store: a mutable, path-addressed map from field
/// paths to values, with subtree removal and path enumeration.
pub trait Object: Sized {
    /// The mathematical contents of the record.
    spec fn contents(&self) -> Map<Seq<u8>, ValueV>;

    /// The value at `path`, if one is present.
    fn get(&self, path: &Path) -> (r: Option<Value>)
        ensures
            match r {
                Some(v) => self.contents().dom().contains(path@) && v@ == self.contents()[path@],
                None => !self.contents().dom().contains(path@),
            },
    ;

    /// Stores `value` at `path`, replacing any previous value there.
    fn set(&mut self, path: &Path, value: Value)
        ensures
            final(self).contents() == old(self).contents().insert(path@, value@),
    ;

    /// Removes the value at `path`; with `recursive` also every path that
    /// starts with `path`.
    fn remove(&mut self, path: &Path, recursive: bool)
        ensures
            final(self).contents() == remove_map(old(self).contents(), path@, recursive),
    ;

    /// Every currently populated path, in no particular order.
    fn paths(&self) -> (r: Vec<Path>)
        ensures
            forall|i: int|
                0 <= i < r@.len() ==> self.contents().dom().contains(#[trigger] r@[i]@),
            forall|k: Seq<u8>|
                #[trigger] self.contents().dom().contains(k) ==> exists|i: int|
                    0 <= i < r@.len() && r@[i]@ == k,
    ;
}

/// A record store backed by a list of path/value entries; a later entry for
/// the same path shadows an earlier one.
#[derive(Debug)]
pub struct Record {
    entries: Vec<(Path, Value)>,
}

/// The map described by an entry list, later entries winning.
pub open spec fn entries_map(s: Seq<(Path, Value)>) -> Map<Seq<u8>, ValueV>
    decreases s.len(),
{
    if s.len() == 0 {
        Map::empty()
    } else {
        entries_map(s.drop_last()).insert(s.last().0@, s.last().1@)
    }
}

/// A key is in the map of an entry list exactly when some entry carries it.
proof fn lemma_entries_map_dom(s: Seq<(Path, Value)>, k: Seq<u8>)
    ensures
        entries_map(s).dom().contains(k) <==> exists|i: int| 0 <= i < s.len() && (#[trigger] s[i]).0@
            == k,
    decreases s.len(),
{
    if s.len() > 0 {
        lemma_entries_map_dom(s.drop_last(), k);
        if entries_map(s).dom().contains(k) {
            if s.last().0@ == k {
                assert(s[s.len() - 1].0@ == k);
            } else {
                let i = choose|i: int| 0 <= i < s.drop_last().len() && (#[trigger] s.drop_last()[i]).0@
                    == k;
                assert(s[i].0@ == k);
            }
        }
        if exists|i: int| 0 <= i < s.len() && (#[trigger] s[i]).0@ == k {
            let i = choose|i: int| 0 <= i < s.len() && (#[trigger] s[i]).0@ == k;
            if i < s.len() - 1 {
                assert(s.drop_last()[i].0@ == k);
            }
        }
    }
}

/// The value at a key is the one of the last entry carrying that key.
proof fn lemma_entries_map_at(s: Seq<(Path, Value)>, i: int)
    requires
        0 <= i < s.len(),
        forall|j: int| i < j < s.len() ==> (#[trigger] s[j]).0@ != s[i].0@,
    ensures
        entries_map(s).dom().contains(s[i].0@),
        entries_map(s)[s[i].0@] == s[i].1@,
    decreases s.len(),
{
    if i == s.len() - 1 {
    } else {
        assert(s.drop_last()[i] == s[i]);
        lemma_entries_map_at(s.drop_last(), i);
        assert(s.last().0@ != s[i].0@);
    }
}

impl View for Record {
    type V = Map<Seq<u8>, ValueV>;

    closed spec fn view(&self) -> Map<Seq<u8>, ValueV> {
        entries_map(self.entries@)
    }
}

impl Record {
    /// An empty record.
    pub fn new() -> (r: Record)
        ensures
            r@ == Map::<Seq<u8>, ValueV>::empty(),
    {
        Record { entries: Vec::new() }
    }
}

impl Object for Record {
    open spec fn contents(&self) -> Map<Seq<u8>, ValueV> {
        self@
    }

    fn get(&self, path: &Path) -> (r: Option<Value>) {
        let n = self.entries.len();
        let mut i: usize = n;
        while i > 0
            invariant
                i <= n,
                n == self.entries.len(),
                forall|j: int| i <= j < n ==> (#[trigger] self.entries@[j]).0@ != path@,
            decreases i,
        {
            i -= 1;
            if self.entries[i].0.starts_with(path) && path.starts_with(&self.entries[i].0) {
                proof {
                    assert(self.entries@[i as int].0@.subrange(0, path@.len() as int)
                        == path@);
                    assert(self.entries@[i as int].0@ =~= path@);
                    lemma_entries_map_at(self.entries@, i as int);
                }
                return Some(self.entries[i].1.duplicate());
            }
            proof {
                if self.entries@[i as int].0@ == path@ {
                    crate::path::lemma_prefix_reflexive(path@);
                }
            }
        }
        proof {
            lemma_entries_map_dom(self.entries@, path@);
        }
        None
    }

    fn set(&mut self, path: &Path, value: Value) {
        self.entries.push((path.duplicate(), value));
        proof {
            assert(self.entries@.drop_last() =~= old(self).entries@);
        }
    }

    fn remove(&mut self, path: &Path, recursive: bool) {
        let n = self.entries.len();
        let mut kept: Vec<(Path, Value)> = Vec::new();
        let mut i: usize = 0;
        while i < n
            invariant
                i <= n,
                n == self.entries.len(),
                entries_map(kept@) == remove_map(
                    entries_map(self.entries@.subrange(0, i as int)),
                    path@,
                    recursive,
                ),
            decreases n - i,
        {
            let ghost pre = self.entries@.subrange(0, i as int);
            let ghost post = self.entries@.subrange(0, i as int + 1);
            let ghost kept_pre = kept@;
            let e = &self.entries[i];
            let hit_exact = e.0.starts_with(path) && path.starts_with(&e.0);
            let hit = hit_exact || (recursive && e.0.starts_with(path));
            if !hit {
                let k = e.0.duplicate();
                let v = e.1.duplicate();
                kept.push((k, v));
            }
            proof {
                let ek = self.entries@[i as int].0@;
                let ev = self.entries@[i as int].1@;
                assert(post.drop_last() =~= pre);
                assert(post.last().0@ == ek && post.last().1@ == ev);
                assert(entries_map(post) == entries_map(pre).insert(ek, ev));
                if hit_exact {
                    assert(ek.subrange(0, path@.len() as int) == path@);
                    assert(ek =~= path@);
                }
                if ek == path@ {
                    crate::path::lemma_prefix_reflexive(path@);
                }
                if !hit {
                    assert(kept@.drop_last() =~= kept_pre);
                    assert(entries_map(kept@) == entries_map(kept_pre).insert(ek, ev));
                    assert(entries_map(kept@) =~= remove_map(entries_map(post), path@, recursive));
                } else {
                    assert(entries_map(kept@) =~= remove_map(entries_map(post), path@, recursive));
                }
            }
            i += 1;
        }
        proof {
            assert(self.entries@.subrange(0, n as int) =~= self.entries@);
        }
        self.entries = kept;
    }

    fn paths(&self) -> (r: Vec<Path>) {
        let n = self.entries.len();
        let mut r: Vec<Path> = Vec::new();
        let mut i: usize = 0;
        while i < n
            invariant
                i <= n,
                n == self.entries.len(),
                r@.len() == i,
                forall|j: int| 0 <= j < i ==> (#[trigger] r@[j])@ == self.entries@[j].0@,
            decreases n - i,
        {
            r.push(self.entries[i].0.duplicate());
            i += 1;
        }
        proof {
            assert forall|j: int| 0 <= j < r@.len() implies self.contents().dom().contains(
                #[trigger] r@[j]@,
            ) by {
                lemma_entries_map_dom(self.entries@, r@[j]@);
            }
            assert forall|k: Seq<u8>| #[trigger] self.contents().dom().contains(k) implies exists|
                j: int,
            | 0 <= j < r@.len() && r@[j]@ == k by {
                lemma_entries_map_dom(self.entries@, k);
                let j = choose|j: int| 0 <= j < self.entries@.len() && (#[trigger] self.entries@[j]).0@
                    == k;
                assert(r@[j]@ == k);
            }
        }
        r
    }
}

} // verus!
