//! The symbol table: label and constant names resolved to addresses.
//!
//! Entries are kept in insertion order; a later entry for the same name
//! shadows an earlier one, so within one pass the last write wins.  The
//! table's view is the finite map from names to values.

use vstd::prelude::*;
use crate::text;

verus! {

/// The map an entry list denotes: later entries override earlier ones.
pub open spec fn labels_map(entries: Seq<(String, u16)>) -> Map<Seq<char>, u16>
    decreases entries.len(),
{
    if entries.len() == 0 {
        Map::<Seq<char>, u16>::empty()
    } else {
        labels_map(entries.drop_last()).insert(entries.last().0@, entries.last().1)
    }
}

/// The set of names an entry list holds.
pub open spec fn names_set(entries: Seq<String>) -> Set<Seq<char>>
    decreases entries.len(),
{
    if entries.len() == 0 {
        Set::<Seq<char>>::empty()
    } else {
        names_set(entries.drop_last()).insert(entries.last()@)
    }
}

/// Entries beyond position `i` that never mention `k` do not affect the
/// lookup of `k`.
proof fn lemma_labels_map_prefix(entries: Seq<(String, u16)>, i: int, k: Seq<char>)
    requires
        0 <= i <= entries.len(),
        forall|j: int| i <= j < entries.len() ==> entries[j].0@ != k,
    ensures
        labels_map(entries).contains_key(k) == labels_map(entries.take(i)).contains_key(k),
        labels_map(entries).contains_key(k) ==> labels_map(entries)[k] == labels_map(
            entries.take(i),
        )[k],
    decreases entries.len() - i,
{
    if i < entries.len() {
        lemma_labels_map_prefix(entries, i + 1, k);
        assert(entries.take(i + 1).drop_last() =~= entries.take(i));
        assert(entries.take(i + 1).last() == entries[i]);
    } else {
        assert(entries.take(i) =~= entries);
    }
}

proof fn lemma_names_set_contains(entries: Seq<String>, k: Seq<char>)
    ensures
        names_set(entries).contains(k) <==> exists|j: int|
            0 <= j < entries.len() && entries[j]@ == k,
    decreases entries.len(),
{
    if entries.len() > 0 {
        lemma_names_set_contains(entries.drop_last(), k);
        if names_set(entries).contains(k) {
            if entries.last()@ == k {
                assert(entries[entries.len() - 1]@ == k);
            } else {
                let j = choose|j: int| 0 <= j < entries.len() - 1 && entries.drop_last()[j]@ == k;
                assert(entries[j]@ == k);
            }
        }
        if exists|j: int| 0 <= j < entries.len() && entries[j]@ == k {
            let j = choose|j: int| 0 <= j < entries.len() && entries[j]@ == k;
            if j < entries.len() - 1 {
                assert(entries.drop_last()[j]@ == k);
            }
        }
    }
}

/// Names resolved to 16-bit addresses, plus a record of names marked as
/// zero-page.
pub struct SymbolTable {
    labels: Vec<(String, u16)>,
    zp_labels: Vec<String>,
}

impl View for SymbolTable {
    type V = Map<Seq<char>, u16>;

    closed spec fn view(&self) -> Map<Seq<char>, u16> {
        labels_map(self.labels@)
    }
}

impl SymbolTable {
    /// The set of names marked zero-page.
    pub closed spec fn zp_view(&self) -> Set<Seq<char>> {
        names_set(self.zp_labels@)
    }

    /// An empty table.
    pub fn new() -> (r: Self)
        ensures
            r@ == Map::<Seq<char>, u16>::empty(),
            r.zp_view() == Set::<Seq<char>>::empty(),
    {
        SymbolTable { labels: Vec::new(), zp_labels: Vec::new() }
    }

    /// Remove every entry.
    pub fn clear(&mut self)
        ensures
            final(self)@ == Map::<Seq<char>, u16>::empty(),
            final(self).zp_view() == Set::<Seq<char>>::empty(),
    {
        self.labels.clear();
        self.zp_labels.clear();
    }

    /// Bind `name` to `addr`; an existing binding is shadowed.
    pub fn insert(&mut self, name: String, addr: u16)
        ensures
            final(self)@ == old(self)@.insert(name@, addr),
            final(self).zp_view() == old(self).zp_view(),
    {
        let ghost before = self.labels@;
        self.labels.push((name, addr));
        proof {
            assert(self.labels@.drop_last() =~= before);
        }
    }

    /// Look `name` up.
    pub fn get(&self, name: &str) -> (r: Option<u16>)
        ensures
            match r {
                Some(v) => self@.contains_key(name@) && self@[name@] == v,
                None => !self@.contains_key(name@),
            },
    {
        let n = self.labels.len();
        let mut i: usize = n;
        while i > 0
            invariant
                n == self.labels@.len(),
                i <= n,
                forall|j: int| i <= j < n ==> self.labels@[j].0@ != name@,
            decreases i,
        {
            i -= 1;
            let entry = &self.labels[i];
            if text::str_eq(entry.0.as_str(), name) {
                proof {
                    lemma_labels_map_prefix(self.labels@, i + 1, name@);
                    assert(self.labels@.take(i + 1).drop_last() =~= self.labels@.take(i as int));
                    assert(self.labels@.take(i + 1).last() == self.labels@[i as int]);
                }
                return Some(entry.1);
            }
        }
        proof {
            lemma_labels_map_prefix(self.labels@, 0, name@);
            assert(self.labels@.take(0) =~= Seq::<(String, u16)>::empty());
        }
        None
    }

    /// The entry list itself; later entries shadow earlier ones.
    pub fn labels(&self) -> (r: &Vec<(String, u16)>)
        ensures
            labels_map(r@) == self@,
    {
        &self.labels
    }

    /// An owned copy of the entry list.
    pub fn clone_labels(&self) -> (r: Vec<(String, u16)>)
        ensures
            labels_map(r@) == self@,
    {
        let n = self.labels.len();
        let mut out: Vec<(String, u16)> = Vec::new();
        let mut i: usize = 0;
        while i < n
            invariant
                n == self.labels@.len(),
                i <= n,
                out@ =~= self.labels@.take(i as int),
            decreases n - i,
        {
            let entry = &self.labels[i];
            out.push((entry.0.clone(), entry.1));
            i += 1;
        }
        proof {
            assert(self.labels@.take(n as int) =~= self.labels@);
        }
        out
    }

    /// Record that `name` denotes a zero-page address.
    pub fn mark_zp(&mut self, name: String)
        ensures
            final(self).zp_view() == old(self).zp_view().insert(name@),
            final(self)@ == old(self)@,
    {
        let ghost before = self.zp_labels@;
        self.zp_labels.push(name);
        proof {
            assert(self.zp_labels@.drop_last() =~= before);
        }
    }

    /// Whether `name` was marked zero-page.
    pub fn is_zp(&self, name: &str) -> (r: bool)
        ensures
            r == self.zp_view().contains(name@),
    {
        let n = self.zp_labels.len();
        let mut i: usize = 0;
        while i < n
            invariant
                n == self.zp_labels@.len(),
                i <= n,
                forall|j: int| 0 <= j < i ==> self.zp_labels@[j]@ != name@,
            decreases n - i,
        {
            if text::str_eq(self.zp_labels[i].as_str(), name) {
                proof {
                    lemma_names_set_contains(self.zp_labels@, name@);
                }
                return true;
            }
            i += 1;
        }
        proof {
            lemma_names_set_contains(self.zp_labels@, name@);
        }
        false
    }
}

} // verus!
