//! The function shard of one file: an exact-match table from signature
//! shape to the location of the declaration. A later declaration of the same
//! shape replaces an earlier one, so a file yields at most one location per
//! shape.
use vstd::prelude::*;
use crate::model::{FnShape, FnSignature, Loc};

verus! {

/// The table that the entries `s` stand for: each entry maps its shape to
/// its location, and later entries win.
pub open spec fn entries_map(s: Seq<(FnSignature, Loc)>) -> Map<FnShape, (Seq<char>, usize, usize)>
    decreases s.len(),
{
    if s.len() == 0 {
        Map::empty()
    } else {
        entries_map(s.drop_last()).insert(s.last().0.shape(), s.last().1@)
    }
}

/// The table built by inserting the declarations `decls` in order.
pub open spec fn table_of(decls: Seq<(Loc, FnSignature)>) -> Map<FnShape, (Seq<char>, usize, usize)>
    decreases decls.len(),
{
    if decls.len() == 0 {
        Map::empty()
    } else {
        table_of(decls.drop_last()).insert(decls.last().1.shape(), decls.last().0@)
    }
}

/// No two entries share a shape.
pub open spec fn shapes_unique(s: Seq<(FnSignature, Loc)>) -> bool {
    forall|i: int, j: int| 0 <= i < j < s.len() ==> #[trigger] s[i].0.shape() != #[trigger] s[j].0.shape()
}

proof fn lemma_entries_map(s: Seq<(FnSignature, Loc)>)
    requires
        shapes_unique(s),
    ensures
        forall|i: int| 0 <= i < s.len() ==> #[trigger] entries_map(s).contains_key(s[i].0.shape())
            && entries_map(s)[s[i].0.shape()] == s[i].1@,
        forall|k: FnShape| #[trigger] entries_map(s).contains_key(k) ==> exists|i: int|
            0 <= i < s.len() && #[trigger] s[i].0.shape() == k,
    decreases s.len(),
{
    if s.len() > 0 {
        let p = s.drop_last();
        assert(shapes_unique(p)) by {
            assert forall|i: int, j: int| 0 <= i < j < p.len() implies #[trigger] p[i].0.shape() != #[trigger] p[j].0.shape() by {
                assert(s[i].0.shape() != s[j].0.shape());
            }
        }
        lemma_entries_map(p);
        assert forall|i: int| 0 <= i < s.len() implies #[trigger] entries_map(s).contains_key(s[i].0.shape())
            && entries_map(s)[s[i].0.shape()] == s[i].1@ by {
            if i < s.len() - 1 {
                assert(p[i] == s[i]);
                assert(entries_map(p).contains_key(p[i].0.shape()));
                assert(s[i].0.shape() != s[s.len() - 1].0.shape());
            }
        }
        assert forall|k: FnShape| #[trigger] entries_map(s).contains_key(k) implies exists|i: int|
            0 <= i < s.len() && #[trigger] s[i].0.shape() == k by {
            if k != s.last().0.shape() {
                assert(entries_map(p).contains_key(k));
                let i = choose|i: int| 0 <= i < p.len() && #[trigger] p[i].0.shape() == k;
                assert(s[i] == p[i]);
            } else {
                assert(s[s.len() - 1].0.shape() == k);
            }
        }
    }
}

/// The function shard of one file.
pub struct FnSigMap {
    entries: Vec<(FnSignature, Loc)>,
}

impl FnSigMap {
    /// The table from shapes to locations.
    pub closed spec fn table(&self) -> Map<FnShape, (Seq<char>, usize, usize)> {
        entries_map(self.entries@)
    }

    pub closed spec fn wf(&self) -> bool {
        shapes_unique(self.entries@)
    }

    pub fn new() -> (r: FnSigMap)
        ensures
            r.wf(),
            r.table() == Map::<FnShape, (Seq<char>, usize, usize)>::empty(),
    {
        FnSigMap { entries: Vec::new() }
    }

    /// Maps the signature's shape to `loc`, replacing any location stored
    /// for that shape.
    pub fn insert(&mut self, sig: FnSignature, loc: Loc)
        requires
            old(self).wf(),
        ensures
            final(self).wf(),
            final(self).table() == old(self).table().insert(sig.shape(), loc@),
    {
        let ghost s = self.entries@;
        let ghost k0 = sig.shape();
        proof {
            lemma_entries_map(s);
        }
        let mut i: usize = 0;
        while i < self.entries.len()
            invariant
                self.entries@ == s,
                old(self).entries@ == s,
                k0 == sig.shape(),
                shapes_unique(s),
                i <= s.len(),
                forall|j: int| 0 <= j < i ==> #[trigger] s[j].0.shape() != k0,
                forall|j: int| 0 <= j < s.len() ==> #[trigger] entries_map(s).contains_key(s[j].0.shape())
                    && entries_map(s)[s[j].0.shape()] == s[j].1@,
                forall|k: FnShape| #[trigger] entries_map(s).contains_key(k) ==> exists|j: int|
                    0 <= j < s.len() && #[trigger] s[j].0.shape() == k,
            decreases s.len() - i,
        {
            if self.entries[i].0.same_shape(&sig) {
                self.entries.set(i, (sig, loc));
                proof {
                    let s2 = self.entries@;
                    assert forall|a: int, b: int| 0 <= a < b < s2.len() implies #[trigger] s2[a].0.shape() != #[trigger] s2[b].0.shape() by {
                        assert(s[a].0.shape() != s[b].0.shape());
                    }
                    lemma_entries_map(s2);
                    let m = entries_map(s).insert(k0, loc@);
                    assert forall|k: FnShape| #[trigger] entries_map(s2).contains_key(k) <==> m.contains_key(k) by {
                        if entries_map(s2).contains_key(k) {
                            let j = choose|j: int| 0 <= j < s2.len() && #[trigger] s2[j].0.shape() == k;
                            assert(s[j].0.shape() == k);
                        }
                        if entries_map(s).contains_key(k) {
                            let j = choose|j: int| 0 <= j < s.len() && #[trigger] s[j].0.shape() == k;
                            assert(s2[j].0.shape() == k);
                        }
                    }
                    assert forall|k: FnShape| #[trigger] entries_map(s2).contains_key(k) implies entries_map(s2)[k] == m[k] by {
                        let j = choose|j: int| 0 <= j < s2.len() && #[trigger] s2[j].0.shape() == k;
                        if j != i {
                            assert(s[j] == s2[j]);
                        }
                    }
                    assert(entries_map(s2) =~= m);
                }
                return;
            }
            i += 1;
        }
        self.entries.push((sig, loc));
        proof {
            let s2 = self.entries@;
            assert(s2.drop_last() =~= s);
            assert forall|a: int, b: int| 0 <= a < b < s2.len() implies #[trigger] s2[a].0.shape() != #[trigger] s2[b].0.shape() by {
                if b < s.len() {
                    assert(s[a].0.shape() != s[b].0.shape());
                } else {
                    assert(s2[a] == s[a]);
                }
            }
        }
    }

    /// The location stored for the query's shape, if any.
    pub fn get(&self, query: &FnSignature) -> (r: Option<&Loc>)
        requires
            self.wf(),
        ensures
            match r {
                Some(l) => self.table().contains_key(query.shape()) && l@ == self.table()[query.shape()],
                None => !self.table().contains_key(query.shape()),
            },
    {
        proof {
            lemma_entries_map(self.entries@);
        }
        let mut i: usize = 0;
        while i < self.entries.len()
            invariant
                i <= self.entries@.len(),
                forall|j: int| 0 <= j < i ==> #[trigger] self.entries@[j].0.shape() != query.shape(),
                forall|j: int| 0 <= j < self.entries@.len() ==> #[trigger] entries_map(self.entries@).contains_key(self.entries@[j].0.shape())
                    && entries_map(self.entries@)[self.entries@[j].0.shape()] == self.entries@[j].1@,
                forall|k: FnShape| #[trigger] entries_map(self.entries@).contains_key(k) ==> exists|j: int|
                    0 <= j < self.entries@.len() && #[trigger] self.entries@[j].0.shape() == k,
            decreases self.entries@.len() - i,
        {
            if self.entries[i].0.same_shape(query) {
                assert(entries_map(self.entries@).contains_key(self.entries@[i as int].0.shape()));
                return Some(&self.entries[i].1);
            }
            i += 1;
        }
        None
    }

    /// The shard of a file's functions, inserted in order of declaration.
    pub fn from_decls(decls: Vec<(Loc, FnSignature)>) -> (r: FnSigMap)
        ensures
            r.wf(),
            r.table() == table_of(decls@),
    {
        let mut m = FnSigMap::new();
        let ghost d = decls@;
        let n0 = decls.len();
        let mut rest = decls;
        let mut i: usize = 0;
        while rest.len() > 0
            invariant
                m.wf(),
                n0 == d.len(),
                i <= d.len(),
                rest@ == d.skip(i as int),
                m.table() == table_of(d.take(i as int)),
            decreases rest@.len(),
        {
            let (loc, sig) = rest.remove(0);
            proof {
                assert(d.take(i + 1).drop_last() =~= d.take(i as int));
                assert(d[i as int] == (loc, sig));
                assert(rest@ =~= d.skip(i + 1));
            }
            m.insert(sig, loc);
            i += 1;
        }
        assert(d.take(i as int) =~= d);
        m
    }
}

/// When a file declares two functions of the same shape, its table keeps
/// the later declaration's location, provided no still later declaration has
/// that shape.
pub proof fn lemma_later_declaration_wins(decls: Seq<(Loc, FnSignature)>, i: int, j: int)
    requires
        0 <= i < j < decls.len(),
        decls[i].1.shape() == decls[j].1.shape(),
        forall|k: int| j < k < decls.len() ==> #[trigger] decls[k].1.shape() != decls[j].1.shape(),
    ensures
        table_of(decls).contains_key(decls[j].1.shape()),
        table_of(decls)[decls[j].1.shape()] == decls[j].0@,
    decreases decls.len(),
{
    if j < decls.len() - 1 {
        let p = decls.drop_last();
        assert(decls[decls.len() - 1].1.shape() != decls[j].1.shape());
        assert forall|k: int| j < k < p.len() implies #[trigger] p[k].1.shape() != p[j].1.shape() by {
            assert(p[k] == decls[k]);
        }
        lemma_later_declaration_wins(p, i, j);
    }
}

} // verus!
