//! The registry: the name → flag mapping one extraction produces. Entries
//! carry pairwise distinct names; inserting an existing name replaces its
//! entry in place.

use vstd::prelude::*;

verus! {

use crate::fastvar::FastVar;
use crate::fastvar::FastVarView;

/// Insert into a name-keyed sequence: replace the first entry with the same
/// name, else append.
pub open spec fn spec_insert(s: Seq<FastVarView>, v: FastVarView) -> Seq<FastVarView>
    decreases s.len(),
{
    if s.len() == 0 {
        seq![v]
    } else if s[0].name == v.name {
        seq![v] + s.drop_first()
    } else {
        seq![s[0]] + spec_insert(s.drop_first(), v)
    }
}

/// The first entry with the given name.
pub open spec fn spec_lookup(s: Seq<FastVarView>, name: Seq<char>) -> Option<FastVarView>
    decreases s.len(),
{
    if s.len() == 0 {
        None
    } else if s[0].name == name {
        Some(s[0])
    } else {
        spec_lookup(s.drop_first(), name)
    }
}

/// Entries carry pairwise distinct names.
pub open spec fn registry_wf(s: Seq<FastVarView>) -> bool {
    forall|i: int, j: int| 0 <= i < j < s.len() ==> s[i].name != s[j].name
}

/// Inserting entries one by one, first to last.
pub open spec fn spec_registry_from_seq(s: Seq<FastVarView>) -> Seq<FastVarView>
    decreases s.len(),
{
    if s.len() == 0 {
        Seq::<FastVarView>::empty()
    } else {
        spec_insert(spec_registry_from_seq(s.drop_last()), s.last())
    }
}

/// An insert of a fresh name appends.
pub proof fn lemma_insert_fresh(s: Seq<FastVarView>, v: FastVarView)
    requires
        forall|i: int| 0 <= i < s.len() ==> (#[trigger] s[i]).name != v.name,
    ensures
        spec_insert(s, v) == s + seq![v],
    decreases s.len(),
{
    if s.len() == 0 {
        assert(spec_insert(s, v) =~= s + seq![v]);
    } else {
        assert(forall|i: int|
            0 <= i < s.drop_first().len() ==> (#[trigger] s.drop_first()[i]).name != v.name);
        lemma_insert_fresh(s.drop_first(), v);
        assert(spec_insert(s, v) =~= s + seq![v]);
    }
}

/// An insert keeps names pairwise distinct.
pub proof fn lemma_insert_wf(s: Seq<FastVarView>, v: FastVarView)
    requires
        registry_wf(s),
    ensures
        registry_wf(spec_insert(s, v)),
    decreases s.len(),
{
    if s.len() != 0 && s[0].name != v.name {
        assert(registry_wf(s.drop_first()));
        lemma_insert_wf(s.drop_first(), v);
        let t = spec_insert(s, v);
        let t1 = spec_insert(s.drop_first(), v);
        lemma_insert_names(s.drop_first(), v);
        assert forall|i: int, j: int| 0 <= i < j < t.len() implies t[i].name != t[j].name by {
            if i > 0 {
                assert(t[i] == t1[i - 1] && t[j] == t1[j - 1]);
            } else {
                assert(t[j] == t1[j - 1]);
            }
        }
    }
}

/// Every name in an insert's result is the inserted name or an old one.
proof fn lemma_insert_names(s: Seq<FastVarView>, v: FastVarView)
    ensures
        forall|k: int|
            0 <= k < spec_insert(s, v).len() ==> ((#[trigger] spec_insert(s, v)[k]).name == v.name
                || exists|i: int| 0 <= i < s.len() && (#[trigger] s[i]).name == spec_insert(
                s,
                v,
            )[k].name),
    decreases s.len(),
{
    if s.len() != 0 && s[0].name != v.name {
        lemma_insert_names(s.drop_first(), v);
        assert forall|k: int| 0 <= k < spec_insert(s, v).len() implies ((#[trigger] spec_insert(
            s,
            v,
        )[k]).name == v.name || exists|i: int|
            0 <= i < s.len() && (#[trigger] s[i]).name == spec_insert(s, v)[k].name) by {
            if k > 0 {
                let t1 = spec_insert(s.drop_first(), v);
                assert(spec_insert(s, v)[k] == t1[k - 1]);
                if t1[k - 1].name != v.name {
                    let i = choose|i: int|
                        0 <= i < s.drop_first().len() && (#[trigger] s.drop_first()[i]).name
                            == t1[k - 1].name;
                    assert(s[i + 1].name == t1[k - 1].name);
                }
            } else {
                assert(s[0].name == spec_insert(s, v)[0].name);
            }
        }
    }
}

/// Law: inserting entries whose names are pairwise distinct, in order,
/// reproduces the sequence itself.
pub proof fn lemma_registry_from_seq_identity(s: Seq<FastVarView>)
    requires
        registry_wf(s),
    ensures
        spec_registry_from_seq(s) == s,
    decreases s.len(),
{
    if s.len() != 0 {
        assert(registry_wf(s.drop_last()));
        lemma_registry_from_seq_identity(s.drop_last());
        lemma_insert_fresh(s.drop_last(), s.last());
        assert(spec_registry_from_seq(s) =~= s);
    }
}

/// The name → `FastVar` mapping produced by one extraction.
pub struct Registry {
    pub entries: Vec<FastVar>,
}

impl View for Registry {
    type V = Seq<FastVarView>;

    open spec fn view(&self) -> Seq<FastVarView> {
        Seq::new(self.entries@.len(), |i: int| self.entries@[i]@)
    }
}

impl Registry {
    pub fn new() -> (r: Registry)
        ensures
            r@ == Seq::<FastVarView>::empty(),
    {
        let r = Registry { entries: Vec::new() };
        proof {
            assert(r@ =~= Seq::<FastVarView>::empty());
        }
        r
    }

    pub fn len(&self) -> (r: usize)
        ensures
            r == self@.len(),
    {
        self.entries.len()
    }

    /// The entry at an index.
    pub fn index(&self, i: usize) -> (r: &FastVar)
        requires
            i < self@.len(),
        ensures
            r@ == self@[i as int],
    {
        &self.entries[i]
    }

    /// Replace the first entry with this flag's name, or append the flag.
    pub fn insert(&mut self, flag: FastVar)
        ensures
            final(self)@ == spec_insert(old(self)@, flag@),
    {
        let n = self.entries.len();
        let mut i: usize = 0;
        while i < n
            invariant
                i <= n,
                n == self.entries@.len(),
                *self == *old(self),
                forall|k: int| 0 <= k < i ==> (#[trigger] old(self)@[k]).name != flag@.name,
            decreases n - i,
        {
            if string_eq(&self.entries[i].name, &flag.name) {
                self.entries.set(i, flag);
                proof {
                    lemma_insert_at(old(self)@, flag@, i as int);
                    assert(self@ =~= old(self)@.update(i as int, flag@));
                }
                return ;
            }
            i = i + 1;
        }
        self.entries.push(flag);
        proof {
            lemma_insert_fresh(old(self)@, flag@);
            assert(self@ =~= old(self)@ + seq![flag@]);
        }
    }

    /// The first entry with the given name.
    pub fn get(&self, name: &String) -> (r: Option<&FastVar>)
        ensures
            (match spec_lookup(self@, name@) {
                Some(v) => r matches Some(f) && f@ == v,
                None => r is None,
            }),
    {
        let n = self.entries.len();
        let mut i: usize = 0;
        proof {
            assert(self@.skip(0) =~= self@);
        }
        while i < n
            invariant
                i <= n,
                n == self.entries@.len(),
                forall|k: int| 0 <= k < i ==> (#[trigger] self@[k]).name != name@,
                spec_lookup(self@, name@) == spec_lookup(self@.skip(i as int), name@),
            decreases n - i,
        {
            if string_eq(&self.entries[i].name, name) {
                return Some(&self.entries[i]);
            }
            proof {
                assert(self@.skip(i as int).drop_first() =~= self@.skip(i + 1));
            }
            i = i + 1;
        }
        None
    }
}

/// When the first entry with a matching name is at index `i`, an insert is an
/// update there.
pub proof fn lemma_insert_at(s: Seq<FastVarView>, v: FastVarView, i: int)
    requires
        0 <= i < s.len(),
        s[i].name == v.name,
        forall|k: int| 0 <= k < i ==> (#[trigger] s[k]).name != v.name,
    ensures
        spec_insert(s, v) == s.update(i, v),
    decreases i,
{
    if i == 0 {
        assert(spec_insert(s, v) =~= s.update(0, v));
    } else {
        assert(forall|k: int|
            0 <= k < i - 1 ==> (#[trigger] s.drop_first()[k]).name == s[k + 1].name);
        lemma_insert_at(s.drop_first(), v, i - 1);
        assert(spec_insert(s, v) =~= s.update(i, v));
    }
}

/// Exact string comparison.
fn string_eq(a: &String, b: &String) -> (r: bool)
    ensures
        r == (a@ == b@),
{
    a.eq(b)
}

} // verus!