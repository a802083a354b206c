use vstd::prelude::*;
use crate::credential::{Credential, CredentialView};
use crate::error::TotpError;
use crate::uri::same_text;

verus! {

/// The plain values of a list of named credentials.
pub open spec fn entry_views(s: Seq<(String, Credential)>) -> Seq<(Seq<char>, CredentialView)> {
    s.map_values(|e: (String, Credential)| (e.0@, e.1@))
}

/// No two entries share a name.
pub open spec fn unique_names(v: Seq<(Seq<char>, CredentialView)>) -> bool {
    forall|i: int, j: int|
        0 <= i < v.len() && 0 <= j < v.len() && i != j ==> #[trigger] v[i].0 != #[trigger] v[j].0
}

/// Some entry has name `k`.
pub open spec fn has_name(v: Seq<(Seq<char>, CredentialView)>, k: Seq<char>) -> bool {
    exists|i: int| 0 <= i < v.len() && #[trigger] v[i].0 == k
}

/// The mapping from name to credential that a list of entries holds.
pub open spec fn as_map(v: Seq<(Seq<char>, CredentialView)>) -> Map<Seq<char>, CredentialView> {
    Map::new(
        |k: Seq<char>| has_name(v, k),
        |k: Seq<char>| v[choose|i: int| 0 <= i < v.len() && #[trigger] v[i].0 == k].1,
    )
}

proof fn lemma_lookup(v: Seq<(Seq<char>, CredentialView)>, i: int)
    requires
        unique_names(v),
        0 <= i < v.len(),
    ensures
        as_map(v).contains_key(v[i].0),
        as_map(v)[v[i].0] == v[i].1,
{
    let k = v[i].0;
    assert(has_name(v, k));
    let j = choose|j: int| 0 <= j < v.len() && #[trigger] v[j].0 == k;
    assert(j == i);
}

proof fn lemma_map_push(v: Seq<(Seq<char>, CredentialView)>, e: (Seq<char>, CredentialView))
    requires
        unique_names(v),
        !has_name(v, e.0),
    ensures
        unique_names(v.push(e)),
        as_map(v.push(e)) =~= as_map(v).insert(e.0, e.1),
{
    let t = v.push(e);
    assert(t[v.len() as int] == e);
    assert forall|i: int, j: int| 0 <= i < t.len() && 0 <= j < t.len() && i != j implies #[trigger] t[i].0
        != #[trigger] t[j].0 by {
        if i < v.len() && j < v.len() {
            assert(t[i] == v[i] && t[j] == v[j]);
        } else if i < v.len() {
            assert(t[i] == v[i]);
        } else {
            assert(t[j] == v[j]);
        }
    }
    assert forall|k: Seq<char>| has_name(t, k) == (has_name(v, k) || k == e.0) by {
        if has_name(v, k) {
            let i = choose|i: int| 0 <= i < v.len() && #[trigger] v[i].0 == k;
            assert(t[i] == v[i]);
        }
        if has_name(t, k) {
            let i = choose|i: int| 0 <= i < t.len() && #[trigger] t[i].0 == k;
            if i < v.len() {
                assert(t[i] == v[i]);
            }
        }
    }
    assert forall|k: Seq<char>| #[trigger] has_name(t, k) implies as_map(t)[k] == as_map(v).insert(e.0, e.1)[k] by {
        if k == e.0 {
            lemma_lookup(t, v.len() as int);
        } else {
            let i = choose|i: int| 0 <= i < t.len() && #[trigger] t[i].0 == k;
            assert(t[i] == v[i]);
            lemma_lookup(t, i);
            lemma_lookup(v, i);
        }
    }
}

proof fn lemma_map_remove(v: Seq<(Seq<char>, CredentialView)>, i: int)
    requires
        unique_names(v),
        0 <= i < v.len(),
    ensures
        unique_names(v.remove(i)),
        as_map(v.remove(i)) =~= as_map(v).remove(v[i].0),
{
    let t = v.remove(i);
    assert forall|a: int, b: int| 0 <= a < t.len() && 0 <= b < t.len() && a != b implies #[trigger] t[a].0
        != #[trigger] t[b].0 by {
        let a2 = if a < i { a } else { a + 1 };
        let b2 = if b < i { b } else { b + 1 };
        assert(t[a] == v[a2] && t[b] == v[b2]);
    }
    assert forall|k: Seq<char>| has_name(t, k) == (has_name(v, k) && k != v[i].0) by {
        if has_name(t, k) {
            let a = choose|a: int| 0 <= a < t.len() && #[trigger] t[a].0 == k;
            let a2 = if a < i { a } else { a + 1 };
            assert(t[a] == v[a2]);
        }
        if has_name(v, k) && k != v[i].0 {
            let a = choose|a: int| 0 <= a < v.len() && #[trigger] v[a].0 == k;
            if a < i {
                assert(t[a] == v[a]);
            } else {
                assert(t[a - 1] == v[a]);
            }
        }
    }
    assert forall|k: Seq<char>| #[trigger] has_name(t, k) implies as_map(t)[k] == as_map(v)[k] by {
        let a = choose|a: int| 0 <= a < t.len() && #[trigger] t[a].0 == k;
        let a2 = if a < i { a } else { a + 1 };
        assert(t[a] == v[a2]);
        lemma_lookup(t, a);
        lemma_lookup(v, a2);
    }
}

/// The named credentials, each name held once.
pub struct Registry {
    entries: Vec<(String, Credential)>,
}

impl View for Registry {
    type V = Map<Seq<char>, CredentialView>;

    closed spec fn view(&self) -> Map<Seq<char>, CredentialView> {
        as_map(entry_views(self.entries@))
    }
}

impl Registry {
    /// The entries in their stored order.
    pub closed spec fn snapshot(&self) -> Seq<(Seq<char>, CredentialView)> {
        entry_views(self.entries@)
    }

    /// Names are unique.
    pub closed spec fn wf(&self) -> bool {
        unique_names(entry_views(self.entries@))
    }

    /// The stored entries are exactly the registry's mapping, each name once.
    pub proof fn lemma_snapshot(&self)
        requires
            self.wf(),
        ensures
            unique_names(self.snapshot()),
            as_map(self.snapshot()) == self@,
    {
    }

    /// An empty registry.
    pub fn new() -> (r: Registry)
        ensures
            r.wf(),
            r@ == Map::<Seq<char>, CredentialView>::empty(),
    {
        let r = Registry { entries: Vec::new() };
        assert(as_map(entry_views(r.entries@)) =~= Map::<Seq<char>, CredentialView>::empty());
        r
    }

    fn find(&self, name: &str) -> (r: Option<usize>)
        ensures
            match r {
                Some(i) => i < self.entries@.len() && entry_views(self.entries@)[i as int].0 == name@,
                None => !has_name(entry_views(self.entries@), name@),
            },
    {
        let ghost v = entry_views(self.entries@);
        let mut i: usize = 0;
        while i < self.entries.len()
            invariant
                v == entry_views(self.entries@),
                i <= self.entries@.len(),
                forall|j: int| 0 <= j < i ==> v[j].0 != name@,
            decreases self.entries@.len() - i,
        {
            if same_text(self.entries[i].0.as_str(), name) {
                return Some(i);
            }
            i = i + 1;
        }
        None
    }

    /// Whether a credential is stored under `name`.
    pub fn contains(&self, name: &str) -> (r: bool)
        requires
            self.wf(),
        ensures
            r == self@.contains_key(name@),
    {
        match self.find(name) {
            Some(i) => {
                proof {
                    lemma_lookup(entry_views(self.entries@), i as int);
                }
                true
            },
            None => false,
        }
    }

    /// The number of stored credentials.
    pub fn len(&self) -> (r: usize)
        requires
            self.wf(),
        ensures
            r == self@.len(),
    {
        proof {
            lemma_map_len(entry_views(self.entries@));
        }
        self.entries.len()
    }

    /// The credential stored under `name`.
    pub fn get(&self, name: &str) -> (r: Option<&Credential>)
        requires
            self.wf(),
        ensures
            match r {
                Some(c) => self@.contains_key(name@) && self@[name@] == c@,
                None => !self@.contains_key(name@),
            },
    {
        match self.find(name) {
            Some(i) => {
                proof {
                    lemma_lookup(entry_views(self.entries@), i as int);
                }
                Some(&self.entries[i].1)
            },
            None => None,
        }
    }

    /// Stores `c` under `name` unless that name is taken.
    pub fn insert(&mut self, name: String, c: Credential) -> (r: Result<(), TotpError>)
        requires
            old(self).wf(),
        ensures
            final(self).wf(),
            old(self)@.contains_key(name@) ==> r == Err::<(), TotpError>(TotpError::DuplicateName)
                && final(self)@ == old(self)@,
            !old(self)@.contains_key(name@) ==> r is Ok && final(self)@ == old(self)@.insert(name@, c@),
    {
        if self.find(name.as_str()).is_some() {
            return Err(TotpError::DuplicateName);
        }
        proof {
            lemma_map_push(entry_views(self.entries@), (name@, c@));
        }
        let ghost v = entry_views(self.entries@);
        self.entries.push((name, c));
        assert(entry_views(self.entries@) =~= v.push((name@, c@)));
        Ok(())
    }

    /// Removes the credential stored under `name`.
    pub fn remove(&mut self, name: &str) -> (r: Result<(), TotpError>)
        requires
            old(self).wf(),
        ensures
            final(self).wf(),
            !old(self)@.contains_key(name@) ==> r == Err::<(), TotpError>(TotpError::NotFound)
                && final(self)@ == old(self)@,
            old(self)@.contains_key(name@) ==> r is Ok && final(self)@ == old(self)@.remove(name@),
    {
        match self.find(name) {
            None => Err(TotpError::NotFound),
            Some(i) => {
                proof {
                    lemma_map_remove(entry_views(self.entries@), i as int);
                }
                let ghost v = entry_views(self.entries@);
                self.entries.remove(i);
                assert(entry_views(self.entries@) =~= v.remove(i as int));
                Ok(())
            },
        }
    }

    /// Moves the credential stored under `old_name` to `new_name`. A rename
    /// never overwrites: it fails when `new_name` is taken, also when it is
    /// `old_name` itself.
    pub fn rename(&mut self, old_name: &str, new_name: String) -> (r: Result<(), TotpError>)
        requires
            old(self).wf(),
        ensures
            final(self).wf(),
            !old(self)@.contains_key(old_name@) ==> r == Err::<(), TotpError>(TotpError::NotFound)
                && final(self)@ == old(self)@,
            old(self)@.contains_key(old_name@) && old(self)@.contains_key(new_name@) ==> r == Err::<
                (),
                TotpError,
            >(TotpError::DuplicateName) && final(self)@ == old(self)@,
            old(self)@.contains_key(old_name@) && !old(self)@.contains_key(new_name@) ==> r is Ok
                && final(self)@ == old(self)@.remove(old_name@).insert(new_name@, old(self)@[old_name@]),
    {
        let i = match self.find(old_name) {
            None => return Err(TotpError::NotFound),
            Some(i) => i,
        };
        if self.find(new_name.as_str()).is_some() {
            proof {
                lemma_lookup(entry_views(self.entries@), i as int);
            }
            return Err(TotpError::DuplicateName);
        }
        let ghost v = entry_views(self.entries@);
        proof {
            lemma_lookup(v, i as int);
            lemma_map_remove(v, i as int);
        }
        let (_, c) = self.entries.remove(i);
        assert(entry_views(self.entries@) =~= v.remove(i as int));
        proof {
            assert(!has_name(v.remove(i as int), new_name@)) by {
                if has_name(v.remove(i as int), new_name@) {
                    let a = choose|a: int| 0 <= a < v.remove(i as int).len() && #[trigger] v.remove(i as int)[a].0
                        == new_name@;
                    let a2 = if a < i { a } else { a + 1 };
                    assert(v.remove(i as int)[a] == v[a2]);
                }
            }
            lemma_map_push(v.remove(i as int), (new_name@, c@));
        }
        self.entries.push((new_name, c));
        assert(entry_views(self.entries@) =~= v.remove(i as int).push((new_name@, c@)));
        Ok(())
    }
}

impl Registry {
    /// A copy of the stored entries, in stored order.
    pub fn entries(&self) -> (r: Vec<(String, Credential)>)
        ensures
            entry_views(r@) == self.snapshot(),
    {
        let mut out: Vec<(String, Credential)> = Vec::new();
        let mut i: usize = 0;
        while i < self.entries.len()
            invariant
                i <= self.entries@.len(),
                entry_views(out@) =~= entry_views(self.entries@).take(i as int),
            decreases self.entries@.len() - i,
        {
            let e = (self.entries[i].0.clone(), self.entries[i].1.duplicate());
            let ghost before = out@;
            assert(e.0@ == self.entries@[i as int].0@ && e.1@ == self.entries@[i as int].1@);
            out.push(e);
            assert(out@ == before.push(e));
            assert(entry_views(out@) =~= entry_views(before).push((e.0@, e.1@)));
            assert(entry_views(self.entries@).take(i + 1) =~= entry_views(self.entries@).take(i as int).push(
                (e.0@, e.1@),
            ));
            i = i + 1;
        }
        assert(entry_views(self.entries@).take(i as int) =~= entry_views(self.entries@));
        out
    }

    /// Builds a registry from a list of entries; a repeated name means the
    /// list was not written by a registry.
    pub fn from_entries(es: &Vec<(String, Credential)>) -> (r: Result<Registry, TotpError>)
        ensures
            match r {
                Ok(reg) => unique_names(entry_views(es@)) && reg.wf() && reg@ == as_map(entry_views(es@)),
                Err(e) => !unique_names(entry_views(es@)) && e == TotpError::CorruptStore,
            },
    {
        let ghost v = entry_views(es@);
        let mut reg = Registry::new();
        let mut i: usize = 0;
        assert(v.take(0) =~= Seq::<(Seq<char>, CredentialView)>::empty());
        assert(as_map(v.take(0)) =~= Map::<Seq<char>, CredentialView>::empty());
        while i < es.len()
            invariant
                v == entry_views(es@),
                i <= es@.len(),
                reg.wf(),
                unique_names(v.take(i as int)),
                reg@ == as_map(v.take(i as int)),
            decreases es@.len() - i,
        {
            let name = es[i].0.clone();
            let c = es[i].1.duplicate();
            let ghost u = v.take(i as int);
            assert(v.take(i + 1) =~= u.push(v[i as int]));
            match reg.insert(name, c) {
                Err(_) => {
                    proof {
                        let a = choose|a: int| 0 <= a < u.len() && #[trigger] u[a].0 == v[i as int].0;
                        assert(u[a] == v[a]);
                        assert(v[a].0 == v[i as int].0);
                    }
                    return Err(TotpError::CorruptStore);
                },
                Ok(()) => {
                    proof {
                        lemma_map_push(u, v[i as int]);
                    }
                },
            }
            i = i + 1;
        }
        assert(v.take(i as int) =~= v);
        Ok(reg)
    }

    /// The registry at start-up: empty when nothing was stored, read back
    /// from `parsed` otherwise; stored data that could not be parsed is an
    /// error, never an empty registry.
    pub fn restore(present: bool, parsed: Option<Vec<(String, Credential)>>) -> (r: Result<Registry, TotpError>)
        ensures
            !present ==> (r matches Ok(reg) && reg.wf() && reg@ == Map::<Seq<char>, CredentialView>::empty()),
            present && parsed is None ==> r == Err::<Registry, TotpError>(TotpError::CorruptStore),
            present && parsed is Some ==> match r {
                Ok(reg) => unique_names(entry_views(parsed->Some_0@)) && reg.wf() && reg@ == as_map(
                    entry_views(parsed->Some_0@),
                ),
                Err(e) => !unique_names(entry_views(parsed->Some_0@)) && e == TotpError::CorruptStore,
            },
    {
        if !present {
            return Ok(Registry::new());
        }
        match parsed {
            None => Err(TotpError::CorruptStore),
            Some(es) => Registry::from_entries(&es),
        }
    }
}

/// Writing a registry's entries out and reading them back gives the same
/// mapping of names to credentials.
pub proof fn lemma_store_round_trip(reg: &Registry, es: Seq<(String, Credential)>)
    requires
        reg.wf(),
        entry_views(es) == reg.snapshot(),
    ensures
        unique_names(entry_views(es)),
        as_map(entry_views(es)) == reg@,
{
    reg.lemma_snapshot();
}

proof fn lemma_map_len(v: Seq<(Seq<char>, CredentialView)>)
    requires
        unique_names(v),
    ensures
        as_map(v).len() == v.len(),
    decreases v.len(),
{
    if v.len() == 0 {
        assert(as_map(v) =~= Map::<Seq<char>, CredentialView>::empty());
    } else {
        let u = v.drop_last();
        assert(u.push(v.last()) =~= v);
        assert(unique_names(u)) by {
            assert forall|i: int, j: int| 0 <= i < u.len() && 0 <= j < u.len() && i != j implies #[trigger] u[i].0
                != #[trigger] u[j].0 by {
                assert(u[i] == v[i] && u[j] == v[j]);
            }
        }
        assert(!has_name(u, v.last().0)) by {
            if has_name(u, v.last().0) {
                let a = choose|a: int| 0 <= a < u.len() && #[trigger] u[a].0 == v.last().0;
                assert(u[a] == v[a]);
            }
        }
        lemma_map_push(u, v.last());
        lemma_map_len(u);
        assert(as_map(u).dom().finite()) by {
            lemma_map_finite(u);
        }
    }
}

proof fn lemma_map_finite(v: Seq<(Seq<char>, CredentialView)>)
    ensures
        as_map(v).dom().finite(),
{
    let s = Set::new(|i: int| 0 <= i < v.len());
    assert(s =~= vstd::set_lib::set_int_range(0, v.len() as int));
    let f = |i: int| v[i].0;
    assert forall|k: Seq<char>| as_map(v).dom().contains(k) <==> s.map(f).contains(k) by {
        if has_name(v, k) {
            let i = choose|i: int| 0 <= i < v.len() && #[trigger] v[i].0 == k;
            assert(s.contains(i) && f(i) == k);
        }
        if s.map(f).contains(k) {
            let i = choose|i: int| s.contains(i) && f(i) == k;
            assert(v[i].0 == k);
        }
    }
    assert(as_map(v).dom() =~= s.map(f));
    vstd::set_lib::lemma_int_range(0, v.len() as int);
    s.lemma_map_finite(f);
}

} // verus!
