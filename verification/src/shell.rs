//! The shell's own state: the registered completion scripts and the status
//! of the last command.
use vstd::prelude::*;
use crate::text::str_eq;

verus! {

/// A registered pair: command name and completion script, as plain values.
pub type EntrySpec = (Seq<char>, Seq<char>);

/// The plain values of a list of entries.
pub open spec fn entry_views(es: Seq<(String, String)>) -> Seq<EntrySpec> {
    es.map_values(|e: (String, String)| (e.0@, e.1@))
}

/// The value registered for `k`: the one of the last entry with that key.
pub open spec fn lookup(es: Seq<EntrySpec>, k: Seq<char>) -> Option<Seq<char>>
    decreases es.len(),
{
    if es.len() == 0 {
        None
    } else if es.last().0 == k {
        Some(es.last().1)
    } else {
        lookup(es.drop_last(), k)
    }
}

/// The entries whose key is not `k`, in order.
pub open spec fn without(es: Seq<EntrySpec>, k: Seq<char>) -> Seq<EntrySpec>
    decreases es.len(),
{
    if es.len() == 0 {
        es
    } else if es.last().0 == k {
        without(es.drop_last(), k)
    } else {
        without(es.drop_last(), k).push(es.last())
    }
}

/// No key occurs twice.
pub open spec fn keys_distinct(es: Seq<EntrySpec>) -> bool {
    forall|i: int, j: int| 0 <= i < j < es.len() ==> #[trigger] es[i].0 != #[trigger] es[j].0
}

/// The map that a list of entries stands for.
pub open spec fn table_map(es: Seq<EntrySpec>) -> Map<Seq<char>, Seq<char>> {
    Map::new(|k: Seq<char>| lookup(es, k) is Some, |k: Seq<char>| lookup(es, k).unwrap())
}

proof fn lemma_without(es: Seq<EntrySpec>, k: Seq<char>, q: Seq<char>)
    ensures
        lookup(without(es, k), q) == (if q == k { None } else { lookup(es, q) }),
        forall|i: int| 0 <= i < without(es, k).len() ==> #[trigger] without(es, k)[i].0 != k,
        keys_distinct(es) ==> keys_distinct(without(es, k)),
        forall|i: int|
            0 <= i < without(es, k).len() ==> exists|j: int|
                0 <= j < es.len() && #[trigger] without(es, k)[i] == es[j],
    decreases es.len(),
{
    if es.len() > 0 {
        let init = es.drop_last();
        lemma_without(init, k, q);
        let w = without(init, k);
        if es.last().0 != k {
            assert(without(es, k) == w.push(es.last()));
            assert(w.push(es.last()).drop_last() =~= w);
            assert forall|i: int| 0 <= i < w.push(es.last()).len() implies exists|j: int|
                0 <= j < es.len() && #[trigger] w.push(es.last())[i] == es[j] by {
                if i < w.len() {
                    let j = choose|j: int| 0 <= j < init.len() && w[i] == init[j];
                    assert(es[j] == init[j]);
                } else {
                    assert(w.push(es.last())[i] == es[es.len() - 1]);
                }
            }
            if keys_distinct(es) {
                assert(keys_distinct(init));
                assert forall|i: int, j: int|
                    0 <= i < j < w.push(es.last()).len() implies #[trigger] w.push(es.last())[i].0
                    != #[trigger] w.push(es.last())[j].0 by {
                    if j == w.len() {
                        let m = choose|m: int| 0 <= m < init.len() && w[i] == init[m];
                        assert(es[m] == init[m]);
                        assert(es[m].0 != es[es.len() - 1].0);
                    } else {
                        assert(w[i].0 != w[j].0);
                    }
                }
            }
        } else {
            if keys_distinct(es) {
                assert(keys_distinct(init));
            }
            assert forall|i: int| 0 <= i < w.len() implies exists|j: int|
                0 <= j < es.len() && #[trigger] w[i] == es[j] by {
                let j = choose|j: int| 0 <= j < init.len() && w[i] == init[j];
                assert(es[j] == init[j]);
            }
        }
    }
}

/// A table from command names to completion scripts: a list of pairs in
/// which no command name occurs twice.
pub struct Completions {
    entries: Vec<(String, String)>,
}

impl View for Completions {
    type V = Map<Seq<char>, Seq<char>>;

    closed spec fn view(&self) -> Self::V {
        table_map(entry_views(self.entries@))
    }
}

impl Completions {
    #[verifier::type_invariant]
    closed spec fn inv(self) -> bool {
        keys_distinct(entry_views(self.entries@))
    }

    /// An empty table.
    pub fn new() -> (r: Self)
        ensures
            r@ == Map::<Seq<char>, Seq<char>>::empty(),
    {
        let r = Completions { entries: Vec::new() };
        assert(r@ =~= Map::<Seq<char>, Seq<char>>::empty());
        r
    }

    /// The script registered for `key`.
    pub fn get(&self, key: &str) -> (r: Option<&String>)
        ensures
            match r {
                Some(v) => self@.contains_key(key@) && self@[key@] == v@,
                None => !self@.contains_key(key@),
            },
    {
        let ghost es = entry_views(self.entries@);
        let mut i = self.entries.len();
        assert(es.take(i as int) =~= es);
        while i > 0
            invariant
                i <= self.entries@.len(),
                es == entry_views(self.entries@),
                lookup(es, key@) == lookup(es.take(i as int), key@),
            decreases i,
        {
            let ghost t = es.take(i as int);
            assert(t.last() == es[i - 1]);
            assert(t.drop_last() =~= es.take(i - 1));
            if str_eq(self.entries[i - 1].0.as_str(), key) {
                return Some(&self.entries[i - 1].1);
            }
            i = i - 1;
        }
        assert(es.take(0) =~= Seq::<EntrySpec>::empty());
        None
    }

    /// Registers `value` for `key`, replacing what was registered for it.
    pub fn insert(&mut self, key: String, value: String)
        ensures
            final(self)@ == old(self)@.insert(key@, value@),
    {
        proof {
            use_type_invariant(&*self);
        }
        let ghost es = entry_views(self.entries@);
        let mut kept = self.without_key(key.as_str());
        let ghost w = entry_views(kept@);
        proof {
            assert forall|q: Seq<char>| #[trigger] lookup(es, q) == lookup(w, q) || q == key@ by {
                lemma_without(es, key@, q);
            }
            lemma_without(es, key@, key@);
        }
        kept.push((key, value));
        let ghost w2 = entry_views(kept@);
        proof {
            assert(w2 =~= w.push((key@, value@)));
            assert(w2.drop_last() =~= w);
            assert forall|i: int, j: int| 0 <= i < j < w2.len() implies #[trigger] w2[i].0
                != #[trigger] w2[j].0 by {
                if j < w.len() {
                    assert(w[i].0 != w[j].0);
                } else {
                    assert(w[i].0 != key@);
                }
            }
            assert forall|q: Seq<char>| q != key@ implies #[trigger] lookup(w2, q) == lookup(
                es,
                q,
            ) by {
                lemma_without(es, key@, q);
            }
            assert(table_map(w2) =~= table_map(es).insert(key@, value@));
        }
        self.entries = kept;
    }

    /// Forgets what was registered for `key`.
    pub fn remove(&mut self, key: &str)
        ensures
            final(self)@ == old(self)@.remove(key@),
    {
        proof {
            use_type_invariant(&*self);
        }
        let ghost es = entry_views(self.entries@);
        let kept = self.without_key(key);
        proof {
            assert forall|q: Seq<char>| #[trigger] lookup(entry_views(kept@), q) == (if q == key@ {
                None
            } else {
                lookup(es, q)
            }) by {
                lemma_without(es, key@, q);
            }
            lemma_without(es, key@, key@);
            assert(table_map(entry_views(kept@)) =~= table_map(es).remove(key@));
        }
        self.entries = kept;
    }

    /// Copies of the entries whose key is not `key`, in order.
    fn without_key(&self, key: &str) -> (r: Vec<(String, String)>)
        ensures
            entry_views(r@) == without(entry_views(self.entries@), key@),
    {
        proof {
            use_type_invariant(self);
        }
        let ghost es = entry_views(self.entries@);
        let mut kept: Vec<(String, String)> = Vec::new();
        let mut i: usize = 0;
        while i < self.entries.len()
            invariant
                i <= self.entries@.len(),
                es == entry_views(self.entries@),
                entry_views(kept@) == without(es.take(i as int), key@),
            decreases self.entries@.len() - i,
        {
            let ghost before = entry_views(kept@);
            assert(es.take(i + 1).drop_last() =~= es.take(i as int));
            assert(es.take(i + 1).last() == es[i as int]);
            if !str_eq(self.entries[i].0.as_str(), key) {
                let e = (self.entries[i].0.clone(), self.entries[i].1.clone());
                kept.push(e);
                assert(entry_views(kept@) =~= before.push(es[i as int]));
            }
            i = i + 1;
        }
        assert(es.take(self.entries@.len() as int) =~= es);
        kept
    }
}

/// The state of the shell.
pub struct Shell {
    /// Completion scripts by command name, registered with `complete -C`.
    pub completions: Completions,
    /// The exit status of the last statement.
    pub last_status: i32,
}

impl Shell {
    /// A shell with no completion script and a last status of 0.
    pub fn new() -> (r: Self)
        ensures
            r.completions@ == Map::<Seq<char>, Seq<char>>::empty(),
            r.last_status == 0,
    {
        Shell { completions: Completions::new(), last_status: 0 }
    }

    /// The completion script registered for `cmd`.
    pub fn completion_script(&self, cmd: &str) -> (r: Option<&str>)
        ensures
            match r {
                Some(v) => self.completions@.contains_key(cmd@) && self.completions@[cmd@] == v@,
                None => !self.completions@.contains_key(cmd@),
            },
    {
        match self.completions.get(cmd) {
            Some(s) => Some(s.as_str()),
            None => None,
        }
    }
}

impl Default for Shell {
    fn default() -> (r: Self)
        ensures
            r.completions@ == Map::<Seq<char>, Seq<char>>::empty(),
            r.last_status == 0,
    {
        Shell::new()
    }
}

} // verus!
