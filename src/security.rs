//! The store that the login flow keeps its pending states in: each state
//! maps to the code verifier it was issued with.
use vstd::prelude::*;

verus! {

/// Pending login states held in memory.
#[derive(Clone, Debug)]
pub struct InMemorySecurityManager {
    challenges: Vec<(String, String)>,
}

/// At most one entry per state.
pub open spec fn keys_unique(s: Seq<(String, String)>) -> bool {
    forall|i: int, j: int| 0 <= i < j < s.len() ==> (#[trigger] s[i]).0@ != (#[trigger] s[j]).0@
}

/// Some entry has state `k`.
pub open spec fn has_key(s: Seq<(String, String)>, k: Seq<char>) -> bool {
    exists|i: int| 0 <= i < s.len() && (#[trigger] s[i]).0@ == k
}

/// The entries as a map from state to code verifier.
pub open spec fn entries_map(s: Seq<(String, String)>) -> Map<Seq<char>, Seq<char>> {
    Map::new(
        |k: Seq<char>| has_key(s, k),
        |k: Seq<char>| s[choose|i: int| 0 <= i < s.len() && (#[trigger] s[i]).0@ == k].1@,
    )
}

proof fn lemma_value_at(s: Seq<(String, String)>, i: int)
    requires
        keys_unique(s),
        0 <= i < s.len(),
    ensures
        entries_map(s).contains_key(s[i].0@),
        entries_map(s)[s[i].0@] == s[i].1@,
{
    let k = s[i].0@;
    assert(has_key(s, k));
    let c = choose|j: int| 0 <= j < s.len() && (#[trigger] s[j]).0@ == k;
    if c != i {
        if c < i {
            assert(s[c].0@ != s[i].0@);
        } else {
            assert(s[i].0@ != s[c].0@);
        }
    }
}

impl View for InMemorySecurityManager {
    type V = Map<Seq<char>, Seq<char>>;

    closed spec fn view(&self) -> Map<Seq<char>, Seq<char>> {
        entries_map(self.challenges@)
    }
}

impl Default for InMemorySecurityManager {
    fn default() -> (r: InMemorySecurityManager)
        ensures
            r.is_wf(),
            r@ == Map::<Seq<char>, Seq<char>>::empty(),
    {
        InMemorySecurityManager::new()
    }
}

impl InMemorySecurityManager {
    pub closed spec fn is_wf(&self) -> bool {
        keys_unique(self.challenges@)
    }

    /// A store with no pending state.
    pub fn new() -> (r: InMemorySecurityManager)
        ensures
            r.is_wf(),
            r@ == Map::<Seq<char>, Seq<char>>::empty(),
    {
        let r = InMemorySecurityManager { challenges: Vec::new() };
        assert(r@ =~= Map::<Seq<char>, Seq<char>>::empty());
        r
    }

    /// Position of the entry for `state`, if any.
    fn position(&self, state: &String) -> (r: Option<usize>)
        requires
            self.is_wf(),
        ensures
            match r {
                Some(i) => i < self.challenges@.len() && self.challenges@[i as int].0@ == state@,
                None => !has_key(self.challenges@, state@),
            },
    {
        let mut i: usize = 0;
        while i < self.challenges.len()
            invariant
                i <= self.challenges@.len(),
                forall|j: int| 0 <= j < i ==> (#[trigger] self.challenges@[j]).0@ != state@,
            decreases self.challenges@.len() - i,
        {
            if self.challenges[i].0 == *state {
                return Some(i);
            }
            i = i + 1;
        }
        None
    }

    /// Remembers that `state` was issued with `code_verifier`, replacing what
    /// `state` held before.
    pub fn save_state(&mut self, state: String, code_verifier: String)
        requires
            old(self).is_wf(),
        ensures
            final(self).is_wf(),
            final(self)@ == old(self)@.insert(state@, code_verifier@),
    {
        let ghost old_s = self.challenges@;
        let ghost k = state@;
        let ghost v = code_verifier@;
        match self.position(&state) {
            Some(i) => {
                self.challenges.set(i, (state, code_verifier));
                let ghost s = self.challenges@;
                assert(s == old_s.update(i as int, s[i as int]));
                assert forall|a: int, b: int| 0 <= a < b < s.len() implies (#[trigger] s[a]).0@
                    != (#[trigger] s[b]).0@ by {
                    assert(old_s[a].0@ != old_s[b].0@);
                }
                assert forall|key: Seq<char>|
                    #[trigger] has_key(s, key) == (has_key(old_s, key) || key == k) by {
                    if has_key(old_s, key) {
                        let j = choose|j: int| 0 <= j < old_s.len() && (#[trigger] old_s[j]).0@ == key;
                        assert(s[j].0@ == key);
                    }
                    if has_key(s, key) {
                        let j = choose|j: int| 0 <= j < s.len() && (#[trigger] s[j]).0@ == key;
                        if j != i {
                            assert(old_s[j].0@ == key);
                        }
                    }
                    if key == k {
                        assert(s[i as int].0@ == key);
                    }
                }
                assert forall|key: Seq<char>| #[trigger]
                    entries_map(s).contains_key(key) implies entries_map(s)[key] == entries_map(
                    old_s,
                ).insert(k, v)[key] by {
                    let j = choose|j: int| 0 <= j < s.len() && (#[trigger] s[j]).0@ == key;
                    lemma_value_at(s, j);
                    if j != i {
                        lemma_value_at(old_s, j);
                    }
                }
                assert(entries_map(s) =~= entries_map(old_s).insert(k, v));
            },
            None => {
                self.challenges.push((state, code_verifier));
                let ghost s = self.challenges@;
                let ghost n = old_s.len() as int;
                assert(s == old_s.push(s[n]));
                assert forall|a: int, b: int| 0 <= a < b < s.len() implies (#[trigger] s[a]).0@
                    != (#[trigger] s[b]).0@ by {
                    if b == n {
                        assert(old_s[a].0@ != k);
                    } else {
                        assert(old_s[a].0@ != old_s[b].0@);
                    }
                }
                assert forall|key: Seq<char>|
                    #[trigger] has_key(s, key) == (has_key(old_s, key) || key == k) by {
                    if has_key(old_s, key) {
                        let j = choose|j: int| 0 <= j < old_s.len() && (#[trigger] old_s[j]).0@ == key;
                        assert(s[j].0@ == key);
                    }
                    if has_key(s, key) {
                        let j = choose|j: int| 0 <= j < s.len() && (#[trigger] s[j]).0@ == key;
                        if j != n {
                            assert(old_s[j].0@ == key);
                        }
                    }
                    if key == k {
                        assert(s[n].0@ == key);
                    }
                }
                assert forall|key: Seq<char>| #[trigger]
                    entries_map(s).contains_key(key) implies entries_map(s)[key] == entries_map(
                    old_s,
                ).insert(k, v)[key] by {
                    let j = choose|j: int| 0 <= j < s.len() && (#[trigger] s[j]).0@ == key;
                    lemma_value_at(s, j);
                    if j != n {
                        lemma_value_at(old_s, j);
                    }
                }
                assert(entries_map(s) =~= entries_map(old_s).insert(k, v));
            },
        }
    }

    /// Drops `state` once its lifetime is over.
    pub fn expire_state(&mut self, state: &str)
        requires
            old(self).is_wf(),
        ensures
            final(self).is_wf(),
            final(self)@ == old(self)@.remove(state@),
    {
        let r = self.verify_state(state);
        proof {
            if r is None {
                assert(old(self)@.remove(state@) =~= old(self)@);
            }
        }
    }

    /// Takes out the code verifier that `state` was issued with; `None` when
    /// `state` is not pending. A state can be used once.
    pub fn verify_state(&mut self, state: &str) -> (r: Option<String>)
        requires
            old(self).is_wf(),
        ensures
            final(self).is_wf(),
            match r {
                Some(v) => {
                    &&& old(self)@.contains_key(state@)
                    &&& v@ == old(self)@[state@]
                    &&& final(self)@ == old(self)@.remove(state@)
                },
                None => !old(self)@.contains_key(state@) && final(self)@ == old(
                    self,
                )@,
            },
    {
        let key = state.to_owned();
        let ghost old_s = self.challenges@;
        let ghost k = state@;
        match self.position(&key) {
            Some(i) => {
                proof {
                    lemma_value_at(old_s, i as int);
                }
                let (_, verifier) = self.challenges.remove(i);
                let ghost s = self.challenges@;
                assert(s == old_s.remove(i as int));
                assert forall|a: int, b: int| 0 <= a < b < s.len() implies (#[trigger] s[a]).0@
                    != (#[trigger] s[b]).0@ by {
                    let a0 = if a < i { a } else { a + 1 };
                    let b0 = if b < i { b } else { b + 1 };
                    assert(s[a] == old_s[a0]);
                    assert(s[b] == old_s[b0]);
                    assert(old_s[a0].0@ != old_s[b0].0@);
                }
                assert forall|key2: Seq<char>|
                    #[trigger] has_key(s, key2) == (has_key(old_s, key2) && key2 != k) by {
                    if has_key(old_s, key2) && key2 != k {
                        let j = choose|j: int| 0 <= j < old_s.len() && (#[trigger] old_s[j]).0@ == key2;
                        if j < i {
                            assert(s[j].0@ == key2);
                        } else {
                            assert(j != i);
                            assert(s[j - 1] == old_s[j]);
                            assert(s[j - 1].0@ == key2);
                        }
                    }
                    if has_key(s, key2) {
                        let j = choose|j: int| 0 <= j < s.len() && (#[trigger] s[j]).0@ == key2;
                        let j0 = if j < i { j } else { j + 1 };
                        assert(s[j] == old_s[j0]);
                        assert(old_s[j0].0@ == key2);
                        if j0 < i {
                            assert(old_s[j0].0@ != old_s[i as int].0@);
                        } else {
                            assert(old_s[i as int].0@ != old_s[j0].0@);
                        }
                    }
                }
                assert forall|key2: Seq<char>| #[trigger]
                    entries_map(s).contains_key(key2) implies entries_map(s)[key2] == entries_map(
                    old_s,
                ).remove(k)[key2] by {
                    let j = choose|j: int| 0 <= j < s.len() && (#[trigger] s[j]).0@ == key2;
                    let j0 = if j < i { j } else { j + 1 };
                    assert(s[j] == old_s[j0]);
                    lemma_value_at(s, j);
                    lemma_value_at(old_s, j0);
                }
                assert(entries_map(s) =~= entries_map(old_s).remove(k));
                Some(verifier)
            },
            None => None,
        }
    }
}

} // verus!
