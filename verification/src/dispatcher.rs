use vstd::prelude::*;

verus! {

/// The candidate map after an add notification for `key`: a candidate
/// that is already known stays as it is; an unknown key gets `fresh`.
pub open spec fn with_candidate<E>(m: Map<Seq<char>, E>, key: Seq<char>, fresh: E) -> Map<
    Seq<char>,
    E,
> {
    if m.contains_key(key) {
        m
    } else {
        m.insert(key, fresh)
    }
}

/// An add notification for a key that is already known changes nothing:
/// adding twice is adding once.
pub proof fn lemma_add_is_idempotent<E>(m: Map<Seq<char>, E>, key: Seq<char>, first: E, second: E)
    ensures
        with_candidate(with_candidate(m, key, first), key, second) == with_candidate(m, key, first),
{
}

/// After an add notification the key is known, with the candidate it
/// already had, or else the fresh one; no other key changes.
pub proof fn lemma_read_after_add<E>(m: Map<Seq<char>, E>, key: Seq<char>, fresh: E)
    ensures
        with_candidate(m, key, fresh).contains_key(key),
        with_candidate(m, key, fresh)[key] == (if m.contains_key(key) {
            m[key]
        } else {
            fresh
        }),
        forall|other: Seq<char>|
            other != key ==> (#[trigger] with_candidate(m, key, fresh).contains_key(other)
                == m.contains_key(other) && (m.contains_key(other) ==> with_candidate(
                m,
                key,
                fresh,
            )[other] == m[other])),
{
}

/// Notifications about different endpoints can be handled in either
/// order: two adds commute, and so do an add and a delete.
pub proof fn lemma_notifications_for_other_keys_commute<E>(
    m: Map<Seq<char>, E>,
    k1: Seq<char>,
    k2: Seq<char>,
    a: E,
    b: E,
)
    requires
        k1 != k2,
    ensures
        with_candidate(with_candidate(m, k1, a), k2, b) == with_candidate(
            with_candidate(m, k2, b),
            k1,
            a,
        ),
        with_candidate(m, k1, a).remove(k2) == with_candidate(m.remove(k2), k1, a),
{
    assert(with_candidate(with_candidate(m, k1, a), k2, b) =~= with_candidate(
        with_candidate(m, k2, b),
        k1,
        a,
    ));
    assert(with_candidate(m, k1, a).remove(k2) =~= with_candidate(m.remove(k2), k1, a));
}

/// A delete notification undoes the add of a key that was not known.
pub proof fn lemma_delete_undoes_fresh_add<E>(m: Map<Seq<char>, E>, key: Seq<char>, fresh: E)
    requires
        !m.contains_key(key),
    ensures
        with_candidate(m, key, fresh).remove(key) == m,
        !with_candidate(m, key, fresh).remove(key).contains_key(key),
{
    assert(with_candidate(m, key, fresh).remove(key) =~= m);
}

/// The dispatcher's candidates: the endpoints it may hand out, each under
/// its key. No key occurs twice.
#[derive(Debug)]
pub struct Dispatcher<E> {
    keys: Vec<String>,
    candidates: Vec<E>,
}

impl<E> View for Dispatcher<E> {
    type V = Map<Seq<char>, E>;

    closed spec fn view(&self) -> Map<Seq<char>, E> {
        Map::new(
            |k: Seq<char>| self.keys().contains(k),
            |k: Seq<char>| self.candidates()[self.keys().index_of(k)],
        )
    }
}

impl<E> Dispatcher<E> {
    /// The keys, in the order in which they were first added.
    pub closed spec fn keys(&self) -> Seq<Seq<char>> {
        self.keys@.map_values(|k: String| k@)
    }

    /// The candidates, each at the position of its key.
    pub closed spec fn candidates(&self) -> Seq<E> {
        self.candidates@
    }

    /// One candidate per key, and no key twice.
    pub closed spec fn wf(&self) -> bool {
        &&& self.keys@.len() == self.candidates@.len()
        &&& self.keys().no_duplicates()
    }

    proof fn lemma_view_at(&self, i: int)
        requires
            self.wf(),
            0 <= i < self.keys().len(),
        ensures
            self@.contains_key(self.keys()[i]),
            self@[self.keys()[i]] == self.candidates()[i],
    {
        let k = self.keys()[i];
        assert(self.keys().contains(k));
        assert(self.keys().index_of(k) == i) by {
            let j: int = self.keys().index_of(k);
            assert(self.keys()[j] == k);
        }
    }

    /// Changing one candidate in place keeps every key and changes only
    /// the candidate under that position's key.
    pub proof fn lemma_update_in_place(before: &Self, after: &Self, pos: int, e: E)
        requires
            before.wf(),
            0 <= pos < before.keys().len(),
            after.keys() == before.keys(),
            after.candidates() == before.candidates().update(pos, e),
        ensures
            after.wf(),
            after@ == before@.insert(before.keys()[pos], e),
    {
        assert(after.keys@.len() == after.keys().len());
        assert(after@ =~= before@.insert(before.keys()[pos], e)) by {
            assert forall|q: Seq<char>| #[trigger] after@.contains_key(q) implies after@[q] == before@.insert(
                before.keys()[pos],
                e,
            )[q] by {
                let j: int = choose|j: int| 0 <= j < after.keys().len() && after.keys()[j] == q;
                after.lemma_view_at(j);
                before.lemma_view_at(j);
            }
        }
    }

    /// A dispatcher without candidates.
    pub fn new() -> (m: Self)
        ensures
            m.wf(),
            m@ == Map::<Seq<char>, E>::empty(),
            m.keys() == Seq::<Seq<char>>::empty(),
    {
        let m = Dispatcher { keys: Vec::new(), candidates: Vec::new() };
        assert(m@ =~= Map::<Seq<char>, E>::empty());
        assert(m.keys() =~= Seq::<Seq<char>>::empty());
        m
    }

    /// How many candidates there are.
    pub fn len(&self) -> (n: usize)
        requires
            self.wf(),
        ensures
            n == self.keys().len(),
            n == self@.len(),
    {
        proof {
            self.keys().unique_seq_to_set();
            assert(self@.dom() =~= self.keys().to_set());
        }
        self.keys.len()
    }

    /// The position of `key`, if it is present.
    pub fn find(&self, key: &String) -> (pos: Option<usize>)
        requires
            self.wf(),
        ensures
            match pos {
                Some(i) => i < self.keys().len() && self.keys()[i as int] == key@,
                None => !self@.contains_key(key@),
            },
    {
        let n: usize = self.keys.len();
        let mut i: usize = 0;
        while i < n
            invariant
                n == self.keys@.len(),
                i <= n,
                forall|j: int| 0 <= j < i ==> self.keys()[j] != key@,
            decreases n - i,
        {
            if self.keys[i] == *key {
                return Some(i);
            }
            i = i + 1;
        }
        None
    }

    /// Whether a candidate is known under `key`.
    pub fn contains_key(&self, key: &String) -> (present: bool)
        requires
            self.wf(),
        ensures
            present == self@.contains_key(key@),
    {
        match self.find(key) {
            Some(i) => {
                proof {
                    self.lemma_view_at(i as int);
                }
                true
            },
            None => false,
        }
    }

    /// The candidate known under `key`.
    pub fn get(&self, key: &String) -> (found: Option<&E>)
        requires
            self.wf(),
        ensures
            match found {
                Some(e) => self@.contains_key(key@) && *e == self@[key@],
                None => !self@.contains_key(key@),
            },
    {
        match self.find(key) {
            Some(i) => {
                proof {
                    self.lemma_view_at(i as int);
                }
                Some(&self.candidates[i])
            },
            None => None,
        }
    }

    /// Handles an add notification for `key`: the candidate under `key`,
    /// created by `make` when `key` is not known yet; returns its position. A known candidate is left as it
    /// is and `make` is not called for it.
    pub fn add_node_event<F: FnOnce() -> E>(&mut self, key: String, make: F) -> (pos: usize)
        requires
            old(self).wf(),
            make.requires(()),
        ensures
            final(self).wf(),
            pos < final(self).keys().len(),
            final(self).keys()[pos as int] == key@,
            final(self)@ == with_candidate(old(self)@, key@, final(self)@[key@]),
            final(self)@[key@] == final(self).candidates()[pos as int],
            old(self)@.contains_key(key@) ==> final(self).keys() == old(self).keys()
                && final(self).candidates() == old(self).candidates(),
            !old(self)@.contains_key(key@) ==> final(self).keys() == old(self).keys().push(key@)
                && final(self).candidates() == old(self).candidates().push(final(self)@[key@])
                && make.ensures((), final(self)@[key@]),
    {
        match self.find(&key) {
            Some(i) => {
                proof {
                    self.lemma_view_at(i as int);
                }
                i
            },
            None => {
                let ghost old_self = *self;
                let fresh = make();
                let ghost k = key@;
                self.keys.push(key);
                self.candidates.push(fresh);
                let pos: usize = self.keys.len() - 1;
                proof {
                    assert(self.keys() =~= old_self.keys().push(k));
                    assert(!old_self.keys().contains(k));
                    assert(self.keys().no_duplicates()) by {
                        assert forall|a: int, b: int|
                            0 <= a < b < self.keys().len() implies self.keys()[a]
                            != self.keys()[b] by {
                            if b == self.keys().len() - 1 {
                                assert(old_self.keys().contains(old_self.keys()[a]));
                            } else {
                                assert(old_self.keys()[a] != old_self.keys()[b]);
                            }
                        }
                    }
                    self.lemma_view_at(pos as int);
                    assert forall|j: int| 0 <= j < old_self.keys().len() implies self@[old_self.keys()[j]]
                        == old_self@[old_self.keys()[j]] by {
                        old_self.lemma_view_at(j);
                        self.lemma_view_at(j);
                    }
                    assert(self@ =~= old_self@.insert(k, fresh)) by {
                        assert forall|q: Seq<char>| #[trigger] self@.contains_key(q) implies (q == k
                            || old_self@.contains_key(q)) by {
                            let j: int = choose|j: int| 0 <= j < self.keys().len() && self.keys()[j] == q;
                            if j < old_self.keys().len() {
                                assert(old_self.keys()[j] == q);
                                assert(old_self.keys().contains(q));
                            }
                        }
                        assert forall|q: Seq<char>| #[trigger] old_self@.contains_key(q) implies self@.contains_key(q)
                            && self@[q] == old_self@[q] by {
                            let j: int = choose|j: int| 0 <= j < old_self.keys().len() && old_self.keys()[j] == q;
                            old_self.lemma_view_at(j);
                            self.lemma_view_at(j);
                        }
                    }
                }
                pos
            },
        }
    }

    /// The candidate at position `pos`.
    pub fn value_at(&self, pos: usize) -> (e: &E)
        requires
            self.wf(),
            pos < self.keys().len(),
        ensures
            *e == self.candidates()[pos as int],
            *e == self@[self.keys()[pos as int]],
    {
        proof {
            self.lemma_view_at(pos as int);
        }
        &self.candidates[pos]
    }

    /// The candidate at position `pos`, to be changed in place; the keys
    /// stay as they are.
    pub fn value_at_mut(&mut self, pos: usize) -> (e: &mut E)
        requires
            old(self).wf(),
            pos < old(self).keys().len(),
        ensures
            *e == old(self).candidates()[pos as int],
            final(self).keys() == old(self).keys(),
            final(self).candidates() == old(self).candidates().update(pos as int, *final(e)),
    {
        &mut self.candidates[pos]
    }

    /// Handles a delete notification for `key`: drops the candidate under
    /// `key`, if there is one, and hands it back.
    pub fn del_node_event(&mut self, key: &String) -> (removed: Option<E>)
        requires
            old(self).wf(),
        ensures
            final(self).wf(),
            final(self)@ == old(self)@.remove(key@),
            old(self)@.contains_key(key@) ==> {
                let i: int = old(self).keys().index_of(key@);
                &&& final(self).keys() == old(self).keys().remove(i)
                &&& final(self).candidates() == old(self).candidates().remove(i)
            },
            !old(self)@.contains_key(key@) ==> final(self).keys() == old(self).keys()
                && final(self).candidates() == old(self).candidates(),
            match removed {
                Some(e) => old(self)@.contains_key(key@) && e == old(self)@[key@],
                None => !old(self)@.contains_key(key@),
            },
    {
        match self.find(key) {
            Some(i) => {
                let ghost old_self = *self;
                proof {
                    old_self.lemma_view_at(i as int);
                }
                self.keys.remove(i);
                let e = self.candidates.remove(i);
                proof {
                    let ok = old_self.keys();
                    assert(ok.index_of(key@) == i as int) by {
                        let j: int = ok.index_of(key@);
                        assert(ok[j] == key@);
                    }
                    assert(self.keys() =~= ok.remove(i as int));
                    assert(self.keys().no_duplicates()) by {
                        assert forall|a: int, b: int|
                            0 <= a < b < self.keys().len() implies self.keys()[a]
                            != self.keys()[b] by {
                            let oa: int = if a < i { a } else { a + 1 };
                            let ob: int = if b < i { b } else { b + 1 };
                            assert(ok[oa] != ok[ob]);
                        }
                    }
                    assert(self@ =~= old_self@.remove(key@)) by {
                        assert forall|q: Seq<char>| #[trigger] self@.contains_key(q) implies q
                            != key@ && old_self@.contains_key(q) && self@[q] == old_self@[q] by {
                            let j: int = choose|j: int| 0 <= j < self.keys().len() && self.keys()[j] == q;
                            let oj: int = if j < i { j } else { j + 1 };
                            assert(ok[oj] == q);
                            assert(oj != i);
                            self.lemma_view_at(j);
                            old_self.lemma_view_at(oj);
                        }
                        assert forall|q: Seq<char>| #[trigger] old_self@.contains_key(q) && q != key@
                            implies self@.contains_key(q) by {
                            let oj: int = choose|j: int| 0 <= j < ok.len() && ok[j] == q;
                            let j: int = if oj < i { oj } else { oj - 1 };
                            assert(oj != i);
                            assert(self.keys()[j] == q);
                        }
                    }
                }
                Some(e)
            },
            None => {
                proof {
                    assert(self@ =~= self@.remove(key@));
                }
                None
            },
        }
    }
}

} // verus!
