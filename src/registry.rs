//! The path registry: at most one handler per path, looked up by path or by
//! nearest registered ancestor.

use vstd::prelude::*;

use crate::path::{
    is_prefix_of,
    lemma_nearest_within_sees_prefixes,
    nearest_ancestor,
    nearest_within,
    PathModel,
};

verus! {

/// Handlers keyed by path. Registering a path again replaces its handler;
/// the order of registration plays no part in any lookup.
pub struct Registry<H> {
    paths: Vec<Vec<String>>,
    handlers: Vec<H>,
}

proof fn lemma_whole_prefix(path: &Vec<String>)
    ensures
        path.deep_view().subrange(0, path.len() as int) == path.deep_view(),
{
    assert(path.deep_view().subrange(0, path.len() as int) =~= path.deep_view());
}

impl<H> View for Registry<H> {
    type V = Map<PathModel, H>;

    closed spec fn view(&self) -> Map<PathModel, H> {
        Map::new(
            |k: PathModel| self.keys().contains(k),
            |k: PathModel| self.handlers@[self.keys().index_of(k)],
        )
    }
}

impl<H> Registry<H> {
    spec fn keys(&self) -> Seq<PathModel> {
        self.paths.deep_view()
    }

    /// Each path stands once, beside its handler.
    pub closed spec fn wf(&self) -> bool {
        &&& self.paths.len() == self.handlers.len()
        &&& self.keys().no_duplicates()
    }

    proof fn lemma_entry(&self, i: int)
        requires
            self.wf(),
            0 <= i < self.paths.len(),
        ensures
            self@.contains_key(self.keys()[i]),
            self@[self.keys()[i]] == self.handlers@[i],
    {
        let k = self.keys()[i];
        assert(self.keys().contains(k));
        let j = self.keys().index_of(k);
        assert(self.keys()[j] == k);
    }

    /// An empty registry.
    pub fn new() -> (r: Self)
        ensures
            r.wf(),
            r@ == Map::<PathModel, H>::empty(),
    {
        let r = Registry { paths: Vec::new(), handlers: Vec::new() };
        assert(r@ =~= Map::<PathModel, H>::empty());
        r
    }

    /// The number of registered paths.
    pub fn len(&self) -> (r: usize)
        requires
            self.wf(),
        ensures
            r == self@.len(),
    {
        proof {
            self.keys().unique_seq_to_set();
            assert(self@.dom() =~= self.keys().to_set());
        }
        self.paths.len()
    }

    /// Where the prefix of length `n` of `path` stands in the registry, if it does.
    fn position(&self, path: &Vec<String>, n: usize) -> (r: Option<usize>)
        requires
            self.wf(),
            n <= path.len(),
        ensures
            match r {
                Some(i) => {
                    &&& i < self.paths.len()
                    &&& self.keys()[i as int] == path.deep_view().subrange(0, n as int)
                },
                None => !self@.contains_key(path.deep_view().subrange(0, n as int)),
            },
    {
        let mut i: usize = 0;
        while i < self.paths.len()
            invariant
                self.wf(),
                n <= path.len(),
                i <= self.paths.len(),
                forall|j: int| 0 <= j < i ==> self.keys()[j] != path.deep_view().subrange(0, n as int),
            decreases self.paths.len() - i,
        {
            if is_prefix_of(&self.paths[i], path, n) {
                return Some(i);
            }
            i = i + 1;
        }
        None
    }

    /// Where the nearest registered ancestor of `path` stands, if there is one.
    fn nearest_position(&self, path: &Vec<String>) -> (r: Option<usize>)
        requires
            self.wf(),
        ensures
            match r {
                Some(i) => {
                    &&& i < self.paths.len()
                    &&& nearest_ancestor(self@.dom(), path.deep_view()) == Some(self.keys()[i as int])
                },
                None => nearest_ancestor(self@.dom(), path.deep_view()) is None,
            },
    {
        let ghost p = path.deep_view();
        let mut n: usize = path.len();
        while n > 0
            invariant
                self.wf(),
                n <= path.len(),
                p == path.deep_view(),
                nearest_ancestor(self@.dom(), p) == nearest_within(self@.dom(), p, n as nat),
            decreases n,
        {
            match self.position(path, n) {
                Some(i) => {
                    proof { self.lemma_entry(i as int); }
                    return Some(i);
                },
                None => {
                    n = n - 1;
                },
            }
        }
        None
    }

    /// The handler registered at the nearest ancestor of `path` (`path`
    /// itself included), if any ancestor is registered.
    pub fn lookup_ancestor(&self, path: &Vec<String>) -> (r: Option<&H>)
        requires
            self.wf(),
        ensures
            match nearest_ancestor(self@.dom(), path.deep_view()) {
                Some(a) => r == Some(&self@[a]),
                None => r is None,
            },
    {
        match self.nearest_position(path) {
            Some(i) => {
                proof { self.lemma_entry(i as int); }
                Some(&self.handlers[i])
            },
            None => None,
        }
    }

    /// The handler registered at the nearest ancestor of `path`, to be run;
    /// running it may change it, and nothing else in the registry.
    pub fn lookup_ancestor_mut(&mut self, path: &Vec<String>) -> (r: Option<&mut H>)
        requires
            old(self).wf(),
        ensures
            final(self).wf(),
            match nearest_ancestor(old(self)@.dom(), path.deep_view()) {
                Some(a) => {
                    &&& r is Some
                    &&& *r.unwrap() == old(self)@[a]
                    &&& final(self)@ == old(self)@.insert(a, *final(r.unwrap()))
                },
                None => r is None && final(self)@ == old(self)@,
            },
    {
        match self.nearest_position(path) {
            Some(i) => {
                proof { old(self).lemma_entry(i as int); }
                let h = &mut self.handlers[i];
                Some(h)
            },
            None => None,
        }
    }

    /// Whether a handler is registered at exactly `path`.
    pub fn contains(&self, path: &Vec<String>) -> (r: bool)
        requires
            self.wf(),
        ensures
            r == self@.contains_key(path.deep_view()),
    {
        proof { lemma_whole_prefix(path); }
        match self.position(path, path.len()) {
            Some(i) => {
                proof { self.lemma_entry(i as int); }
                true
            },
            None => false,
        }
    }

    /// Registers `handler` at `path`, replacing the handler that was there.
    /// Returns whether one was.
    pub fn insert(&mut self, path: Vec<String>, handler: H) -> (replaced: bool)
        requires
            old(self).wf(),
        ensures
            final(self).wf(),
            final(self)@ == old(self)@.insert(path.deep_view(), handler),
            replaced == old(self)@.contains_key(path.deep_view()),
    {
        let ghost k = path.deep_view();
        proof { lemma_whole_prefix(&path); }
        match self.position(&path, path.len()) {
            Some(i) => {
                proof { old(self).lemma_entry(i as int); }
                self.handlers.set(i, handler);
                proof {
                    assert(self.keys() == old(self).keys());
                    assert forall|j: int| 0 <= j < self.paths.len() implies
                        self@.contains_key(self.keys()[j]) && self@[self.keys()[j]]
                            == old(self)@.insert(k, handler)[self.keys()[j]] by {
                        self.lemma_entry(j);
                        if j != i {
                            old(self).lemma_entry(j);
                        }
                    }
                    assert(self@ =~= old(self)@.insert(k, handler));
                }
                true
            },
            None => {
                self.paths.push(path);
                self.handlers.push(handler);
                proof {
                    let n = old(self).paths.len() as int;
                    assert(self.keys() =~= old(self).keys().push(k));
                    assert forall|j: int| 0 <= j < self.paths.len() implies
                        self@.contains_key(self.keys()[j]) && self@[self.keys()[j]]
                            == old(self)@.insert(k, handler)[self.keys()[j]] by {
                        self.lemma_entry(j);
                        if j < n {
                            old(self).lemma_entry(j);
                        }
                    }
                    assert forall|q: PathModel| self@.contains_key(q) implies
                        old(self)@.insert(k, handler).contains_key(q)
                            && self@[q] == old(self)@.insert(k, handler)[q] by {
                        let j = self.keys().index_of(q);
                        assert(self.keys()[j] == q);
                        if j < n {
                            assert(old(self).keys()[j] == q);
                        }
                    }
                    assert forall|q: PathModel| old(self)@.insert(k, handler).contains_key(q)
                        implies self@.contains_key(q) by {
                        if q != k {
                            let j = old(self).keys().index_of(q);
                            assert(old(self).keys()[j] == q);
                            assert(self.keys()[j] == q);
                        } else {
                            assert(self.keys()[n] == q);
                        }
                    }
                    assert(self@ =~= old(self)@.insert(k, handler));
                }
                false
            },
        }
    }

    /// Removes the handler registered at `path`. Returns whether there was one.
    pub fn remove(&mut self, path: &Vec<String>) -> (existed: bool)
        requires
            old(self).wf(),
        ensures
            final(self).wf(),
            final(self)@ == old(self)@.remove(path.deep_view()),
            existed == old(self)@.contains_key(path.deep_view()),
    {
        let ghost k = path.deep_view();
        proof { lemma_whole_prefix(path); }
        match self.position(path, path.len()) {
            Some(i) => {
                proof { old(self).lemma_entry(i as int); }
                self.paths.remove(i);
                self.handlers.remove(i);
                proof {
                    let ks = old(self).keys();
                    assert(self.keys() =~= ks.remove(i as int));
                    assert forall|j: int| 0 <= j < self.paths.len() implies
                        self@.contains_key(self.keys()[j]) && self@[self.keys()[j]]
                            == old(self)@.remove(k)[self.keys()[j]] by {
                        self.lemma_entry(j);
                        if j < i {
                            old(self).lemma_entry(j);
                        } else {
                            old(self).lemma_entry(j + 1);
                        }
                    }
                    assert forall|q: PathModel| old(self)@.remove(k).contains_key(q) implies
                        self@.contains_key(q) by {
                        let j = ks.index_of(q);
                        assert(ks[j] == q);
                        if j < i {
                            assert(self.keys()[j] == q);
                        } else {
                            assert(self.keys()[j - 1] == q);
                        }
                    }
                    assert(self@ =~= old(self)@.remove(k));
                }
                true
            },
            None => {
                assert(self@ =~= old(self)@.remove(k));
                false
            },
        }
    }
}

/// Registering twice at one path leaves a single entry there, which holds
/// the later handler: the registry is as if only the later registration had
/// been made, it holds one path more than before only if that path was new,
/// and an event at that path goes to the later handler.
pub proof fn lemma_register_twice<H>(m: Map<PathModel, H>, p: PathModel, first: H, second: H)
    requires
        m.dom().finite(),
        p.len() > 0,
    ensures
        m.insert(p, first).insert(p, second) == m.insert(p, second),
        nearest_ancestor(m.insert(p, first).insert(p, second).dom(), p) == Some(p),
        m.insert(p, first).insert(p, second)[p] == second,
        m.insert(p, first).insert(p, second).len() == if m.contains_key(p) {
            m.len()
        } else {
            m.len() + 1
        },
{
    assert(m.insert(p, first).insert(p, second) =~= m.insert(p, second));
    assert(p.subrange(0, p.len() as int) =~= p);
    if m.contains_key(p) {
        assert(m.insert(p, second).dom() =~= m.dom());
    } else {
        assert(m.insert(p, second).dom() =~= m.dom().insert(p));
    }
}

/// Once `p` is unregistered, an event at `p` no longer goes to `p`: it goes
/// to the nearest registered ancestor above `p`, if there is one.
pub proof fn lemma_unregistered_goes_above<H>(m: Map<PathModel, H>, p: PathModel)
    requires
        p.len() > 0,
    ensures
        nearest_ancestor(m.remove(p).dom(), p) == nearest_ancestor(m.dom(), p.drop_last()),
        nearest_ancestor(m.remove(p).dom(), p) != Some(p),
{
    let kept = m.remove(p).dom();
    let n = (p.len() - 1) as nat;
    assert(p.subrange(0, p.len() as int) =~= p);
    assert(!kept.contains(p));
    assert(p.drop_last() =~= p.subrange(0, n as int));
    assert(p.drop_last().subrange(0, n as int) =~= p.subrange(0, n as int));
    lemma_nearest_within_sees_prefixes(kept, m.dom(), p, p.drop_last(), n);
    crate::path::lemma_nearest_ancestor_is_most_specific(m.dom(), p.drop_last());
}

} // verus!
