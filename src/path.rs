//! Paths as sequences of components, and which registered path is the nearest
//! ancestor of another.
//!
//! A path is held as the sequence of its components (`["/", "a", "b"]` for
//! `/a/b`). Its ancestors are its nonempty prefixes: the path itself, its
//! parent, and so on up to its first component, the root of an absolute path.

use vstd::prelude::*;

verus! {

/// A path as the texts of its components.
pub type PathModel = Seq<Seq<char>>;

/// `a` is `p` or one of its ancestors.
pub open spec fn is_ancestor(a: PathModel, p: PathModel) -> bool {
    &&& 0 < a.len() <= p.len()
    &&& a == p.subrange(0, a.len() as int)
}

/// The longest prefix of `p` of length at most `n` and at least one that
/// `keys` holds, walking from length `n` towards the root.
pub open spec fn nearest_within(keys: Set<PathModel>, p: PathModel, n: nat) -> Option<PathModel>
    decreases n,
{
    if n == 0 {
        None
    } else if keys.contains(p.subrange(0, n as int)) {
        Some(p.subrange(0, n as int))
    } else {
        nearest_within(keys, p, (n - 1) as nat)
    }
}

/// The nearest ancestor of `p` (`p` included) that `keys` holds, if any.
pub open spec fn nearest_ancestor(keys: Set<PathModel>, p: PathModel) -> Option<PathModel> {
    nearest_within(keys, p, p.len())
}

proof fn lemma_nearest_within(keys: Set<PathModel>, p: PathModel, n: nat)
    requires
        n <= p.len(),
    ensures
        match nearest_within(keys, p, n) {
            Some(a) => {
                &&& keys.contains(a)
                &&& is_ancestor(a, p)
                &&& forall|b: PathModel|
                    #![trigger keys.contains(b), is_ancestor(b, p)]
                    keys.contains(b) && is_ancestor(b, p) && b.len() <= n ==> b.len() <= a.len()
            },
            None => forall|b: PathModel|
                #![trigger keys.contains(b), is_ancestor(b, p)]
                keys.contains(b) && is_ancestor(b, p) ==> b.len() > n,
        },
    decreases n,
{
    if n > 0 {
        lemma_nearest_within(keys, p, (n - 1) as nat);
        let here = p.subrange(0, n as int);
        if !keys.contains(here) {
            assert forall|b: PathModel|
                #![trigger keys.contains(b), is_ancestor(b, p)]
                keys.contains(b) && is_ancestor(b, p) implies b.len() != n by {
                if b.len() == n {
                    assert(b == here);
                }
            }
        }
    }
}

/// The nearest registered ancestor is registered, is an ancestor, and is at
/// least as deep as every registered ancestor; when there is none, no
/// ancestor of the path is registered.
pub proof fn lemma_nearest_ancestor_is_most_specific(keys: Set<PathModel>, p: PathModel)
    ensures
        match nearest_ancestor(keys, p) {
            Some(a) => {
                &&& keys.contains(a)
                &&& is_ancestor(a, p)
                &&& forall|b: PathModel|
                    #![trigger keys.contains(b), is_ancestor(b, p)]
                    keys.contains(b) && is_ancestor(b, p) ==> is_ancestor(b, a)
            },
            None => forall|b: PathModel|
                #![trigger keys.contains(b), is_ancestor(b, p)]
                !(keys.contains(b) && is_ancestor(b, p)),
        },
{
    lemma_nearest_within(keys, p, p.len());
    if let Some(a) = nearest_ancestor(keys, p) {
        assert forall|b: PathModel|
            #![trigger keys.contains(b), is_ancestor(b, p)]
            keys.contains(b) && is_ancestor(b, p) implies is_ancestor(b, a) by {
            assert(b.len() <= a.len());
            assert(b =~= a.subrange(0, b.len() as int));
        }
    }
}

/// The walk up to length `n` sees only prefixes of length at most `n`: two
/// paths that agree there, against two key sets that agree on paths that
/// short, end it alike.
pub proof fn lemma_nearest_within_sees_prefixes(
    k1: Set<PathModel>,
    k2: Set<PathModel>,
    p: PathModel,
    q: PathModel,
    n: nat,
)
    requires
        n <= p.len(),
        n <= q.len(),
        p.subrange(0, n as int) == q.subrange(0, n as int),
        forall|a: PathModel| a.len() <= n ==> (k1.contains(a) <==> k2.contains(a)),
    ensures
        nearest_within(k1, p, n) == nearest_within(k2, q, n),
    decreases n,
{
    if n > 0 {
        let m = (n - 1) as nat;
        assert(p.subrange(0, m as int) =~= p.subrange(0, n as int).subrange(0, m as int));
        assert(q.subrange(0, m as int) =~= q.subrange(0, n as int).subrange(0, m as int));
        lemma_nearest_within_sees_prefixes(k1, k2, p, q, m);
        assert(k1.contains(p.subrange(0, n as int)) == k2.contains(p.subrange(0, n as int)));
    }
}

/// Whether `key` is the prefix of length `n` of `path`.
pub fn is_prefix_of(key: &Vec<String>, path: &Vec<String>, n: usize) -> (r: bool)
    requires
        n <= path.len(),
    ensures
        r == (key.deep_view() == path.deep_view().subrange(0, n as int)),
{
    if key.len() != n {
        return false;
    }
    let mut i: usize = 0;
    while i < n
        invariant
            key.len() == n,
            n <= path.len(),
            i <= n,
            forall|j: int| 0 <= j < i ==> key[j]@ == path[j]@,
        decreases n - i,
    {
        if key[i] != path[i] {
            assert(key.deep_view()[i as int] != path.deep_view().subrange(0, n as int)[i as int]);
            return false;
        }
        i = i + 1;
    }
    assert(key.deep_view() =~= path.deep_view().subrange(0, n as int));
    true
}

} // verus!
