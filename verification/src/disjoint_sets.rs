use vstd::prelude::*;

use union_find::{QuickUnionUf, UnionBySize, UnionFind};

verus! {

#[verifier::external_type_specification]
#[verifier::external_body]
#[verifier::reject_recursive_types(V)]
pub struct ExQuickUnionUf<V>(QuickUnionUf<V>);

#[verifier::external_type_specification]
#[verifier::external_body]
pub struct ExUnionBySize(UnionBySize);

/// The root of the set of each key of a union-find structure: entry `k` is
/// the key that `find(k)` returns.
pub uninterp spec fn uf_roots(uf: QuickUnionUf<UnionBySize>) -> Seq<usize>;

/// `UnionFind::new` on `QuickUnionUf`: `len` keys, each in a set of its own,
/// so that every key is its own root.
#[verifier::external_body]
pub(crate) fn uf_new(len: usize) -> (uf: QuickUnionUf<UnionBySize>)
    ensures
        uf_roots(uf) == Seq::new(len as nat, |i: int| i as usize),
{
    QuickUnionUf::<UnionBySize>::new(len)
}

/// `UnionFind::find` on `QuickUnionUf`: the root of the set of `key`. The
/// path halving it does on the way leaves every root as it was.
#[verifier::external_body]
pub(crate) fn uf_find(uf: &mut QuickUnionUf<UnionBySize>, key: usize) -> (r: usize)
    requires
        key < uf_roots(*old(uf)).len(),
    ensures
        uf_roots(*final(uf)) == uf_roots(*old(uf)),
        r == uf_roots(*old(uf))[key as int],
{
    uf.find(key)
}

/// `UnionFind::union` on `QuickUnionUf`: joins the sets of `key0` and `key1`
/// and returns whether they were different sets. One of the two roots, which
/// one depending on the sizes of the sets, becomes the root of every key of
/// the other set; the keys of other sets keep their roots.
#[verifier::external_body]
pub(crate) fn uf_union(uf: &mut QuickUnionUf<UnionBySize>, key0: usize, key1: usize) -> (r: bool)
    requires
        key0 < uf_roots(*old(uf)).len(),
        key1 < uf_roots(*old(uf)).len(),
    ensures
        r == (uf_roots(*old(uf))[key0 as int] != uf_roots(*old(uf))[key1 as int]),
        uf_roots(*final(uf)).len() == uf_roots(*old(uf)).len(),
        uf_roots(*old(uf))[key0 as int] == uf_roots(*old(uf))[key1 as int] ==> uf_roots(*final(uf))
            == uf_roots(*old(uf)),
        uf_roots(*old(uf))[key0 as int] != uf_roots(*old(uf))[key1 as int] ==> exists|
            parent: usize,
            child: usize,
        |
            #![trigger merged(uf_roots(*old(uf)), uf_roots(*final(uf)), parent, child)]
            ((parent == uf_roots(*old(uf))[key0 as int] && child == uf_roots(*old(uf))[key1 as int])
                || (parent == uf_roots(*old(uf))[key1 as int] && child == uf_roots(
                *old(uf),
            )[key0 as int])) && merged(uf_roots(*old(uf)), uf_roots(*final(uf)), parent, child),
{
    uf.union(key0, key1)
}

/// `after` is `before` with every key whose root was `child` now under the
/// root `parent`.
pub open spec fn merged(before: Seq<usize>, after: Seq<usize>, parent: usize, child: usize) -> bool {
    &&& after.len() == before.len()
    &&& forall|k: int|
        0 <= k < before.len() ==> #[trigger] after[k] == if before[k] == child {
            parent
        } else {
            before[k]
        }
}

} // verus!
