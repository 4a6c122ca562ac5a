//! The entries of a directory, chosen and put in order.

use vstd::prelude::*;

use crate::paths::PathInfo;

verus! {

/// An entry of a directory.
#[derive(Debug)]
pub struct DirEntry<P> {
    pub info: PathInfo<P>,
    /// The name of the entry in bytes, by which entries are ordered.
    pub name: Vec<u8>,
}

/// Whether `a` comes before `b` in the order of a dictionary.
pub open spec fn bytes_before(a: Seq<u8>, b: Seq<u8>) -> bool
    decreases a.len(),
{
    if b.len() == 0 {
        false
    } else if a.len() == 0 {
        true
    } else if a[0] != b[0] {
        a[0] < b[0]
    } else {
        bytes_before(a.drop_first(), b.drop_first())
    }
}

/// Whether entry `a` comes before entry `b`: by name, and by position where
/// the names are the same.
pub open spec fn comes_before<P>(entries: Seq<DirEntry<P>>, a: int, b: int) -> bool {
    bytes_before(entries[a].name@, entries[b].name@) || (entries[a].name@ == entries[b].name@ && a
        < b)
}

/// Whether `order` holds the positions of all chosen entries and no others,
/// in the order of their names.
pub open spec fn is_listing<P>(
    order: Seq<usize>,
    entries: Seq<DirEntry<P>>,
    chosen: spec_fn(DirEntry<P>) -> bool,
) -> bool {
    &&& forall|i: int|
        0 <= i < order.len() ==> (#[trigger] order[i]) < entries.len() && chosen(
            entries[order[i] as int],
        )
    &&& forall|k: int|
        #![trigger entries[k]]
        0 <= k < entries.len() && chosen(entries[k]) ==> exists|i: int|
            0 <= i < order.len() && #[trigger] order[i] == k
    &&& forall|i: int, j: int|
        #![trigger order[i], order[j]]
        0 <= i < j < order.len() ==> comes_before(entries, order[i] as int, order[j] as int)
}

fn before(a: &Vec<u8>, b: &Vec<u8>) -> (r: bool)
    ensures
        r == bytes_before(a@, b@),
{
    let mut i: usize = 0;
    assert(a@.skip(0) =~= a@ && b@.skip(0) =~= b@);
    while i < a.len() && i < b.len() && a[i] == b[i]
        invariant
            i <= a.len(),
            i <= b.len(),
            bytes_before(a@, b@) == bytes_before(a@.skip(i as int), b@.skip(i as int)),
        decreases a.len() - i,
    {
        assert(a@.skip(i as int).drop_first() =~= a@.skip(i + 1));
        assert(b@.skip(i as int).drop_first() =~= b@.skip(i + 1));
        i += 1;
    }
    if i >= b.len() {
        false
    } else if i >= a.len() {
        true
    } else {
        a[i] < b[i]
    }
}

proof fn lemma_before_transitive(a: Seq<u8>, b: Seq<u8>, c: Seq<u8>)
    requires
        bytes_before(a, b),
        bytes_before(b, c),
    ensures
        bytes_before(a, c),
    decreases a.len(),
{
    if a.len() > 0 && a[0] == b[0] && b[0] == c[0] {
        lemma_before_transitive(a.drop_first(), b.drop_first(), c.drop_first());
    }
}

proof fn lemma_before_total(a: Seq<u8>, b: Seq<u8>)
    ensures
        bytes_before(a, b) || bytes_before(b, a) || a == b,
    decreases a.len(),
{
    if a.len() == 0 || b.len() == 0 {
        if a.len() == b.len() {
            assert(a =~= b);
        }
    } else if a[0] == b[0] {
        lemma_before_total(a.drop_first(), b.drop_first());
        if a.drop_first() == b.drop_first() {
            assert(a =~= seq![a[0]] + a.drop_first());
            assert(b =~= seq![b[0]] + b.drop_first());
        }
    }
}

/// The positions of the entries whose `keep` is true, in the order of their names.
pub(crate) fn list_kept<P>(
    entries: &Vec<DirEntry<P>>,
    keep: &Vec<bool>,
    Ghost(chosen): Ghost<spec_fn(DirEntry<P>) -> bool>,
) -> (order: Vec<usize>)
    requires
        keep.len() == entries.len(),
        forall|k: int| 0 <= k < keep.len() ==> #[trigger] keep@[k] == chosen(entries@[k]),
    ensures
        is_listing(order@, entries@, chosen),
{
    let mut order: Vec<usize> = Vec::new();
    let mut k: usize = 0;
    while k < entries.len()
        invariant
            k <= entries.len(),
            keep.len() == entries.len(),
            forall|k: int| 0 <= k < keep.len() ==> #[trigger] keep@[k] == chosen(entries@[k]),
            forall|i: int| 0 <= i < order.len() ==> (#[trigger] order@[i]) < k,
            is_listing(order@, entries@.take(k as int), chosen),
        decreases entries.len() - k,
    {
        let ghost now = entries@.take(k + 1);
        let ghost was = entries@.take(k as int);
        let ghost sorted = order@;
        if keep[k] {
            let mut p: usize = 0;
            while p < order.len() && !before(&entries[k].name, &entries[order[p]].name)
                invariant
                    p <= order.len(),
                    k < entries.len(),
                    forall|i: int| 0 <= i < order.len() ==> (#[trigger] order@[i]) < k,
                    forall|i: int|
                        0 <= i < p ==> !bytes_before(
                            entries@[k as int].name@,
                            entries@[(#[trigger] order@[i]) as int].name@,
                        ),
                decreases order.len() - p,
            {
                p += 1;
            }
            proof {
                let kn = entries@[k as int].name@;
                assert forall|i: int| 0 <= i < p implies comes_before(
                    now,
                    (#[trigger] sorted[i]) as int,
                    k as int,
                ) by {
                    lemma_before_total(entries@[sorted[i] as int].name@, kn);
                }
                assert forall|i: int| p <= i < sorted.len() implies comes_before(
                    now,
                    k as int,
                    (#[trigger] sorted[i]) as int,
                ) by {
                    let first = entries@[sorted[p as int] as int].name@;
                    assert(bytes_before(kn, first));
                    if i > p {
                        assert(comes_before(was, sorted[p as int] as int, sorted[i] as int));
                        if bytes_before(first, entries@[sorted[i] as int].name@) {
                            lemma_before_transitive(kn, first, entries@[sorted[i] as int].name@);
                        }
                    }
                }
            }
            order.insert(p, k);
            proof {
                assert(order@ == sorted.insert(p as int, k));
                assert forall|i: int| 0 <= i < order@.len() implies (#[trigger] order@[i])
                    < now.len() && chosen(now[order@[i] as int]) by {
                    if i < p {
                        assert(order@[i] == sorted[i]);
                        assert(chosen(was[sorted[i] as int]));
                    } else if i > p {
                        assert(order@[i] == sorted[i - 1]);
                        assert(chosen(was[sorted[i - 1] as int]));
                    }
                }
                assert forall|x: int|
                    #![trigger now[x]]
                    0 <= x < now.len() && chosen(now[x]) implies exists|i: int|
                    0 <= i < order@.len() && #[trigger] order@[i] == x by {
                    if x == k {
                        assert(order@[p as int] == x);
                    } else {
                        assert(was[x] == now[x]);
                        let i = choose|i: int| 0 <= i < sorted.len() && #[trigger] sorted[i] == x;
                        if i < p {
                            assert(order@[i] == x);
                        } else {
                            assert(order@[i + 1] == x);
                        }
                    }
                }
                assert forall|i: int, j: int|
                    #![trigger order@[i], order@[j]]
                    0 <= i < j < order@.len() implies comes_before(
                    now,
                    order@[i] as int,
                    order@[j] as int,
                ) by {
                    let si = if i < p {
                        i
                    } else {
                        i - 1
                    };
                    let sj = if j < p {
                        j
                    } else {
                        j - 1
                    };
                    if i == p {
                        assert(order@[j] == sorted[sj]);
                    } else if j == p {
                        assert(order@[i] == sorted[si]);
                    } else {
                        assert(order@[i] == sorted[si] && order@[j] == sorted[sj]);
                        assert(comes_before(was, sorted[si] as int, sorted[sj] as int));
                    }
                }
            }
        } else {
            proof {
                assert forall|i: int| 0 <= i < order@.len() implies (#[trigger] order@[i])
                    < now.len() && chosen(now[order@[i] as int]) by {
                    assert(chosen(was[order@[i] as int]));
                }
                assert forall|x: int|
                    #![trigger now[x]]
                    0 <= x < now.len() && chosen(now[x]) implies exists|i: int|
                    0 <= i < order@.len() && #[trigger] order@[i] == x by {
                    assert(x != k);
                    assert(was[x] == now[x]);
                }
                assert forall|i: int, j: int|
                    #![trigger order@[i], order@[j]]
                    0 <= i < j < order@.len() implies comes_before(
                    now,
                    order@[i] as int,
                    order@[j] as int,
                ) by {
                    assert(comes_before(was, order@[i] as int, order@[j] as int));
                }
            }
        }
        k += 1;
    }
    assert(entries@.take(k as int) =~= entries@);
    order
}

// ── Laws ─────────────────────────────────────────────────────────────────

/// No entry is listed twice.
pub proof fn law_listing_has_no_repeats<P>(
    order: Seq<usize>,
    entries: Seq<DirEntry<P>>,
    chosen: spec_fn(DirEntry<P>) -> bool,
)
    requires
        is_listing(order, entries, chosen),
    ensures
        order.no_duplicates(),
{
    assert forall|i: int, j: int| 0 <= i < order.len() && 0 <= j < order.len() && i
        != j implies order[i] != order[j] by {
        lemma_before_irreflexive(entries[order[i] as int].name@);
        if i < j {
            assert(comes_before(entries, order[i] as int, order[j] as int));
        } else {
            assert(comes_before(entries, order[j] as int, order[i] as int));
        }
    }
}

proof fn lemma_before_irreflexive(a: Seq<u8>)
    ensures
        !bytes_before(a, a),
    decreases a.len(),
{
    if a.len() > 0 {
        lemma_before_irreflexive(a.drop_first());
    }
}

/// Two names are ordered by the first byte in which they differ, and a name
/// comes before any longer one that begins with it.
pub proof fn law_names_are_in_dictionary_order(front: Seq<u8>, a: Seq<u8>, b: Seq<u8>)
    requires
        a.len() > 0 && b.len() > 0 ==> a[0] != b[0],
    ensures
        bytes_before(front + a, front + b) <==> b.len() > 0 && (a.len() == 0 || a[0] < b[0]),
    decreases front.len(),
{
    let (x, y) = (front + a, front + b);
    if front.len() == 0 {
        assert(x =~= a && y =~= b);
    } else {
        law_names_are_in_dictionary_order(front.drop_first(), a, b);
        assert(x.drop_first() =~= front.drop_first() + a);
        assert(y.drop_first() =~= front.drop_first() + b);
        assert(x[0] == front[0] && y[0] == front[0]);
    }
}

/// A listing holds an entry just where it is chosen, and of two entries the one
/// whose name comes first is listed first; entries of the same name stay in the
/// order in which they were found.
pub proof fn law_listing_holds_the_chosen_in_order<P>(
    order: Seq<usize>,
    entries: Seq<DirEntry<P>>,
    chosen: spec_fn(DirEntry<P>) -> bool,
    k: usize,
    i: int,
    j: int,
)
    requires
        is_listing(order, entries, chosen),
        k < entries.len(),
    ensures
        order.contains(k) <==> chosen(entries[k as int]),
        0 <= i < j < order.len() ==> ({
            let (a, b) = (order[i] as int, order[j] as int);
            &&& a < entries.len() && b < entries.len()
            &&& bytes_before(entries[a].name@, entries[b].name@) || (entries[a].name@
                == entries[b].name@ && a < b)
        }),
{
    if chosen(entries[k as int]) {
        let at = choose|at: int| 0 <= at < order.len() && #[trigger] order[at] == k;
        assert(order[at] == k);
    }
    if 0 <= i < j < order.len() {
        assert(order[i] < entries.len() && order[j] < entries.len());
        assert(comes_before(entries, order[i] as int, order[j] as int));
    }
}

} // verus!
