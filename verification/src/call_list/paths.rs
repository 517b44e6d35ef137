//! The order of paths.

use vstd::prelude::*;

verus! {

/// Whether two paths agree up to position `n`, where the first one ends, or goes on with a
/// smaller number than the second.
pub open spec fn parts_at(a: Seq<u32>, b: Seq<u32>, n: int) -> bool {
    &&& 0 <= n <= a.len()
    &&& n < b.len()
    &&& forall|i: int| 0 <= i < n ==> #[trigger] a[i] == b[i]
    &&& n == a.len() || a[n] < b[n]
}

/// Whether the first path comes before the second in the order in which a tree is walked, each
/// node before those below it: the lexicographic order.
pub open spec fn precedes(a: Seq<u32>, b: Seq<u32>) -> bool {
    exists|n: int| #[trigger] parts_at(a, b, n)
}

/// No path comes before itself.
pub proof fn precedes_irreflexive(a: Seq<u32>)
    ensures
        !precedes(a, a),
{
}

/// What comes before a path comes before all that come after it.
pub proof fn precedes_transitive(a: Seq<u32>, b: Seq<u32>, c: Seq<u32>)
    requires
        precedes(a, b),
        precedes(b, c),
    ensures
        precedes(a, c),
{
    let m = choose|n: int| #[trigger] parts_at(a, b, n);
    let n = choose|n: int| #[trigger] parts_at(b, c, n);
    let first = if m < n {
        m
    } else {
        n
    };
    assert forall|i: int| 0 <= i < first implies #[trigger] a[i] == c[i] by {
        assert(a[i] == b[i]);
        assert(b[i] == c[i]);
    }
    if m > n {
        assert(a[n] == b[n]);
    } else if m < n {
        assert(b[m] == c[m]);
    }
    assert(parts_at(a, c, first));
}

/// A node comes before those below it, and these come in the order of their numbers.
pub proof fn node_precedes_children(path: Seq<u32>, index: u32, later: u32)
    requires
        index < later,
    ensures
        precedes(path, path.push(index)),
        precedes(path.push(index), path.push(later)),
{
    assert(parts_at(path, path.push(index), path.len() as int));
    assert(parts_at(path.push(index), path.push(later), path.len() as int));
}

/// What is below a node comes before a later path that is no longer than the node's.
pub proof fn children_precede(path: Seq<u32>, index: u32, later: Seq<u32>)
    requires
        precedes(path, later),
        later.len() <= path.len(),
    ensures
        precedes(path.push(index), later),
{
    let n = choose|n: int| #[trigger] parts_at(path, later, n);
    assert forall|i: int| 0 <= i < n implies #[trigger] path.push(index)[i] == later[i] by {
        assert(path[i] == later[i]);
    }
    assert(parts_at(path.push(index), later, n));
}

} // verus!
