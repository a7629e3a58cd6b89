//! Reordering of several items of a slice at once.

use vstd::prelude::*;

verus! {

/// `<[T]>::swap` exchanges the elements at the two indices and leaves every
/// other element where it is. It panics on an index out of bounds, which the
/// precondition rules out.
pub assume_specification<E>[ <[E]>::swap ](slice: &mut [E], a: usize, b: usize)
    requires
        a < old(slice)@.len(),
        b < old(slice)@.len(),
    ensures
        final(slice)@ == old(slice)@.update(a as int, old(slice)@[b as int]).update(
            b as int,
            old(slice)@[a as int],
        ),
;

/// The sequence `s` after the item at `a` was taken out and put back at `b`.
pub open spec fn relocated<T>(s: Seq<T>, a: int, b: int) -> Seq<T> {
    s.remove(a).insert(b, s[a])
}

/// Moves the item at `a` to the higher index `b` by swapping it with its right
/// neighbour until it arrives.
fn shift_right<T>(slice: &mut [T], a: usize, b: usize)
    requires
        a <= b < old(slice)@.len(),
    ensures
        final(slice)@ == relocated(old(slice)@, a as int, b as int),
{
    let mut idx: usize = a;
    while idx < b
        invariant
            a <= idx <= b < slice@.len(),
            slice@.len() == old(slice)@.len(),
            slice@ == relocated(old(slice)@, a as int, idx as int),
        decreases b - idx,
    {
        slice.swap(idx, idx + 1);
        idx = idx + 1;
    }
}

/// Moves the item at `a` to the lower index `b` by swapping it with its left
/// neighbour until it arrives.
fn shift_left<T>(slice: &mut [T], a: usize, b: usize)
    requires
        b <= a < old(slice)@.len(),
    ensures
        final(slice)@ == relocated(old(slice)@, a as int, b as int),
{
    let mut idx: usize = a;
    while idx > b
        invariant
            b <= idx <= a < slice@.len(),
            slice@.len() == old(slice)@.len(),
            slice@ == relocated(old(slice)@, a as int, idx as int),
        decreases idx - b,
    {
        slice.swap(idx, idx - 1);
        idx = idx - 1;
    }
}

/// The indices below `n` that `sel` holds, in increasing order.
pub open spec fn chosen(n: nat, sel: Set<int>) -> Seq<int>
    decreases n,
{
    if n == 0 {
        Seq::empty()
    } else {
        let rest = chosen((n - 1) as nat, sel);
        if sel.contains(n - 1) {
            rest.push(n - 1)
        } else {
            rest
        }
    }
}

/// The indices below `n` that `sel` does not hold, in increasing order.
pub open spec fn others(n: nat, sel: Set<int>) -> Seq<int>
    decreases n,
{
    if n == 0 {
        Seq::empty()
    } else {
        let rest = others((n - 1) as nat, sel);
        if sel.contains(n - 1) {
            rest
        } else {
            rest.push(n - 1)
        }
    }
}

/// Where every item of a sequence of length `n` stands once the items that
/// `sel` selects were gathered, in their order, into a block that begins at
/// `start`: position `i` of the result holds the item that stood at
/// `arrangement(n, sel, start)[i]`. The items outside `sel` keep their order
/// and fill the positions around the block.
pub open spec fn arrangement(n: nat, sel: Set<int>, start: int) -> Seq<int> {
    others(n, sel).take(start) + chosen(n, sel) + others(n, sel).skip(start)
}

/// The sequence `s` rearranged as [`arrangement`] says.
pub open spec fn moved<T>(s: Seq<T>, sel: Set<int>, start: int) -> Seq<T> {
    Seq::new(s.len(), |i: int| s[arrangement(s.len(), sel, start)[i]])
}

/// The index at which the block of selected items begins: `to`, unless fewer
/// slots than the block needs are left from there on; then the block ends with
/// the sequence.
pub open spec fn block_start(n: nat, sel: Set<int>, to: int) -> int {
    let free = others(n, sel).len() as int;
    if to <= free {
        to
    } else {
        free
    }
}

/// The set of positions below `n` that `from` names.
pub open spec fn selection(from: Seq<usize>, n: nat) -> Set<int> {
    Set::new(|k: int| 0 <= k < n && exists|j: int| 0 <= j < from.len() && from[j] == k)
}

/// The values of `xs` as mathematical integers.
pub open spec fn as_ints(xs: Seq<usize>) -> Seq<int> {
    Seq::new(xs.len(), |i: int| xs[i] as int)
}

/// The values that `xs` holds at the positions from `lo` up to `hi`.
pub open spec fn range_set(xs: Seq<int>, lo: int, hi: int) -> Set<int> {
    Set::new(|y: int| exists|t: int| lo <= t < hi && xs[t] == y)
}

/// Every index below `n` is either chosen or among the others.
pub proof fn lemma_lengths(n: nat, sel: Set<int>)
    ensures
        chosen(n, sel).len() + others(n, sel).len() == n,
    decreases n,
{
    if n > 0 {
        lemma_lengths((n - 1) as nat, sel);
    }
}

/// `chosen` and `others` hold what they should, in strictly increasing order.
pub proof fn lemma_members(n: nat, sel: Set<int>)
    ensures
        forall|i: int|
            0 <= i < chosen(n, sel).len() ==> 0 <= #[trigger] chosen(n, sel)[i] < n && sel.contains(
                chosen(n, sel)[i],
            ),
        forall|i: int|
            0 <= i < others(n, sel).len() ==> 0 <= #[trigger] others(n, sel)[i] < n
                && !sel.contains(others(n, sel)[i]),
        forall|i: int, j: int|
            0 <= i < j < chosen(n, sel).len() ==> chosen(n, sel)[i] < chosen(n, sel)[j],
        forall|i: int, j: int|
            0 <= i < j < others(n, sel).len() ==> others(n, sel)[i] < others(n, sel)[j],
        forall|k: int|
            0 <= k < n && sel.contains(k) ==> exists|i: int|
                0 <= i < chosen(n, sel).len() && chosen(n, sel)[i] == k,
        forall|k: int|
            0 <= k < n && !sel.contains(k) ==> exists|i: int|
                0 <= i < others(n, sel).len() && others(n, sel)[i] == k,
    decreases n,
{
    if n > 0 {
        let m = (n - 1) as nat;
        lemma_members(m, sel);
        let c = chosen(n, sel);
        let o = others(n, sel);
        assert forall|k: int| 0 <= k < n && sel.contains(k) implies exists|i: int|
            0 <= i < c.len() && c[i] == k by {
            if k < m {
                let i = choose|i: int| 0 <= i < chosen(m, sel).len() && chosen(m, sel)[i] == k;
                assert(c[i] == k);
            } else {
                assert(c[c.len() - 1] == k);
            }
        }
        assert forall|k: int| 0 <= k < n && !sel.contains(k) implies exists|i: int|
            0 <= i < o.len() && o[i] == k by {
            if k < m {
                let i = choose|i: int| 0 <= i < others(m, sel).len() && others(m, sel)[i] == k;
                assert(o[i] == k);
            } else {
                assert(o[o.len() - 1] == k);
            }
        }
    }
}

/// Only the members of `sel` below `n` matter.
pub proof fn lemma_agree(n: nat, a: Set<int>, b: Set<int>)
    requires
        forall|k: int| 0 <= k < n ==> a.contains(k) == b.contains(k),
    ensures
        chosen(n, a) == chosen(n, b),
        others(n, a) == others(n, b),
    decreases n,
{
    if n > 0 {
        lemma_agree((n - 1) as nat, a, b);
    }
}

/// What lies below `m` comes first.
pub proof fn lemma_prefix(m: nat, n: nat, sel: Set<int>)
    requires
        m <= n,
    ensures
        chosen(m, sel).len() <= chosen(n, sel).len(),
        others(m, sel).len() <= others(n, sel).len(),
        chosen(n, sel).take(chosen(m, sel).len() as int) == chosen(m, sel),
        others(n, sel).take(others(m, sel).len() as int) == others(m, sel),
    decreases n - m,
{
    if m < n {
        lemma_prefix(m, (n - 1) as nat, sel);
        assert(chosen(n, sel).take(chosen(m, sel).len() as int) =~= chosen(m, sel));
        assert(others(n, sel).take(others(m, sel).len() as int) =~= others(m, sel));
    } else {
        assert(chosen(n, sel).take(chosen(m, sel).len() as int) =~= chosen(m, sel));
        assert(others(n, sel).take(others(m, sel).len() as int) =~= others(m, sel));
    }
}

/// Where `sel` holds nothing between `m` and `n`, every index there is among
/// the others.
pub proof fn lemma_gap(m: nat, n: nat, sel: Set<int>)
    requires
        m <= n,
        forall|k: int| m <= k < n ==> !sel.contains(k),
    ensures
        chosen(n, sel) == chosen(m, sel),
        others(n, sel).len() == others(m, sel).len() + (n - m),
        forall|i: int|
            others(m, sel).len() <= i < others(n, sel).len() ==> #[trigger] others(n, sel)[i] == m
                + (i - others(m, sel).len()),
    decreases n - m,
{
    if m < n {
        lemma_gap(m, (n - 1) as nat, sel);
    }
}

/// Selecting one more index `x` puts it into `chosen` and takes it out of
/// `others`, each at the place that the indices below `x` fix.
pub proof fn lemma_add(n: nat, sel: Set<int>, x: int)
    requires
        0 <= x < n,
        !sel.contains(x),
    ensures
        chosen(n, sel.insert(x)) == chosen(n, sel).insert(chosen(x as nat, sel).len() as int, x),
        others(n, sel.insert(x)) == others(n, sel).remove(others(x as nat, sel).len() as int),
        others(x as nat, sel).len() < others(n, sel).len(),
        chosen(x as nat, sel).len() <= chosen(n, sel).len(),
        others(n, sel)[others(x as nat, sel).len() as int] == x,
    decreases n,
{
    let m = (n - 1) as nat;
    let sel2 = sel.insert(x);
    if x == m {
        lemma_agree(m, sel, sel2);
        assert(chosen(n, sel2) =~= chosen(n, sel).insert(chosen(m, sel).len() as int, x));
        assert(others(n, sel2) =~= others(n, sel).remove(others(m, sel).len() as int));
    } else {
        lemma_add(m, sel, x);
        let c = chosen(x as nat, sel).len() as int;
        let o = others(x as nat, sel).len() as int;
        assert(chosen(n, sel2) =~= chosen(n, sel).insert(c, x));
        assert(others(n, sel2) =~= others(n, sel).remove(o));
    }
}

/// Moving the lowest selected item of a block to the right: with `x` below all
/// that `sel` holds and left of the block that begins at `b`, taking `x` into
/// the selection and beginning the block one place earlier is relocating `x`
/// to the place just before the block.
proof fn lemma_step_right(n: nat, sel: Set<int>, x: int, b: int)
    requires
        0 <= x < n,
        !sel.contains(x),
        forall|y: int| sel.contains(y) ==> x < y < n,
        x < b <= others(n, sel).len(),
    ensures
        arrangement(n, sel, b)[x] == x,
        arrangement(n, sel.insert(x), b - 1) == relocated(arrangement(n, sel, b), x, b - 1),
{
    lemma_add(n, sel, x);
    lemma_gap(0, x as nat, sel);
    lemma_prefix(x as nat, n, sel);
    lemma_lengths(n, sel);
    let u = others(n, sel);
    let c = chosen(n, sel);
    assert(others(x as nat, sel).len() == x);
    assert(chosen(x as nat, sel).len() == 0);
    assert(u[x] == x);
    let a = arrangement(n, sel, b);
    let r = relocated(a, x, b - 1);
    let t = arrangement(n, sel.insert(x), b - 1);
    assert(t.len() == r.len());
    assert forall|i: int| 0 <= i < t.len() implies t[i] == r[i] by {
        if i < x {
        } else if i < b - 1 {
        } else if i == b - 1 {
        } else {
        }
    }
    assert(t =~= r);
}

/// Moving the highest selected item of a block to the left: with `x` above all
/// that `sel` holds and right of the block that begins at `b`, taking `x` into
/// the selection is relocating `x` to the place just behind the block.
proof fn lemma_step_left(n: nat, sel: Set<int>, x: int, b: int)
    requires
        0 <= x < n,
        0 <= b,
        !sel.contains(x),
        forall|y: int| sel.contains(y) ==> 0 <= y < x,
        x >= b + chosen(n, sel).len(),
    ensures
        arrangement(n, sel, b)[x] == x,
        arrangement(n, sel.insert(x), b) == relocated(
            arrangement(n, sel, b),
            x,
            b + chosen(n, sel).len(),
        ),
{
    lemma_add(n, sel, x);
    lemma_gap(x as nat, n, sel);
    lemma_prefix(x as nat, n, sel);
    lemma_lengths(n, sel);
    lemma_lengths(x as nat, sel);
    let u = others(n, sel);
    let c = chosen(n, sel);
    let k = c.len() as int;
    assert(chosen(x as nat, sel).len() == k);
    assert(others(x as nat, sel).len() == x - k);
    assert(u[x - k] == x);
    let a = arrangement(n, sel, b);
    let r = relocated(a, x, b + k);
    let t = arrangement(n, sel.insert(x), b);
    assert(a[x] == x);
    assert(t.len() == r.len());
    assert forall|i: int| 0 <= i < t.len() implies t[i] == r[i] by {
        if i < b {
        } else if i < b + k {
        } else if i == b + k {
        } else if i <= x {
        } else {
        }
    }
    assert(t =~= r);
}

/// Relocating an item of a rearranged sequence rearranges by the relocated
/// arrangement.
proof fn lemma_relocated_view<T>(s: Seq<T>, perm: Seq<int>, w: Seq<T>, a: int, b: int)
    requires
        perm.len() == w.len(),
        0 <= a < w.len(),
        0 <= b < w.len(),
        forall|i: int| 0 <= i < w.len() ==> w[i] == s[#[trigger] perm[i]],
    ensures
        relocated(perm, a, b).len() == w.len(),
        forall|i: int|
            0 <= i < w.len() ==> #[trigger] relocated(w, a, b)[i] == s[relocated(perm, a, b)[i]],
{
    let moved_items = relocated(w, a, b);
    let moved_perm = relocated(perm, a, b);
    assert forall|i: int| 0 <= i < w.len() implies #[trigger] moved_items[i] == s[moved_perm[i]] by {
        if i < b {
            if i < a {
                assert(moved_items[i] == w[i] && moved_perm[i] == perm[i]);
            } else {
                assert(moved_items[i] == w[i + 1] && moved_perm[i] == perm[i + 1]);
            }
        } else if i == b {
            assert(moved_items[i] == w[a] && moved_perm[i] == perm[a]);
        } else {
            if i - 1 < a {
                assert(moved_items[i] == w[i - 1] && moved_perm[i] == perm[i - 1]);
            } else {
                assert(moved_items[i] == w[i] && moved_perm[i] == perm[i]);
            }
        }
    }
}

/// The positions below `n` that `from` names, in increasing order.
fn sorted_selection(from: &[usize], n: usize) -> (indices: Vec<usize>)
    ensures
        as_ints(indices@) == chosen(n as nat, selection(from@, n as nat)),
{
    let ghost sel = selection(from@, n as nat);
    let mut mask: Vec<bool> = vec![false; n];
    let mut j: usize = 0;
    while j < from.len()
        invariant
            j <= from.len(),
            mask.len() == n,
            forall|k: int|
                0 <= k < n ==> (#[trigger] mask[k] <==> exists|t: int| 0 <= t < j && from[t] == k),
        decreases from.len() - j,
    {
        let f = from[j];
        if f < n {
            mask[f] = true;
        }
        j = j + 1;
    }
    let mut indices: Vec<usize> = Vec::new();
    let mut k: usize = 0;
    while k < n
        invariant
            k <= n,
            mask.len() == n,
            forall|i: int| 0 <= i < n ==> (#[trigger] mask[i] <==> sel.contains(i)),
            as_ints(indices@) == chosen(k as nat, sel),
        decreases n - k,
    {
        if mask[k] {
            indices.push(k);
        }
        k = k + 1;
        assert(as_ints(indices@) =~= chosen(k as nat, sel));
    }
    indices
}

/// Moves the items at the positions that `from` names to the index `to`.
///
/// The selected items, in the order in which they stood, end up as one block;
/// the other items keep their order around it. The block begins at `to`, or,
/// where fewer slots than it needs are left from `to` on, as far right as it
/// fits. The index at which the block begins is returned. A position in
/// `from` that the slice does not have is ignored, and one named twice counts
/// once.
///
/// Only neighbouring items are swapped: first the selected items left of
/// their destination travel right, the rightmost first, then those right of
/// their destination travel left, the leftmost first, so that no selected item
/// ever passes another.
pub fn move_multiple<T>(slice: &mut [T], from: &[usize], to: usize) -> (first: usize)
    ensures
        first == block_start(
            old(slice)@.len(),
            selection(from@, old(slice)@.len()),
            to as int,
        ),
        final(slice)@ == moved(
            old(slice)@,
            selection(from@, old(slice)@.len()),
            first as int,
        ),
{
    let n = slice.len();
    let ghost sel = selection(from@, n as nat);
    let ghost start = old(slice)@;
    let indices = sorted_selection(from, n);
    let ghost xs = as_ints(indices@);
    let count = indices.len();
    proof {
        lemma_lengths(n as nat, sel);
        lemma_members(n as nat, sel);
    }
    let first = if to <= n - count {
        to
    } else {
        n - count
    };
    let mut split: usize = 0;
    while split < count && indices[split] <= first + split
        invariant
            split <= count,
            count == indices.len(),
            first + count <= n,
            forall|i: int| 0 <= i < split ==> #[trigger] xs[i] <= first + i,
            xs == as_ints(indices@),
        decreases count - split,
    {
        split = split + 1;
    }
    assert forall|i: int| split <= i < count implies #[trigger] xs[i] > first + i by {
        lemma_spread(xs, split as int, i);
    }
    let ghost mut perm: Seq<int> = arrangement(n as nat, Set::empty(), (first + split) as int);
    proof {
        lemma_gap(0, n as nat, Set::empty());
        lemma_lengths(n as nat, Set::empty());
        assert(range_set(xs, split as int, split as int) =~= Set::empty());
        assert forall|i: int| 0 <= i < n implies perm[i] == i by {}
    }
    let mut i: usize = split;
    while i > 0
        invariant
            i <= split <= count,
            count == indices.len(),
            first + count <= n,
            slice@.len() == n,
            start.len() == n,
            xs == as_ints(indices@),
            xs == chosen(n as nat, sel),
            forall|t: int| 0 <= t < split ==> #[trigger] xs[t] <= first + t,
            perm == arrangement(n as nat, range_set(xs, i as int, split as int), (first + i) as int),
            perm.len() == n,
            forall|t: int| 0 <= t < n ==> slice@[t] == start[#[trigger] perm[t]],
        decreases i,
    {
        let ghost cur = range_set(xs, i as int, split as int);
        let ghost before = slice@;
        i = i - 1;
        let x = indices[i];
        proof {
            lemma_members(n as nat, sel);
            lemma_range_set_chosen(n as nat, xs, (i + 1) as int, split as int);
            assert(xs[i as int] == x);
            assert forall|y: int| cur.contains(y) implies x < y < n by {
                let t = choose|t: int| i + 1 <= t < split && xs[t] == y;
                assert(xs[i as int] < xs[t]);
            }
            lemma_lengths(n as nat, cur);
            lemma_step_right(n as nat, cur, x as int, (first + i + 1) as int);
            assert(cur.insert(x as int) =~= range_set(xs, i as int, split as int));
        }
        shift_right(slice, x, first + i);
        proof {
            lemma_relocated_view(start, perm, before, x as int, (first + i) as int);
            perm = relocated(perm, x as int, (first + i) as int);
        }
    }
    let mut i: usize = split;
    while i < count
        invariant
            split <= i <= count,
            count == indices.len(),
            first + count <= n,
            slice@.len() == n,
            start.len() == n,
            xs == as_ints(indices@),
            xs == chosen(n as nat, sel),
            forall|t: int| split <= t < count ==> #[trigger] xs[t] > first + t,
            perm == arrangement(n as nat, range_set(xs, 0, i as int), first as int),
            perm.len() == n,
            forall|t: int| 0 <= t < n ==> slice@[t] == start[#[trigger] perm[t]],
        decreases count - i,
    {
        let ghost cur = range_set(xs, 0, i as int);
        let ghost before = slice@;
        let x = indices[i];
        proof {
            lemma_members(n as nat, sel);
            lemma_range_set_chosen(n as nat, xs, 0, i as int);
            assert(xs[i as int] == x);
            assert forall|y: int| cur.contains(y) implies 0 <= y < x by {
                let t = choose|t: int| 0 <= t < i && xs[t] == y;
                assert(xs[t] < xs[i as int]);
            }
            lemma_step_left(n as nat, cur, x as int, first as int);
            assert(cur.insert(x as int) =~= range_set(xs, 0, (i + 1) as int));
        }
        shift_left(slice, x, first + i);
        proof {
            lemma_relocated_view(start, perm, before, x as int, (first + i) as int);
            perm = relocated(perm, x as int, (first + i) as int);
        }
        i = i + 1;
    }
    proof {
        lemma_agree(n as nat, range_set(xs, 0, count as int), sel);
        assert(slice@ =~= moved(start, sel, first as int));
    }
    first
}

/// Moving items keeps every item, keeps the selected items in their order,
/// keeps the other items in their order, and puts the selected items, the
/// first of them at the returned index, into consecutive places.
///
/// With `arr` the arrangement that [`move_multiple`] brings about on a slice
/// of `n` items: `arr` names every position below `n` exactly once; of two
/// places that both hold selected items, or both hold others, the earlier one
/// holds the item that stood earlier; and the places of the selected items are
/// those from the returned index on, as many as there are selected items.
pub proof fn lemma_move_keeps_order(n: nat, from: Seq<usize>, to: usize)
    ensures
        ({
            let sel = selection(from, n);
            let first = block_start(n, sel, to as int);
            let arr = arrangement(n, sel, first);
            &&& arr.len() == n
            &&& 0 <= first <= n - chosen(n, sel).len()
            &&& forall|i: int| 0 <= i < n ==> 0 <= #[trigger] arr[i] < n
            &&& forall|i: int, j: int| 0 <= i < j < n ==> arr[i] != arr[j]
            &&& forall|i: int, j: int|
                0 <= i < j < n && sel.contains(arr[i]) && sel.contains(arr[j]) ==> arr[i] < arr[j]
            &&& forall|i: int, j: int|
                0 <= i < j < n && !sel.contains(arr[i]) && !sel.contains(arr[j]) ==> arr[i]
                    < arr[j]
            &&& forall|i: int|
                0 <= i < n ==> (sel.contains(#[trigger] arr[i]) <==> first <= i < first + chosen(
                    n,
                    sel,
                ).len())
            &&& forall|k: int|
                0 <= k < chosen(n, sel).len() ==> arr[first + k] == #[trigger] chosen(n, sel)[k]
        }),
{
    let sel = selection(from, n);
    let first = block_start(n, sel, to as int);
    let arr = arrangement(n, sel, first);
    lemma_lengths(n, sel);
    lemma_members(n, sel);
    let c = chosen(n, sel);
    let o = others(n, sel);
    assert forall|i: int| 0 <= i < n implies (0 <= #[trigger] arr[i] < n && (sel.contains(arr[i])
        <==> first <= i < first + c.len())) by {
        if i < first {
            assert(arr[i] == o[i]);
        } else if i < first + c.len() {
            assert(arr[i] == c[i - first]);
        } else {
            assert(arr[i] == o[i - c.len()]);
        }
    }
    assert forall|i: int, j: int| 0 <= i < j < n implies (arr[i] != arr[j] && (sel.contains(arr[i])
        && sel.contains(arr[j]) ==> arr[i] < arr[j]) && (!sel.contains(arr[i]) && !sel.contains(
        arr[j],
    ) ==> arr[i] < arr[j])) by {
        let oi = if i < first { i } else { i - c.len() };
        let oj = if j < first { j } else { j - c.len() };
        if first <= i < first + c.len() {
            assert(arr[i] == c[i - first]);
        } else {
            assert(arr[i] == o[oi]);
        }
        if first <= j < first + c.len() {
            assert(arr[j] == c[j - first]);
        } else {
            assert(arr[j] == o[oj]);
        }
    }
    assert forall|k: int| 0 <= k < c.len() implies arr[first + k] == #[trigger] c[k] by {}
}

/// In a strictly increasing sequence of integers, values are at least as far
/// apart as their positions.
proof fn lemma_spread(xs: Seq<int>, i: int, j: int)
    requires
        0 <= i <= j < xs.len(),
        forall|a: int, b: int| 0 <= a < b < xs.len() ==> xs[a] < xs[b],
    ensures
        xs[j] - xs[i] >= j - i,
    decreases j - i,
{
    if i < j {
        lemma_spread(xs, i, j - 1);
        assert(xs[j - 1] < xs[j]);
    }
}

/// A run of a strictly increasing sequence of indices below `n` is what
/// `chosen` finds in the set of its values.
proof fn lemma_range_set_chosen(n: nat, xs: Seq<int>, lo: int, hi: int)
    requires
        0 <= lo <= hi <= xs.len(),
        forall|a: int| 0 <= a < xs.len() ==> 0 <= #[trigger] xs[a] < n,
        forall|a: int, b: int| 0 <= a < b < xs.len() ==> xs[a] < xs[b],
    ensures
        chosen(n, range_set(xs, lo, hi)) == xs.subrange(lo, hi),
        forall|y: int| range_set(xs, lo, hi).contains(y) ==> 0 <= y < n,
    decreases hi - lo,
{
    let cur = range_set(xs, lo, hi);
    if lo == hi {
        assert(cur =~= Set::empty());
        lemma_gap(0, n, cur);
        assert(chosen(n, cur) =~= xs.subrange(lo, hi));
    } else {
        let less = range_set(xs, lo, hi - 1);
        let x = xs[hi - 1];
        lemma_range_set_chosen(n, xs, lo, hi - 1);
        assert(!less.contains(x)) by {
            if less.contains(x) {
                let t = choose|t: int| lo <= t < hi - 1 && xs[t] == x;
                assert(xs[t] < xs[hi - 1]);
            }
        }
        assert(less.insert(x) =~= cur);
        lemma_add(n, less, x);
        assert forall|k: int| x <= k < n implies !less.contains(k) by {
            if less.contains(k) {
                let t = choose|t: int| lo <= t < hi - 1 && xs[t] == k;
                assert(xs[t] < xs[hi - 1]);
            }
        }
        lemma_gap(x as nat, n, less);
        assert(chosen(n, cur) =~= xs.subrange(lo, hi));
    }
}

} // verus!
