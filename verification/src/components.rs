use vstd::prelude::*;

verus! {

// ---------------------------------------------------------------------------
// Union-find forest over provisional labels
// ---------------------------------------------------------------------------

/// `depth` records, for every label, how many parent links separate it from
/// the root of its tree: roots are exactly the labels that point to
/// themselves, and every other label sits one level below its parent.
pub open spec fn forest_depths(parent: Seq<u32>, depth: Seq<nat>) -> bool {
    &&& depth.len() == parent.len()
    &&& forall|i: int| 0 <= i < parent.len() ==> (#[trigger] parent[i] as int) < parent.len()
    &&& forall|i: int| 0 <= i < parent.len() ==> (parent[i] == i <==> #[trigger] depth[i] == 0)
    &&& forall|i: int|
        0 <= i < parent.len() && parent[i] != i ==> #[trigger] depth[i] == depth[parent[i] as int]
            + 1
}

/// Follows at most `fuel` parent links from `i`.
pub open spec fn follow(parent: Seq<u32>, i: int, fuel: nat) -> int
    decreases fuel,
{
    if fuel == 0 || !(0 <= i < parent.len()) || parent[i] == i {
        i
    } else {
        follow(parent, parent[i] as int, (fuel - 1) as nat)
    }
}

/// The root of the tree that holds label `i`.
pub open spec fn root(parent: Seq<u32>, depth: Seq<nat>, i: int) -> int {
    follow(parent, i, depth[i])
}

/// A label's root is in range and points to itself; a non-root label has the
/// same root as its parent.
pub proof fn lemma_root(parent: Seq<u32>, depth: Seq<nat>, i: int)
    requires
        forest_depths(parent, depth),
        0 <= i < parent.len(),
    ensures
        0 <= root(parent, depth, i) < parent.len(),
        parent[root(parent, depth, i)] == root(parent, depth, i),
        depth[root(parent, depth, i)] == 0,
        parent[i] != i ==> root(parent, depth, i) == root(parent, depth, parent[i] as int),
        parent[i] == i ==> root(parent, depth, i) == i,
    decreases depth[i],
{
    if parent[i] != i {
        assert(depth[i] == depth[parent[i] as int] + 1);
        lemma_root(parent, depth, parent[i] as int);
    }
}

/// Depths after the root `r1` is linked below the root `r2`.
pub open spec fn linked_depths(parent: Seq<u32>, depth: Seq<nat>, r1: int) -> Seq<nat> {
    Seq::new(
        depth.len(),
        |i: int|
            if root(parent, depth, i) == r1 {
                depth[i] + 1
            } else {
                depth[i]
            },
    )
}

proof fn lemma_link_forest(parent: Seq<u32>, depth: Seq<nat>, r1: int, r2: int)
    requires
        forest_depths(parent, depth),
        0 <= r1 < parent.len(),
        0 <= r2 < parent.len(),
        parent[r1] == r1,
        parent[r2] == r2,
        r1 != r2,
    ensures
        forest_depths(parent.update(r1, r2 as u32), linked_depths(parent, depth, r1)),
{
    let p2 = parent.update(r1, r2 as u32);
    let d2 = linked_depths(parent, depth, r1);
    lemma_root(parent, depth, r1);
    lemma_root(parent, depth, r2);
    assert forall|i: int| 0 <= i < p2.len() implies (p2[i] == i <==> #[trigger] d2[i] == 0) by {
        lemma_root(parent, depth, i);
    }
    assert forall|i: int| 0 <= i < p2.len() && p2[i] != i implies #[trigger] d2[i] == d2[p2[i]
        as int] + 1 by {
        lemma_root(parent, depth, i);
        if i != r1 {
            lemma_root(parent, depth, parent[i] as int);
        }
    }
}

proof fn lemma_link_root(parent: Seq<u32>, depth: Seq<nat>, r1: int, r2: int, i: int)
    requires
        forest_depths(parent, depth),
        0 <= r1 < parent.len(),
        0 <= r2 < parent.len(),
        parent[r1] == r1,
        parent[r2] == r2,
        r1 != r2,
        0 <= i < parent.len(),
    ensures
        root(parent.update(r1, r2 as u32), linked_depths(parent, depth, r1), i) == if root(
            parent,
            depth,
            i,
        ) == r1 {
            r2
        } else {
            root(parent, depth, i)
        },
    decreases depth[i],
{
    let p2 = parent.update(r1, r2 as u32);
    let d2 = linked_depths(parent, depth, r1);
    lemma_link_forest(parent, depth, r1, r2);
    lemma_root(parent, depth, i);
    lemma_root(parent, depth, r2);
    lemma_root(p2, d2, i);
    if parent[i] == i {
        if i == r1 {
            lemma_root(p2, d2, r2);
            assert(d2[r2] == 0);
        }
    } else {
        lemma_root(parent, depth, parent[i] as int);
        lemma_link_root(parent, depth, r1, r2, parent[i] as int);
    }
}

proof fn lemma_push_root(parent: Seq<u32>, depth: Seq<nat>, i: int)
    requires
        forest_depths(parent, depth),
        parent.len() < u32::MAX,
        0 <= i < parent.len(),
    ensures
        forest_depths(parent.push(parent.len() as u32), depth.push(0)),
        root(parent.push(parent.len() as u32), depth.push(0), i) == root(parent, depth, i),
    decreases depth[i],
{
    let p2 = parent.push(parent.len() as u32);
    let d2 = depth.push(0);
    assert(forest_depths(p2, d2));
    lemma_root(parent, depth, i);
    if parent[i] != i {
        lemma_push_root(parent, depth, parent[i] as int);
    }
}

/// Follows parent links from `label` to the root of its tree.
fn find_root(equivalences: &Vec<u32>, label: u32, Ghost(depth): Ghost<Seq<nat>>) -> (r: u32)
    requires
        forest_depths(equivalences@, depth),
        label < equivalences.len(),
    ensures
        r == root(equivalences@, depth, label as int),
{
    let mut label = label;
    proof {
        lemma_root(equivalences@, depth, label as int);
    }
    let ghost target = root(equivalences@, depth, label as int);
    while equivalences[label as usize] != label
        invariant
            forest_depths(equivalences@, depth),
            label < equivalences.len(),
            root(equivalences@, depth, label as int) == target,
        decreases depth[label as int],
    {
        proof {
            lemma_root(equivalences@, depth, label as int);
        }
        label = equivalences[label as usize];
    }
    proof {
        lemma_root(equivalences@, depth, label as int);
    }
    label
}

// ---------------------------------------------------------------------------
// Connected-component labelling
// ---------------------------------------------------------------------------

/// Pixel `i` of a row-major mask of the given width has a left neighbour on
/// the same row.
pub open spec fn has_left_neighbour(width: int, i: int) -> bool {
    i % width != 0
}

/// Provisional labels of pixel `i` and of its left and upper foreground
/// neighbours lie in one equivalence class.
pub open spec fn joins_neighbours(
    binary: Seq<u8>,
    labels: Seq<u32>,
    parent: Seq<u32>,
    depth: Seq<nat>,
    width: int,
    i: int,
) -> bool {
    &&& (0 < i && has_left_neighbour(width, i) && binary[i] != 0 && binary[i - 1] != 0 ==> root(
        parent,
        depth,
        labels[i] as int,
    ) == root(parent, depth, labels[i - 1] as int))
    &&& (width <= i && binary[i] != 0 && binary[i - width] != 0 ==> root(
        parent,
        depth,
        labels[i] as int,
    ) == root(parent, depth, labels[i - width] as int))
}

/// Every pair of labels that shared a root under the first forest still
/// shares one under the second.
pub open spec fn roots_refined(p0: Seq<u32>, d0: Seq<nat>, p1: Seq<u32>, d1: Seq<nat>) -> bool {
    forall|a: int, b: int|
        0 <= a < p0.len() && 0 <= b < p0.len() && root(p0, d0, a) == root(p0, d0, b) ==> #[trigger] root(
            p1,
            d1,
            a,
        ) == #[trigger] root(p1, d1, b)
}

/// Pixels `a` and `b` of a row-major mask of the given width and `n` pixels
/// are 4-adjacent: side by side on one row, or one above the other.
pub open spec fn adjacent(width: int, n: int, a: int, b: int) -> bool {
    &&& 0 <= a < n
    &&& 0 <= b < n
    &&& {
        ||| (b == a + 1 && has_left_neighbour(width, b))
        ||| (a == b + 1 && has_left_neighbour(width, a))
        ||| b == a + width
        ||| a == b + width
    }
}

/// `path` visits foreground pixels only, each step going to a 4-adjacent
/// pixel.
pub open spec fn is_foreground_path(binary: Seq<u8>, width: int, n: int, path: Seq<int>) -> bool {
    &&& path.len() >= 1
    &&& forall|k: int| 0 <= k < path.len() ==> 0 <= #[trigger] path[k] < n && binary[path[k]] != 0
    &&& forall|k: int|
        0 <= k < path.len() - 1 ==> adjacent(width, n, #[trigger] path[k], path[k + 1])
}

/// Foreground pixels `a` and `b` are joined by a 4-connected path of
/// foreground pixels.
pub open spec fn pixels_connected(binary: Seq<u8>, width: int, n: int, a: int, b: int) -> bool {
    exists|path: Seq<int>|
        #[trigger] is_foreground_path(binary, width, n, path) && path[0] == a && path.last() == b
}

proof fn lemma_connected_refl(binary: Seq<u8>, width: int, n: int, a: int)
    requires
        0 <= a < n,
        binary[a] != 0,
    ensures
        pixels_connected(binary, width, n, a, a),
{
    let path = seq![a];
    assert(is_foreground_path(binary, width, n, path));
}

proof fn lemma_connected_step(binary: Seq<u8>, width: int, n: int, a: int, b: int)
    requires
        adjacent(width, n, a, b),
        binary[a] != 0,
        binary[b] != 0,
    ensures
        pixels_connected(binary, width, n, a, b),
        pixels_connected(binary, width, n, b, a),
{
    let path = seq![a, b];
    assert(is_foreground_path(binary, width, n, path)) by {
        assert forall|k: int| 0 <= k < path.len() - 1 implies adjacent(
            width,
            n,
            #[trigger] path[k],
            path[k + 1],
        ) by {
            assert(k == 0);
        }
    }
    let back = seq![b, a];
    assert(is_foreground_path(binary, width, n, back)) by {
        assert forall|k: int| 0 <= k < back.len() - 1 implies adjacent(
            width,
            n,
            #[trigger] back[k],
            back[k + 1],
        ) by {
            assert(k == 0);
        }
    }
}

proof fn lemma_connected_trans(binary: Seq<u8>, width: int, n: int, a: int, b: int, c: int)
    requires
        pixels_connected(binary, width, n, a, b),
        pixels_connected(binary, width, n, b, c),
    ensures
        pixels_connected(binary, width, n, a, c),
{
    let p1 = choose|path: Seq<int>|
        #[trigger] is_foreground_path(binary, width, n, path) && path[0] == a && path.last() == b;
    let p2 = choose|path: Seq<int>|
        #[trigger] is_foreground_path(binary, width, n, path) && path[0] == b && path.last() == c;
    let p = p1 + p2.drop_first();
    assert forall|k: int| 0 <= k < p.len() implies 0 <= #[trigger] p[k] < n && binary[p[k]] != 0 by {
        if k < p1.len() {
            assert(p[k] == p1[k]);
        } else {
            assert(p[k] == p2[k - p1.len() + 1]);
        }
    }
    assert forall|k: int| 0 <= k < p.len() - 1 implies adjacent(width, n, #[trigger] p[k], p[k + 1]) by {
        if k < p1.len() - 1 {
            assert(p[k] == p1[k] && p[k + 1] == p1[k + 1]);
        } else if k == p1.len() - 1 {
            assert(p[k] == p1[k] && p1[k] == b && p2[0] == b);
            assert(p[k + 1] == p2[1]);
        } else {
            let m = k - p1.len() + 1;
            assert(p[k] == p2[m] && p[k + 1] == p2[m + 1]);
        }
    }
    assert(is_foreground_path(binary, width, n, p));
    if p2.len() == 1 {
        assert(p.last() == p1.last());
    } else {
        assert(p.last() == p2.last());
    }
}

proof fn lemma_connected_sym(binary: Seq<u8>, width: int, n: int, a: int, b: int)
    requires
        pixels_connected(binary, width, n, a, b),
    ensures
        pixels_connected(binary, width, n, b, a),
{
    let p = choose|path: Seq<int>|
        #[trigger] is_foreground_path(binary, width, n, path) && path[0] == a && path.last() == b;
    let r = p.reverse();
    assert forall|k: int| 0 <= k < r.len() implies 0 <= #[trigger] r[k] < n && binary[r[k]] != 0 by {
        assert(r[k] == p[p.len() - 1 - k]);
    }
    assert forall|k: int| 0 <= k < r.len() - 1 implies adjacent(width, n, #[trigger] r[k], r[k + 1]) by {
        let m = p.len() - 2 - k;
        assert(r[k] == p[m + 1] && r[k + 1] == p[m]);
        assert(adjacent(width, n, p[m], p[m + 1]));
    }
    assert(is_foreground_path(binary, width, n, r));
    assert(r[0] == b && r.last() == a);
}

/// The labelling contract: background pixels are 0, foreground pixels carry a
/// nonzero label, and 4-adjacent foreground pixels share their label.
pub open spec fn labels_component_consistent(
    binary: Seq<u8>,
    labels: Seq<u32>,
    width: int,
    n: int,
) -> bool {
    &&& labels.len() == n
    &&& forall|i: int| 0 <= i < n ==> (#[trigger] labels[i] == 0 <==> binary[i] == 0)
    &&& forall|i: int|
        0 < i < n && has_left_neighbour(width, i) && binary[i] != 0 && binary[i - 1] != 0
            ==> #[trigger] labels[i] == labels[i - 1]
    &&& forall|i: int|
        width <= i < n && binary[i] != 0 && binary[i - width] != 0 ==> #[trigger] labels[i]
            == labels[i - width]
}

/// Every label from 1 on has a representative foreground pixel before
/// `upto`, connected to the representative of its root.
spec fn reps_linked(
    binary: Seq<u8>,
    width: int,
    n: int,
    parent: Seq<u32>,
    depth: Seq<nat>,
    rep: Seq<int>,
    upto: int,
) -> bool {
    &&& rep.len() == parent.len()
    &&& forall|l: int| 1 <= l < rep.len() ==> 0 <= #[trigger] rep[l] < upto && binary[rep[l]] != 0
    &&& forall|l: int|
        1 <= l < rep.len() ==> pixels_connected(
            binary,
            width,
            n,
            #[trigger] rep[l],
            rep[root(parent, depth, l)],
        )
}

/// Every foreground pixel before `upto` is connected to the representative
/// of its label.
spec fn pixels_reach_reps(
    binary: Seq<u8>,
    width: int,
    n: int,
    labels: Seq<u32>,
    rep: Seq<int>,
    upto: int,
) -> bool {
    forall|i: int|
        0 <= i < upto && binary[i] != 0 ==> pixels_connected(
            binary,
            width,
            n,
            i,
            rep[#[trigger] labels[i] as int],
        )
}

proof fn lemma_push_links(
    binary: Seq<u8>,
    width: int,
    n: int,
    p0: Seq<u32>,
    d0: Seq<nat>,
    rep: Seq<int>,
    upto: int,
)
    requires
        reps_linked(binary, width, n, p0, d0, rep, upto),
        forest_depths(p0, d0),
        1 <= p0.len() < u32::MAX,
        0 <= upto < n,
        binary[upto] != 0,
    ensures
        reps_linked(
            binary,
            width,
            n,
            p0.push(p0.len() as u32),
            d0.push(0),
            rep.push(upto),
            upto + 1,
        ),
{
    let p1 = p0.push(p0.len() as u32);
    let d1 = d0.push(0);
    let r1 = rep.push(upto);
    lemma_push_root(p0, d0, 0);
    assert forall|l: int| 1 <= l < r1.len() implies pixels_connected(
        binary,
        width,
        n,
        #[trigger] r1[l],
        r1[root(p1, d1, l)],
    ) by {
        if l < p0.len() {
            lemma_push_root(p0, d0, l);
            lemma_root(p0, d0, l);
            assert(r1[l] == rep[l]);
            assert(r1[root(p0, d0, l)] == rep[root(p0, d0, l)]);
        } else {
            lemma_root(p1, d1, l);
            lemma_connected_refl(binary, width, n, upto);
        }
    }
}

proof fn lemma_union_links(
    binary: Seq<u8>,
    width: int,
    n: int,
    p0: Seq<u32>,
    d0: Seq<nat>,
    rep: Seq<int>,
    upto: int,
    r1: int,
    r2: int,
)
    requires
        reps_linked(binary, width, n, p0, d0, rep, upto),
        forest_depths(p0, d0),
        0 <= r1 < p0.len(),
        0 <= r2 < p0.len(),
        p0[r1] == r1,
        p0[r2] == r2,
        r1 != r2,
        pixels_connected(binary, width, n, rep[r1], rep[r2]),
    ensures
        reps_linked(binary, width, n, p0.update(r1, r2 as u32), linked_depths(p0, d0, r1), rep, upto),
{
    let p1 = p0.update(r1, r2 as u32);
    let d1 = linked_depths(p0, d0, r1);
    assert forall|l: int| 1 <= l < rep.len() implies pixels_connected(
        binary,
        width,
        n,
        #[trigger] rep[l],
        rep[root(p1, d1, l)],
    ) by {
        lemma_link_root(p0, d0, r1, r2, l);
        if root(p0, d0, l) == r1 {
            lemma_connected_trans(binary, width, n, rep[l], rep[r1], rep[r2]);
        }
    }
}

/// A foreground pixel beside the foreground pixel `nb` reaches, and is
/// reached from, the representative of `nb`'s label.
proof fn lemma_join_neighbour(
    binary: Seq<u8>,
    width: int,
    n: int,
    labels: Seq<u32>,
    rep: Seq<int>,
    idx: int,
    nb: int,
)
    requires
        pixels_reach_reps(binary, width, n, labels, rep, idx),
        0 <= nb < idx < n,
        binary[idx] != 0,
        binary[nb] != 0,
        adjacent(width, n, nb, idx),
    ensures
        pixels_connected(binary, width, n, idx, rep[labels[nb] as int]),
        pixels_connected(binary, width, n, rep[labels[nb] as int], idx),
{
    let r = rep[labels[nb] as int];
    assert(pixels_connected(binary, width, n, nb, r));
    lemma_connected_step(binary, width, n, nb, idx);
    lemma_connected_trans(binary, width, n, idx, nb, r);
    lemma_connected_sym(binary, width, n, idx, r);
}

/// State of the first labelling pass: the provisional label of every pixel,
/// the parent links between provisional labels, and the depth of each label
/// in its tree.
pub type ScanState = (Seq<u32>, Seq<u32>, Seq<nat>);

/// The first pass on pixel `k`: a foreground pixel with no labelled left or
/// upper neighbour opens a new provisional label; one with a single labelled
/// neighbour takes its label; one with two takes the smaller and, where the
/// two labels lie in different trees, links the root of the larger label
/// below the root of the smaller.
pub open spec fn scan_step(binary: Seq<u8>, width: int, k: int, st: ScanState) -> ScanState {
    let (labels, parent, depth) = st;
    if binary[k] == 0 {
        st
    } else {
        let left = if has_left_neighbour(width, k) {
            labels[k - 1]
        } else {
            0u32
        };
        let top = if k >= width {
            labels[k - width]
        } else {
            0u32
        };
        if left == 0 && top == 0 {
            (labels.update(k, parent.len() as u32), parent.push(parent.len() as u32), depth.push(0))
        } else if top == 0 {
            (labels.update(k, left), parent, depth)
        } else if left == 0 {
            (labels.update(k, top), parent, depth)
        } else {
            let small = if left < top {
                left
            } else {
                top
            };
            let large = if left < top {
                top
            } else {
                left
            };
            let r_large = root(parent, depth, large as int);
            let r_small = root(parent, depth, small as int);
            if r_large != r_small {
                (
                    labels.update(k, small),
                    parent.update(r_large, r_small as u32),
                    linked_depths(parent, depth, r_large),
                )
            } else {
                (labels.update(k, small), parent, depth)
            }
        }
    }
}

/// The first pass over the first `k` pixels of a mask of `n` pixels.
pub open spec fn scan_prefix(binary: Seq<u8>, width: int, n: int, k: int) -> ScanState
    decreases k,
{
    if k <= 0 {
        (Seq::new(n as nat, |i: int| 0u32), seq![0u32], seq![0nat])
    } else {
        scan_step(binary, width, k - 1, scan_prefix(binary, width, n, k - 1))
    }
}

/// The labels of the two-pass scan: every foreground pixel carries the root
/// of its provisional label once the whole mask has been scanned.
pub open spec fn scan_labels(binary: Seq<u8>, width: int, n: int) -> Seq<u32> {
    let (provisional, parent, depth) = scan_prefix(binary, width, n, n);
    Seq::new(
        n as nat,
        |i: int|
            if provisional[i] == 0 {
                0u32
            } else {
                root(parent, depth, provisional[i] as int) as u32
            },
    )
}

/// Two-pass 4-connected component labelling of a row-major binary mask
/// (nonzero = foreground). Background pixels get label 0; every foreground
/// pixel gets the root label of its equivalence class.
pub fn connected_components(binary: &[u8], width: usize, height: usize) -> (labels: Vec<u32>)
    requires
        width * height <= binary@.len(),
        width * height < u32::MAX,
    ensures
        labels_component_consistent(binary@, labels@, width as int, width * height),
        forall|i: int, j: int|
            0 <= i < width * height && 0 <= j < width * height && binary@[i] != 0 && binary@[j] != 0
                ==> (labels@[i] == labels@[j] <==> #[trigger] pixels_connected(
                binary@,
                width as int,
                width * height,
                i,
                j,
            )),
        labels@ == scan_labels(binary@, width as int, width * height),
{
    let n = width * height;
    let mut labels: Vec<u32> = vec![0u32; n];
    if n == 0 {
        proof {
            assert(labels@ =~= scan_labels(binary@, width as int, width * height));
        }
        return labels;
    }
    let mut next_label: u32 = 1;
    let mut equivalences: Vec<u32> = vec![0];
    let ghost mut depth: Seq<nat> = seq![0nat];
    let ghost mut rep: Seq<int> = seq![0int];

    let mut idx: usize = 0;
    let mut x: usize = 0;
    let ghost mut row: int = 0;
    proof {
        assert(labels@ =~= scan_prefix(binary@, width as int, n as int, 0).0);
        assert(equivalences@ =~= scan_prefix(binary@, width as int, n as int, 0).1);
    }

    while idx < n
        invariant
            labels@ == scan_prefix(binary@, width as int, n as int, idx as int).0,
            equivalences@ == scan_prefix(binary@, width as int, n as int, idx as int).1,
            depth == scan_prefix(binary@, width as int, n as int, idx as int).2,
            n == width * height,
            n <= binary@.len(),
            n < u32::MAX,
            width > 0,
            labels@.len() == n,
            idx <= n,
            x < width,
            idx == row * width + x,
            next_label as int == equivalences@.len(),
            1 <= equivalences@.len() <= idx + 1,
            equivalences@[0] == 0,
            forall|l: int| 0 < l < equivalences@.len() ==> #[trigger] equivalences@[l] != 0,
            forest_depths(equivalences@, depth),
            forall|i: int| 0 <= i < n ==> (#[trigger] labels@[i] as int) < equivalences@.len(),
            forall|i: int| 0 <= i < idx ==> (#[trigger] labels@[i] == 0 <==> binary@[i] == 0),
            forall|i: int| idx <= i < n ==> #[trigger] labels@[i] == 0,
            forall|i: int|
                0 <= i < idx ==> #[trigger] joins_neighbours(
                    binary@,
                    labels@,
                    equivalences@,
                    depth,
                    width as int,
                    i,
                ),
            reps_linked(binary@, width as int, n as int, equivalences@, depth, rep, idx as int),
            pixels_reach_reps(binary@, width as int, n as int, labels@, rep, idx as int),
        decreases n - idx,
    {
        proof {
            vstd::arithmetic::div_mod::lemma_fundamental_div_mod_converse(
                idx as int,
                width as int,
                row,
                x as int,
            );
        }
        let ghost labels0 = labels@;
        let ghost eq0 = equivalences@;
        let ghost depth0 = depth;
        let ghost rep0 = rep;
        let ghost next_state = scan_step(
            binary@,
            width as int,
            idx as int,
            (labels0, eq0, depth0),
        );
        proof {
            assert(scan_prefix(binary@, width as int, n as int, idx + 1) == next_state);
            assert(has_left_neighbour(width as int, idx as int) == (x > 0));
        }
        if binary[idx] != 0 {
            let left = if x > 0 {
                labels[idx - 1]
            } else {
                0
            };
            let top = if idx >= width {
                labels[idx - width]
            } else {
                0
            };
            if left == 0 && top == 0 {
                proof {
                    assert forall|i: int| 0 <= i < eq0.len() implies root(
                        eq0.push(eq0.len() as u32),
                        depth0.push(0),
                        i,
                    ) == root(eq0, depth0, i) by {
                        lemma_push_root(eq0, depth0, i);
                    }
                }
                labels.set(idx, next_label);
                equivalences.push(next_label);
                proof {
                    depth = depth.push(0);
                    assert(equivalences@ == eq0.push(eq0.len() as u32));
                    assert(roots_refined(eq0, depth0, equivalences@, depth));
                    lemma_push_links(binary@, width as int, n as int, eq0, depth0, rep0, idx as int);
                    rep = rep0.push(idx as int);
                    lemma_connected_refl(binary@, width as int, n as int, idx as int);
                }
                next_label = next_label + 1;
            } else if left != 0 && top == 0 {
                labels.set(idx, left);
                proof {
                    lemma_root(eq0, depth0, left as int);
                    lemma_join_neighbour(binary@, width as int, n as int, labels0, rep0, idx as int, idx - 1);
                }
            } else if left == 0 && top != 0 {
                labels.set(idx, top);
                proof {
                    lemma_join_neighbour(binary@, width as int, n as int, labels0, rep0, idx as int, idx - width);
                }
            } else {
                let min_label = if left < top {
                    left
                } else {
                    top
                };
                let max_label = if left < top {
                    top
                } else {
                    left
                };
                labels.set(idx, min_label);
                let ghost px_min: int = if left < top {
                    idx - 1
                } else {
                    idx - width
                };
                let ghost px_max: int = if left < top {
                    idx - width
                } else {
                    idx - 1
                };
                proof {
                    lemma_join_neighbour(binary@, width as int, n as int, labels0, rep0, idx as int, idx - 1);
                    lemma_join_neighbour(binary@, width as int, n as int, labels0, rep0, idx as int, idx - width);
                }
                let root_max = find_root(&equivalences, max_label, Ghost(depth));
                let root_min = find_root(&equivalences, min_label, Ghost(depth));
                if root_max != root_min {
                    proof {
                        let w = width as int;
                        let nn = n as int;
                        assert(labels0[px_max] == max_label && labels0[px_min] == min_label);
                        lemma_connected_sym(binary@, w, nn, rep0[max_label as int], rep0[root_max as int]);
                        lemma_connected_trans(binary@, w, nn, rep0[root_max as int], rep0[max_label as int], idx as int);
                        lemma_connected_trans(binary@, w, nn, rep0[root_max as int], idx as int, rep0[min_label as int]);
                        lemma_connected_trans(binary@, w, nn, rep0[root_max as int], rep0[min_label as int], rep0[root_min as int]);
                        lemma_root(eq0, depth0, max_label as int);
                        lemma_root(eq0, depth0, min_label as int);
                        lemma_nonzero_root(eq0, depth0, min_label as int);
                        lemma_nonzero_root(eq0, depth0, max_label as int);
                        lemma_link_forest(eq0, depth0, root_max as int, root_min as int);
                        assert forall|i: int| 0 <= i < eq0.len() implies #[trigger] root(
                            eq0.update(root_max as int, root_min),
                            linked_depths(eq0, depth0, root_max as int),
                            i,
                        ) == if root(eq0, depth0, i) == root_max as int {
                            root_min as int
                        } else {
                            root(eq0, depth0, i)
                        } by {
                            lemma_link_root(eq0, depth0, root_max as int, root_min as int, i);
                        }
                    }
                    equivalences.set(root_max as usize, root_min);
                    proof {
                        depth = linked_depths(eq0, depth0, root_max as int);
                        assert(roots_refined(eq0, depth0, equivalences@, depth));
                        lemma_union_links(binary@, width as int, n as int, eq0, depth0, rep0, idx as int, root_max as int, root_min as int);
                    }
                }
            }
        }
        proof {
            assert(labels@ == next_state.0);
            assert(equivalences@ == next_state.1);
            assert(depth == next_state.2);
            assert(rep.len() == equivalences@.len());
            assert forall|i: int|
                0 <= i < idx + 1 && binary@[i] != 0 implies pixels_connected(
                binary@,
                width as int,
                n as int,
                i,
                rep[#[trigger] labels@[i] as int],
            ) by {
                if i < idx {
                    assert(labels@[i] == labels0[i]);
                    assert(rep[labels0[i] as int] == rep0[labels0[i] as int]);
                }
            }
            assert(roots_refined(eq0, depth0, equivalences@, depth));
            assert forall|i: int| 0 <= i < idx + 1 implies #[trigger] joins_neighbours(
                binary@,
                labels@,
                equivalences@,
                depth,
                width as int,
                i,
            ) by {
                if i < idx {
                    assert(joins_neighbours(binary@, labels0, eq0, depth0, width as int, i));
                    assert(labels@[i] == labels0[i]);
                    if 0 < i {
                        assert(labels@[i - 1] == labels0[i - 1]);
                    }
                    if width <= i {
                        assert(labels@[i - width] == labels0[i - width]);
                    }
                }
            }
        }
        idx = idx + 1;
        if x + 1 == width {
            x = 0;
            proof {
                assert((row + 1) * width == row * width + width) by (nonlinear_arith);
                row = row + 1;
            }
        } else {
            x = x + 1;
        }
    }

    // Second pass: replace every provisional label by its root.
    let ghost provisional = labels@;
    let ghost final_eq = equivalences@;
    let mut j: usize = 0;
    while j < n
        invariant
            labels@.len() == n,
            provisional.len() == n,
            j <= n,
            equivalences@ == final_eq,
            provisional == scan_prefix(binary@, width as int, n as int, n as int).0,
            final_eq == scan_prefix(binary@, width as int, n as int, n as int).1,
            depth == scan_prefix(binary@, width as int, n as int, n as int).2,
            forest_depths(final_eq, depth),
            final_eq.len() >= 1,
            final_eq[0] == 0,
            forall|l: int| 0 < l < final_eq.len() ==> #[trigger] final_eq[l] != 0,
            forall|i: int| 0 <= i < n ==> (#[trigger] provisional[i] as int) < final_eq.len(),
            forall|i: int|
                0 <= i < j ==> #[trigger] labels@[i] as int == root(
                    final_eq,
                    depth,
                    provisional[i] as int,
                ),
            forall|i: int| j <= i < n ==> #[trigger] labels@[i] == provisional[i],
            n <= binary@.len(),
            width > 0,
            forall|i: int| 0 <= i < n ==> (#[trigger] provisional[i] == 0 <==> binary@[i] == 0),
            reps_linked(binary@, width as int, n as int, final_eq, depth, rep, n as int),
            pixels_reach_reps(binary@, width as int, n as int, provisional, rep, n as int),
            forall|i: int|
                0 <= i < n ==> #[trigger] joins_neighbours(
                    binary@,
                    provisional,
                    final_eq,
                    depth,
                    width as int,
                    i,
                ),
        decreases n - j,
    {
        let label = labels[j];
        proof {
            lemma_root(final_eq, depth, label as int);
        }
        if label > 0 {
            let r = find_root(&equivalences, label, Ghost(depth));
            labels.set(j, r);
        } else {
            proof {
                lemma_root(final_eq, depth, 0);
            }
        }
        j = j + 1;
    }
    proof {
        lemma_root(final_eq, depth, 0);
        assert forall|i: int| 0 <= i < n implies #[trigger] labels@[i] == scan_labels(
            binary@,
            width as int,
            n as int,
        )[i] by {
            lemma_root(final_eq, depth, provisional[i] as int);
        }
        assert(labels@ =~= scan_labels(binary@, width as int, n as int));
        assert forall|i: int| 0 <= i < n implies (#[trigger] labels@[i] == 0 <==> binary@[i]
            == 0) by {
            lemma_nonzero_root(final_eq, depth, provisional[i] as int);
            lemma_root(final_eq, depth, 0);
        }
        assert forall|i: int|
            0 < i < n && has_left_neighbour(width as int, i) && binary@[i] != 0 && binary@[i - 1]
                != 0 implies #[trigger] labels@[i] == labels@[i - 1] by {
            assert(joins_neighbours(binary@, provisional, final_eq, depth, width as int, i));
        }
        assert forall|i: int|
            width <= i < n && binary@[i] != 0 && binary@[i - width] != 0 implies #[trigger] labels@[i]
                == labels@[i - width] by {
            assert(joins_neighbours(binary@, provisional, final_eq, depth, width as int, i));
        }
        let w = width as int;
        let nn = n as int;
        assert forall|i: int, j: int|
            0 <= i < nn && 0 <= j < nn && binary@[i] != 0 && binary@[j] != 0 implies (labels@[i]
            == labels@[j] <==> #[trigger] pixels_connected(binary@, w, nn, i, j)) by {
            if labels@[i] == labels@[j] {
                let pi = provisional[i] as int;
                let pj = provisional[j] as int;
                let r = root(final_eq, depth, pi);
                assert(pixels_connected(binary@, w, nn, i, rep[pi]));
                assert(pixels_connected(binary@, w, nn, j, rep[pj]));
                assert(pixels_connected(binary@, w, nn, rep[pi], rep[r]));
                assert(pixels_connected(binary@, w, nn, rep[pj], rep[r]));
                lemma_connected_trans(binary@, w, nn, i, rep[pi], rep[r]);
                lemma_connected_trans(binary@, w, nn, j, rep[pj], rep[r]);
                lemma_connected_sym(binary@, w, nn, j, rep[r]);
                lemma_connected_trans(binary@, w, nn, i, rep[r], j);
            }
            if pixels_connected(binary@, w, nn, i, j) {
                lemma_connected_same_label(binary@, labels@, w, nn, i, j);
            }
        }
    }
    labels
}

/// Pixels joined by a foreground path carry the same label under a
/// consistent labelling.
pub proof fn lemma_connected_same_label(binary: Seq<u8>, labels: Seq<u32>, width: int, n: int, a: int, b: int)
    requires
        labels_component_consistent(binary, labels, width, n),
        pixels_connected(binary, width, n, a, b),
    ensures
        labels[a] == labels[b],
{
    let p = choose|path: Seq<int>|
        #[trigger] is_foreground_path(binary, width, n, path) && path[0] == a && path.last() == b;
    lemma_path_same_label(binary, labels, width, n, p, p.len() - 1);
}

proof fn lemma_path_same_label(binary: Seq<u8>, labels: Seq<u32>, width: int, n: int, p: Seq<int>, k: int)
    requires
        labels_component_consistent(binary, labels, width, n),
        is_foreground_path(binary, width, n, p),
        0 <= k < p.len(),
    ensures
        labels[p[k]] == labels[p[0]],
    decreases k,
{
    if k > 0 {
        lemma_path_same_label(binary, labels, width, n, p, k - 1);
        let a = p[k - 1];
        let b = p[k];
        assert(adjacent(width, n, p[k - 1], p[k]));
        assert(binary[a] != 0 && binary[b] != 0);
        if b == a + 1 && has_left_neighbour(width, b) {
            assert(labels[b] == labels[b - 1]);
        } else if a == b + 1 && has_left_neighbour(width, a) {
            assert(labels[a] == labels[a - 1]);
        } else if b == a + width {
            assert(labels[b] == labels[b - width]);
        } else {
            assert(labels[a] == labels[a - width]);
        }
    }
}

/// Roots of nonzero labels are nonzero when no nonzero label points at 0.
proof fn lemma_nonzero_root(parent: Seq<u32>, depth: Seq<nat>, i: int)
    requires
        forest_depths(parent, depth),
        0 <= i < parent.len(),
        forall|l: int| 0 < l < parent.len() ==> #[trigger] parent[l] != 0,
    ensures
        i != 0 ==> root(parent, depth, i) != 0,
    decreases depth[i],
{
    lemma_root(parent, depth, i);
    if parent[i] != i {
        lemma_nonzero_root(parent, depth, parent[i] as int);
    }
}

// ---------------------------------------------------------------------------
// Component extents
// ---------------------------------------------------------------------------

/// Bounding rectangle and pixel count of one labelled component.
#[derive(Clone, Copy)]
pub struct ComponentExtent {
    pub x_min: usize,
    pub y_min: usize,
    pub x_max: usize,
    pub y_max: usize,
    pub count: usize,
}

/// The extent of a label that no pixel carries.
pub open spec fn empty_extent(e: ComponentExtent) -> bool {
    e.x_min == usize::MAX && e.y_min == usize::MAX && e.x_max == 0 && e.y_max == 0 && e.count == 0
}

/// Largest label among the first `k` pixels (0 for none).
pub open spec fn max_label(labels: Seq<u32>, k: int) -> u32
    decreases k,
{
    if k <= 0 {
        0
    } else {
        let m = max_label(labels, k - 1);
        if labels[k - 1] > m {
            labels[k - 1]
        } else {
            m
        }
    }
}

/// Number of pixels among the first `k` that carry label `l`.
pub open spec fn label_count(labels: Seq<u32>, l: u32, k: int) -> nat
    decreases k,
{
    if k <= 0 {
        0
    } else {
        label_count(labels, l, k - 1) + if labels[k - 1] == l {
            1nat
        } else {
            0nat
        }
    }
}

/// `e` is the extent of label `l` over the first `k` pixels of a mask of
/// the given width: its pixel count, and for a label that occurs, the
/// smallest and largest column and row of its pixels.
pub open spec fn extent_of(labels: Seq<u32>, width: int, k: int, l: u32, e: ComponentExtent) -> bool {
    &&& e.count == label_count(labels, l, k)
    &&& e.count == 0 ==> empty_extent(e)
    &&& e.count > 0 ==> {
        &&& forall|i: int|
            0 <= i < k && #[trigger] labels[i] == l ==> e.x_min <= i % width <= e.x_max && e.y_min
                <= i / width <= e.y_max
        &&& exists|i: int| 0 <= i < k && #[trigger] labels[i] == l && i % width == e.x_min
        &&& exists|i: int| 0 <= i < k && #[trigger] labels[i] == l && i % width == e.x_max
        &&& exists|i: int| 0 <= i < k && #[trigger] labels[i] == l && i / width == e.y_min
        &&& exists|i: int| 0 <= i < k && #[trigger] labels[i] == l && i / width == e.y_max
    }
}

proof fn lemma_max_label(labels: Seq<u32>, k: int)
    requires
        0 <= k <= labels.len(),
    ensures
        forall|i: int| 0 <= i < k ==> #[trigger] labels[i] <= max_label(labels, k),
        k > 0 ==> exists|i: int| 0 <= i < k && #[trigger] labels[i] == max_label(labels, k),
    decreases k,
{
    if k > 0 {
        lemma_max_label(labels, k - 1);
        if labels[k - 1] > max_label(labels, k - 1) {
            assert(labels[k - 1] == max_label(labels, k));
        } else if k - 1 > 0 {
            let j = choose|j: int| 0 <= j < k - 1 && #[trigger] labels[j] == max_label(labels, k - 1);
            assert(labels[j] == max_label(labels, k));
        } else {
            assert(labels[0] == max_label(labels, k));
        }
    }
}

/// Per-label extents of a labelled mask, indexed by label (entry 0, the
/// background, is left empty).
pub fn component_extents(labels: &[u32], width: usize, height: usize) -> (out: Vec<ComponentExtent>)
    requires
        labels@.len() == width * height,
        forall|i: int| 0 <= i < labels@.len() ==> #[trigger] labels@[i] < usize::MAX,
    ensures
        out@.len() == max_label(labels@, labels@.len() as int) + 1,
        empty_extent(out@[0]),
        forall|l: int|
            1 <= l < out@.len() ==> extent_of(
                labels@,
                width as int,
                labels@.len() as int,
                l as u32,
                #[trigger] out@[l],
            ),
{
    let n = labels.len();
    let mut max: u32 = 0;
    let mut i: usize = 0;
    while i < n
        invariant
            i <= n,
            n == labels@.len(),
            max == max_label(labels@, i as int),
        decreases n - i,
    {
        if labels[i] > max {
            max = labels[i];
        }
        i = i + 1;
    }
    proof {
        lemma_max_label(labels@, n as int);
        if n > 0 {
            let j = choose|j: int| 0 <= j < n && #[trigger] labels@[j] == max;
            assert(labels@[j] < usize::MAX);
        }
    }
    let size: usize = max as usize + 1;
    let empty = ComponentExtent { x_min: usize::MAX, y_min: usize::MAX, x_max: 0, y_max: 0, count: 0 };
    let mut out: Vec<ComponentExtent> = Vec::new();
    let mut k: usize = 0;
    while k < size
        invariant
            k <= size,
            out@.len() == k,
            forall|j: int| 0 <= j < k ==> #[trigger] out@[j] == empty,
        decreases size - k,
    {
        out.push(empty);
        k = k + 1;
    }
    if width == 0 {
        proof {
            assert(n == 0) by (nonlinear_arith)
                requires
                    n == width * height,
                    width == 0,
            ;
        }
        return out;
    }
    let mut x: usize = 0;
    let mut y: usize = 0;
    let mut i: usize = 0;
    while i < n
        invariant
            i <= n,
            n == labels@.len(),
            n == width * height,
            width > 0,
            x < width,
            i == y * width + x,
            out@.len() == size,
            size == max_label(labels@, n as int) + 1,
            forall|j: int| 0 <= j < n ==> #[trigger] labels@[j] < size,
            empty_extent(out@[0]),
            forall|l: int|
                1 <= l < size ==> extent_of(labels@, width as int, i as int, l as u32, #[trigger] out@[l]),
        decreases n - i,
    {
        proof {
            vstd::arithmetic::div_mod::lemma_fundamental_div_mod_converse(
                i as int,
                width as int,
                y as int,
                x as int,
            );
            assert(y < height) by (nonlinear_arith)
                requires
                    i == y * width + x,
                    i < width * height,
                    x >= 0,
                    width > 0,
            ;
        }
        let lab = labels[i];
        if lab != 0 {
            let li = lab as usize;
            let e = out[li];
            assert(e.count <= i) by {
                lemma_label_count_bound(labels@, lab, i as int);
            }
            let ne = ComponentExtent {
                x_min: if x < e.x_min { x } else { e.x_min },
                y_min: if y < e.y_min { y } else { e.y_min },
                x_max: if x > e.x_max { x } else { e.x_max },
                y_max: if y > e.y_max { y } else { e.y_max },
                count: e.count + 1,
            };
            let ghost old_out = out@;
            proof {
                assert(y <= i) by (nonlinear_arith)
                    requires
                        i == y * width + x,
                        width > 0,
                        x >= 0,
                        y >= 0,
                ;
            }
            out.set(li, ne);
            proof {
                assert forall|l: int| 1 <= l < size implies extent_of(
                    labels@,
                    width as int,
                    i + 1,
                    l as u32,
                    #[trigger] out@[l],
                ) by {
                    if l == li {
                        lemma_extent_step_hit(labels@, width as int, i as int, lab, e, ne, x as int, y as int);
                    } else {
                        assert(out@[l] == old_out[l]);
                        lemma_extent_step_miss(labels@, width as int, i as int, l as u32, out@[l]);
                    }
                }
            }
        } else {
            proof {
                assert forall|l: int| 1 <= l < size implies extent_of(
                    labels@,
                    width as int,
                    i + 1,
                    l as u32,
                    #[trigger] out@[l],
                ) by {
                    lemma_extent_step_miss(labels@, width as int, i as int, l as u32, out@[l]);
                }
            }
        }
        i = i + 1;
        if x + 1 < width {
            x = x + 1;
        } else {
            proof {
                assert((y + 1) * width == y * width + width) by (nonlinear_arith);
            }
            x = 0;
            y = y + 1;
        }
    }
    out
}

proof fn lemma_label_count_bound(labels: Seq<u32>, l: u32, k: int)
    requires
        0 <= k,
    ensures
        label_count(labels, l, k) <= k,
    decreases k,
{
    if k > 0 {
        lemma_label_count_bound(labels, l, k - 1);
    }
}

/// A label carried by some pixel before `k` has a positive count there.
proof fn lemma_label_count_positive(labels: Seq<u32>, l: u32, j: int, k: int)
    requires
        0 <= j < k,
        labels[j] == l,
    ensures
        label_count(labels, l, k) > 0,
    decreases k,
{
    if j < k - 1 {
        lemma_label_count_positive(labels, l, j, k - 1);
    }
}

/// A pixel of another label leaves an extent as it was.
proof fn lemma_extent_step_miss(labels: Seq<u32>, width: int, i: int, l: u32, e: ComponentExtent)
    requires
        0 <= i < labels.len(),
        labels[i] != l,
        extent_of(labels, width, i, l, e),
    ensures
        extent_of(labels, width, i + 1, l, e),
{
    if e.count > 0 {
        let a = choose|j: int| 0 <= j < i && #[trigger] labels[j] == l && j % width == e.x_min;
        let b = choose|j: int| 0 <= j < i && #[trigger] labels[j] == l && j % width == e.x_max;
        let c = choose|j: int| 0 <= j < i && #[trigger] labels[j] == l && j / width == e.y_min;
        let d = choose|j: int| 0 <= j < i && #[trigger] labels[j] == l && j / width == e.y_max;
        assert(labels[a] == l && labels[b] == l && labels[c] == l && labels[d] == l);
    }
}

/// A pixel of the label widens its extent to cover the pixel.
proof fn lemma_extent_step_hit(
    labels: Seq<u32>,
    width: int,
    i: int,
    l: u32,
    e: ComponentExtent,
    ne: ComponentExtent,
    x: int,
    y: int,
)
    requires
        0 <= i < labels.len(),
        labels[i] == l,
        width > 0,
        x == i % width,
        y == i / width,
        extent_of(labels, width, i, l, e),
        ne.count == e.count + 1,
        ne.x_min == (if x < e.x_min { x } else { e.x_min as int }),
        ne.y_min == (if y < e.y_min { y } else { e.y_min as int }),
        ne.x_max == (if x > e.x_max { x } else { e.x_max as int }),
        ne.y_max == (if y > e.y_max { y } else { e.y_max as int }),
        x < usize::MAX,
        y < usize::MAX,
    ensures
        extent_of(labels, width, i + 1, l, ne),
{
    assert(labels[i] == l);
    assert(label_count(labels, l, i + 1) == label_count(labels, l, i) + 1);
    if e.count > 0 {
        let a = choose|j: int| 0 <= j < i && #[trigger] labels[j] == l && j % width == e.x_min;
        let b = choose|j: int| 0 <= j < i && #[trigger] labels[j] == l && j % width == e.x_max;
        let c = choose|j: int| 0 <= j < i && #[trigger] labels[j] == l && j / width == e.y_min;
        let d = choose|j: int| 0 <= j < i && #[trigger] labels[j] == l && j / width == e.y_max;
        if x < e.x_min {
            assert(labels[i] == l && i % width == ne.x_min);
        } else {
            assert(labels[a] == l && a % width == ne.x_min);
        }
        if x > e.x_max {
            assert(labels[i] == l && i % width == ne.x_max);
        } else {
            assert(labels[b] == l && b % width == ne.x_max);
        }
        if y < e.y_min {
            assert(labels[i] == l && i / width == ne.y_min);
        } else {
            assert(labels[c] == l && c / width == ne.y_min);
        }
        if y > e.y_max {
            assert(labels[i] == l && i / width == ne.y_max);
        } else {
            assert(labels[d] == l && d / width == ne.y_max);
        }
    } else {
        assert(labels[i] == l && i % width == ne.x_min && i % width == ne.x_max && i / width
            == ne.y_min && i / width == ne.y_max);
    }
    assert forall|j: int| 0 <= j < i + 1 && #[trigger] labels[j] == l implies ne.x_min <= j % width
        <= ne.x_max && ne.y_min <= j / width <= ne.y_max by {
        if j < i {
            lemma_label_count_positive(labels, l, j, i);
        }
    }
}

} // verus!
