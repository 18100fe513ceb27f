//! Binary STL, as far as it is layout: an 80-byte header, a little-endian
//! triangle count, then 50 bytes per triangle (a normal, three corners of
//! three 32-bit floats each, two attribute bytes). The corners are handed
//! out as the raw bits of their coordinates; what they measure is the
//! mesh builder's business.
use vstd::prelude::*;
use std::collections::HashMap;

verus! {

broadcast use vstd::std_specs::hash::group_hash_axioms;

/// What is wrong with a file that is not a binary STL.
#[derive(Debug, Clone, Copy, PartialEq, Eq, Structural)]
pub enum StlError {
    /// Shorter than the 84 bytes of header and count.
    TooShort { len: usize },
    /// Shorter than the triangles it declares need.
    Truncated { count: u32, expected: u64, len: usize },
}

/// The little-endian `u32` at `o`.
pub open spec fn le_u32(b: Seq<u8>, o: int) -> int {
    b[o] + 256 * b[o + 1] + 65536 * b[o + 2] + 16777216 * b[o + 3]
}

/// The bytes a file declaring `count` triangles needs.
pub open spec fn expected_len(count: u32) -> int {
    84 + 50 * count
}

/// Corner `k` of triangle `t`, as the bits of its x, y and z.
pub open spec fn corner_at(b: Seq<u8>, t: int, k: int) -> (u32, u32, u32) {
    let o = 84 + 50 * t + 12 + 12 * k;
    (le_u32(b, o) as u32, le_u32(b, o + 4) as u32, le_u32(b, o + 8) as u32)
}

/// A triangle's three corners.
pub type Corner = (u32, u32, u32);

pub open spec fn triangle_at(b: Seq<u8>, t: int) -> (Corner, Corner, Corner) {
    (corner_at(b, t, 0), corner_at(b, t, 1), corner_at(b, t, 2))
}

fn read_u32(b: &[u8], o: usize) -> (r: u32)
    requires
        o + 4 <= b.len(),
    ensures
        r == le_u32(b@, o as int),
{
    (b[o] as u32) + (b[o + 1] as u32) * 256 + (b[o + 2] as u32) * 65536 + (b[o + 3] as u32)
        * 16777216
}

fn read_corner(b: &[u8], o: usize) -> (r: Corner)
    requires
        o + 12 <= b.len(),
    ensures
        r == (le_u32(b@, o as int) as u32, le_u32(b@, o + 4) as u32, le_u32(b@, o + 8) as u32),
{
    (read_u32(b, o), read_u32(b, o + 4), read_u32(b, o + 8))
}

/// The triangles of a binary STL file, each as its three corners. A file
/// too short for its header, or for the triangles it declares, is refused;
/// bytes past the last triangle are ignored.
pub fn read_triangles(bytes: &[u8]) -> (r: Result<Vec<(Corner, Corner, Corner)>, StlError>)
    ensures
        bytes.len() < 84 ==> r == Err::<Vec<(Corner, Corner, Corner)>, StlError>(
            StlError::TooShort { len: bytes.len() },
        ),
        bytes.len() >= 84 && bytes.len() < expected_len(le_u32(bytes@, 80) as u32) ==> r == Err::<
            Vec<(Corner, Corner, Corner)>,
            StlError,
        >(
            StlError::Truncated {
                count: le_u32(bytes@, 80) as u32,
                expected: expected_len(le_u32(bytes@, 80) as u32) as u64,
                len: bytes.len(),
            },
        ),
        bytes.len() >= 84 && bytes.len() >= expected_len(le_u32(bytes@, 80) as u32) ==> (r matches Ok(
            v,
        ) && v.len() == le_u32(bytes@, 80) && forall|t: int|
            0 <= t < v.len() ==> #[trigger] v@[t] == triangle_at(bytes@, t)),
{
    if bytes.len() < 84 {
        return Err(StlError::TooShort { len: bytes.len() });
    }
    let count = read_u32(bytes, 80);
    let expected: u64 = 84 + 50 * (count as u64);
    if (bytes.len() as u64) < expected {
        return Err(StlError::Truncated { count, expected, len: bytes.len() });
    }
    let n = count as usize;
    let mut out: Vec<(Corner, Corner, Corner)> = Vec::new();
    let mut t: usize = 0;
    while t < n
        invariant
            t <= n,
            n == count,
            count == le_u32(bytes@, 80),
            84 + 50 * count <= bytes.len(),
            out.len() == t,
            forall|j: int| 0 <= j < t ==> #[trigger] out@[j] == triangle_at(bytes@, j),
        decreases n - t,
    {
        assert(84 + 50 * t + 50 <= 84 + 50 * count) by (nonlinear_arith)
            requires
                t < count,
        ;
        let base = 84 + t * 50 + 12;
        let a = read_corner(bytes, base);
        let b = read_corner(bytes, base + 12);
        let c = read_corner(bytes, base + 24);
        out.push((a, b, c));
        t = t + 1;
    }
    Ok(out)
}

/// Whether three corner ids are all different.
pub open spec fn distinct3(a: u32, b: u32, c: u32) -> bool {
    a != b && b != c && a != c
}

/// The first `n` triangles of `ids`, three ids each, without those whose
/// corners fell into fewer than three clusters.
pub open spec fn kept_triangles(ids: Seq<u32>, n: nat) -> Seq<u32>
    decreases n,
{
    if n == 0 {
        seq![]
    } else {
        let before = kept_triangles(ids, (n - 1) as nat);
        let o = 3 * (n - 1);
        if distinct3(ids[o], ids[o + 1], ids[o + 2]) {
            before + seq![ids[o], ids[o + 1], ids[o + 2]]
        } else {
            before
        }
    }
}

/// The index list of the decimated mesh: a triangle two of whose corners
/// landed in the same cluster has collapsed to a line, and is dropped. A
/// trailing group of fewer than three ids is ignored.
pub fn drop_collapsed(ids: &[u32]) -> (r: Vec<u32>)
    ensures
        r@ == kept_triangles(ids@, (ids.len() / 3) as nat),
        r@.len() % 3 == 0,
        index_triangles(r@) == index_triangles(ids@).filter(|x: (u32, u32, u32)| is_proper(x)),
{
    proof {
        law_collapsed_triangles_are_dropped(ids@);
    }
    let n = ids.len() / 3;
    let mut out: Vec<u32> = Vec::new();
    let mut t: usize = 0;
    while t < n
        invariant
            t <= n,
            n == ids.len() / 3,
            out@ == kept_triangles(ids@, t as nat),
        decreases n - t,
    {
        let o = 3 * t;
        let a = ids[o];
        let b = ids[o + 1];
        let c = ids[o + 2];
        if a != b && b != c && a != c {
            out.push(a);
            out.push(b);
            out.push(c);
            assert(out@ =~= kept_triangles(ids@, t as nat) + seq![a, b, c]);
        }
        t = t + 1;
    }
    out
}

/// The `t`-th triangle of an index list: its three corner ids.
pub open spec fn index_triangle(s: Seq<u32>, t: int) -> (u32, u32, u32) {
    (s[3 * t], s[3 * t + 1], s[3 * t + 2])
}

/// An index list read as whole triangles; a trailing group of fewer than
/// three ids is no triangle.
pub open spec fn index_triangles(s: Seq<u32>) -> Seq<(u32, u32, u32)> {
    Seq::new(s.len() / 3, |t: int| index_triangle(s, t))
}

/// A triangle whose three corners lie in three different clusters.
pub open spec fn is_proper(x: (u32, u32, u32)) -> bool {
    x.0 != x.1 && x.1 != x.2 && x.0 != x.2
}

proof fn lemma_triangles_push(s: Seq<u32>, a: u32, b: u32, c: u32)
    requires
        s.len() % 3 == 0,
    ensures
        index_triangles(s + seq![a, b, c]) == index_triangles(s).push((a, b, c)),
{
    let u = s + seq![a, b, c];
    assert(u.len() / 3 == s.len() / 3 + 1);
    assert forall|t: int| 0 <= t < s.len() / 3 implies #[trigger] index_triangle(u, t) == index_triangle(s, t) by {
        assert(3 * t + 2 < s.len());
    }
    assert(index_triangle(u, (s.len() / 3) as int) == (a, b, c));
    assert(index_triangles(u) =~= index_triangles(s).push((a, b, c)));
}

proof fn lemma_kept_triangles(ids: Seq<u32>, n: nat)
    requires
        n <= ids.len() / 3,
    ensures
        kept_triangles(ids, n).len() % 3 == 0,
        index_triangles(kept_triangles(ids, n)) == index_triangles(ids.take(3 * n as int)).filter(
            |x: (u32, u32, u32)| is_proper(x),
        ),
    decreases n,
{
    reveal_with_fuel(Seq::<_>::filter, 1);
    if n == 0 {
        assert(index_triangles(kept_triangles(ids, 0)) =~= Seq::<(u32, u32, u32)>::empty());
        assert(index_triangles(ids.take(0)) =~= Seq::<(u32, u32, u32)>::empty());
    } else {
        let m = (n - 1) as nat;
        lemma_kept_triangles(ids, m);
        let whole = index_triangles(ids.take(3 * n as int));
        let part = index_triangles(ids.take(3 * m as int));
        assert(whole.len() == n);
        assert forall|t: int| 0 <= t < m implies #[trigger] whole[t] == part[t] by {
            assert(index_triangle(ids.take(3 * n as int), t) == index_triangle(ids.take(3 * m as int), t));
        }
        assert(whole.drop_last() =~= part);
        assert(whole.last() == index_triangle(ids, m as int));
        let o: int = 3 * m as int;
        assert(whole.last() == (ids[o], ids[o + 1], ids[o + 2]));
        assert(whole.filter(|x: (u32, u32, u32)| is_proper(x)) == (if is_proper(whole.last()) {
            part.filter(|x: (u32, u32, u32)| is_proper(x)).push(whole.last())
        } else {
            part.filter(|x: (u32, u32, u32)| is_proper(x))
        }));
        if is_proper((ids[o], ids[o + 1], ids[o + 2])) {
            lemma_triangles_push(kept_triangles(ids, m), ids[o], ids[o + 1], ids[o + 2]);
        }
    }
}

/// What is left of an index list is exactly its proper triangles, each as it
/// was and in their order: a triangle with two corners in one cluster is
/// dropped, and no other.
pub proof fn law_collapsed_triangles_are_dropped(ids: Seq<u32>)
    ensures
        kept_triangles(ids, ids.len() / 3).len() % 3 == 0,
        index_triangles(kept_triangles(ids, ids.len() / 3)) == index_triangles(ids).filter(
            |x: (u32, u32, u32)| is_proper(x),
        ),
{
    let n: nat = ids.len() / 3;
    lemma_kept_triangles(ids, n);
    assert(index_triangles(ids.take(3 * n as int)) =~= index_triangles(ids));
}

/// A cell of the clustering grid, by its integer coordinates.
pub type Cell = (i32, i32, i32);

/// A cell's coordinates packed into one key, each by its 32 bits.
pub open spec fn pack(k: Cell) -> u128 {
    ((k.0 as u32) as int * 0x1_0000_0000_0000_0000 + (k.1 as u32) as int * 0x1_0000_0000 + (
    k.2 as u32) as int) as u128
}

fn pack_cell(k: Cell) -> (r: u128)
    ensures
        r == pack(k),
{
    ((k.0 as u32) as u128) * 0x1_0000_0000_0000_0000 + ((k.1 as u32) as u128) * 0x1_0000_0000 + ((
    k.2 as u32) as u128)
}

proof fn lemma_pack_injective(a: Cell, b: Cell)
    requires
        pack(a) == pack(b),
    ensures
        a == b,
{
    let (a0, a1, a2) = ((a.0 as u32) as int, (a.1 as u32) as int, (a.2 as u32) as int);
    let (b0, b1, b2) = ((b.0 as u32) as int, (b.1 as u32) as int, (b.2 as u32) as int);
    assert(a0 == b0 && a1 == b1 && a2 == b2) by (nonlinear_arith)
        requires
            0 <= a0 < 0x1_0000_0000,
            0 <= a1 < 0x1_0000_0000,
            0 <= a2 < 0x1_0000_0000,
            0 <= b0 < 0x1_0000_0000,
            0 <= b1 < 0x1_0000_0000,
            0 <= b2 < 0x1_0000_0000,
            a0 * 0x1_0000_0000_0000_0000 + a1 * 0x1_0000_0000 + a2 == b0 * 0x1_0000_0000_0000_0000
                + b1 * 0x1_0000_0000 + b2,
    ;
    let (x0, x1, x2, y0, y1, y2) = (a.0, a.1, a.2, b.0, b.1, b.2);
    assert((x0 as u32) == (y0 as u32) ==> x0 == y0) by (bit_vector);
    assert((x1 as u32) == (y1 as u32) ==> x1 == y1) by (bit_vector);
    assert((x2 as u32) == (y2 as u32) ==> x2 == y2) by (bit_vector);
}

/// How many distinct cells `keys` holds.
pub open spec fn firsts(keys: Seq<Cell>) -> nat
    decreases keys.len(),
{
    if keys.len() == 0 {
        0
    } else {
        firsts(keys.drop_last()) + (if keys.drop_last().contains(keys.last()) {
            0nat
        } else {
            1nat
        })
    }
}

/// `keys[j]` has not occurred before `j`.
#[verifier::opaque]
spec fn first_time(keys: Seq<Cell>, j: int) -> bool {
    !keys.take(j).contains(keys[j])
}

/// Number the cells the corners fall into, in the order they are first met:
/// one id per corner, the same id exactly for corners in the same cell, and
/// how many cells there were.
pub fn assign_clusters(keys: &[Cell]) -> (r: (Vec<u32>, u32))
    requires
        keys.len() <= u32::MAX,
    ensures
        r.0.len() == keys.len(),
        r.1 == firsts(keys@),
        forall|i: int| 0 <= i < keys.len() ==> #[trigger] r.0@[i] < r.1,
        forall|i: int, j: int|
            0 <= i < keys.len() && 0 <= j < keys.len() ==> (#[trigger] r.0@[i] == #[trigger] r.0@[j])
                == (keys@[i] == keys@[j]),
        forall|i: int|
            0 <= i < keys.len() && !keys@.take(i).contains(keys@[i]) ==> #[trigger] r.0@[i]
                == firsts(keys@.take(i)),
{
    let mut cells: HashMap<u128, u32> = HashMap::new();
    let mut ids: Vec<u32> = Vec::new();
    let mut count: u32 = 0;
    let ghost mut witness: Map<u128, int> = Map::empty();
    let mut i: usize = 0;
    while i < keys.len()
        invariant
            i <= keys.len() <= u32::MAX,
            ids.len() == i,
            count == firsts(keys@.take(i as int)),
            count <= i,
            forall|j: int|
                0 <= j < i ==> cells@.contains_key(pack(#[trigger] keys@[j])) && cells@[pack(
                    keys@[j],
                )] == ids@[j],
            forall|p: u128|
                #![trigger cells@.contains_key(p)]
                cells@.contains_key(p) ==> cells@[p] < count && witness.contains_key(p) && 0
                    <= witness[p] < i && pack(keys@[witness[p]]) == p,
            forall|p: u128, q: u128|
                #![trigger cells@[p], cells@[q]]
                cells@.contains_key(p) && cells@.contains_key(q) && p != q ==> cells@[p]
                    != cells@[q],
            forall|j: int|
                0 <= j < i && #[trigger] first_time(keys@, j) ==> ids@[j] == firsts(
                    keys@.take(j),
                ),
        decreases keys.len() - i,
    {
        let k = keys[i];
        let p = pack_cell(k);
        let ghost t = keys@.take(i + 1);
        assert(t.drop_last() == keys@.take(i as int));
        assert(t.last() == k);
        assert(keys@.take(i as int) == keys@.take(i + 1).take(i as int));
        assert(first_time(keys@, i as int) == !keys@.take(i as int).contains(k)) by {
            reveal(first_time);
        }
        match cells.get(&p) {
            Some(id) => {
                let id = *id;
                proof {
                    let j = witness[p];
                    lemma_pack_injective(keys@[j], k);
                    assert(keys@.take(i as int)[j] == k);
                    assert(keys@.take(i as int).contains(k));
                }
                ids.push(id);
            },
            None => {
                proof {
                    if keys@.take(i as int).contains(k) {
                        let j = choose|j: int| 0 <= j < i && keys@.take(i as int)[j] == k;
                        assert(cells@.contains_key(pack(keys@[j])));
                    }
                }
                cells.insert(p, count);
                ids.push(count);
                count = count + 1;
                proof {
                    witness = witness.insert(p, i as int);
                }
            },
        }
        i = i + 1;
    }
    assert(keys@.take(keys.len() as int) == keys@);
    proof {
        assert forall|a: int, b: int| 0 <= a < keys.len() && 0 <= b < keys.len() implies (#[trigger] ids@[a] == #[trigger] ids@[b]) == (keys@[a] == keys@[b]) by {
            assert(cells@[pack(keys@[a])] == ids@[a]);
            assert(cells@[pack(keys@[b])] == ids@[b]);
            if ids@[a] == ids@[b] && pack(keys@[a]) != pack(keys@[b]) {
                assert(cells@[pack(keys@[a])] != cells@[pack(keys@[b])]);
            }
            if pack(keys@[a]) == pack(keys@[b]) {
                lemma_pack_injective(keys@[a], keys@[b]);
            }
        }
        assert forall|a: int| 0 <= a < keys.len() && !keys@.take(a).contains(keys@[a]) implies #[trigger] ids@[a] == firsts(keys@.take(a)) by {
            reveal(first_time);
            assert(first_time(keys@, a));
        }
        assert forall|a: int| 0 <= a < keys.len() implies #[trigger] ids@[a] < count by {
            assert(cells@.contains_key(pack(keys@[a])));
        }
    }
    (ids, count)
}

} // verus!
