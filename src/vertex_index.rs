//  Edge numbering of a cell:
//
//      +-------9-------+
//     /|              /|
//    7 |            10 |              ^
//   /  8            /  11            /
//  +-------6-------+   |     ^    higher indexes in y
//  |   |           |   |     |     /
//  |   +-------3---|---+     |    /
//  2  /            5  /  higher indexes
//  | 1             | 4      in z
//  |/              |/        |/
//  o-------0-------+         +-- higher indexes in x ---->
//
//  Faces are numbered X0, X1, Y0, Y1, Z0, Z1: face `2k` is the low side of
//  axis `k`, face `2k + 1` its high side.
use crate::bitset::{BitSet, has_bit};
use vstd::prelude::*;

verus! {

/// The four edges of a cell that lie on `face`.
pub open spec fn face_edges(face: int) -> Set<int> {
    if face == 0 {
        set![1, 2, 7, 8]
    } else if face == 1 {
        set![4, 5, 10, 11]
    } else if face == 2 {
        set![0, 2, 5, 6]
    } else if face == 3 {
        set![3, 8, 9, 11]
    } else if face == 4 {
        set![0, 1, 3, 4]
    } else {
        set![6, 7, 9, 10]
    }
}

/// The face on the other side of the same axis: 0 and 1, 2 and 3, 4 and 5 are paired.
pub open spec fn complement(face: int) -> int {
    if face % 2 == 0 {
        face + 1
    } else {
        face - 1
    }
}

/// The number, in the cell across `face`, of edge `e` lying on `face`.
pub open spec fn edge_across(face: int, e: int) -> int {
    if face == 0 {
        e + 3
    } else if face == 1 {
        e - 3
    } else if face == 2 {
        if e == 0 || e == 6 {
            e + 3
        } else {
            e + 6
        }
    } else if face == 3 {
        if e == 3 || e == 9 {
            e - 3
        } else {
            e - 6
        }
    } else if face == 4 {
        e + 6
    } else {
        e - 6
    }
}

/// The edges of `edges` that lie on `face`, numbered as in the cell across `face`.
pub open spec fn edges_across(face: int, edges: Set<int>) -> Set<int> {
    edges.intersect(face_edges(face)).map(|e: int| edge_across(face, e))
}

/// The set of edges on `face` (`face < 6`).
pub fn edges_on_face(face: usize) -> (r: BitSet)
    requires
        face < 6,
    ensures
        r@ == face_edges(face as int),
{
    match face {
        0 => BitSet::from_4bits(1, 2, 7, 8),
        1 => BitSet::from_4bits(4, 5, 10, 11),
        2 => BitSet::from_4bits(0, 2, 5, 6),
        3 => BitSet::from_4bits(3, 8, 9, 11),
        4 => BitSet::from_4bits(0, 1, 3, 4),
        _ => BitSet::from_4bits(6, 7, 9, 10),
    }
}

/// The table of the edges on each face, indexed by face.
pub fn edges_on_face_table() -> (r: [BitSet; 6])
    ensures
        forall|f: int| 0 <= f < 6 ==> (#[trigger] r[f])@ == face_edges(f),
{
    [
        edges_on_face(0),
        edges_on_face(1),
        edges_on_face(2),
        edges_on_face(3),
        edges_on_face(4),
        edges_on_face(5),
    ]
}

proof fn lemma_shl_bit(x: u32, s: u32, i: u32)
    by (bit_vector)
    requires
        s < 32,
        i < 32,
    ensures
        has_bit(x << s, i) <==> (i >= s && has_bit(x, (i - s) as u32)),
{
}

proof fn lemma_shr_bit(x: u32, s: u32, i: u32)
    by (bit_vector)
    requires
        s < 32,
        i < 32,
    ensures
        has_bit(x >> s, i) <==> (i + s < 32 && has_bit(x, (i + s) as u32)),
{
}

proof fn lemma_low_y_bit(x: u32, i: u32)
    by (bit_vector)
    requires
        i < 32,
    ensures
        has_bit(((x & 0b100_0001u32) << 3u32) | ((x & 0b10_0100u32) << 6u32), i) <==> ((i == 3
            && has_bit(x, 0)) || (i == 9 && has_bit(x, 6)) || (i == 8 && has_bit(x, 2)) || (i
            == 11 && has_bit(x, 5))),
{
}

proof fn lemma_high_y_bit(x: u32, i: u32)
    by (bit_vector)
    requires
        i < 32,
    ensures
        has_bit(((x & 0b10_0000_1000u32) >> 3u32) | ((x & 0b1001_0000_0000u32) >> 6u32), i) <==> ((
        i == 0 && has_bit(x, 3)) || (i == 6 && has_bit(x, 9)) || (i == 2 && has_bit(x, 8)) || (i
            == 5 && has_bit(x, 11))),
{
}

/// Translates `edges`, numbered in one cell, into the cell across `face`: the
/// result holds exactly the members of `edges` that lie on `face`, each under
/// its number in the neighbouring cell.
pub fn edges_on_neighbor(face: usize, edges: BitSet) -> (r: BitSet)
    requires
        face < 6,
    ensures
        r@ == edges_across(face as int, edges@),
{
    let on_face = edges.intersect(edges_on_face(face));
    let bits = on_face.as_u32();
    let r = match face {
        0 => BitSet(bits << 3u32),
        1 => BitSet(bits >> 3u32),
        2 => BitSet((bits & 0b100_0001u32) << 3u32 | (bits & 0b10_0100u32) << 6u32),
        3 => BitSet((bits & 0b10_0000_1000u32) >> 3u32 | (bits & 0b1001_0000_0000u32) >> 6u32),
        4 => BitSet(bits << 6u32),
        _ => BitSet(bits >> 6u32),
    };
    proof {
        let f = face as int;
        let sel = edges@.intersect(face_edges(f));
        assert(on_face@ == sel);
        assert forall|i: int| 0 <= i < 32 implies (#[trigger] has_bit(r.0, i as u32) <==> (
        face_edges(complement(f)).contains(i) && sel.contains(edge_across(complement(f), i)))) by {
            let u = i as u32;
            if face == 0 {
                lemma_shl_bit(bits, 3, u);
            } else if face == 1 {
                lemma_shr_bit(bits, 3, u);
            } else if face == 2 {
                lemma_low_y_bit(bits, u);
            } else if face == 3 {
                lemma_high_y_bit(bits, u);
            } else if face == 4 {
                lemma_shl_bit(bits, 6, u);
            } else {
                lemma_shr_bit(bits, 6, u);
            }
            let j = edge_across(complement(f), i);
            if 0 <= j < 32 {
                assert(sel.contains(j) <==> has_bit(bits, j as u32));
            }
        }
        let target = edges_across(f, edges@);
        assert forall|i: int| r@.contains(i) <==> #[trigger] target.contains(i) by {
            if target.contains(i) {
                let j = choose|j: int| sel.contains(j) && i == edge_across(f, j);
                assert(face_edges(complement(f)).contains(i));
                assert(edge_across(complement(f), i) == j);
            }
            if r@.contains(i) {
                let j = edge_across(complement(f), i);
                assert(edge_across(f, j) == i);
            }
        }
        assert(r@ =~= target);
    }
    r
}

/// A cell coordinate in the grid.
pub type Index = [usize; 3];

/// The component-wise sum `idx + delta`.
pub fn offset(idx: Index, delta: Index) -> (r: Index)
    requires
        forall|k: int| 0 <= k < 3 ==> idx[k] + delta[k] <= usize::MAX,
    ensures
        forall|k: int| 0 <= k < 3 ==> #[trigger] r[k] == idx[k] + delta[k],
{
    [idx[0] + delta[0], idx[1] + delta[1], idx[2] + delta[2]]
}

/// The component-wise difference `idx - delta`.
pub fn neg_offset(idx: Index, delta: Index) -> (r: Index)
    requires
        forall|k: int| 0 <= k < 3 ==> idx[k] >= delta[k],
    ensures
        forall|k: int| 0 <= k < 3 ==> #[trigger] r[k] == idx[k] - delta[k],
{
    [idx[0] - delta[0], idx[1] - delta[1], idx[2] - delta[2]]
}

/// How far the cell across `face` lies from the current one along `axis`:
/// one step down or up the axis of `face`, nothing along the others.
pub open spec fn axis_step(face: int, axis: int) -> int {
    if axis == face / 2 {
        if face % 2 == 1 {
            1
        } else {
            -1
        }
    } else {
        0
    }
}

/// A vertex index as mathematical values: its edges and its cell coordinate.
pub ghost struct VertexView {
    pub edges: Set<int>,
    pub index: Seq<int>,
}

/// The vertex index `v` as seen from the cell across `face`, or `None` when
/// none of its edges lies on that face.
pub open spec fn neighbor_of(v: VertexView, face: int) -> Option<VertexView> {
    let edges = edges_across(face, v.edges);
    if edges.is_empty() {
        None
    } else {
        Some(VertexView { edges, index: Seq::new(3, |k: int| v.index[k] + axis_step(face, k)) })
    }
}

/// A vertex candidate: the crossings on `edges`, as seen from the cell `index`.
#[derive(Clone, Copy, Debug, Eq, Hash, PartialEq)]
pub struct VertexIndex {
    pub edges: BitSet,
    pub index: Index,
}

impl VertexIndex {
    /// The edges and the cell coordinate as mathematical values.
    pub open spec fn view(&self) -> VertexView {
        VertexView { edges: self.edges@, index: self.index@.map_values(|x: usize| x as int) }
    }

    /// Whether the cell across `face` has a coordinate that fits in `usize`.
    pub open spec fn neighbor_cell_fits(&self, face: int) -> bool {
        forall|k: int| 0 <= k < 3 ==> 0 <= #[trigger] self.index[k] + axis_step(face, k) <= usize::MAX
    }

    /// This vertex index as seen from the cell across `face` (`face < 6`), or
    /// `None` when none of its edges lies on that face.
    pub fn neighbor(&self, face: usize) -> (r: Option<VertexIndex>)
        requires
            face < 6,
            !edges_across(face as int, self.edges@).is_empty() ==> self.neighbor_cell_fits(
                face as int,
            ),
        ensures
            match r {
                Some(n) => neighbor_of(self@, face as int) == Some(n@),
                None => neighbor_of(self@, face as int) is None,
            },
    {
        let neighbor_edge_set = edges_on_neighbor(face, self.edges);
        if neighbor_edge_set.empty() {
            return None;
        }
        let mut off: Index = [0, 0, 0];
        off[face / 2] = 1;
        assert forall|k: int| 0 <= k < 3 implies #[trigger] off[k] == (if k == face / 2 {
            1int
        } else {
            0int
        }) && 0 <= self.index[k] + axis_step(face as int, k) <= usize::MAX by {
            assert(0 <= self.index[k] + axis_step(face as int, k) <= usize::MAX);
        }
        assert((face & 1) == 1 <==> face % 2 == 1) by (bit_vector);
        let neighbor_index = if (face & 1) == 1 {
            offset(self.index, off)
        } else {
            neg_offset(self.index, off)
        };
        let n = VertexIndex { edges: neighbor_edge_set, index: neighbor_index };
        assert(n@.index =~= Seq::new(3, |k: int| self@.index[k] + axis_step(face as int, k)));
        Some(n)
    }
}

/// A reference to a mesh vertex: either a vertex index or a plain index.
#[derive(Clone, Copy, Debug, PartialEq, Eq)]
pub enum VarIndex {
    VertexIndex(VertexIndex),
    Index(usize),
}

/// Edge numbering across `face` is a one-to-one correspondence between the
/// edges on `face` and those on its complement, undone by crossing back.
proof fn lemma_edge_across_pairs(face: int)
    requires
        0 <= face < 6,
    ensures
        forall|j: int|
            #[trigger] face_edges(face).contains(j) ==> face_edges(complement(face)).contains(
                edge_across(face, j),
            ) && edge_across(complement(face), edge_across(face, j)) == j,
        forall|i: int|
            #[trigger] face_edges(complement(face)).contains(i) ==> face_edges(face).contains(
                edge_across(complement(face), i),
            ) && edge_across(face, edge_across(complement(face), i)) == i,
        complement(complement(face)) == face,
        0 <= complement(face) < 6,
{
}

/// Crossing a face whose four edges all belong to `v` always finds a
/// neighbour: it holds exactly the four edges of the complementary face, in
/// the cell one step down (even face) or up (odd face) the face's axis.
pub proof fn lemma_neighbor_across_full_face(v: VertexView, face: int)
    requires
        0 <= face < 6,
        v.index.len() == 3,
        face_edges(face).subset_of(v.edges),
    ensures
        neighbor_of(v, face) == Some(
            VertexView {
                edges: face_edges(complement(face)),
                index: v.index.update(
                    face / 2,
                    v.index[face / 2] + if face % 2 == 1 {
                        1int
                    } else {
                        -1int
                    },
                ),
            },
        ),
{
    lemma_edge_across_pairs(face);
    let c = complement(face);
    let across = edges_across(face, v.edges);
    assert forall|i: int| #[trigger] across.contains(i) <==> face_edges(c).contains(i) by {
        if face_edges(c).contains(i) {
            let j = edge_across(c, i);
            assert(v.edges.intersect(face_edges(face)).contains(j));
        }
    }
    assert(across =~= face_edges(c));
    let j: int = if face == 0 || face == 4 {
        1
    } else if face == 1 {
        4
    } else if face == 2 {
        0
    } else if face == 3 {
        3
    } else {
        6
    };
    assert(face_edges(face).contains(j));
    assert(across.contains(edge_across(face, j)));
    assert(Seq::new(3, |k: int| v.index[k] + axis_step(face, k)) =~= v.index.update(
        face / 2,
        v.index[face / 2] + if face % 2 == 1 {
            1int
        } else {
            -1int
        },
    ));
}

/// Crossing `face` and then crossing back over its complement returns to the
/// starting cell with the edges of `v` that lie on `face`. When all the
/// edges of `v` lie on `face`, the round trip gives back `v` itself.
pub proof fn lemma_neighbor_round_trip(v: VertexView, face: int)
    requires
        0 <= face < 6,
        v.index.len() == 3,
        !v.edges.intersect(face_edges(face)).is_empty(),
    ensures
        neighbor_of(v, face) is Some,
        neighbor_of(neighbor_of(v, face).unwrap(), complement(face)) == Some(
            VertexView { edges: v.edges.intersect(face_edges(face)), index: v.index },
        ),
        v.edges.subset_of(face_edges(face)) ==> neighbor_of(
            neighbor_of(v, face).unwrap(),
            complement(face),
        ) == Some(v),
{
    lemma_edge_across_pairs(face);
    let c = complement(face);
    let sel = v.edges.intersect(face_edges(face));
    let across = edges_across(face, v.edges);
    let j0 = choose|j: int| sel.contains(j);
    assert(across.contains(edge_across(face, j0)));
    let n = neighbor_of(v, face).unwrap();
    assert(n.edges.intersect(face_edges(c)) =~= n.edges);
    let back = edges_across(c, n.edges);
    assert forall|j: int| #[trigger] back.contains(j) <==> sel.contains(j) by {
        if sel.contains(j) {
            assert(n.edges.contains(edge_across(face, j)));
        }
    }
    assert(back =~= sel);
    assert(back.contains(j0));
    assert(Seq::new(3, |k: int| n.index[k] + axis_step(c, k)) =~= v.index);
    if v.edges.subset_of(face_edges(face)) {
        assert(sel =~= v.edges);
    }
}

/// A vertex index none of whose edges lies on `face` has no neighbour across it.
pub proof fn lemma_no_neighbor_off_face(v: VertexView, face: int)
    requires
        0 <= face < 6,
        v.edges.intersect(face_edges(face)).is_empty(),
    ensures
        neighbor_of(v, face) is None,
{
    let across = edges_across(face, v.edges);
    assert forall|i: int| !#[trigger] across.contains(i) by {
        if across.contains(i) {
            let j = choose|j: int| v.edges.intersect(face_edges(face)).contains(j) && i == edge_across(face, j);
            assert(v.edges.intersect(face_edges(face)).contains(j));
        }
    }
    assert(across =~= Set::<int>::empty());
}

/// Each of the twelve edges of a cell lies on exactly two of its six faces.
pub proof fn lemma_each_edge_on_two_faces(e: int)
    requires
        0 <= e < 12,
    ensures
        Set::new(|f: int| 0 <= f < 6 && face_edges(f).contains(e)).len() == 2,
{
    let faces = Set::new(|f: int| 0 <= f < 6 && face_edges(f).contains(e));
    let (a, b) = if e == 0 {
        (2int, 4int)
    } else if e == 1 {
        (0, 4)
    } else if e == 2 {
        (0, 2)
    } else if e == 3 {
        (3, 4)
    } else if e == 4 {
        (1, 4)
    } else if e == 5 {
        (1, 2)
    } else if e == 6 {
        (2, 5)
    } else if e == 7 {
        (0, 5)
    } else if e == 8 {
        (0, 3)
    } else if e == 9 {
        (3, 5)
    } else if e == 10 {
        (1, 5)
    } else {
        (1, 3)
    };
    assert(faces =~= set![a, b]);
    assert(set![a, b].len() == 2);
}

} // verus!
