use vertex_index::bitset::BitSet;
use vertex_index::vertex_index::{
    edges_on_face, edges_on_face_table, edges_on_neighbor, neg_offset, offset, VarIndex,
    VertexIndex,
};

#[test]
fn neighbor() {
    let edges_on_face_table = edges_on_face_table();
    let v = VertexIndex {
        edges: BitSet(0xfff),
        index: [17, 35, 8],
    };
    for dim in 0..3 {
        let i = dim * 2;
        let mut expected_index = v.index;
        expected_index[dim] -= 1;
        assert_eq!(v.neighbor(i).unwrap().index, expected_index);
        assert_eq!(v.neighbor(i).unwrap().edges, edges_on_face_table[i + 1]);
    }
    for dim in 0..3 {
        let i = dim * 2 + 1;
        let mut expected_index = v.index;
        expected_index[dim] += 1;
        assert_eq!(v.neighbor(i).unwrap().index, expected_index);
        assert_eq!(v.neighbor(i).unwrap().edges, edges_on_face_table[i - 1]);
    }
}

#[test]
fn face_table_raw_bits() {
    assert_eq!(edges_on_face(0).as_u32(), 0b1_1000_0110);
    assert_eq!(edges_on_face(1).as_u32(), 0b1100_0011_0000);
    assert_eq!(edges_on_face(2).as_u32(), 0b110_0101);
    assert_eq!(edges_on_face(3).as_u32(), 0b1011_0000_1000);
    assert_eq!(edges_on_face(4).as_u32(), 0b1_1011);
    assert_eq!(edges_on_face(5).as_u32(), 0b110_1100_0000);
    let table = edges_on_face_table();
    for f in 0..6 {
        assert_eq!(table[f], edges_on_face(f));
    }
}

#[test]
fn each_edge_on_two_faces() {
    let table = edges_on_face_table();
    for e in 0..12u32 {
        let single = BitSet(1 << e);
        let count = table.iter().filter(|f| !f.intersect(single).empty()).count();
        assert_eq!(count, 2, "edge {}", e);
    }
}

#[test]
fn bitset_operations() {
    let s = BitSet::from_4bits(0, 3, 3, 31);
    assert_eq!(s.as_u32(), 0x8000_0009);
    let t = BitSet::from_4bits(3, 4, 5, 31);
    assert_eq!(s.intersect(t), BitSet(0x8000_0008));
    assert!(!s.empty());
    assert!(BitSet(0).empty());
    assert!(BitSet::from_4bits(1, 2, 7, 8).intersect(BitSet::from_4bits(0, 3, 4, 5)).empty());
}

#[test]
fn offsets() {
    assert_eq!(offset([17, 35, 8], [1, 0, 2]), [18, 35, 10]);
    assert_eq!(neg_offset([17, 35, 8], [1, 0, 2]), [16, 35, 6]);
    assert_eq!(neg_offset([0, 5, 1], [0, 5, 1]), [0, 0, 0]);
    assert_eq!(offset([usize::MAX - 1, 0, 0], [1, 0, 0]), [usize::MAX, 0, 0]);
}

#[test]
fn edge_translation_per_face() {
    let all = BitSet(0xfff);
    for f in 0..6 {
        let partner = if f % 2 == 0 { f + 1 } else { f - 1 };
        assert_eq!(edges_on_neighbor(f, all), edges_on_face(partner));
    }
    // single edges, one per face
    assert_eq!(edges_on_neighbor(0, BitSet(1 << 7)), BitSet(1 << 10));
    assert_eq!(edges_on_neighbor(1, BitSet(1 << 11)), BitSet(1 << 8));
    assert_eq!(edges_on_neighbor(2, BitSet(1 << 2)), BitSet(1 << 8));
    assert_eq!(edges_on_neighbor(2, BitSet(1 << 6)), BitSet(1 << 9));
    assert_eq!(edges_on_neighbor(3, BitSet(1 << 11)), BitSet(1 << 5));
    assert_eq!(edges_on_neighbor(3, BitSet(1 << 3)), BitSet(1 << 0));
    assert_eq!(edges_on_neighbor(4, BitSet(1 << 4)), BitSet(1 << 10));
    assert_eq!(edges_on_neighbor(5, BitSet(1 << 9)), BitSet(1 << 3));
    // edges off the face are dropped
    assert_eq!(edges_on_neighbor(0, BitSet(0b1001)), BitSet(0));
    assert_eq!(edges_on_neighbor(5, BitSet(1 << 6 | 1 << 0)), BitSet(1 << 0));
}

#[test]
fn neighbor_across_each_full_face() {
    for f in 0..6 {
        let partner = if f % 2 == 0 { f + 1 } else { f - 1 };
        let v = VertexIndex {
            edges: edges_on_face(f),
            index: [4, 9, 2],
        };
        let n = v.neighbor(f).unwrap();
        let mut expected = [4, 9, 2];
        if f % 2 == 1 {
            expected[f / 2] += 1;
        } else {
            expected[f / 2] -= 1;
        }
        assert_eq!(n.index, expected);
        assert_eq!(n.edges, edges_on_face(partner));
    }
}

#[test]
fn neighbor_round_trip() {
    for f in 0..6 {
        let partner = if f % 2 == 0 { f + 1 } else { f - 1 };
        let v = VertexIndex {
            edges: edges_on_face(f),
            index: [1, 1, 1],
        };
        assert_eq!(v.neighbor(f).unwrap().neighbor(partner), Some(v));
        let full = VertexIndex {
            edges: BitSet(0xfff),
            index: [1, 1, 1],
        };
        let back = full.neighbor(f).unwrap().neighbor(partner).unwrap();
        assert_eq!(back.index, full.index);
        assert_eq!(back.edges, edges_on_face(f));
    }
}

#[test]
fn no_neighbor_off_face() {
    let v = VertexIndex {
        edges: BitSet::from_4bits(4, 5, 10, 11),
        index: [0, 0, 0],
    };
    assert_eq!(v.neighbor(0), None);
    let none = VertexIndex {
        edges: BitSet(0),
        index: [3, 3, 3],
    };
    for f in 0..6 {
        assert_eq!(none.neighbor(f), None);
    }
}

#[test]
fn var_index_variants() {
    let v = VertexIndex {
        edges: BitSet(0b11),
        index: [1, 2, 3],
    };
    let a = VarIndex::VertexIndex(v);
    let b = VarIndex::Index(7);
    assert_eq!(a, VarIndex::VertexIndex(v));
    assert_ne!(a, b);
    assert!(matches!(b, VarIndex::Index(7)));
}
