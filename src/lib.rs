//! Vertex indexing for cell-based isosurface extraction: which edges of a
//! cell carry a vertex, and how that vertex is named from a face-adjacent cell.
pub mod bitset;
pub mod vertex_index;
