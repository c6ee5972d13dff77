//! Bond perception for small molecules.
//!
//! Given the elements and the positions of a set of atoms, the crate decides
//! which pairs of atoms are bonded and hands back the molecular graph: the
//! atoms as nodes, the bonds as undirected edges. Atoms come as values, as
//! records of a symbol and a position, or as the text of an XYZ coordinate
//! file.
//!
//! Lengths are whole numbers of micro-ångströms, so every distance
//! comparison is exact and every contract is stated over mathematical
//! integers.
//!
//! - `elements`: the element table
//! - `position`, `scalar`, `traits`: points and the arithmetic on lengths
//! - `atom`, `bond`: the nodes and edges
//! - `perception`: which atoms propose a bond to which
//! - `molecule`: the graph
//! - `text`, `xyz`: the grammar of coordinate files

pub mod atom;
pub mod bond;
pub mod elements;
pub mod molecule;
pub mod perception;
pub mod position;
pub mod scalar;
pub mod text;
pub mod traits;
pub mod xyz;
