//! Reconstruction of long molecules from barcoded reads mapped onto an
//! assembly graph.
//!
//! Reads that share a barcode and map close to each other on one contig
//! form a premolecule (`parse_info`; `order` shows that the order of the
//! reads does not matter). Premolecules of one barcode that lie
//! within reach of each other along the assembly graph (`assembly`,
//! `distance`) are joined by an edge (`premolecule`), the graph may be
//! thinned out, and its connected parts are the molecules (`molecule`).
//! `overlap` builds the graph over barcodes whose premolecules overlap,
//! `work` turns records into tables, and `file` recognises compressed
//! input.
//!
//! The graphs are kept by `petgraph`; `contig_graph`, `bond_graph` and
//! `text` hold the operations of `petgraph` and of the standard library
//! whose contracts are stated and not proved.

pub mod assembly;
pub mod bond_graph;
pub mod contig_graph;
pub mod distance;
pub mod file;
pub mod groups;
pub mod molecule;
pub mod order;
pub mod overlap;
pub mod pair_index;
pub mod parse_info;
pub mod premolecule;
pub mod premolecule_graph;
pub mod text;
pub mod work;
