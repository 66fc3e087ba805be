//! Structural core of a life cycle assessment tool: labelled sparse
//! matrices built from triplets, the technology and intervention matrices of
//! an EcoSpold inventory, the EF 3.1 characterization layout, the search
//! queries, and the database manifest. Values and arithmetic on them are left
//! to the caller, which receives for each value the slot it belongs to.
pub mod labels;
pub mod sparse;
pub mod impacts;
pub mod ecospold;
pub mod ids;
pub mod search;
pub mod read_only;
pub mod registry;
