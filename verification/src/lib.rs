//! Slip: floating markdown notes. The verified core of the note store, the
//! window placement rules and the text handling they share.

pub mod geom;
pub mod text;
pub mod paths;
pub mod notes;
pub mod store;
pub mod search;
pub mod json;
pub mod desktop;
pub mod theme;
pub mod laws;
