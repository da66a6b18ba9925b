//! Selection, links and highlights of a run of inline text.
pub mod call_laws;
pub mod drag_laws;
pub mod geometry;
pub mod geometry_laws;
pub mod inline;
pub mod laws;
pub mod layout;
pub mod layout_laws;
pub mod length;
pub mod paint_laws;
pub mod place_laws;
pub mod row_laws;
pub mod run_laws;
pub mod scan;
pub mod scan_laws;
pub mod selection;
pub mod text;
pub mod view_laws;
