//! Exporting notes: resolving note references, and the options and results
//! of rendering and site generation.

pub mod html;
pub mod links;
pub mod page;
pub mod site;
pub mod site_plan;
pub mod template;
pub mod theme;
