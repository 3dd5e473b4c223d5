//! Verified core of the homework manager: naming, file-link, provider and
//! module-manifest rules, and the text model they are stated over.
pub mod text;
pub mod ai;
pub mod db;
pub mod assignment_import;
pub mod files;
pub mod modules;
pub mod order;
