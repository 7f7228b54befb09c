//! Resolution of localization resources over prioritized source collections.
//!
//! A registry owns groups of sources ("metasources"). A resolution pass walks
//! the groups from the highest priority to the lowest for each requested
//! locale and plans which source supplies which resource of a bundle.
pub mod text;
pub mod errors;
pub mod source;
pub mod metasources;
pub mod store_laws;
pub mod bundle;
pub mod registry;
pub mod registry_laws;
pub mod generate;
pub mod generate_laws;
