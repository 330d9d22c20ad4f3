//! Japanese technical-writing lint rules and their supporting text model.
pub mod ast;
pub mod files;
pub mod json;
pub mod morph;
pub mod net;
pub mod pdk;
pub mod plugins;
pub mod regex;
pub mod registry;
pub mod rules;
pub mod text;
pub mod util;
pub mod wasm;
