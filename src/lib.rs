pub mod text;
pub mod fence;
pub mod virtual_doc;
pub mod position;
pub mod json;
pub mod request_mapper;
pub mod references;
pub mod uri_helpers;
pub mod logging;
pub mod config;
pub mod server;
pub mod transport;
pub mod protocol;
