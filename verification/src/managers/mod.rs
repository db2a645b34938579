pub mod assoc;
pub mod database_manager;
pub mod error;
pub mod json;
pub mod json_text;
pub mod registry_laws;
pub mod service_manager;
pub mod session_manager;
pub mod store_laws;
pub mod text;
