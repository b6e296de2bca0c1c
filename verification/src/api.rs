pub mod api_types;
pub mod api_util;
pub mod api_session;
