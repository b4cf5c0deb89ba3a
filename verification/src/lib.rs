pub mod chat;
pub mod chunked;
pub mod connection;
pub mod json;
pub mod numeral;
pub mod request;
pub mod response;
pub mod text;
pub mod url;
