//! Collects archived URLs for a domain, drops static assets by extension and
//! rewrites every query parameter's value to a placeholder.
pub mod text;
pub mod weburl;
pub mod unique;
pub mod url_clean;
pub mod http;
pub mod cli;
pub mod app;
