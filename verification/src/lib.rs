//! Verified core of a PDF to Markdown converter.
pub mod auth;
pub mod cache;
pub mod cli;
pub mod hash;
pub mod pdf;
pub mod provider;
pub mod text;
pub mod utils;
pub mod pdf_render;
pub mod converter;
