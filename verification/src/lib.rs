//! Verified core of a self-hosted reading platform: sentence splitting,
//! chunking and bilingual rendering of text, EPUB and OPML parsing, feed
//! parsing, upload-name sanitising and HTML post-processing.

pub mod chars;
pub mod sentence;
pub mod chunk;
pub mod bilingual;
pub mod search;
pub mod proxy;
pub mod upload;
pub mod ui;
pub mod xml;
pub mod archive;
pub mod epub;
pub mod opml;
pub mod feed;
pub mod content;
pub mod config;
pub mod http_error;
pub mod routes;
