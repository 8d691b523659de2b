pub mod text;
pub mod css;
pub mod escape;
pub mod random;
pub mod quotes;
pub mod cyberhtml;
pub mod config;
pub mod page_reads;
