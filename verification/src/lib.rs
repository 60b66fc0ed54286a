//! Verified core of a headless-browsing, crawling and content-extraction toolkit.

pub mod deadline;
pub mod text;
pub mod budget;
pub mod dedup;
pub mod lru;
pub mod clock;
pub mod cookie_cache;
pub mod content_detect;
pub mod noise_text;
pub mod llm;
pub mod response;
pub mod cloudflare;
pub mod error;
pub mod content;
pub mod robots;
pub mod markdown;
pub mod save;
pub mod session;
pub mod form;
pub mod chrome;
pub mod browser_pool;
pub mod snapshot;
pub mod frontier;
pub mod crawl;
pub mod page;
pub mod fingerprint;
pub mod urls;
pub mod scope;
pub mod json;
pub mod body_cap;
pub mod transport;
pub mod sitemap;
pub mod discovery;
pub mod html_doc;
pub mod extraction;
pub mod recovery;
