//! The crawler: URLs, pages, robots rules, sitemaps and the crawl run.

pub mod canonical;
pub mod driver;
pub mod error;
pub mod fetcher;
pub mod html;
pub mod page;
pub mod parser;
pub mod robots;
pub mod scheduler;
pub mod sitemap;
pub mod url_class;
pub mod url_parts;
