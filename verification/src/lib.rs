use vstd::prelude::*;

pub mod crawling;
pub mod engine;
pub mod fetching;
pub mod parsing;

pub use crawling::Coordinator;
pub use crawling::Crawler;
pub use crawling::crawl;
pub use crawling::idle_worker_exits;
pub use engine::Page;
pub use engine::SiteGraph;
pub use engine::crawl_graph;
pub use engine::probe_graph;
pub use fetching::UrlState;
pub use crawling::DEFAULT_WORKERS;
pub use fetching::FetchEvent;
pub use fetching::classify;
pub use fetching::should_expand;
pub use fetching::url_status;
pub use fetching::probe;
pub use fetching::fetch_url;
pub use fetching::fetch_all_urls;
pub use fetching::is_in_domain;
pub use parsing::get_urls;

verus! {

} // verus!
