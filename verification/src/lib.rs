//! Core logic of a concurrent, depth-unbounded recursive web crawler:
//! URL normalization, the visited-set admission gate, link classification,
//! fetch-task decisions, sink-record framing, listing-row scraping, and a
//! driver that drains the dynamically discovered task graph.

pub mod classify;
pub mod driver;
pub mod identity;
pub mod page;
pub mod record;
pub mod scrape;
pub mod task;
pub mod visited;
