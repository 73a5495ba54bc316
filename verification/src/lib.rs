//! Verified core of a LAN file-sharing server: HTTP request parsing and
//! routing, response headers, HTML pages, the registry of shares, sites and
//! receive cards, the rules for uploads, ports and settings, the access
//! history, and the book kept of public tunnels.
pub mod config;
pub mod html;
pub mod http;
pub mod order;
pub mod paths;
pub mod receive;
pub mod serve;
pub mod sharing;
pub mod state;
pub mod storage;
pub mod text;
pub mod tunnel;
