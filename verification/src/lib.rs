//! Apple Music's animated album covers (motion artwork), for a WaveFlow metadata plugin.
//!
//! 1. A catalogue search names the pages of albums that may be the one that was asked for
//!    ([`search`]).
//! 2. The anonymous token of the web player is scraped from its script bundles ([`token`]).
//! 3. The AMP catalogue says, for that token, whether an album has an editorial video
//!    ([`catalogue`]).
//! 4. Its HLS master playlist yields a progressive `.mp4` that plays natively ([`playlist`]).
//!
//! [`album`] puts the steps together. Results (the covers, the fact that there are none, and the
//! token) are kept in the plugin's scratch store ([`cache`]). No module performs input or output:
//! [`host`] describes how a procedure asks for the calls that it needs.

pub mod album;
pub mod cache;
pub mod catalogue;
pub mod chars;
pub mod host;
pub mod http;
pub mod json;
pub mod model;
pub mod names;
pub mod playlist;
pub mod scrape;
pub mod search;
pub mod text;
pub mod token;
pub mod url;
