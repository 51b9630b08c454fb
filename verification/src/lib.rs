//! Server scanner core: classification of legacy CS:GO servers, the A2S_INFO
//! wire format, address text, favourites, geo batches and the table view.

pub mod model;
pub mod text;
pub mod addr;
pub mod ordered;
pub mod addrset;
pub mod favourites;
pub mod blocklist;
pub mod classify;
pub mod mode;
pub mod sort;
pub mod scan;
pub mod a2s;
pub mod master;
pub mod geo;
pub mod source;
pub mod table;
pub mod tui;
