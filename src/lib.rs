//! A DNS sinkhole library: parsing of DNS queries, synthesis of negative
//! responses, and suffix matching of domains against an approximate
//! membership filter of denied names.

pub mod codec;
pub mod filter;
pub mod matcher;
pub mod dispatch;
pub mod denylist;
