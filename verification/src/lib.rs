use vstd::prelude::*;

pub mod agent;
pub mod chunk;
pub mod codec;
pub mod config;
pub mod dto;
pub mod ip;
pub mod pending;
pub mod protocol;
pub mod registry;
pub mod socks5;
pub mod sse;
pub mod ssrf;
pub mod table;
pub mod text;

verus! {

} // verus!
