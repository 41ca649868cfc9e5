pub mod abi;
pub mod abi_exec;
pub mod addresses;
pub mod book;
pub mod classify;
pub mod decoder;
pub mod laws;
pub mod numeric;
pub mod pipeline;
pub mod report;
pub mod registry;
pub mod roundtrip;
