//! Decoding of fixed-layout market-data feed messages into records, and
//! schema-driven extraction of typed field values from their payloads.

pub mod krx_msg;
pub mod payload_parser;
pub mod range_helper;
pub mod render;
pub mod text;
