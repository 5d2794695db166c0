//! Verified planning, caching and layout logic of the RockNPU runtime.

pub mod arith;
pub mod bytes;
pub mod capi;
pub mod compare;
pub mod context;
pub mod conv;
pub mod conv_layout;
pub mod conv_run;
pub mod conv_tiles;
pub mod counters;
pub mod decode_m1;
pub mod decode_w4;
pub mod fwht;
pub mod groups;
pub mod int4;
pub mod ir;
pub mod join;
pub mod keys;
pub mod linear;
pub mod mtile;
pub mod pieces;
pub mod plan;
pub mod prefill;
pub mod profile;
pub mod quant;
pub mod route;
pub mod runtime;
pub mod samples;
pub mod settings;
pub mod split;
pub mod status;
pub mod table;
pub mod text;
pub mod trace;
pub mod tuning;
pub mod uapi;
