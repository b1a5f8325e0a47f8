//! Conversion of timestamped overlay ("danmaku") comments into a subtitle
//! track: wire decoding (XML or protobuf), parsing of the parameter string
//! embedded in scripted comments, normalization and filtering, collision-free
//! lane allocation, and exact rendering of the output events.

pub mod comment;
pub mod error;
pub mod lane;
pub mod normalize;
pub mod pipeline;
pub mod proto;
pub mod special;
pub mod text;
pub mod writer;
pub mod xml;
