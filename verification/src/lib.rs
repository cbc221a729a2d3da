//! Verified core of a GPS tracking server: device protocol framing and
//! decoding (GT06, H02, OsmAnd, Teltonika), command encoding, report
//! segmentation and task scheduling decisions.

pub mod buffer;
pub mod text;
pub mod model;
pub mod helper;
pub mod registry;
pub mod codec;
pub mod framing;
pub mod gt06;
pub mod numbers;
pub mod h02;
pub mod json;
pub mod osmand;
pub mod teltonika;
pub mod report;
pub mod schedule;
pub mod broadcast;
