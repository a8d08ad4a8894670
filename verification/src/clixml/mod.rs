//! CLIXML: the XML serialization PowerShell uses for objects on the wire.

pub mod value;
pub mod view;
pub mod xml;
pub mod scalars;
pub mod decode;
pub mod escape;
pub mod base64;
pub mod guid;
pub mod encode;
pub mod pipeline_xml;
pub mod roundtrip;
pub mod normalize;
pub mod document_roundtrip;
pub mod nested_roundtrip;
pub mod ref_ids;
pub mod float_text;
