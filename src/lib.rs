//! Decoding of GoldSrc level and texture-archive data, and construction of
//! indexed geometry from a decoded level.
use vstd::prelude::*;

pub mod bytes;
pub mod archive;
pub mod texture;
pub mod level;
pub mod geometry;


verus! {

/// The decoding error of the goldsrc-rs parsers, carried through unread.
#[verifier::external_type_specification]
#[verifier::external_body]
pub struct ExParsingError(goldsrc_rs::error::ParsingError);

} // verus!
