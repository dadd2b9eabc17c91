use vstd::prelude::*;

use crate::lighting::{Frame, Rgb};

verus! {

/// Why a frame could not be turned into device reports.
#[derive(Debug, Clone, Copy, PartialEq, Eq, Structural)]
pub enum CodecError {
    /// The frame holds no LED at all.
    EmptyFrame,
    /// The frame needs more pages than a one-byte page index can number.
    TooManyPages { page_count: usize },
    /// A data page was handed a number of LEDs that it cannot carry.
    PageLength { index: u8, got: usize },
    /// The commit page was handed LED data.
    CommitNotEmpty,
}

/// Turns a frame into the reports that a device expects, in sending order.
pub trait ProtocolCodec {
    /// The reports that `encode_frame` returns for a frame with these pixels.
    spec fn spec_encode(&self, pixels: Seq<Rgb>) -> Result<Seq<Seq<u8>>, CodecError>;

    fn encode_frame(&self, frame: &Frame) -> (reports: Result<Vec<Vec<u8>>, CodecError>)
        ensures
            match reports {
                Ok(reports) => self.spec_encode(frame@) == Ok::<Seq<Seq<u8>>, CodecError>(
                    reports@.map_values(|r: Vec<u8>| r@),
                ),
                Err(e) => self.spec_encode(frame@) == Err::<Seq<Seq<u8>>, CodecError>(e),
            },
    ;
}

} // verus!
