//! The errors that decoding and aggregation report.
use vstd::prelude::*;

verus! {

/// A numeric field of a trade message.
#[derive(Debug, Clone, Copy, PartialEq, Eq, Structural)]
pub enum TradeField {
    SeqNum,
    SymbolSeqNum,
    TradeId,
    Price,
    Volume,
}

/// Why a line or an update was refused.
#[derive(Debug, Clone, Copy, PartialEq, Eq, Structural)]
pub enum FeedError {
    /// A timestamp does not split into three colon-separated numeric parts.
    MalformedTime,
    /// A line has fewer tokens than its message type requires.
    FieldCountError,
    /// A numeric field does not parse.
    FieldParseError(TradeField),
    /// A trade names a symbol that no index mapping registered.
    UnknownSymbol,
    /// The leading token names no known message type.
    UnknownMessageType,
}

} // verus!
