//! The trade message (type 220) and its four condition-code fields.
use vstd::prelude::*;
use crate::error::{FeedError, TradeField};
use crate::event_structs::{parse_price, price_is_valid};
use crate::text::{i32_text_value, parse_i32, single_char, views_of};

verus! {

/// Sale condition, first field.
#[derive(Debug, Clone, Copy, PartialEq, Eq, Hash, Structural)]
pub enum Tc1 {
    /// Regular sale (Arca, American, National, Chicago and NYSE).
    RegularSale,
    /// Cash (TRF or Chicago only).
    Cash,
    /// Next day trade (TRF or Chicago only).
    NextDayTrade,
    /// Regular sale (TRF only).
    RegularSaleTRF,
    /// Seller (TRF only).
    Seller,
    /// Any other code.
    Error,
}

/// The Tc1 that a code denotes.
pub open spec fn tc1_of(s: Seq<char>) -> Tc1 {
    if s.len() == 1 {
        match s[0] {
            '@' => Tc1::RegularSale,
            'C' => Tc1::Cash,
            'N' => Tc1::NextDayTrade,
            ' ' => Tc1::RegularSaleTRF,
            'R' => Tc1::Seller,
            _ => Tc1::Error,
        }
    } else {
        Tc1::Error
    }
}

impl Tc1 {
    /// Decodes one code; an unknown code gives the catch-all variant.
    pub fn get(inp: &str) -> (r: Tc1)
        ensures
            r == tc1_of(inp@),
    {
        match single_char(inp) {
            Some(c) => match c {
                '@' => Tc1::RegularSale,
                'C' => Tc1::Cash,
                'N' => Tc1::NextDayTrade,
                ' ' => Tc1::RegularSaleTRF,
                'R' => Tc1::Seller,
                _ => Tc1::Error,
            },
            None => Tc1::Error,
        }
    }
}

/// Sale condition, second field.
#[derive(Debug, Clone, Copy, PartialEq, Eq, Hash, Structural)]
pub enum Tc2 {
    /// Not applicable.
    NA,
    /// Intermarket sweep order.
    ISO,
    /// Market center opening trade.
    MCO,
    /// Derivatively priced (TRF only).
    DerivP,
    /// Reopening trade.
    ReopeningTrade,
    /// Market center closing trade.
    MCCT,
    /// Qualified contingent trade (TRF or Chicago only).
    QCT,
    /// Corrected consolidated close.
    CCC,
    /// Any other code.
    Error,
}

/// The Tc2 that a code denotes.
pub open spec fn tc2_of(s: Seq<char>) -> Tc2 {
    if s.len() == 1 {
        match s[0] {
            ' ' => Tc2::NA,
            'F' => Tc2::ISO,
            'O' => Tc2::MCO,
            '4' => Tc2::DerivP,
            '5' => Tc2::ReopeningTrade,
            '6' => Tc2::MCCT,
            '7' => Tc2::QCT,
            '9' => Tc2::CCC,
            _ => Tc2::Error,
        }
    } else {
        Tc2::Error
    }
}

impl Tc2 {
    /// Decodes one code; an unknown code gives the catch-all variant.
    pub fn get(inp: &str) -> (r: Tc2)
        ensures
            r == tc2_of(inp@),
    {
        match single_char(inp) {
            Some(c) => match c {
                ' ' => Tc2::NA,
                'F' => Tc2::ISO,
                'O' => Tc2::MCO,
                '4' => Tc2::DerivP,
                '5' => Tc2::ReopeningTrade,
                '6' => Tc2::MCCT,
                '7' => Tc2::QCT,
                '9' => Tc2::CCC,
                _ => Tc2::Error,
            },
            None => Tc2::Error,
        }
    }
}

/// Sale condition, third field.
#[derive(Debug, Clone, Copy, PartialEq, Eq, Hash, Structural)]
pub enum Tc3 {
    /// Not applicable.
    NA,
    /// Extended hours trade.
    ExtendedHoursTrade,
    /// Extended hours sold (out of sequence).
    ExtendedHoursSold,
    /// Sold.
    Sold,
    /// Any other code.
    Error,
}

/// The Tc3 that a code denotes.
pub open spec fn tc3_of(s: Seq<char>) -> Tc3 {
    if s.len() == 1 {
        match s[0] {
            ' ' => Tc3::NA,
            'T' => Tc3::ExtendedHoursTrade,
            'U' => Tc3::ExtendedHoursSold,
            'Z' => Tc3::Sold,
            _ => Tc3::Error,
        }
    } else {
        Tc3::Error
    }
}

impl Tc3 {
    /// Decodes one code; an unknown code gives the catch-all variant.
    pub fn get(inp: &str) -> (r: Tc3)
        ensures
            r == tc3_of(inp@),
    {
        match single_char(inp) {
            Some(c) => match c {
                ' ' => Tc3::NA,
                'T' => Tc3::ExtendedHoursTrade,
                'U' => Tc3::ExtendedHoursSold,
                'Z' => Tc3::Sold,
                _ => Tc3::Error,
            },
            None => Tc3::Error,
        }
    }
}

/// Sale condition, fourth field.
#[derive(Debug, Clone, Copy, PartialEq, Eq, Hash, Structural)]
pub enum Tc4 {
    /// Not applicable.
    NA,
    /// Odd lot trade.
    OddLotTrade,
    /// Official closing price.
    OClosePrice,
    /// Official open price.
    OOpenPrice,
    /// Contingent trade.
    ContTrade,
    /// Prior reference price (TRF or Chicago only).
    PriorRefPrice,
    /// Weighted average price (TRF only).
    WeightedAvgPrice,
    /// Any other code.
    Error,
}

/// The Tc4 that a code denotes.
pub open spec fn tc4_of(s: Seq<char>) -> Tc4 {
    if s.len() == 1 {
        match s[0] {
            ' ' => Tc4::NA,
            'I' => Tc4::OddLotTrade,
            'M' => Tc4::OClosePrice,
            'Q' => Tc4::OOpenPrice,
            'V' => Tc4::ContTrade,
            'P' => Tc4::PriorRefPrice,
            'W' => Tc4::WeightedAvgPrice,
            _ => Tc4::Error,
        }
    } else {
        Tc4::Error
    }
}

impl Tc4 {
    /// Decodes one code; an unknown code gives the catch-all variant.
    pub fn get(inp: &str) -> (r: Tc4)
        ensures
            r == tc4_of(inp@),
    {
        match single_char(inp) {
            Some(c) => match c {
                ' ' => Tc4::NA,
                'I' => Tc4::OddLotTrade,
                'M' => Tc4::OClosePrice,
                'Q' => Tc4::OOpenPrice,
                'V' => Tc4::ContTrade,
                'P' => Tc4::PriorRefPrice,
                'W' => Tc4::WeightedAvgPrice,
                _ => Tc4::Error,
            },
            None => Tc4::Error,
        }
    }
}


/// A decoded trade message.
#[derive(Debug, Clone, PartialEq, Hash)]
pub struct T220 {
    pub msg_type: u8,
    pub seq_num: i32,
    /// Source time as it came, `HH:MM:SS.nnnnnnnnn`.
    pub source_time: String,
    pub symbol: String,
    pub symbol_seq_num: i32,
    pub trade_id: i32,
    /// Price as it came; it is decoded when the trade is aggregated.
    pub price: String,
    pub volume: i32,
    pub trade_cond1: Tc1,
    pub trade_cond2: Tc2,
    pub trade_cond3: Tc3,
    pub trade_cond4: Tc4,
}

/// Number of tokens in a trade line.
pub const T220_TOKENS: usize = 12;

/// The error that decoding a tokenized trade line reports, if any: too few
/// tokens, else the first numeric field (in line order) that does not parse;
/// the price must be a decimal that `price_is_valid` accepts.
pub open spec fn trade_error(toks: Seq<Seq<char>>) -> Option<FeedError> {
    if toks.len() < T220_TOKENS {
        Some(FeedError::FieldCountError)
    } else if i32_text_value(toks[1]) is None {
        Some(FeedError::FieldParseError(TradeField::SeqNum))
    } else if i32_text_value(toks[4]) is None {
        Some(FeedError::FieldParseError(TradeField::SymbolSeqNum))
    } else if i32_text_value(toks[5]) is None {
        Some(FeedError::FieldParseError(TradeField::TradeId))
    } else if !price_is_valid(toks[6]) {
        Some(FeedError::FieldParseError(TradeField::Price))
    } else if i32_text_value(toks[7]) is None {
        Some(FeedError::FieldParseError(TradeField::Volume))
    } else {
        None
    }
}

/// Whether the exclusion rule drops a trade from aggregation: official open
/// or close prints, and market-center opening or closing trades.
pub open spec fn is_excluded_spec(c2: Tc2, c4: Tc4) -> bool {
    c4 == Tc4::OOpenPrice || c4 == Tc4::OClosePrice || c2 == Tc2::MCCT || c2 == Tc2::MCO
}

impl T220 {
    /// Whether the record holds, field by field, what the tokens say.
    pub open spec fn decoded_from(&self, toks: Seq<Seq<char>>) -> bool {
        &&& self.msg_type == 220
        &&& Some(self.seq_num) == i32_text_value(toks[1])
        &&& self.source_time@ == toks[2]
        &&& self.symbol@ == toks[3]
        &&& Some(self.symbol_seq_num) == i32_text_value(toks[4])
        &&& Some(self.trade_id) == i32_text_value(toks[5])
        &&& self.price@ == toks[6]
        &&& Some(self.volume) == i32_text_value(toks[7])
        &&& self.trade_cond1 == tc1_of(toks[8])
        &&& self.trade_cond2 == tc2_of(toks[9])
        &&& self.trade_cond3 == tc3_of(toks[10])
        &&& self.trade_cond4 == tc4_of(toks[11])
    }

    /// Decodes the tokens of a trade line, positionally.
    pub fn new(inp: Vec<String>) -> (r: Result<Self, FeedError>)
        ensures
            match r {
                Ok(t) => trade_error(views_of(inp@)) is None && t.decoded_from(views_of(inp@)),
                Err(e) => trade_error(views_of(inp@)) == Some(e),
            },
    {
        let ghost toks = views_of(inp@);
        if inp.len() < T220_TOKENS {
            return Err(FeedError::FieldCountError);
        }
        assert(forall|i: int| 0 <= i < inp@.len() ==> toks[i] == #[trigger] inp@[i]@);
        let seq_num = match parse_i32(inp[1].as_str()) {
            Some(v) => v,
            None => {
                return Err(FeedError::FieldParseError(TradeField::SeqNum));
            },
        };
        let symbol_seq_num = match parse_i32(inp[4].as_str()) {
            Some(v) => v,
            None => {
                return Err(FeedError::FieldParseError(TradeField::SymbolSeqNum));
            },
        };
        let trade_id = match parse_i32(inp[5].as_str()) {
            Some(v) => v,
            None => {
                return Err(FeedError::FieldParseError(TradeField::TradeId));
            },
        };
        if parse_price(inp[6].as_str()).is_none() {
            return Err(FeedError::FieldParseError(TradeField::Price));
        }
        let volume = match parse_i32(inp[7].as_str()) {
            Some(v) => v,
            None => {
                return Err(FeedError::FieldParseError(TradeField::Volume));
            },
        };
        Ok(T220 {
            msg_type: 220,
            seq_num,
            source_time: inp[2].clone(),
            symbol: inp[3].clone(),
            symbol_seq_num,
            trade_id,
            price: inp[6].clone(),
            volume,
            trade_cond1: Tc1::get(inp[8].as_str()),
            trade_cond2: Tc2::get(inp[9].as_str()),
            trade_cond3: Tc3::get(inp[10].as_str()),
            trade_cond4: Tc4::get(inp[11].as_str()),
        })
    }

    /// Whether the exclusion rule drops this trade from aggregation.
    pub fn is_excluded(&self) -> (r: bool)
        ensures
            r == is_excluded_spec(self.trade_cond2, self.trade_cond4),
    {
        self.trade_cond4 == Tc4::OOpenPrice || self.trade_cond4 == Tc4::OClosePrice
            || self.trade_cond2 == Tc2::MCCT || self.trade_cond2 == Tc2::MCO
    }
}

} // verus!
