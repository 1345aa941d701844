//! Codes of the symbol index mapping message (type 3).
use vstd::prelude::*;
use crate::text::{single_char, str_eq};

verus! {

/// The market a symbol is listed on.
#[derive(Debug, Clone, Copy, PartialEq, Eq, Structural)]
pub enum MarketID {
    /// NYSE.
    NYSE,
    /// NYSE Arca equities.
    NYSEArcaEq,
    /// NYSE Arca options.
    NYSEArcaOpt,
    /// NYSE Bonds.
    NYSEBonds,
    /// NYSE Amex options.
    NYSEAmexOpt,
    /// NYSE American equities.
    NYSEAmerEq,
    /// NYSE National equities.
    NYSENatEq,
    /// NYSE Chicago equities.
    NYSEChiEq,
    /// Any other code.
    ERROR,
}

/// The MarketID that a code denotes.
pub open spec fn market_id_of(s: Seq<char>) -> MarketID {
    if s == seq!['1', '0'] {
        MarketID::NYSENatEq
    } else if s == seq!['1', '1'] {
        MarketID::NYSEChiEq
    } else if s.len() == 1 {
        match s[0] {
            '1' => MarketID::NYSE,
            '3' => MarketID::NYSEArcaEq,
            '4' => MarketID::NYSEArcaOpt,
            '5' => MarketID::NYSEBonds,
            '8' => MarketID::NYSEAmexOpt,
            '9' => MarketID::NYSEAmerEq,
            _ => MarketID::ERROR,
        }
    } else {
        MarketID::ERROR
    }
}

impl MarketID {
    /// Decodes one code; an unknown code gives the catch-all variant.
    pub fn get(inp: &str) -> (r: MarketID)
        ensures
            r == market_id_of(inp@),
    {
        proof {
            reveal_strlit("10");
        }
        assert("10"@ =~= seq!['1', '0']);
        if str_eq(inp, "10") {
            return MarketID::NYSENatEq;
        }
        assert(inp@ != seq!['1', '0']);
        proof {
            reveal_strlit("11");
        }
        assert("11"@ =~= seq!['1', '1']);
        if str_eq(inp, "11") {
            return MarketID::NYSEChiEq;
        }
        assert(inp@ != seq!['1', '1']);
        match single_char(inp) {
            Some(c) => match c {
                '1' => MarketID::NYSE,
                '3' => MarketID::NYSEArcaEq,
                '4' => MarketID::NYSEArcaOpt,
                '5' => MarketID::NYSEBonds,
                '8' => MarketID::NYSEAmexOpt,
                '9' => MarketID::NYSEAmerEq,
                _ => MarketID::ERROR,
            },
            None => MarketID::ERROR,
        }
    }
}

/// The kind of security a symbol denotes.
#[derive(Debug, Clone, Copy, PartialEq, Eq, Structural)]
pub enum SecurityType {
    /// ADR.
    ADR,
    /// Common stock.
    ComStk,
    /// Debentures.
    Deben,
    /// ETF.
    ETF,
    /// Foreign.
    Foreign,
    /// American depositary shares.
    ADShares,
    /// Units.
    Units,
    /// Index linked notes.
    IdxLnkdNotes,
    /// Miscellaneous, other or blank.
    OtherBlank,
    /// Ordinary shares.
    OrdShrs,
    /// Preferred stock.
    Pfd,
    /// Rights.
    Rights,
    /// Shares of beneficial interest.
    SoBenInt,
    /// Test.
    Test,
    /// Closed-end fund.
    CEF,
    /// Index.
    IdxSec,
    /// Warrant.
    War,
    /// Any other code.
    ERROR,
}

/// The SecurityType that a code denotes.
pub open spec fn security_type_of(s: Seq<char>) -> SecurityType {
    if s.len() == 1 {
        match s[0] {
            'A' => SecurityType::ADR,
            'C' => SecurityType::ComStk,
            'D' => SecurityType::Deben,
            'E' => SecurityType::ETF,
            'F' => SecurityType::Foreign,
            'H' => SecurityType::ADShares,
            'I' => SecurityType::Units,
            'L' => SecurityType::IdxLnkdNotes,
            'M' => SecurityType::OtherBlank,
            'O' => SecurityType::OrdShrs,
            'P' => SecurityType::Pfd,
            'R' => SecurityType::Rights,
            'S' => SecurityType::SoBenInt,
            'T' => SecurityType::Test,
            'U' => SecurityType::CEF,
            'X' => SecurityType::IdxSec,
            'Y' => SecurityType::War,
            _ => SecurityType::ERROR,
        }
    } else {
        SecurityType::ERROR
    }
}

impl SecurityType {
    /// Decodes one code; an unknown code gives the catch-all variant.
    pub fn get(inp: &str) -> (r: SecurityType)
        ensures
            r == security_type_of(inp@),
    {
        match single_char(inp) {
            Some(c) => match c {
                'A' => SecurityType::ADR,
                'C' => SecurityType::ComStk,
                'D' => SecurityType::Deben,
                'E' => SecurityType::ETF,
                'F' => SecurityType::Foreign,
                'H' => SecurityType::ADShares,
                'I' => SecurityType::Units,
                'L' => SecurityType::IdxLnkdNotes,
                'M' => SecurityType::OtherBlank,
                'O' => SecurityType::OrdShrs,
                'P' => SecurityType::Pfd,
                'R' => SecurityType::Rights,
                'S' => SecurityType::SoBenInt,
                'T' => SecurityType::Test,
                'U' => SecurityType::CEF,
                'X' => SecurityType::IdxSec,
                'Y' => SecurityType::War,
                _ => SecurityType::ERROR,
            },
            None => SecurityType::ERROR,
        }
    }
}

/// The price increments a symbol trades in.
#[derive(Debug, Clone, Copy, PartialEq, Eq, Structural)]
pub enum PriceResolution {
    /// All penny.
    AllPenny,
    /// Penny and nickel.
    PennyNickel,
    /// Nickel and dime.
    NickelDime,
    /// Any other code.
    ERROR,
}

/// The PriceResolution that a code denotes.
pub open spec fn price_resolution_of(s: Seq<char>) -> PriceResolution {
    if s.len() == 1 {
        match s[0] {
            '0' => PriceResolution::AllPenny,
            '1' => PriceResolution::PennyNickel,
            '5' => PriceResolution::NickelDime,
            _ => PriceResolution::ERROR,
        }
    } else {
        PriceResolution::ERROR
    }
}

impl PriceResolution {
    /// Decodes one code; an unknown code gives the catch-all variant.
    pub fn get(inp: &str) -> (r: PriceResolution)
        ensures
            r == price_resolution_of(inp@),
    {
        match single_char(inp) {
            Some(c) => match c {
                '0' => PriceResolution::AllPenny,
                '1' => PriceResolution::PennyNickel,
                '5' => PriceResolution::NickelDime,
                _ => PriceResolution::ERROR,
            },
            None => PriceResolution::ERROR,
        }
    }
}

} // verus!
