//! Codes of the security status message (type 34).
use vstd::prelude::*;
use crate::text::single_char;

verus! {

/// The exchange that triggered a short sale restriction.
#[derive(Debug, Clone, Copy, PartialEq, Eq, Structural)]
pub enum SSRTexID {
    /// NYSE.
    NYSE,
    /// NYSE Arca.
    NYSEArca,
    /// NYSE National.
    NYSENational,
    /// NASDAQ.
    NASDAQ,
    /// NYSE American.
    NYSEAmerican,
    /// NASDAQ OMX BX.
    NASDAQOMXBX,
    /// FINRA.
    FINRA,
    /// ISE.
    ISE,
    /// EDGA.
    EDGA,
    /// EDGX.
    EDGX,
    /// LTSE.
    LTSE,
    /// NYSE Chicago.
    NYSEChicago,
    /// CTS.
    CTS,
    /// NASDAQ OMX.
    NASDAQOMX,
    /// IEX.
    IEX,
    /// CBSX.
    CBSX,
    /// NASDAQ OMX PSX.
    NASDAQOMXPSX,
    /// CBOE BYX.
    CBOEBYX,
    /// CBOE BZX.
    CBOEBZX,
    /// Any other code.
    ERROR,
}

/// The SSRTexID that a code denotes.
pub open spec fn ssr_texid_of(s: Seq<char>) -> SSRTexID {
    if s.len() == 1 {
        match s[0] {
            'N' => SSRTexID::NYSE,
            'P' => SSRTexID::NYSEArca,
            'C' => SSRTexID::NYSENational,
            'Q' => SSRTexID::NASDAQ,
            'A' => SSRTexID::NYSEAmerican,
            'B' => SSRTexID::NASDAQOMXBX,
            'D' => SSRTexID::FINRA,
            'I' => SSRTexID::ISE,
            'J' => SSRTexID::EDGA,
            'K' => SSRTexID::EDGX,
            'L' => SSRTexID::LTSE,
            'M' => SSRTexID::NYSEChicago,
            'S' => SSRTexID::CTS,
            'T' => SSRTexID::NASDAQOMX,
            'V' => SSRTexID::IEX,
            'W' => SSRTexID::CBSX,
            'X' => SSRTexID::NASDAQOMXPSX,
            'Y' => SSRTexID::CBOEBYX,
            'Z' => SSRTexID::CBOEBZX,
            _ => SSRTexID::ERROR,
        }
    } else {
        SSRTexID::ERROR
    }
}

impl SSRTexID {
    /// Decodes one code; an unknown code gives the catch-all variant.
    pub fn get(inp: &str) -> (r: SSRTexID)
        ensures
            r == ssr_texid_of(inp@),
    {
        match single_char(inp) {
            Some(c) => match c {
                'N' => SSRTexID::NYSE,
                'P' => SSRTexID::NYSEArca,
                'C' => SSRTexID::NYSENational,
                'Q' => SSRTexID::NASDAQ,
                'A' => SSRTexID::NYSEAmerican,
                'B' => SSRTexID::NASDAQOMXBX,
                'D' => SSRTexID::FINRA,
                'I' => SSRTexID::ISE,
                'J' => SSRTexID::EDGA,
                'K' => SSRTexID::EDGX,
                'L' => SSRTexID::LTSE,
                'M' => SSRTexID::NYSEChicago,
                'S' => SSRTexID::CTS,
                'T' => SSRTexID::NASDAQOMX,
                'V' => SSRTexID::IEX,
                'W' => SSRTexID::CBSX,
                'X' => SSRTexID::NASDAQOMXPSX,
                'Y' => SSRTexID::CBOEBYX,
                'Z' => SSRTexID::CBOEBZX,
                _ => SSRTexID::ERROR,
            },
            None => SSRTexID::ERROR,
        }
    }
}

/// The status a security status message announces.
#[derive(Debug, Clone, Copy, PartialEq, Eq, Structural)]
pub enum SecurityStatus {
    /// Trading halt.
    Halt,
    /// Resume.
    Resume,
    /// Short sale restriction activated (day 1).
    SSRA,
    /// Short sale restriction continued (day 2).
    SSRC,
    /// Short sale restriction deactivated.
    SSRD,
    /// Pre-opening.
    PreO,
    /// Begin accepting orders.
    Beg,
    /// Early session.
    Early,
    /// Core session.
    Core,
    /// Late session.
    Late,
    /// Closed.
    Closed,
    /// Price indication.
    PI,
    /// Pre-opening price indication.
    PreOPI,
    /// Any other code.
    ERROR,
}

/// The SecurityStatus that a code denotes.
pub open spec fn security_status_of(s: Seq<char>) -> SecurityStatus {
    if s.len() == 1 {
        match s[0] {
            '4' => SecurityStatus::Halt,
            '5' => SecurityStatus::Resume,
            'A' => SecurityStatus::SSRA,
            'C' => SecurityStatus::SSRC,
            'D' => SecurityStatus::SSRD,
            'P' => SecurityStatus::PreO,
            'B' => SecurityStatus::Beg,
            'E' => SecurityStatus::Early,
            'O' => SecurityStatus::Core,
            'L' => SecurityStatus::Late,
            'X' => SecurityStatus::Closed,
            'I' => SecurityStatus::PI,
            'G' => SecurityStatus::PreOPI,
            _ => SecurityStatus::ERROR,
        }
    } else {
        SecurityStatus::ERROR
    }
}

impl SecurityStatus {
    /// Decodes one code; an unknown code gives the catch-all variant.
    pub fn get(inp: &str) -> (r: SecurityStatus)
        ensures
            r == security_status_of(inp@),
    {
        match single_char(inp) {
            Some(c) => match c {
                '4' => SecurityStatus::Halt,
                '5' => SecurityStatus::Resume,
                'A' => SecurityStatus::SSRA,
                'C' => SecurityStatus::SSRC,
                'D' => SecurityStatus::SSRD,
                'P' => SecurityStatus::PreO,
                'B' => SecurityStatus::Beg,
                'E' => SecurityStatus::Early,
                'O' => SecurityStatus::Core,
                'L' => SecurityStatus::Late,
                'X' => SecurityStatus::Closed,
                'I' => SecurityStatus::PI,
                'G' => SecurityStatus::PreOPI,
                _ => SecurityStatus::ERROR,
            },
            None => SecurityStatus::ERROR,
        }
    }
}

/// Why a security is halted or delayed.
#[derive(Debug, Clone, Copy, PartialEq, Eq, Structural)]
pub enum HaltCondition {
    /// Security not delayed or halted.
    NotDelayed,
    /// News released.
    NewsRel,
    /// Order imbalance.
    OrdImb,
    /// News pending.
    NewsPend,
    /// LULD pause.
    LULDPause,
    /// Equipment changeover.
    EquipChange,
    /// No open, no resume.
    NOOpNoRes,
    /// Additional information requested.
    AddlInfReq,
    /// Regulatory concern.
    RegCon,
    /// Merger effective.
    MergE,
    /// ETF component prices not available.
    ETFMisPr,
    /// Corporate action.
    CorpA,
    /// New security offering.
    NewOff,
    /// Intraday indicative value not available.
    NoIntraDay,
    /// Market wide circuit breaker halt, level 1.
    HaltL1,
    /// Market wide circuit breaker halt, level 2.
    HaltL2,
    /// Market wide circuit breaker halt, level 3.
    HaltL3,
    /// Any other code.
    ERROR,
}

/// The HaltCondition that a code denotes.
pub open spec fn halt_condition_of(s: Seq<char>) -> HaltCondition {
    if s.len() == 1 {
        match s[0] {
            '~' => HaltCondition::NotDelayed,
            'D' => HaltCondition::NewsRel,
            'I' => HaltCondition::OrdImb,
            'P' => HaltCondition::NewsPend,
            'M' => HaltCondition::LULDPause,
            'X' => HaltCondition::EquipChange,
            'Z' => HaltCondition::NOOpNoRes,
            'A' => HaltCondition::AddlInfReq,
            'C' => HaltCondition::RegCon,
            'E' => HaltCondition::MergE,
            'F' => HaltCondition::ETFMisPr,
            'N' => HaltCondition::CorpA,
            'O' => HaltCondition::NewOff,
            'V' => HaltCondition::NoIntraDay,
            '1' => HaltCondition::HaltL1,
            '2' => HaltCondition::HaltL2,
            '3' => HaltCondition::HaltL3,
            _ => HaltCondition::ERROR,
        }
    } else {
        HaltCondition::ERROR
    }
}

impl HaltCondition {
    /// Decodes one code; an unknown code gives the catch-all variant.
    pub fn get(inp: &str) -> (r: HaltCondition)
        ensures
            r == halt_condition_of(inp@),
    {
        match single_char(inp) {
            Some(c) => match c {
                '~' => HaltCondition::NotDelayed,
                'D' => HaltCondition::NewsRel,
                'I' => HaltCondition::OrdImb,
                'P' => HaltCondition::NewsPend,
                'M' => HaltCondition::LULDPause,
                'X' => HaltCondition::EquipChange,
                'Z' => HaltCondition::NOOpNoRes,
                'A' => HaltCondition::AddlInfReq,
                'C' => HaltCondition::RegCon,
                'E' => HaltCondition::MergE,
                'F' => HaltCondition::ETFMisPr,
                'N' => HaltCondition::CorpA,
                'O' => HaltCondition::NewOff,
                'V' => HaltCondition::NoIntraDay,
                '1' => HaltCondition::HaltL1,
                '2' => HaltCondition::HaltL2,
                '3' => HaltCondition::HaltL3,
                _ => HaltCondition::ERROR,
            },
            None => HaltCondition::ERROR,
        }
    }
}

/// Whether a short sale restriction is in effect.
#[derive(Debug, Clone, Copy, PartialEq, Eq, Structural)]
pub enum SSRState {
    /// No short sale restriction in effect.
    NoSSR,
    /// Short sale restriction in effect.
    SSR,
    /// Any other code.
    ERROR,
}

/// The SSRState that a code denotes.
pub open spec fn ssr_state_of(s: Seq<char>) -> SSRState {
    if s.len() == 1 {
        match s[0] {
            '~' => SSRState::NoSSR,
            'E' => SSRState::SSR,
            _ => SSRState::ERROR,
        }
    } else {
        SSRState::ERROR
    }
}

impl SSRState {
    /// Decodes one code; an unknown code gives the catch-all variant.
    pub fn get(inp: &str) -> (r: SSRState)
        ensures
            r == ssr_state_of(inp@),
    {
        match single_char(inp) {
            Some(c) => match c {
                '~' => SSRState::NoSSR,
                'E' => SSRState::SSR,
                _ => SSRState::ERROR,
            },
            None => SSRState::ERROR,
        }
    }
}

/// The session a market is in.
#[derive(Debug, Clone, Copy, PartialEq, Eq, Structural)]
pub enum MarketState {
    /// Pre-opening.
    PreOp,
    /// Early session.
    EarlySess,
    /// Core session.
    CoreSEss,
    /// Late session (non-NYSE only).
    LateSess,
    /// Closed.
    Closed,
    /// Any other code.
    ERROR,
}

/// The MarketState that a code denotes.
pub open spec fn market_state_of(s: Seq<char>) -> MarketState {
    if s.len() == 1 {
        match s[0] {
            'P' => MarketState::PreOp,
            'E' => MarketState::EarlySess,
            'O' => MarketState::CoreSEss,
            'L' => MarketState::LateSess,
            'X' => MarketState::Closed,
            _ => MarketState::ERROR,
        }
    } else {
        MarketState::ERROR
    }
}

impl MarketState {
    /// Decodes one code; an unknown code gives the catch-all variant.
    pub fn get(inp: &str) -> (r: MarketState)
        ensures
            r == market_state_of(inp@),
    {
        match single_char(inp) {
            Some(c) => match c {
                'P' => MarketState::PreOp,
                'E' => MarketState::EarlySess,
                'O' => MarketState::CoreSEss,
                'L' => MarketState::LateSess,
                'X' => MarketState::Closed,
                _ => MarketState::ERROR,
            },
            None => MarketState::ERROR,
        }
    }
}

} // verus!
