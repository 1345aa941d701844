//! Fixed lookup tables for fields of the symbol index mapping and security
//! status messages, keyed by their numeric or character codes.
use vstd::prelude::*;
use std::collections::HashMap;

verus! {

/// The market a symbol is listed on.
#[derive(Debug, Clone, Copy, PartialEq, Eq, Structural)]
pub enum T3MarketID {
    /// NYSE.
    NYSE,
    /// NYSE Arca equities.
    NYSEArcaEq,
    /// NYSE Arca options.
    NYSEArcaOpt,
    /// NYSE Bonds.
    NYSEBonds,
    /// NYSE Amex options.
    NYSEAmexOpt,
    /// NYSE American equities.
    NYSEAmerEq,
    /// NYSE National equities.
    NYSENatEq,
    /// NYSE Chicago equities.
    NYSEChiEq,
}

/// The entry of the T3MarketIDMap table for a key.
pub open spec fn t3_market_id_entry(key: i32) -> Option<T3MarketID> {
    match key {
        1 => Some(T3MarketID::NYSE),
        3 => Some(T3MarketID::NYSEArcaEq),
        4 => Some(T3MarketID::NYSEArcaOpt),
        5 => Some(T3MarketID::NYSEBonds),
        8 => Some(T3MarketID::NYSEAmexOpt),
        9 => Some(T3MarketID::NYSEAmerEq),
        10 => Some(T3MarketID::NYSENatEq),
        11 => Some(T3MarketID::NYSEChiEq),
        _ => None,
    }
}

/// Market id by numeric code.
pub struct T3MarketIDMap {
    map: HashMap<i32, T3MarketID>,
}

impl T3MarketIDMap {
    /// The table holds exactly its fixed entries.
    pub closed spec fn wf(&self) -> bool {
        forall|k: i32| #[trigger] t3_market_id_entry(k) == if self.map@.contains_key(k) {
            Some(self.map@[k])
        } else {
            None::<T3MarketID>
        }
    }

    pub fn new() -> (r: Self)
        ensures
            r.wf(),
    {
        broadcast use vstd::std_specs::hash::group_hash_axioms;

        let mut map = HashMap::new();
        map.insert(1, T3MarketID::NYSE);
        map.insert(3, T3MarketID::NYSEArcaEq);
        map.insert(4, T3MarketID::NYSEArcaOpt);
        map.insert(5, T3MarketID::NYSEBonds);
        map.insert(8, T3MarketID::NYSEAmexOpt);
        map.insert(9, T3MarketID::NYSEAmerEq);
        map.insert(10, T3MarketID::NYSENatEq);
        map.insert(11, T3MarketID::NYSEChiEq);
        let r = Self { map };
        assert forall|k: i32| #[trigger] t3_market_id_entry(k) == if r.map@.contains_key(k) {
            Some(r.map@[k])
        } else {
            None::<T3MarketID>
        } by {}
        r
    }

    /// The entry for `key`, if the table has one.
    pub fn get(&self, key: i32) -> (r: Option<&T3MarketID>)
        requires
            self.wf(),
        ensures
            match r {
                Some(v) => t3_market_id_entry(key) == Some(*v),
                None => t3_market_id_entry(key) is None,
            },
    {
        broadcast use vstd::std_specs::hash::group_hash_axioms;

        assert(t3_market_id_entry(key) == if self.map@.contains_key(key) {
            Some(self.map@[key])
        } else {
            None::<T3MarketID>
        });
        self.map.get(&key)
    }
}

/// The kind of security a symbol denotes.
#[derive(Debug, Clone, Copy, PartialEq, Eq, Structural)]
pub enum SecuryType {
    /// ADR.
    ADR,
    /// Common stock.
    ComStk,
    /// Debentures.
    Deben,
    /// ETF.
    ETF,
    /// Foreign.
    Foreign,
    /// American depositary shares.
    ADShares,
    /// Units.
    Units,
    /// Index linked notes.
    IdxLnkdNotes,
    /// Miscellaneous, other or blank.
    OtherBlank,
    /// Ordinary shares.
    OrdShrs,
    /// Preferred stock.
    Pfd,
    /// Rights.
    Rights,
    /// Shares of beneficial interest.
    SoBenInt,
    /// Test.
    Test,
    /// Closed-end fund.
    CEF,
    /// Index.
    IdxSec,
    /// Warrant.
    War,
}

/// The entry of the SecurityTypeMap table for a character code.
pub open spec fn security_type_entry(code: u32) -> Option<SecuryType> {
    if code == 'A' as u32 {
        Some(SecuryType::ADR)
    } else if code == 'C' as u32 {
        Some(SecuryType::ComStk)
    } else if code == 'D' as u32 {
        Some(SecuryType::Deben)
    } else if code == 'E' as u32 {
        Some(SecuryType::ETF)
    } else if code == 'F' as u32 {
        Some(SecuryType::Foreign)
    } else if code == 'H' as u32 {
        Some(SecuryType::ADShares)
    } else if code == 'I' as u32 {
        Some(SecuryType::Units)
    } else if code == 'L' as u32 {
        Some(SecuryType::IdxLnkdNotes)
    } else if code == 'M' as u32 {
        Some(SecuryType::OtherBlank)
    } else if code == 'O' as u32 {
        Some(SecuryType::OrdShrs)
    } else if code == 'P' as u32 {
        Some(SecuryType::Pfd)
    } else if code == 'R' as u32 {
        Some(SecuryType::Rights)
    } else if code == 'S' as u32 {
        Some(SecuryType::SoBenInt)
    } else if code == 'T' as u32 {
        Some(SecuryType::Test)
    } else if code == 'U' as u32 {
        Some(SecuryType::CEF)
    } else if code == 'X' as u32 {
        Some(SecuryType::IdxSec)
    } else if code == 'Y' as u32 {
        Some(SecuryType::War)
    } else {
        None
    }
}

/// Security type by character code.
pub struct SecurityTypeMap {
    map: HashMap<u32, SecuryType>,
}

impl SecurityTypeMap {
    /// The table holds exactly its fixed entries.
    pub closed spec fn wf(&self) -> bool {
        forall|k: u32| #[trigger] security_type_entry(k) == if self.map@.contains_key(k) {
            Some(self.map@[k])
        } else {
            None::<SecuryType>
        }
    }

    pub fn new() -> (r: Self)
        ensures
            r.wf(),
    {
        broadcast use vstd::std_specs::hash::group_hash_axioms;

        let mut map = HashMap::new();
        map.insert('A' as u32, SecuryType::ADR);
        map.insert('C' as u32, SecuryType::ComStk);
        map.insert('D' as u32, SecuryType::Deben);
        map.insert('E' as u32, SecuryType::ETF);
        map.insert('F' as u32, SecuryType::Foreign);
        map.insert('H' as u32, SecuryType::ADShares);
        map.insert('I' as u32, SecuryType::Units);
        map.insert('L' as u32, SecuryType::IdxLnkdNotes);
        map.insert('M' as u32, SecuryType::OtherBlank);
        map.insert('O' as u32, SecuryType::OrdShrs);
        map.insert('P' as u32, SecuryType::Pfd);
        map.insert('R' as u32, SecuryType::Rights);
        map.insert('S' as u32, SecuryType::SoBenInt);
        map.insert('T' as u32, SecuryType::Test);
        map.insert('U' as u32, SecuryType::CEF);
        map.insert('X' as u32, SecuryType::IdxSec);
        map.insert('Y' as u32, SecuryType::War);
        let r = Self { map };
        assert forall|k: u32| #[trigger] security_type_entry(k) == if r.map@.contains_key(k) {
            Some(r.map@[k])
        } else {
            None::<SecuryType>
        } by {}
        r
    }

    /// The entry for `key`, if the table has one.
    pub fn get(&self, key: char) -> (r: Option<&SecuryType>)
        requires
            self.wf(),
        ensures
            match r {
                Some(v) => security_type_entry(key as u32) == Some(*v),
                None => security_type_entry(key as u32) is None,
            },
    {
        broadcast use vstd::std_specs::hash::group_hash_axioms;

        assert(security_type_entry(key as u32) == if self.map@.contains_key(key as u32) {
            Some(self.map@[key as u32])
        } else {
            None::<SecuryType>
        });
        self.map.get(&(key as u32))
    }
}

/// The exchange that triggered a short sale restriction.
#[derive(Debug, Clone, Copy, PartialEq, Eq, Structural)]
pub enum SSRTriggeringExchangeID {
    /// NYSE.
    NYSE,
    /// NYSE Arca.
    NYSEArca,
    /// NYSE National.
    NYSENational,
    /// NASDAQ.
    NASDAQ,
    /// NYSE American.
    NYSEAmerican,
    /// NASDAQ OMX BX.
    NASDAQOMXBX,
    /// FINRA.
    FINRA,
    /// ISE.
    ISE,
    /// EDGA.
    EDGA,
    /// EDGX.
    EDGX,
    /// LTSE.
    LTSE,
    /// NYSE Chicago.
    NYSEChicago,
    /// CTS.
    CTS,
    /// NASDAQ OMX.
    NASDAQOMX,
    /// IEX.
    IEX,
    /// CBSX.
    CBSX,
    /// NASDAQ OMX PSX.
    NASDAQOMXPSX,
    /// CBOE BYX.
    CBOEBYX,
    /// CBOE BZX.
    CBOEBZX,
}

/// The entry of the SSRTExIDMap table for a character code.
pub open spec fn ssr_exchange_entry(code: u32) -> Option<SSRTriggeringExchangeID> {
    if code == 'N' as u32 {
        Some(SSRTriggeringExchangeID::NYSE)
    } else if code == 'P' as u32 {
        Some(SSRTriggeringExchangeID::NYSEArca)
    } else if code == 'C' as u32 {
        Some(SSRTriggeringExchangeID::NYSENational)
    } else if code == 'Q' as u32 {
        Some(SSRTriggeringExchangeID::NASDAQ)
    } else if code == 'A' as u32 {
        Some(SSRTriggeringExchangeID::NYSEAmerican)
    } else if code == 'B' as u32 {
        Some(SSRTriggeringExchangeID::NASDAQOMXBX)
    } else if code == 'D' as u32 {
        Some(SSRTriggeringExchangeID::FINRA)
    } else if code == 'I' as u32 {
        Some(SSRTriggeringExchangeID::ISE)
    } else if code == 'J' as u32 {
        Some(SSRTriggeringExchangeID::EDGA)
    } else if code == 'K' as u32 {
        Some(SSRTriggeringExchangeID::EDGX)
    } else if code == 'L' as u32 {
        Some(SSRTriggeringExchangeID::LTSE)
    } else if code == 'M' as u32 {
        Some(SSRTriggeringExchangeID::NYSEChicago)
    } else if code == 'S' as u32 {
        Some(SSRTriggeringExchangeID::CTS)
    } else if code == 'T' as u32 {
        Some(SSRTriggeringExchangeID::NASDAQOMX)
    } else if code == 'V' as u32 {
        Some(SSRTriggeringExchangeID::IEX)
    } else if code == 'W' as u32 {
        Some(SSRTriggeringExchangeID::CBSX)
    } else if code == 'X' as u32 {
        Some(SSRTriggeringExchangeID::NASDAQOMXPSX)
    } else if code == 'Y' as u32 {
        Some(SSRTriggeringExchangeID::CBOEBYX)
    } else if code == 'Z' as u32 {
        Some(SSRTriggeringExchangeID::CBOEBZX)
    } else {
        None
    }
}

/// Short-sale-restriction triggering exchange by character code.
pub struct SSRTExIDMap {
    map: HashMap<u32, SSRTriggeringExchangeID>,
}

impl SSRTExIDMap {
    /// The table holds exactly its fixed entries.
    pub closed spec fn wf(&self) -> bool {
        forall|k: u32| #[trigger] ssr_exchange_entry(k) == if self.map@.contains_key(k) {
            Some(self.map@[k])
        } else {
            None::<SSRTriggeringExchangeID>
        }
    }

    pub fn new() -> (r: Self)
        ensures
            r.wf(),
    {
        broadcast use vstd::std_specs::hash::group_hash_axioms;

        let mut map = HashMap::new();
        map.insert('N' as u32, SSRTriggeringExchangeID::NYSE);
        map.insert('P' as u32, SSRTriggeringExchangeID::NYSEArca);
        map.insert('C' as u32, SSRTriggeringExchangeID::NYSENational);
        map.insert('Q' as u32, SSRTriggeringExchangeID::NASDAQ);
        map.insert('A' as u32, SSRTriggeringExchangeID::NYSEAmerican);
        map.insert('B' as u32, SSRTriggeringExchangeID::NASDAQOMXBX);
        map.insert('D' as u32, SSRTriggeringExchangeID::FINRA);
        map.insert('I' as u32, SSRTriggeringExchangeID::ISE);
        map.insert('J' as u32, SSRTriggeringExchangeID::EDGA);
        map.insert('K' as u32, SSRTriggeringExchangeID::EDGX);
        map.insert('L' as u32, SSRTriggeringExchangeID::LTSE);
        map.insert('M' as u32, SSRTriggeringExchangeID::NYSEChicago);
        map.insert('S' as u32, SSRTriggeringExchangeID::CTS);
        map.insert('T' as u32, SSRTriggeringExchangeID::NASDAQOMX);
        map.insert('V' as u32, SSRTriggeringExchangeID::IEX);
        map.insert('W' as u32, SSRTriggeringExchangeID::CBSX);
        map.insert('X' as u32, SSRTriggeringExchangeID::NASDAQOMXPSX);
        map.insert('Y' as u32, SSRTriggeringExchangeID::CBOEBYX);
        map.insert('Z' as u32, SSRTriggeringExchangeID::CBOEBZX);
        let r = Self { map };
        assert forall|k: u32| #[trigger] ssr_exchange_entry(k) == if r.map@.contains_key(k) {
            Some(r.map@[k])
        } else {
            None::<SSRTriggeringExchangeID>
        } by {}
        r
    }

    /// The entry for `key`, if the table has one.
    pub fn get(&self, key: char) -> (r: Option<&SSRTriggeringExchangeID>)
        requires
            self.wf(),
        ensures
            match r {
                Some(v) => ssr_exchange_entry(key as u32) == Some(*v),
                None => ssr_exchange_entry(key as u32) is None,
            },
    {
        broadcast use vstd::std_specs::hash::group_hash_axioms;

        assert(ssr_exchange_entry(key as u32) == if self.map@.contains_key(key as u32) {
            Some(self.map@[key as u32])
        } else {
            None::<SSRTriggeringExchangeID>
        });
        self.map.get(&(key as u32))
    }
}

} // verus!
