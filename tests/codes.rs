use feed_parser::base_funcs::NYSEMsg;
use feed_parser::data_types::{
    SSRTExIDMap, SSRTriggeringExchangeID, SecurityTypeMap, SecuryType, T3MarketID, T3MarketIDMap,
};
use feed_parser::mt220::{Tc1, Tc2, Tc3, Tc4};
use feed_parser::mt3::{MarketID, PriceResolution, SecurityType};
use feed_parser::mt34::{HaltCondition, MarketState, SSRState, SSRTexID, SecurityStatus};

#[test]
fn test_get_msg_type() {
    assert_eq!(NYSEMsg::get("3"), NYSEMsg::T003);
    assert_eq!(NYSEMsg::get("34"), NYSEMsg::T034);
    assert_eq!(NYSEMsg::get("220"), NYSEMsg::T220);
    assert_eq!(NYSEMsg::get("0"), NYSEMsg::ERROR);
}

#[test]
fn msg_type_rejects_near_misses() {
    assert_eq!(NYSEMsg::get(""), NYSEMsg::ERROR);
    assert_eq!(NYSEMsg::get("33"), NYSEMsg::ERROR);
    assert_eq!(NYSEMsg::get("2200"), NYSEMsg::ERROR);
    assert_eq!(NYSEMsg::get(" 3"), NYSEMsg::ERROR);
}

#[test]
fn test_get_tc4() {
    assert_eq!(Tc4::get(" "), Tc4::NA);
    assert_eq!(Tc4::get("I"), Tc4::OddLotTrade);
    assert_eq!(Tc4::get("M"), Tc4::OClosePrice);
    assert_eq!(Tc4::get("Q"), Tc4::OOpenPrice);
    assert_eq!(Tc4::get("V"), Tc4::ContTrade);
    assert_eq!(Tc4::get("P"), Tc4::PriorRefPrice);
    assert_eq!(Tc4::get("W"), Tc4::WeightedAvgPrice);
    assert_eq!(Tc4::get("A"), Tc4::Error);
}

#[test]
fn test_tc1() {
    assert_eq!(Tc1::get("@"), Tc1::RegularSale);
    assert_eq!(Tc1::get("C"), Tc1::Cash);
    assert_eq!(Tc1::get("N"), Tc1::NextDayTrade);
    assert_eq!(Tc1::get(" "), Tc1::RegularSaleTRF);
    assert_eq!(Tc1::get("R"), Tc1::Seller);
    assert_eq!(Tc1::get(""), Tc1::Error);
}

#[test]
fn test_tc2() {
    assert_eq!(Tc2::get(" "), Tc2::NA);
    assert_eq!(Tc2::get("F"), Tc2::ISO);
    assert_eq!(Tc2::get("O"), Tc2::MCO);
    assert_eq!(Tc2::get("4"), Tc2::DerivP);
    assert_eq!(Tc2::get("5"), Tc2::ReopeningTrade);
    assert_eq!(Tc2::get("6"), Tc2::MCCT);
    assert_eq!(Tc2::get("7"), Tc2::QCT);
    assert_eq!(Tc2::get("9"), Tc2::CCC);
    assert_eq!(Tc2::get("A"), Tc2::Error);
}

#[test]
fn test_tc3get() {
    assert_eq!(Tc3::get(" "), Tc3::NA);
    assert_eq!(Tc3::get("T"), Tc3::ExtendedHoursTrade);
    assert_eq!(Tc3::get("U"), Tc3::ExtendedHoursSold);
    assert_eq!(Tc3::get("Z"), Tc3::Sold);
    assert_eq!(Tc3::get("A"), Tc3::Error);
}

#[test]
fn condition_codes_of_two_characters_are_invalid() {
    assert_eq!(Tc1::get("@@"), Tc1::Error);
    assert_eq!(Tc2::get("FF"), Tc2::Error);
    assert_eq!(Tc3::get("TT"), Tc3::Error);
    assert_eq!(Tc4::get("MM"), Tc4::Error);
}

#[test]
fn test_market_id() {
    assert_eq!(MarketID::get("1"), MarketID::NYSE);
    assert_eq!(MarketID::get("3"), MarketID::NYSEArcaEq);
    assert_eq!(MarketID::get("4"), MarketID::NYSEArcaOpt);
    assert_eq!(MarketID::get("5"), MarketID::NYSEBonds);
    assert_eq!(MarketID::get("8"), MarketID::NYSEAmexOpt);
    assert_eq!(MarketID::get("9"), MarketID::NYSEAmerEq);
    assert_eq!(MarketID::get("10"), MarketID::NYSENatEq);
    assert_eq!(MarketID::get("11"), MarketID::NYSEChiEq);
    assert_eq!(MarketID::get("12"), MarketID::ERROR);
}

#[test]
fn test_security_type() {
    assert_eq!(SecurityType::get("A"), SecurityType::ADR);
    assert_eq!(SecurityType::get("C"), SecurityType::ComStk);
    assert_eq!(SecurityType::get("D"), SecurityType::Deben);
    assert_eq!(SecurityType::get("E"), SecurityType::ETF);
    assert_eq!(SecurityType::get("F"), SecurityType::Foreign);
    assert_eq!(SecurityType::get("H"), SecurityType::ADShares);
    assert_eq!(SecurityType::get("I"), SecurityType::Units);
    assert_eq!(SecurityType::get("L"), SecurityType::IdxLnkdNotes);
    assert_eq!(SecurityType::get("M"), SecurityType::OtherBlank);
    assert_eq!(SecurityType::get("O"), SecurityType::OrdShrs);
    assert_eq!(SecurityType::get("P"), SecurityType::Pfd);
    assert_eq!(SecurityType::get("R"), SecurityType::Rights);
    assert_eq!(SecurityType::get("S"), SecurityType::SoBenInt);
    assert_eq!(SecurityType::get("T"), SecurityType::Test);
    assert_eq!(SecurityType::get("U"), SecurityType::CEF);
    assert_eq!(SecurityType::get("X"), SecurityType::IdxSec);
    assert_eq!(SecurityType::get("Y"), SecurityType::War);
    assert_eq!(SecurityType::get("Z"), SecurityType::ERROR);
}

#[test]
fn test_price_resolution() {
    assert_eq!(PriceResolution::get("0"), PriceResolution::AllPenny);
    assert_eq!(PriceResolution::get("1"), PriceResolution::PennyNickel);
    assert_eq!(PriceResolution::get("5"), PriceResolution::NickelDime);
    assert_eq!(PriceResolution::get("6"), PriceResolution::ERROR);
}

#[test]
fn test_ssrtexid() {
    assert_eq!(SSRTexID::get("N"), SSRTexID::NYSE);
    assert_eq!(SSRTexID::get("P"), SSRTexID::NYSEArca);
    assert_eq!(SSRTexID::get("C"), SSRTexID::NYSENational);
    assert_eq!(SSRTexID::get("Q"), SSRTexID::NASDAQ);
    assert_eq!(SSRTexID::get("A"), SSRTexID::NYSEAmerican);
    assert_eq!(SSRTexID::get("B"), SSRTexID::NASDAQOMXBX);
    assert_eq!(SSRTexID::get("D"), SSRTexID::FINRA);
    assert_eq!(SSRTexID::get("I"), SSRTexID::ISE);
    assert_eq!(SSRTexID::get("J"), SSRTexID::EDGA);
    assert_eq!(SSRTexID::get("K"), SSRTexID::EDGX);
    assert_eq!(SSRTexID::get("L"), SSRTexID::LTSE);
    assert_eq!(SSRTexID::get("M"), SSRTexID::NYSEChicago);
    assert_eq!(SSRTexID::get("S"), SSRTexID::CTS);
    assert_eq!(SSRTexID::get("T"), SSRTexID::NASDAQOMX);
    assert_eq!(SSRTexID::get("V"), SSRTexID::IEX);
    assert_eq!(SSRTexID::get("W"), SSRTexID::CBSX);
    assert_eq!(SSRTexID::get("X"), SSRTexID::NASDAQOMXPSX);
    assert_eq!(SSRTexID::get("Y"), SSRTexID::CBOEBYX);
    assert_eq!(SSRTexID::get("Z"), SSRTexID::CBOEBZX);
    assert_eq!(SSRTexID::get("F"), SSRTexID::ERROR);
}

#[test]
fn t_security_status() {
    assert_eq!(SecurityStatus::get("4"), SecurityStatus::Halt);
    assert_eq!(SecurityStatus::get("5"), SecurityStatus::Resume);
    assert_eq!(SecurityStatus::get("A"), SecurityStatus::SSRA);
    assert_eq!(SecurityStatus::get("C"), SecurityStatus::SSRC);
    assert_eq!(SecurityStatus::get("C"), SecurityStatus::SSRC);
    assert_eq!(SecurityStatus::get("D"), SecurityStatus::SSRD);
    assert_eq!(SecurityStatus::get("P"), SecurityStatus::PreO);
    assert_eq!(SecurityStatus::get("B"), SecurityStatus::Beg);
    assert_eq!(SecurityStatus::get("E"), SecurityStatus::Early);
    assert_eq!(SecurityStatus::get("O"), SecurityStatus::Core);
    assert_eq!(SecurityStatus::get("L"), SecurityStatus::Late);
    assert_eq!(SecurityStatus::get("X"), SecurityStatus::Closed);
    assert_eq!(SecurityStatus::get("I"), SecurityStatus::PI);
    assert_eq!(SecurityStatus::get("G"), SecurityStatus::PreOPI);
    assert_eq!(SecurityStatus::get("H"), SecurityStatus::ERROR);
}

#[test]
fn t_halt_condition() {
    assert_eq!(HaltCondition::get("~"), HaltCondition::NotDelayed);
    assert_eq!(HaltCondition::get("D"), HaltCondition::NewsRel);
    assert_eq!(HaltCondition::get("I"), HaltCondition::OrdImb);
    assert_eq!(HaltCondition::get("P"), HaltCondition::NewsPend);
    assert_eq!(HaltCondition::get("M"), HaltCondition::LULDPause);
    assert_eq!(HaltCondition::get("X"), HaltCondition::EquipChange);
    assert_eq!(HaltCondition::get("Z"), HaltCondition::NOOpNoRes);
    assert_eq!(HaltCondition::get("A"), HaltCondition::AddlInfReq);
    assert_eq!(HaltCondition::get("C"), HaltCondition::RegCon);
    assert_eq!(HaltCondition::get("E"), HaltCondition::MergE);
    assert_eq!(HaltCondition::get("F"), HaltCondition::ETFMisPr);
    assert_eq!(HaltCondition::get("N"), HaltCondition::CorpA);
    assert_eq!(HaltCondition::get("O"), HaltCondition::NewOff);
    assert_eq!(HaltCondition::get("V"), HaltCondition::NoIntraDay);
    assert_eq!(HaltCondition::get("1"), HaltCondition::HaltL1);
    assert_eq!(HaltCondition::get("2"), HaltCondition::HaltL2);
    assert_eq!(HaltCondition::get("3"), HaltCondition::HaltL3);
    assert_eq!(HaltCondition::get("$"), HaltCondition::ERROR);
}

#[test]
fn t_ssrstate() {
    assert_eq!(SSRState::get("~"), SSRState::NoSSR);
    assert_eq!(SSRState::get("E"), SSRState::SSR);
    assert_eq!(SSRState::get(" "), SSRState::ERROR);
}

#[test]
fn t_market_state() {
    assert_eq!(MarketState::get("P"), MarketState::PreOp);
    assert_eq!(MarketState::get("E"), MarketState::EarlySess);
    assert_eq!(MarketState::get("O"), MarketState::CoreSEss);
    assert_eq!(MarketState::get("L"), MarketState::LateSess);
    assert_eq!(MarketState::get("X"), MarketState::Closed);
    assert_eq!(MarketState::get("A"), MarketState::ERROR);
}

#[test]
fn lookup_tables_hold_their_entries() {
    let m = T3MarketIDMap::new();
    assert_eq!(m.get(1), Some(&T3MarketID::NYSE));
    assert_eq!(m.get(4), Some(&T3MarketID::NYSEArcaOpt));
    assert_eq!(m.get(11), Some(&T3MarketID::NYSEChiEq));
    assert_eq!(m.get(2), None);
    let s = SecurityTypeMap::new();
    assert_eq!(s.get('E'), Some(&SecuryType::ETF));
    assert_eq!(s.get('Y'), Some(&SecuryType::War));
    assert_eq!(s.get('B'), None);
    let x = SSRTExIDMap::new();
    assert_eq!(x.get('Q'), Some(&SSRTriggeringExchangeID::NASDAQ));
    assert_eq!(x.get('F'), None);
}
