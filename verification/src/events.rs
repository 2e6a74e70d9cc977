//! Event standards: which token standard an event log belongs to.

use vstd::prelude::*;

verus! {

/// The event families the enrichment indexers decode.
#[derive(Clone, Copy, Debug, PartialEq, Eq, Structural)]
pub enum Event {
    Nep141,
    Nep171,
    Aurora,
    RainbowBridge,
    Skyward,
    TknNear,
    Wentokensir,
    WrapNear,
}

/// The standard label recorded for an event family: fungible tokens
/// following the NEP-141 standard, non-fungible tokens following NEP-171,
/// and the legacy fungible-token contracts decoded before NEP-141 existed.
pub open spec fn spec_standard(event_type: Event) -> Seq<char> {
    match event_type {
        Event::Nep141 => "FT_NEP141"@,
        Event::Nep171 => "NFT_NEP171"@,
        _ => "FT_LEGACY"@,
    }
}

/// The standard label an event of this family is persisted under.
pub fn get_standard(event_type: &Event) -> (r: String)
    ensures
        r@ == spec_standard(*event_type),
{
    match event_type {
        Event::Nep141 => String::from_str("FT_NEP141"),
        Event::Nep171 => String::from_str("NFT_NEP171"),
        _ => String::from_str("FT_LEGACY"),
    }
}

} // verus!
