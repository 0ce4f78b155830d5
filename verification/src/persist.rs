//! The rules of the persistence adapter: which key a slot is stored under, and
//! what a load yields when the durable store has nothing usable.

use vstd::prelude::*;

verus! {

/// The values that are mirrored into the durable store.
#[derive(Clone, Copy, Debug, PartialEq, Eq, Structural)]
pub enum Slot {
    /// The table of currency rates, as structured text.
    Currencies,
    /// The price nearby, as decimal text.
    PriceNearby,
    /// The price far away, as decimal text.
    PriceFar,
    /// The currency code used nearby.
    CurrencyNearby,
    /// The currency code used far away.
    CurrencyFar,
}

/// The key under which each slot is stored.
pub open spec fn key_of(slot: Slot) -> Seq<char> {
    match slot {
        Slot::Currencies => "currencies"@,
        Slot::PriceNearby => "price_nearby"@,
        Slot::PriceFar => "price_far"@,
        Slot::CurrencyNearby => "currency_nearby"@,
        Slot::CurrencyFar => "currency_far"@,
    }
}

/// The key under which `slot` is stored.
pub fn store_key(slot: Slot) -> (key: &'static str)
    ensures
        key@ == key_of(slot),
{
    match slot {
        Slot::Currencies => "currencies",
        Slot::PriceNearby => "price_nearby",
        Slot::PriceFar => "price_far",
        Slot::CurrencyNearby => "currency_nearby",
        Slot::CurrencyFar => "currency_far",
    }
}

/// Where a loaded value came from.
#[derive(Clone, Copy, Debug, PartialEq, Eq, Structural)]
pub enum Origin {
    /// The store held the key and its text decoded.
    Stored,
    /// The store was unreachable, lacked the key, or held text that did not decode.
    Fallback,
}

/// The text to use for a key: what the store returned for it, or `default`
/// where the store was unreachable or does not hold the key.
pub fn load_text(stored: Option<String>, default: String) -> (text: String)
    ensures
        text == (match stored {
            Some(s) => s,
            None => default,
        }),
{
    match stored {
        Some(s) => s,
        None => default,
    }
}

/// The value to use for a key whose stored text was put through a decoder:
/// the decoded value, or `default` where there was no text or it did not decode.
/// The second component says which of the two it is.
pub fn load_value<T>(decoded: Option<T>, default: T) -> (loaded: (T, Origin))
    ensures
        loaded == (match decoded {
            Some(v) => (v, Origin::Stored),
            None => (default, Origin::Fallback),
        }),
{
    match decoded {
        Some(v) => (v, Origin::Stored),
        None => (default, Origin::Fallback),
    }
}

} // verus!
