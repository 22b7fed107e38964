//! The offer behind an invoice.

use vstd::prelude::*;

verus! {

/// An offer: what is asked for, and under which terms.
#[derive(Debug, PartialEq, Eq)]
pub struct Offer {
    /// The amount the offer is for.
    pub amount: u64,
    pub description: String,
    /// When the offer expires, in seconds since the epoch, if it does.
    pub expiration: Option<u64>,
    pub min_cltv_expiry: u32,
    pub max_accepted_htlc_count: u32,
}

/// What an offer holds, as plain values.
pub struct OfferView {
    pub amount: u64,
    pub description: Seq<char>,
    pub expiration: Option<u64>,
    pub min_cltv_expiry: u32,
    pub max_accepted_htlc_count: u32,
}

impl View for Offer {
    type V = OfferView;

    open spec fn view(&self) -> OfferView {
        OfferView {
            amount: self.amount,
            description: self.description@,
            expiration: self.expiration,
            min_cltv_expiry: self.min_cltv_expiry,
            max_accepted_htlc_count: self.max_accepted_htlc_count,
        }
    }
}

} // verus!
