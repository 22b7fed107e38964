//! Invoices for offers: making one, reading one, writing one out.

use crate::methods::pay::Bolt12Invoice;
use crate::methods::tt::offer::{Offer, OfferView};
use crate::strategy::MIN_FINAL_DELAY;
use vstd::prelude::*;
use vstd::string::*;

verus! {

/// The number of HTLCs that an offer accepts unless it says otherwise.
pub const DEFAULT_MAX_ACCEPTED_HTLC_COUNT: u32 = 10;

/// Why an offer is refused.
#[derive(Debug, PartialEq, Eq, Clone, Copy, Structural)]
pub enum Error {
    InvalidAmount,
    InvalidDescription,
}

/// The invoice for a new offer of `amount` with `description`, which
/// never expires and has the default terms.
pub fn create_bolt12_invoice(amount: u64, description: String) -> (r: Result<
    Bolt12Invoice,
    String,
>)
    ensures
        r matches Ok(invoice) && invoice.offer@ == (OfferView {
            amount,
            description: description@,
            expiration: None,
            min_cltv_expiry: MIN_FINAL_DELAY,
            max_accepted_htlc_count: DEFAULT_MAX_ACCEPTED_HTLC_COUNT,
        }),
{
    let offer = Offer {
        amount,
        description,
        expiration: None,
        min_cltv_expiry: MIN_FINAL_DELAY,
        max_accepted_htlc_count: DEFAULT_MAX_ACCEPTED_HTLC_COUNT,
    };
    Ok(Bolt12Invoice::new(offer))
}

/// The offer that every invoice string stands for: the string itself is
/// not decoded.
pub open spec fn example_offer() -> OfferView {
    OfferView {
        amount: 1000,
        description: "Bolt12 Offer Example"@,
        expiration: None,
        min_cltv_expiry: 9,
        max_accepted_htlc_count: 10,
    }
}

/// The offer of an invoice string. An empty string is refused; any other
/// is answered with the example offer.
pub fn parse_bolt12_invoice(invoice_str: &str) -> (r: Result<Offer, String>)
    ensures
        invoice_str@.len() == 0 ==> (r matches Err(e) && e@ == "Empty invoice string"@),
        invoice_str@.len() != 0 ==> (r matches Ok(offer) && offer@ == example_offer()),
{
    if invoice_str.is_empty() {
        return Err("Empty invoice string".to_owned());
    }
    Ok(
        Offer {
            amount: 1000,
            description: "Bolt12 Offer Example".to_owned(),
            expiration: None,
            min_cltv_expiry: 9,
            max_accepted_htlc_count: 10,
        },
    )
}

/// The decimal digit `d`.
pub open spec fn digit_of(d: int) -> Seq<char> {
    if d == 0 {
        "0"@
    } else if d == 1 {
        "1"@
    } else if d == 2 {
        "2"@
    } else if d == 3 {
        "3"@
    } else if d == 4 {
        "4"@
    } else if d == 5 {
        "5"@
    } else if d == 6 {
        "6"@
    } else if d == 7 {
        "7"@
    } else if d == 8 {
        "8"@
    } else {
        "9"@
    }
}

/// `n` in decimal digits, without leading zeros.
pub open spec fn decimal_of(n: nat) -> Seq<char>
    decreases n,
{
    if n < 10 {
        digit_of(n as int)
    } else {
        decimal_of(n / 10) + digit_of((n % 10) as int)
    }
}

fn digit(d: u32) -> (r: &'static str)
    requires
        d < 10,
    ensures
        r@ == digit_of(d as int),
{
    if d == 0 {
        "0"
    } else if d == 1 {
        "1"
    } else if d == 2 {
        "2"
    } else if d == 3 {
        "3"
    } else if d == 4 {
        "4"
    } else if d == 5 {
        "5"
    } else if d == 6 {
        "6"
    } else if d == 7 {
        "7"
    } else if d == 8 {
        "8"
    } else {
        "9"
    }
}

/// `n` in decimal digits.
pub fn decimal(n: u32) -> (r: String)
    ensures
        r@ == decimal_of(n as nat),
    decreases n,
{
    if n < 10 {
        digit(n).to_owned()
    } else {
        let mut s = decimal(n / 10);
        s.append(digit(n % 10));
        s
    }
}

/// An invoice in words.
pub open spec fn formatted(offer: OfferView) -> Seq<char> {
    "Bolt12 Invoice for "@ + offer.description + ": "@ + decimal_of(offer.min_cltv_expiry as nat)
        + " CLTV, "@ + decimal_of(offer.max_accepted_htlc_count as nat) + " HTLCs"@
}

/// The invoice in words: what it is for, its least final delay and the
/// number of HTLCs it accepts.
pub fn format_bolt12_invoice(invoice: &Bolt12Invoice) -> (r: String)
    ensures
        r@ == formatted(invoice.offer@),
{
    let mut s = "Bolt12 Invoice for ".to_owned();
    s.append(invoice.offer.description.as_str());
    s.append(": ");
    s.append(decimal(invoice.offer.min_cltv_expiry).as_str());
    s.append(" CLTV, ");
    s.append(decimal(invoice.offer.max_accepted_htlc_count).as_str());
    s.append(" HTLCs");
    s
}

} // verus!
