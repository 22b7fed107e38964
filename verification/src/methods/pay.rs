//! The payment request: what it asks for, the checks made before a route
//! is searched, and its answer.

use crate::methods::bolt12::{example_offer, parse_bolt12_invoice};
use crate::methods::tt::offer::Offer;
use crate::router::{requested_kind, Router};
use crate::strategy::{Network, RouteError, StrategyKind};
use vstd::prelude::*;

verus! {

/// An invoice for an offer.
#[derive(Debug, PartialEq, Eq)]
pub struct Bolt12Invoice {
    pub offer: Offer,
}

/// Calls `SystemTime::now` and gives the seconds since the epoch, or
/// `None` where the clock stands before the epoch. Nothing is claimed of
/// the result.
#[verifier::external_body]
fn seconds_since_epoch() -> Option<u64> {
    match std::time::SystemTime::now().duration_since(std::time::UNIX_EPOCH) {
        Ok(elapsed) => Some(elapsed.as_secs()),
        Err(_) => None,
    }
}

/// The time by the clock of this machine, in seconds since the epoch. A
/// clock that stands before the epoch counts as standing at it.
fn current_time() -> u64 {
    match seconds_since_epoch() {
        Some(seconds) => seconds,
        None => 0,
    }
}

impl Bolt12Invoice {
    pub fn new(offer: Offer) -> (r: Self)
        ensures
            r.offer == offer,
    {
        Bolt12Invoice { offer }
    }

    /// Whether the invoice has expired at `now`.
    pub open spec fn expired_at(&self, now: u64) -> bool {
        match self.offer.expiration {
            Some(expiration) => now > expiration,
            None => false,
        }
    }

    /// Whether the invoice has expired at `now`, in seconds since the
    /// epoch. An invoice without expiration never has.
    pub fn is_expired_at(&self, now: u64) -> (r: bool)
        ensures
            r == self.expired_at(now),
    {
        match self.offer.expiration {
            Some(expiration) => now > expiration,
            None => false,
        }
    }

    /// Whether the invoice has expired by the clock of this machine.
    pub fn is_expired(&self) -> (r: bool)
        ensures
            self.offer.expiration is None ==> !r,
            r ==> exists|now: u64| self.expired_at(now),
    {
        let now = current_time();
        let r = self.is_expired_at(now);
        proof {
            if r {
                assert(self.expired_at(now));
            }
        }
        r
    }
}

/// The invoice that an invoice string stands for.
pub fn create_bolt12_invoice(invoice_str: &str) -> (r: Result<Bolt12Invoice, String>)
    ensures
        invoice_str@.len() == 0 ==> (r matches Err(e) && e@ == "Empty invoice string"@),
        invoice_str@.len() != 0 ==> (r matches Ok(invoice) && invoice.offer@ == example_offer()),
{
    match parse_bolt12_invoice(invoice_str) {
        Ok(offer) => Ok(Bolt12Invoice::new(offer)),
        Err(e) => Err(e),
    }
}

/// Checks at `now` that the invoice string stands for an invoice that
/// has not expired.
pub fn process_bolt12_invoice_at(invoice_str: &str, now: u64) -> (r: Result<(), String>)
    ensures
        invoice_str@.len() == 0 ==> (r matches Err(e) && e@ == "Empty invoice string"@),
        invoice_str@.len() != 0 ==> r is Ok,
{
    let invoice = match create_bolt12_invoice(invoice_str) {
        Ok(invoice) => invoice,
        Err(e) => {
            return Err(e);
        },
    };
    if invoice.is_expired_at(now) {
        return Err("Invoice is expired.".to_owned());
    }
    Ok(())
}

/// Checks by the clock of this machine that the invoice string stands
/// for an invoice that has not expired.
pub fn process_bolt12_invoice(invoice_str: &str) -> (r: Result<(), String>)
    ensures
        invoice_str@.len() == 0 ==> (r matches Err(e) && e@ == "Empty invoice string"@),
        invoice_str@.len() != 0 ==> r is Ok,
{
    process_bolt12_invoice_at(invoice_str, current_time())
}

/// How far a payment has come.
#[derive(Debug, PartialEq, Eq, Clone, Copy, Structural)]
pub enum Status {
    Pending,
    Complete,
}

/// What the node answers when a payment was sent.
#[derive(Debug, PartialEq, Eq)]
pub struct CLNSendpayResponse {
    pub id: u64,
    pub created_index: u64,
    pub payment_hash: String,
    pub groupid: u64,
    pub destination: String,
    pub amount_msat: u64,
    pub amount_sent_msat: u64,
    pub created_at: u64,
    pub status: Status,
}

/// A request to pay an invoice.
#[derive(Debug, PartialEq, Eq)]
pub struct BarqPayRequest {
    pub bolt11_invoice: String,
    /// The amount to pay, for an invoice that states none.
    pub amount_msat: Option<u64>,
    /// The strategy to route with; `None` asks for the default.
    pub strategy: Option<String>,
    /// Whether the scored strategy may work on a snapshot from rapid
    /// gossip sync.
    pub use_rapid_gossip_sync: bool,
}

impl BarqPayRequest {
    /// The kind of strategy that the request asks for.
    pub fn strategy(&self) -> (r: Result<StrategyKind, RouteError>)
        ensures
            r == requested_kind(
                match self.strategy {
                    Some(s) => Some(s@),
                    None => None,
                },
            ),
    {
        Router::resolve(&self.strategy)
    }
}

/// The answer to a payment request.
#[derive(Debug, PartialEq, Eq)]
pub struct BarqPayResponse {
    pub status: String,
    pub message: Option<String>,
    pub response: Option<CLNSendpayResponse>,
}

impl BarqPayResponse {
    /// The answer for a payment that went through.
    pub fn success(response: CLNSendpayResponse) -> (r: Self)
        ensures
            r.status@ == "success"@,
            r.message is None,
            r.response == Some(response),
    {
        BarqPayResponse { status: "success".to_owned(), message: None, response: Some(response) }
    }
}

/// What a node says of itself.
#[derive(Debug, PartialEq, Eq)]
pub struct NodeInfo {
    pub id: String,
    /// The name of the network that the node works on.
    pub network: String,
}

/// Why a payment is refused before a route is searched.
#[derive(Debug, PartialEq, Eq, Clone, Copy, Structural)]
pub enum PayError {
    /// The invoice is in a currency that stands for no network.
    UnknownCurrency,
    /// Invoice and request both state an amount, or neither does.
    AmountNotRequired,
    /// The node names a network that is none.
    UnknownNetwork,
    /// The invoice is for another network than the node works on.
    NetworkMismatch,
    /// The request names a strategy that does not exist.
    UnknownStrategy,
}

/// The network that an invoice's currency prefix stands for.
pub open spec fn currency_network(currency: Seq<char>) -> Option<Network> {
    if currency == "bc"@ {
        Some(Network::Bitcoin)
    } else if currency == "tb"@ {
        Some(Network::Testnet)
    } else if currency == "tbs"@ {
        Some(Network::Signet)
    } else if currency == "bcrt"@ {
        Some(Network::Regtest)
    } else {
        None
    }
}

/// The network that an invoice's currency prefix stands for.
pub fn network_of_currency(currency: &String) -> (r: Option<Network>)
    ensures
        r == currency_network(currency@),
{
    if *currency == "bc".to_owned() {
        Some(Network::Bitcoin)
    } else if *currency == "tb".to_owned() {
        Some(Network::Testnet)
    } else if *currency == "tbs".to_owned() {
        Some(Network::Signet)
    } else if *currency == "bcrt".to_owned() {
        Some(Network::Regtest)
    } else {
        None
    }
}

/// The network called `name`.
pub open spec fn network_named(name: Seq<char>) -> Option<Network> {
    if name == "bitcoin"@ {
        Some(Network::Bitcoin)
    } else if name == "testnet"@ {
        Some(Network::Testnet)
    } else if name == "signet"@ {
        Some(Network::Signet)
    } else if name == "regtest"@ {
        Some(Network::Regtest)
    } else {
        None
    }
}

/// The network called `name`, as a node names the network it works on.
pub fn network_of_name(name: &String) -> (r: Option<Network>)
    ensures
        r == network_named(name@),
{
    if *name == "bitcoin".to_owned() {
        Some(Network::Bitcoin)
    } else if *name == "testnet".to_owned() {
        Some(Network::Testnet)
    } else if *name == "signet".to_owned() {
        Some(Network::Signet)
    } else if *name == "regtest".to_owned() {
        Some(Network::Regtest)
    } else {
        None
    }
}

/// The amount to pay: the one that the invoice states or the one that
/// the request states. Stated by both or by neither, there is none.
pub open spec fn amount_to_pay(invoice: Option<u64>, request: Option<u64>) -> Result<
    u64,
    PayError,
> {
    match (invoice, request) {
        (Some(amount), None) => Ok(amount),
        (None, Some(amount)) => Ok(amount),
        _ => Err(PayError::AmountNotRequired),
    }
}

/// The amount to pay for an invoice.
pub fn resolve_amount(invoice: Option<u64>, request: Option<u64>) -> (r: Result<u64, PayError>)
    ensures
        r == amount_to_pay(invoice, request),
{
    match (invoice, request) {
        (Some(amount), None) => Ok(amount),
        (None, Some(amount)) => Ok(amount),
        _ => Err(PayError::AmountNotRequired),
    }
}

/// What is settled before a route is searched: the network, the amount
/// and the strategy.
#[derive(Debug, PartialEq, Eq, Clone, Copy, Structural)]
pub struct PaymentPlan {
    pub network: Network,
    pub amount_msat: u64,
    pub strategy: StrategyKind,
}

/// The plan for a payment, or the first reason to refuse it: an unknown
/// currency, no single amount, an unknown network, an invoice for another
/// network, an unknown strategy.
pub open spec fn planned(
    currency: Seq<char>,
    invoice_amount: Option<u64>,
    node_network: Seq<char>,
    request_amount: Option<u64>,
    strategy: Option<Seq<char>>,
) -> Result<PaymentPlan, PayError> {
    if currency_network(currency) is None {
        Err(PayError::UnknownCurrency)
    } else if amount_to_pay(invoice_amount, request_amount) is Err {
        Err(PayError::AmountNotRequired)
    } else if network_named(node_network) is None {
        Err(PayError::UnknownNetwork)
    } else if currency_network(currency) != network_named(node_network) {
        Err(PayError::NetworkMismatch)
    } else if requested_kind(strategy) is Err {
        Err(PayError::UnknownStrategy)
    } else {
        Ok(
            PaymentPlan {
                network: network_named(node_network).unwrap(),
                amount_msat: amount_to_pay(invoice_amount, request_amount).unwrap(),
                strategy: requested_kind(strategy).unwrap(),
            },
        )
    }
}

/// The plan for paying an invoice in `currency` that states
/// `invoice_amount`, from a node that works on `node.network`.
pub fn plan_payment(
    request: &BarqPayRequest,
    currency: &String,
    invoice_amount: Option<u64>,
    node: &NodeInfo,
) -> (r: Result<PaymentPlan, PayError>)
    ensures
        r == planned(
            currency@,
            invoice_amount,
            node.network@,
            request.amount_msat,
            match request.strategy {
                Some(s) => Some(s@),
                None => None,
            },
        ),
{
    let invoice_network = match network_of_currency(currency) {
        Some(network) => network,
        None => {
            return Err(PayError::UnknownCurrency);
        },
    };
    let amount_msat = match resolve_amount(invoice_amount, request.amount_msat) {
        Ok(amount) => amount,
        Err(e) => {
            return Err(e);
        },
    };
    let network = match network_of_name(&node.network) {
        Some(network) => network,
        None => {
            return Err(PayError::UnknownNetwork);
        },
    };
    if invoice_network != network {
        return Err(PayError::NetworkMismatch);
    }
    let strategy = match request.strategy() {
        Ok(kind) => kind,
        Err(_) => {
            return Err(PayError::UnknownStrategy);
        },
    };
    Ok(PaymentPlan { network, amount_msat, strategy })
}

} // verus!
