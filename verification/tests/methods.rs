use barq::methods::bolt12::{
    create_bolt12_invoice, decimal, format_bolt12_invoice, parse_bolt12_invoice,
};
use barq::methods::pay::{
    network_of_currency, network_of_name, plan_payment, process_bolt12_invoice,
    process_bolt12_invoice_at, resolve_amount, BarqPayRequest, BarqPayResponse, Bolt12Invoice,
    CLNSendpayResponse, NodeInfo, PayError, PaymentPlan, Status,
};
use barq::methods::route_info::{BarqRouteInfoRequest, BarqRouteInfoResponse};
use barq::methods::tt::offer::Offer;
use barq::plugin::{rpc_path, State};
use barq::strategy::{Network, RouteError, RouteHop, StrategyKind};

#[test]
fn invoice_for_a_new_offer() {
    let invoice = create_bolt12_invoice(42, "coffee".to_string()).unwrap();
    assert_eq!(invoice.offer.amount, 42);
    assert_eq!(invoice.offer.description, "coffee");
    assert_eq!(invoice.offer.expiration, None);
    assert_eq!(invoice.offer.min_cltv_expiry, 9);
    assert_eq!(invoice.offer.max_accepted_htlc_count, 10);
}

#[test]
fn parsing_an_invoice_string() {
    assert_eq!(parse_bolt12_invoice(""), Err("Empty invoice string".to_string()));
    let offer = parse_bolt12_invoice("lni1...").unwrap();
    assert_eq!(
        offer,
        Offer {
            amount: 1000,
            description: "Bolt12 Offer Example".to_string(),
            expiration: None,
            min_cltv_expiry: 9,
            max_accepted_htlc_count: 10,
        }
    );
}

#[test]
fn invoice_in_words() {
    let invoice = Bolt12Invoice::new(Offer {
        amount: 1,
        description: "tea".to_string(),
        expiration: None,
        min_cltv_expiry: 144,
        max_accepted_htlc_count: 0,
    });
    assert_eq!(format_bolt12_invoice(&invoice), "Bolt12 Invoice for tea: 144 CLTV, 0 HTLCs");
    assert_eq!(decimal(0), "0");
    assert_eq!(decimal(7), "7");
    assert_eq!(decimal(10), "10");
    assert_eq!(decimal(4_294_967_295), "4294967295");
}

#[test]
fn expiry_of_an_invoice() {
    let mut invoice = barq::methods::pay::create_bolt12_invoice("lni1...").unwrap();
    assert!(!invoice.is_expired_at(u64::MAX));
    assert!(!invoice.is_expired());
    invoice.offer.expiration = Some(100);
    assert!(!invoice.is_expired_at(99));
    assert!(!invoice.is_expired_at(100));
    assert!(invoice.is_expired_at(101));
    assert!(invoice.is_expired());
    assert!(barq::methods::pay::create_bolt12_invoice("").is_err());
}

#[test]
fn processing_an_invoice_string() {
    assert_eq!(process_bolt12_invoice("lni1..."), Ok(()));
    assert_eq!(process_bolt12_invoice_at("lni1...", 5), Ok(()));
    assert_eq!(process_bolt12_invoice(""), Err("Empty invoice string".to_string()));
    assert_eq!(process_bolt12_invoice_at("", 5), Err("Empty invoice string".to_string()));
}

#[test]
fn requested_strategies() {
    let mut request = BarqPayRequest {
        bolt11_invoice: "lnbc1".to_string(),
        amount_msat: None,
        strategy: None,
        use_rapid_gossip_sync: false,
    };
    assert_eq!(request.strategy(), Ok(StrategyKind::Direct));
    request.strategy = Some("Probabilistic".to_string());
    assert_eq!(request.strategy(), Ok(StrategyKind::Probabilistic));
    request.strategy = Some("none".to_string());
    assert_eq!(request.strategy(), Err(RouteError::UnknownStrategy));
    let mut info = BarqRouteInfoRequest {
        dest_pubkey: "02aa".to_string(),
        amount_msat: 1,
        cltv: 9,
        strategy: None,
    };
    assert_eq!(info.strategy(), Ok(StrategyKind::Direct));
    info.strategy = Some("shortest_path".to_string());
    assert_eq!(info.strategy(), Ok(StrategyKind::ShortestPath));
}

#[test]
fn networks() {
    assert_eq!(network_of_currency(&"bc".to_string()), Some(Network::Bitcoin));
    assert_eq!(network_of_currency(&"tb".to_string()), Some(Network::Testnet));
    assert_eq!(network_of_currency(&"tbs".to_string()), Some(Network::Signet));
    assert_eq!(network_of_currency(&"bcrt".to_string()), Some(Network::Regtest));
    assert_eq!(network_of_currency(&"ltc".to_string()), None);
    assert_eq!(network_of_name(&"bitcoin".to_string()), Some(Network::Bitcoin));
    assert_eq!(network_of_name(&"testnet".to_string()), Some(Network::Testnet));
    assert_eq!(network_of_name(&"signet".to_string()), Some(Network::Signet));
    assert_eq!(network_of_name(&"regtest".to_string()), Some(Network::Regtest));
    assert_eq!(network_of_name(&"mainnet".to_string()), None);
}

#[test]
fn amounts() {
    assert_eq!(resolve_amount(Some(5), None), Ok(5));
    assert_eq!(resolve_amount(None, Some(6)), Ok(6));
    assert_eq!(resolve_amount(Some(5), Some(6)), Err(PayError::AmountNotRequired));
    assert_eq!(resolve_amount(None, None), Err(PayError::AmountNotRequired));
}

fn pay_request(amount_msat: Option<u64>, strategy: Option<&str>) -> BarqPayRequest {
    BarqPayRequest {
        bolt11_invoice: "lnbcrt1".to_string(),
        amount_msat,
        strategy: strategy.map(|s| s.to_string()),
        use_rapid_gossip_sync: false,
    }
}

fn node(network: &str) -> NodeInfo {
    NodeInfo { id: "02aa".to_string(), network: network.to_string() }
}

#[test]
fn payment_plans() {
    let plan = plan_payment(&pay_request(None, None), &"bcrt".to_string(), Some(7), &node("regtest"));
    assert_eq!(
        plan,
        Ok(PaymentPlan { network: Network::Regtest, amount_msat: 7, strategy: StrategyKind::Direct })
    );
    let plan = plan_payment(
        &pay_request(Some(8), Some("probabilistic")),
        &"bc".to_string(),
        None,
        &node("bitcoin"),
    );
    assert_eq!(
        plan,
        Ok(PaymentPlan {
            network: Network::Bitcoin,
            amount_msat: 8,
            strategy: StrategyKind::Probabilistic
        })
    );
    let regtest = "bcrt".to_string();
    assert_eq!(
        plan_payment(&pay_request(None, None), &"xx".to_string(), Some(7), &node("regtest")),
        Err(PayError::UnknownCurrency)
    );
    assert_eq!(
        plan_payment(&pay_request(Some(1), None), &regtest, Some(7), &node("regtest")),
        Err(PayError::AmountNotRequired)
    );
    assert_eq!(
        plan_payment(&pay_request(None, None), &regtest, Some(7), &node("nowhere")),
        Err(PayError::UnknownNetwork)
    );
    assert_eq!(
        plan_payment(&pay_request(None, None), &regtest, Some(7), &node("bitcoin")),
        Err(PayError::NetworkMismatch)
    );
    assert_eq!(
        plan_payment(&pay_request(None, Some("x")), &regtest, Some(7), &node("regtest")),
        Err(PayError::UnknownStrategy)
    );
}

#[test]
fn responses() {
    let sent = CLNSendpayResponse {
        id: 1,
        created_index: 2,
        payment_hash: "00".to_string(),
        groupid: 3,
        destination: "02aa".to_string(),
        amount_msat: 4,
        amount_sent_msat: 5,
        created_at: 6,
        status: Status::Complete,
    };
    let response = BarqPayResponse::success(sent);
    assert_eq!(response.status, "success");
    assert_eq!(response.message, None);
    assert_eq!(response.response.unwrap().amount_sent_msat, 5);
    let hops = vec![RouteHop::new("B".to_string(), "c".to_string(), 9, 1)];
    let found = BarqRouteInfoResponse::found(hops.clone());
    assert_eq!(found.status, "success");
    assert_eq!(found.route_info, Some(hops));
    let failed = BarqRouteInfoResponse::failed(RouteError::Unreachable);
    assert_eq!(failed.status, "failure");
    assert_eq!(failed.message, Some("no path found".to_string()));
    assert_eq!(failed.route_info, None);
}

#[test]
fn plugin_state() {
    let mut state = State::new();
    assert_eq!(state.cln_rpc_path, None);
    assert_eq!(state.network, None);
    state.configure("/home/user/.lightning", "lightning-rpc", "regtest");
    assert_eq!(state.cln_rpc_path, Some("/home/user/.lightning/lightning-rpc".to_string()));
    assert_eq!(state.network, Some("regtest".to_string()));
    assert_eq!(state.clone(), state);
    assert_eq!(rpc_path("a", "b"), "a/b");
}
