use reclipse::cli::Network;
use std::str::FromStr;

#[test]
fn network_urls() {
    assert_eq!(Network::EclipseMainnet.url(), "https://mainnetbeta-rpc.eclipse.xyz/");
    assert_eq!(Network::EclipseDevnet.url(), "https://devnet.dev2.eclipsenetwork.xyz/");
    assert_eq!(Network::EclipseTestnet.url(), "https://testnet.dev2.eclipsenetwork.xyz/");
}

#[test]
fn network_creation_times() {
    assert_eq!(Network::EclipseMainnet.creation_time(), 1722252148);
    assert_eq!(Network::EclipseTestnet.creation_time(), 1712572914);
}

#[test]
fn network_default_is_mainnet() {
    assert_eq!(Network::default(), Network::EclipseMainnet);
    assert_eq!(Network::default().name(), "eclipse-mainnet");
}

#[test]
fn network_names_round_trip() {
    for n in [
        Network::EclipseMainnet,
        Network::EclipseDevnet,
        Network::EclipseTestnet,
        Network::SolanaMainnet,
    ] {
        assert_eq!(Network::parse(n.name()), Ok(n));
        assert_eq!(Network::from_str(n.name()), Ok(n));
    }
    assert_eq!(Network::SolanaMainnet.name(), "solana-mainnet");
    assert_eq!(Network::EclipseDevnet.name(), "eclipse-devnet");
}

#[test]
fn network_unknown_name_is_refused() {
    assert_eq!(
        Network::parse("eclipse"),
        Err("Unknown network: eclipse".to_string())
    );
    assert_eq!(
        Network::from_str("Eclipse-Mainnet"),
        Err("Unknown network: Eclipse-Mainnet".to_string())
    );
    assert_eq!(Network::parse(""), Err("Unknown network: ".to_string()));
}
