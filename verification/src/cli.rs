//! The networks the tool can talk to, their RPC endpoints, genesis times and
//! command-line names.

use vstd::prelude::*;

verus! {

/// A cluster whose snapshots and blocks can be fetched and replayed.
#[derive(Debug, Clone, Copy, PartialEq, Eq, Structural)]
pub enum Network {
    EclipseMainnet,
    EclipseDevnet,
    EclipseTestnet,
    SolanaMainnet,
}

/// The public RPC endpoint of a network; Solana mainnet has none.
pub open spec fn network_url(n: Network) -> Seq<char> {
    match n {
        Network::EclipseMainnet => "https://mainnetbeta-rpc.eclipse.xyz/"@,
        Network::EclipseDevnet => "https://devnet.dev2.eclipsenetwork.xyz/"@,
        Network::EclipseTestnet => "https://testnet.dev2.eclipsenetwork.xyz/"@,
        Network::SolanaMainnet => Seq::empty(),
    }
}

/// Whether the network has a public RPC endpoint.
pub open spec fn has_url(n: Network) -> bool {
    n != Network::SolanaMainnet
}

/// Whether the genesis creation time of the network is known.
pub open spec fn has_creation_time(n: Network) -> bool {
    n == Network::EclipseMainnet || n == Network::EclipseTestnet
}

/// The genesis creation time (a Unix timestamp) of the networks that have one.
pub open spec fn network_creation_time(n: Network) -> i64 {
    match n {
        Network::EclipseMainnet => 1722252148,
        Network::EclipseTestnet => 1712572914,
        _ => 0,
    }
}

/// The command-line name of a network.
pub open spec fn network_name(n: Network) -> Seq<char> {
    match n {
        Network::EclipseMainnet => "eclipse-mainnet"@,
        Network::EclipseDevnet => "eclipse-devnet"@,
        Network::EclipseTestnet => "eclipse-testnet"@,
        Network::SolanaMainnet => "solana-mainnet"@,
    }
}

/// The text of the error for an unknown network name.
pub open spec fn unknown_network_message(s: Seq<char>) -> Seq<char> {
    "Unknown network: "@ + s
}

impl Network {
    /// The public RPC endpoint of the network.
    pub fn url(&self) -> (r: &'static str)
        requires
            has_url(*self),
        ensures
            r@ == network_url(*self),
    {
        match self {
            Network::EclipseMainnet => "https://mainnetbeta-rpc.eclipse.xyz/",
            Network::EclipseDevnet => "https://devnet.dev2.eclipsenetwork.xyz/",
            Network::EclipseTestnet => "https://testnet.dev2.eclipsenetwork.xyz/",
            Network::SolanaMainnet => "",
        }
    }

    /// The genesis creation time of the network, a Unix timestamp.
    pub fn creation_time(&self) -> (r: i64)
        requires
            has_creation_time(*self),
        ensures
            r == network_creation_time(*self),
    {
        match self {
            Network::EclipseMainnet => 1722252148,
            Network::EclipseTestnet => 1712572914,
            _ => 0,
        }
    }

    /// The command-line name of the network.
    pub fn name(&self) -> (r: &'static str)
        ensures
            r@ == network_name(*self),
    {
        match self {
            Network::EclipseMainnet => "eclipse-mainnet",
            Network::EclipseDevnet => "eclipse-devnet",
            Network::EclipseTestnet => "eclipse-testnet",
            Network::SolanaMainnet => "solana-mainnet",
        }
    }

    /// Reads a network from its command-line name.
    pub fn parse(s: &str) -> (r: Result<Network, String>)
        ensures
            match r {
                Ok(n) => network_name(n) == s@,
                Err(e) => (forall|n: Network| network_name(n) != s@) && e@
                    == unknown_network_message(s@),
            },
    {
        let given = s.to_owned();
        if given == "eclipse-mainnet".to_owned() {
            Ok(Network::EclipseMainnet)
        } else if given == "eclipse-devnet".to_owned() {
            Ok(Network::EclipseDevnet)
        } else if given == "eclipse-testnet".to_owned() {
            Ok(Network::EclipseTestnet)
        } else if given == "solana-mainnet".to_owned() {
            Ok(Network::SolanaMainnet)
        } else {
            let mut message = "Unknown network: ".to_owned();
            message.append(s);
            Err(message)
        }
    }
}

impl std::str::FromStr for Network {
    type Err = String;

    fn from_str(s: &str) -> (r: Result<Self, Self::Err>)
        ensures
            match r {
                Ok(n) => network_name(n) == s@,
                Err(e) => (forall|n: Network| network_name(n) != s@) && e@
                    == unknown_network_message(s@),
            },
    {
        Network::parse(s)
    }
}

/// The command-line names and RPC endpoints of the networks are fixed
/// texts: `eclipse-mainnet`, `eclipse-devnet`, `eclipse-testnet` and
/// `solana-mainnet`, so `Network::parse` reads exactly these texts (e.g.
/// `"eclipse-testnet"` gives `Ok(EclipseTestnet)`, and any text that is
/// none of them is refused) and `Network::name` prints them.
pub proof fn lemma_network_names_and_urls()
    ensures
        network_name(Network::EclipseMainnet) == "eclipse-mainnet"@,
        network_name(Network::EclipseDevnet) == "eclipse-devnet"@,
        network_name(Network::EclipseTestnet) == "eclipse-testnet"@,
        network_name(Network::SolanaMainnet) == "solana-mainnet"@,
        forall|n: Network|
            #![trigger network_name(n)]
            network_name(n) == "eclipse-testnet"@ <==> n == Network::EclipseTestnet,
        forall|n: Network|
            #![trigger network_name(n)]
            network_name(n) == "eclipse-mainnet"@ <==> n == Network::EclipseMainnet,
        forall|n: Network|
            #![trigger network_name(n)]
            network_name(n) == "eclipse-devnet"@ <==> n == Network::EclipseDevnet,
        forall|n: Network|
            #![trigger network_name(n)]
            network_name(n) == "solana-mainnet"@ <==> n == Network::SolanaMainnet,
        network_url(Network::EclipseMainnet) == "https://mainnetbeta-rpc.eclipse.xyz/"@,
        network_url(Network::EclipseDevnet) == "https://devnet.dev2.eclipsenetwork.xyz/"@,
        network_url(Network::EclipseTestnet) == "https://testnet.dev2.eclipsenetwork.xyz/"@,
        network_creation_time(Network::EclipseMainnet) == 1722252148,
        network_creation_time(Network::EclipseTestnet) == 1712572914,
{
    assert forall|n: Network| #![trigger network_name(n)] network_name(n) == "eclipse-testnet"@
        implies n == Network::EclipseTestnet by {
        lemma_network_name_round_trip(Network::EclipseTestnet, n);
    }
    assert forall|n: Network| #![trigger network_name(n)] network_name(n) == "eclipse-mainnet"@
        implies n == Network::EclipseMainnet by {
        lemma_network_name_round_trip(Network::EclipseMainnet, n);
    }
    assert forall|n: Network| #![trigger network_name(n)] network_name(n) == "eclipse-devnet"@
        implies n == Network::EclipseDevnet by {
        lemma_network_name_round_trip(Network::EclipseDevnet, n);
    }
    assert forall|n: Network| #![trigger network_name(n)] network_name(n) == "solana-mainnet"@
        implies n == Network::SolanaMainnet by {
        lemma_network_name_round_trip(Network::SolanaMainnet, n);
    }
}

/// Each network has its own command-line name, so reading back the name
/// that `Network::name` prints gives the same network (`Network::parse`
/// returns `Ok(m)` only when `network_name(m)` is the text read).
pub proof fn lemma_network_name_round_trip(n: Network, m: Network)
    requires
        network_name(m) == network_name(n),
    ensures
        m == n,
{
    reveal_strlit("eclipse-mainnet");
    reveal_strlit("eclipse-devnet");
    reveal_strlit("eclipse-testnet");
    reveal_strlit("solana-mainnet");
    assert("eclipse-mainnet"@[8] != "eclipse-devnet"@[8]);
    assert("eclipse-mainnet"@[8] != "eclipse-testnet"@[8]);
    assert("eclipse-devnet"@[8] != "eclipse-testnet"@[8]);
    assert("solana-mainnet"@[0] != "eclipse-mainnet"@[0]);
    assert("solana-mainnet"@[0] != "eclipse-devnet"@[0]);
    assert("solana-mainnet"@[0] != "eclipse-testnet"@[0]);
}

impl Default for Network {
    fn default() -> (r: Self)
        ensures
            r == Network::EclipseMainnet,
    {
        Network::EclipseMainnet
    }
}

} // verus!
