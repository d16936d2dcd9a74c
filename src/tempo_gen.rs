use vstd::prelude::*;
use vstd::string::StringExecFns;

use crate::decimal::{append_decimal, decimal};

verus! {

/// Listening settings of the trace collector.
pub struct TempoConfig {
    pub listen_address: String,
    pub port: u16,
    pub otlp_port: u16,
}

/// Generator of the trace collector's configuration file.
pub struct TempoGen;

pub open spec fn tempo_yml(address: Seq<char>, port: u16, otlp_port: u16) -> Seq<char> {
    "# --- THIS FILE IS AUTO GENERATED BY RISEDEV ---\nserver:\n  http_listen_address: \""@
        + address
        + "\"\n  http_listen_port: "@
        + decimal(port as nat)
        + "\n\ndistributor:\n  receivers:\n      otlp:\n        protocols:\n          grpc:\n            endpoint: \""@
        + address
        + ":"@
        + decimal(otlp_port as nat)
        + "\"\n    "@
}

impl TempoGen {
    /// Renders the collector configuration: the HTTP server and the OTLP
    /// gRPC receiver both listen on `config.listen_address`.
    pub fn gen_tempo_yml(&self, config: &TempoConfig) -> (r: String)
        ensures
            r@ == tempo_yml(config.listen_address@, config.port, config.otlp_port),
    {
        let http_listen_address = &config.listen_address;
        let mut out = String::new();
        out.append("# --- THIS FILE IS AUTO GENERATED BY RISEDEV ---\nserver:\n  http_listen_address: \"");
        out.append(http_listen_address.as_str());
        out.append("\"\n  http_listen_port: ");
        append_decimal(&mut out, config.port as u64);
        out.append("\n\ndistributor:\n  receivers:\n      otlp:\n        protocols:\n          grpc:\n            endpoint: \"");
        out.append(http_listen_address.as_str());
        out.append(":");
        append_decimal(&mut out, config.otlp_port as u64);
        out.append("\"\n    ");
        out
    }
}

} // verus!
