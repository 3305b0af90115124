//! The accept loop's decisions.
use vstd::prelude::*;

use crate::address;
use crate::address::{IpAddr, SocketAddr};
use crate::config;
use crate::config::Config;
use crate::text;

verus! {

/// What happened to the listening server: a peer connected, a connection could
/// not be accepted (with the error's text), or the process was told to stop.
#[derive(Debug)]
pub enum ServerEvent {
    Accepted(IpAddr),
    AcceptFailed(String),
    Shutdown,
}

/// What the server does: serve the connection, drop it with a line for the
/// log, log a line and go on, or log a line and stop.
#[derive(Debug)]
pub enum ServerAction {
    Serve,
    Reject(String),
    Log(String),
    Stop(String),
}

/// Decide what to do about an event. Peers outside the configured whitelist are
/// rejected before any per-connection state is built.
pub fn run(config: &Config, event: ServerEvent) -> (action: ServerAction)
    ensures
        match event {
            ServerEvent::Accepted(peer) => if config::admits(config@.ip_whitelist, peer@) {
                action == ServerAction::Serve
            } else {
                action matches ServerAction::Reject(line) && line@
                    == "Connection rejected, not in ip whitelist: "@ + address::format_address(
                    peer@,
                )
            },
            ServerEvent::AcceptFailed(error) => action matches ServerAction::Log(line) && line@
                == "Accept error: "@ + error@,
            ServerEvent::Shutdown => action matches ServerAction::Stop(line) && line@
                == "Server shutdown..."@,
        },
{
    match event {
        ServerEvent::Accepted(peer) => if config.is_ip_allowed(peer) {
            ServerAction::Serve
        } else {
            ServerAction::Reject(
                text::joined("Connection rejected, not in ip whitelist: ", &peer.to_string()),
            )
        },
        ServerEvent::AcceptFailed(error) => ServerAction::Log(
            text::joined("Accept error: ", &error),
        ),
        ServerEvent::Shutdown => ServerAction::Stop("Server shutdown...".to_owned()),
    }
}

/// How many worker threads run, and how many queries at most run at a time: as
/// many as are configured, but one at least.
pub fn worker_limit(config: &Config) -> (r: usize)
    ensures
        r == (if config.workers == 0 {
            1
        } else {
            config.workers
        }),
        r >= 1,
{
    if config.workers == 0 {
        1
    } else {
        config.workers
    }
}

/// The line that is printed when the server listens.
pub open spec fn listening(config: Config, local_addr: SocketAddr) -> Seq<char> {
    "sqlite-server listening on "@ + address::format_socket(local_addr@)
        + " (workers: "@ + text::decimal(config.workers as nat) + ", databases: "@
        + config.databases_folder@ + ", max packet: "@ + text::decimal(
        config.client_max_packet_size as nat,
    ) + " bytes, auth: "@ + (if config.auth@.len() == 0 {
        "disabled"@
    } else {
        "enabled"@
    }) + ", ip whitelist: "@ + config::format_whitelist(config@.ip_whitelist) + ")"@
}

/// The line that is printed when the server listens at `local_addr`.
pub fn listening_line(config: &Config, local_addr: SocketAddr) -> (r: String)
    ensures
        r@ == listening(*config, local_addr),
{
    let mut line: String = text::joined("sqlite-server listening on ", &local_addr.to_string());
    line.append(" (workers: ");
    line.append(&text::decimal_string(config.workers as u64));
    line.append(", databases: ");
    line.append(&config.databases_folder);
    line.append(", max packet: ");
    line.append(&text::decimal_string(config.client_max_packet_size as u64));
    line.append(" bytes, auth: ");
    if config.auth.as_str().is_empty() {
        line.append("disabled");
    } else {
        line.append("enabled");
    }
    line.append(", ip whitelist: ");
    line.append(&config.ip_whitelist_repr());
    line.append(")");
    line
}

} // verus!
