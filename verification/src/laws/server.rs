//! Laws of the accept loop.
use vstd::prelude::*;

use crate::address::{IpAddr, SocketAddr};
use crate::config::Config;
use crate::server;
use crate::server::{ServerAction, ServerEvent};
use crate::text;

verus! {

/// A peer is served exactly where the whitelist allows it; another one is
/// dropped, and the log names its address.
pub proof fn allowed_peers_are_served(
    config: &Config,
    peer: IpAddr,
    allowed: bool,
    ip: String,
    action: ServerAction,
)
    requires
        call_ensures(Config::is_ip_allowed, (config, peer), allowed),
        call_ensures(IpAddr::to_string, (&peer,), ip),
        call_ensures(server::run, (config, ServerEvent::Accepted(peer)), action),
    ensures
        allowed ==> action is Serve,
        !allowed ==> (action matches ServerAction::Reject(line) && line@
            == "Connection rejected, not in ip whitelist: "@ + ip@),
{
}

/// A failed accept is logged and the server goes on; only the signal stops it.
pub proof fn only_the_signal_stops_the_server(
    config: &Config,
    event: ServerEvent,
    action: ServerAction,
)
    requires
        call_ensures(server::run, (config, event), action),
    ensures
        action is Stop <==> event is Shutdown,
        action matches ServerAction::Stop(line) ==> line@ == "Server shutdown..."@,
        event matches ServerEvent::AcceptFailed(error) ==> (action matches ServerAction::Log(line)
            && line@ == "Accept error: "@ + error@),
{
}

/// As many queries run at a time as workers are configured, but one at least.
pub proof fn workers_limit_queries(config: &Config, r: usize)
    requires
        call_ensures(server::worker_limit, (config,), r),
    ensures
        r >= 1,
        config.workers >= 1 ==> r == config.workers,
        config.workers == 0 ==> r == 1,
{
}

/// The line that is printed when the server listens says where, and with which
/// settings; of the password it says only whether there is one.
pub proof fn the_listening_line_shows_the_settings(
    config: &Config,
    local_addr: SocketAddr,
    addr: String,
    nets: String,
    r: String,
)
    requires
        call_ensures(SocketAddr::to_string, (&local_addr,), addr),
        call_ensures(Config::ip_whitelist_repr, (config,), nets),
        call_ensures(server::listening_line, (config, local_addr), r),
    ensures
        r@ == "sqlite-server listening on "@ + addr@ + " (workers: "@ + text::decimal(
            config.workers as nat,
        ) + ", databases: "@ + config.databases_folder@ + ", max packet: "@ + text::decimal(
            config.client_max_packet_size as nat,
        ) + " bytes, auth: "@ + (if config.auth@.len() > 0 {
            "enabled"@
        } else {
            "disabled"@
        }) + ", ip whitelist: "@ + nets@ + ")"@,
{
}

} // verus!
