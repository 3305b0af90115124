//! Configuration, resolved from either command-line flags or a JSON file.
use vstd::prelude::*;

use crate::address;
use crate::address::{Address, IpAddr, SocketAddr, SocketView};
use crate::cidr;
use crate::cidr::{Cidr, Network};
use crate::json;
use crate::json::{Json, JsonView};
use crate::text;

verus! {

/// Default per-connection `busy_timeout` (ms). How long SQLite waits for a lock
/// held by another connection before returning SQLITE_BUSY, which matters when
/// several clients write to the same database.
pub const DEFAULT_BUSY_TIMEOUT_MS: u64 = 5000;

/// The host that is listened on where no flag names one.
pub const DEFAULT_IP: &'static str = "localhost";

/// The port that is listened on where no flag gives one.
pub const DEFAULT_PORT: u16 = 3333;

/// The databases folder where no flag names one.
pub const DEFAULT_DATABASES_FOLDER: &'static str = "sqlite";

/// The size in bytes of the largest request, 16 MiB, where no flag gives one.
pub const DEFAULT_CLIENT_MAX_PACKET_SIZE: u32 = 16777216;

/// The password where no flag gives one: none, which disables authentication.
pub const DEFAULT_AUTH: &'static str = "";

/// The whitelist where no flag gives one: an empty one, which admits all.
pub const DEFAULT_IP_WHITELIST: &'static str = "";

/// The configuration of a running server.
#[derive(Debug)]
pub struct Config {
    pub listen_addr: SocketAddr,
    pub workers: usize,
    pub databases_folder: String,
    pub client_max_packet_size: u32,
    pub busy_timeout_ms: u64,
    /// Optional password; when non-empty, every connection must authenticate
    /// before any command is processed. Empty disables authentication.
    pub auth: String,
    /// Optional list of allowed client networks. When empty, every peer is
    /// allowed.
    pub ip_whitelist: Vec<Cidr>,
}

/// The networks of a whitelist.
pub open spec fn networks(whitelist: Seq<Cidr>) -> Seq<Network> {
    whitelist.map_values(|net: Cidr| net@)
}

/// Whether a whitelist admits an address: an empty one admits all, another one
/// the addresses of its networks.
pub open spec fn admits(whitelist: Seq<Network>, ip: Address) -> bool {
    whitelist.len() == 0 || exists|i: int|
        0 <= i < whitelist.len() && (#[trigger] whitelist[i]).has(ip)
}

/// The text form of a whitelist.
pub open spec fn format_whitelist(whitelist: Seq<Network>) -> Seq<char> {
    if whitelist.len() == 0 {
        "(any)"@
    } else {
        text::join(whitelist.map_values(|net: Network| cidr::format_network(net)), ", "@)
    }
}

impl Config {
    /// Returns true if `ip` is permitted to connect. An empty whitelist means
    /// the feature is disabled and every client is allowed.
    pub fn is_ip_allowed(&self, ip: IpAddr) -> (r: bool)
        ensures
            r == admits(networks(self.ip_whitelist@), ip@),
    {
        let ghost all = networks(self.ip_whitelist@);
        if self.ip_whitelist.len() == 0 {
            return true;
        }
        let mut i: usize = 0;
        while i < self.ip_whitelist.len()
            invariant
                i <= self.ip_whitelist.len(),
                all == networks(self.ip_whitelist@),
                all.len() > 0,
                forall|j: int| 0 <= j < i ==> !(#[trigger] all[j]).has(ip@),
            decreases self.ip_whitelist.len() - i,
        {
            if self.ip_whitelist[i].contains(ip) {
                assert(all[i as int].has(ip@));
                return true;
            }
            i = i + 1;
        }
        false
    }

    /// Human-readable representation of the configured whitelist (for logging).
    pub fn ip_whitelist_repr(&self) -> (r: String)
        ensures
            r@ == format_whitelist(networks(self.ip_whitelist@)),
    {
        if self.ip_whitelist.len() == 0 {
            return "(any)".to_owned();
        }
        let ghost all = networks(self.ip_whitelist@).map_values(
            |net: Network| cidr::format_network(net),
        );
        let mut out: String = String::new();
        let mut i: usize = 0;
        proof {
            assert(all.take(0) =~= Seq::<Seq<char>>::empty());
        }
        while i < self.ip_whitelist.len()
            invariant
                i <= self.ip_whitelist.len(),
                all == networks(self.ip_whitelist@).map_values(
                    |net: Network| cidr::format_network(net),
                ),
                out@ == text::join(all.take(i as int), ", "@),
            decreases self.ip_whitelist.len() - i,
        {
            let part: String = self.ip_whitelist[i].to_string();
            proof {
                assert(all.take(i + 1).drop_last() =~= all.take(i as int));
                assert(all.take(i + 1).last() == part@);
            }
            if i > 0 {
                out.append(", ");
            }
            out.append(&part);
            proof {
                assert(out@ =~= text::join(all.take(i + 1), ", "@));
            }
            i = i + 1;
        }
        proof {
            assert(all.take(i as int) =~= all);
        }
        out
    }
}

// ---------------------------------------------------------------------------
// Whitelists
// ---------------------------------------------------------------------------
/// The networks that all the entries write, or what is said of the first entry
/// that writes none.
pub open spec fn parse_entries(entries: Seq<Seq<char>>) -> Result<Seq<Network>, Seq<char>>
    decreases entries.len(),
{
    if entries.len() == 0 {
        Ok(Seq::empty())
    } else {
        match parse_entries(entries.drop_last()) {
            Err(message) => Err(message),
            Ok(nets) => match cidr::parse_network(entries.last()) {
                Some(net) => Ok(nets.push(net)),
                None => Err(cidr::invalid_entry(entries.last())),
            },
        }
    }
}

/// The parts that are not blank, without white space round them.
pub open spec fn trimmed_parts(parts: Seq<Seq<char>>) -> Seq<Seq<char>>
    decreases parts.len(),
{
    if parts.len() == 0 {
        Seq::empty()
    } else {
        let kept = trimmed_parts(parts.drop_last());
        let part = text::trimmed(parts.last());
        if part.len() == 0 {
            kept
        } else {
            kept.push(part)
        }
    }
}

/// The whitelist that a comma-separated list writes.
pub open spec fn csv_whitelist(s: Seq<char>) -> Result<Seq<Network>, Seq<char>> {
    parse_entries(trimmed_parts(text::split(s, ',')))
}

/// Whether a result of the code shows the networks or the message.
pub open spec fn shows_networks(
    r: Result<Vec<Cidr>, String>,
    expected: Result<Seq<Network>, Seq<char>>,
) -> bool {
    match r {
        Ok(nets) => expected == Ok::<Seq<Network>, Seq<char>>(networks(nets@)),
        Err(message) => expected == Err::<Seq<Network>, Seq<char>>(message@),
    }
}

proof fn lemma_entries_fail(entries: Seq<Seq<char>>, k: int)
    requires
        0 <= k <= entries.len(),
        parse_entries(entries.take(k)) is Err,
    ensures
        parse_entries(entries) == parse_entries(entries.take(k)),
    decreases entries.len() - k,
{
    if k == entries.len() {
        assert(entries.take(k) =~= entries);
    } else {
        assert(entries.take(k + 1).drop_last() =~= entries.take(k));
        lemma_entries_fail(entries, k + 1);
    }
}

proof fn lemma_trimmed_parts_prefix(parts: Seq<Seq<char>>, k: int)
    requires
        0 <= k <= parts.len(),
    ensures
        trimmed_parts(parts.take(k)).len() <= trimmed_parts(parts).len(),
        trimmed_parts(parts).take(trimmed_parts(parts.take(k)).len() as int) == trimmed_parts(
            parts.take(k),
        ),
    decreases parts.len() - k,
{
    let few = trimmed_parts(parts.take(k));
    let all = trimmed_parts(parts);
    if k == parts.len() {
        assert(parts.take(k) =~= parts);
        assert(all.take(few.len() as int) =~= few);
    } else {
        lemma_trimmed_parts_prefix(parts, k + 1);
        assert(parts.take(k + 1).drop_last() =~= parts.take(k));
        let more = trimmed_parts(parts.take(k + 1));
        assert(more.take(few.len() as int) =~= few);
        assert(all.take(few.len() as int) =~= all.take(more.len() as int).take(few.len() as int));
    }
}

/// Parse a comma-separated list of CIDR/address entries (CLI form), trimming
/// whitespace and skipping empties.
pub fn parse_whitelist_csv(s: &str) -> (r: Result<Vec<Cidr>, String>)
    ensures
        shows_networks(r, csv_whitelist(s@)),
{
    let parts: Vec<Vec<char>> = text::split_chars(&text::to_chars(s), ',');
    let ghost all = text::split(s@, ',');
    let mut nets: Vec<Cidr> = Vec::new();
    let mut i: usize = 0;
    proof {
        assert(forall|j: int| 0 <= j < parts.len() ==> all[j] == #[trigger] parts@[j]@);
        assert(all.take(0) =~= Seq::<Seq<char>>::empty());
        assert(networks(nets@) =~= Seq::<Network>::empty());
    }
    while i < parts.len()
        invariant
            i <= parts.len(),
            all == text::split(s@, ','),
            all.len() == parts.len(),
            forall|j: int| 0 <= j < parts.len() ==> all[j] == #[trigger] parts@[j]@,
            parse_entries(trimmed_parts(all.take(i as int))) == Ok::<Seq<Network>, Seq<char>>(
                networks(nets@),
            ),
        decreases parts.len() - i,
    {
        let part: Vec<char> = text::trim(&parts[i]);
        let ghost done = networks(nets@);
        let ghost entries = trimmed_parts(all.take(i + 1));
        proof {
            assert(all.take(i + 1).drop_last() =~= all.take(i as int));
            assert(all.take(i + 1).last() == parts@[i as int]@);
        }
        if part.len() > 0 {
            proof {
                assert(entries.drop_last() =~= trimmed_parts(all.take(i as int)));
                assert(entries.last() == part@);
            }
            match Cidr::parse(&text::from_chars(&part)) {
                Ok(net) => {
                    nets.push(net);
                    proof {
                        assert(networks(nets@) =~= done.push(net@));
                    }
                },
                Err(message) => {
                    proof {
                        let whole = trimmed_parts(all);
                        lemma_trimmed_parts_prefix(all, i + 1);
                        lemma_entries_fail(whole, entries.len() as int);
                    }
                    return Err(message);
                },
            }
        }
        i = i + 1;
    }
    proof {
        assert(all.take(i as int) =~= all);
    }
    Ok(nets)
}

/// The networks that all the items write, or what is said of the first item
/// that writes none.
pub open spec fn parse_items(items: Seq<JsonView>) -> Result<Seq<Network>, Seq<char>>
    decreases items.len(),
{
    if items.len() == 0 {
        Ok(Seq::empty())
    } else {
        match parse_items(items.drop_last()) {
            Err(message) => Err(message),
            Ok(nets) => match items.last().as_str() {
                None => Err("Config key ip_whitelist must contain only strings"@),
                Some(entry) => match cidr::parse_network(entry) {
                    Some(net) => Ok(nets.push(net)),
                    None => Err(cidr::invalid_entry(entry)),
                },
            },
        }
    }
}

/// The whitelist of a configuration file; none where the key is absent.
pub open spec fn json_whitelist(json: JsonView) -> Result<Seq<Network>, Seq<char>> {
    match json.get("ip_whitelist"@) {
        None => Ok(Seq::empty()),
        Some(JsonView::Array(items)) => parse_items(items),
        Some(_) => Err("Config key ip_whitelist must be an array of CIDR strings"@),
    }
}

proof fn lemma_items_fail(items: Seq<JsonView>, k: int)
    requires
        0 <= k <= items.len(),
        parse_items(items.take(k)) is Err,
    ensures
        parse_items(items) == parse_items(items.take(k)),
    decreases items.len() - k,
{
    if k == items.len() {
        assert(items.take(k) =~= items);
    } else {
        assert(items.take(k + 1).drop_last() =~= items.take(k));
        lemma_items_fail(items, k + 1);
    }
}

fn parse_whitelist_items(items: &Vec<Json>) -> (r: Result<Vec<Cidr>, String>)
    ensures
        shows_networks(r, parse_items(json::views(items@))),
{
    let ghost all = json::views(items@);
    let mut nets: Vec<Cidr> = Vec::new();
    let mut i: usize = 0;
    proof {
        assert(all.take(0) =~= Seq::<JsonView>::empty());
        assert(networks(nets@) =~= Seq::<Network>::empty());
    }
    while i < items.len()
        invariant
            i <= items.len(),
            all == json::views(items@),
            parse_items(all.take(i as int)) == Ok::<Seq<Network>, Seq<char>>(networks(nets@)),
        decreases items.len() - i,
    {
        let ghost done = networks(nets@);
        proof {
            assert(all.take(i + 1).drop_last() =~= all.take(i as int));
            assert(all.take(i + 1).last() == items@[i as int]@);
        }
        match items[i].as_str() {
            None => {
                proof {
                    lemma_items_fail(all, i + 1);
                }
                return Err("Config key ip_whitelist must contain only strings".to_owned());
            },
            Some(entry) => match Cidr::parse(entry) {
                Ok(net) => {
                    nets.push(net);
                    proof {
                        assert(networks(nets@) =~= done.push(net@));
                    }
                },
                Err(message) => {
                    proof {
                        lemma_items_fail(all, i + 1);
                    }
                    return Err(message);
                },
            },
        }
        i = i + 1;
    }
    proof {
        assert(all.take(i as int) =~= all);
    }
    Ok(nets)
}

/// Parse the optional `ip_whitelist` JSON array (config-file form). Absent =>
/// empty list.
pub fn parse_whitelist_json(json: &Json) -> (r: Result<Vec<Cidr>, String>)
    ensures
        shows_networks(r, json_whitelist(json@)),
{
    match json.get("ip_whitelist") {
        None => {
            let nets: Vec<Cidr> = Vec::new();
            proof {
                assert(networks(nets@) =~= Seq::<Network>::empty());
            }
            Ok(nets)
        },
        Some(Json::Array(items)) => {
            proof {
                json::array_view(*items);
            }
            parse_whitelist_items(items)
        },
        Some(_) => Err("Config key ip_whitelist must be an array of CIDR strings".to_owned()),
    }
}

// ---------------------------------------------------------------------------
// Configuration files
// ---------------------------------------------------------------------------
/// What is said of a key that is not there.
pub open spec fn missing_key(key: Seq<char>) -> Seq<char> {
    "Missing key: "@ + key + " in config"@
}

/// The text that a key must have.
pub open spec fn required_str(json: JsonView, key: Seq<char>) -> Result<Seq<char>, Seq<char>> {
    match json.get(key) {
        None => Err(missing_key(key)),
        Some(value) => match value.as_str() {
            Some(s) => Ok(s),
            None => Err("Key "@ + key + " must be a string"@),
        },
    }
}

/// The number that a key must have.
pub open spec fn required_u64(json: JsonView, key: Seq<char>) -> Result<u64, Seq<char>> {
    match json.get(key) {
        None => Err(missing_key(key)),
        Some(value) => match value.as_u64() {
            Some(n) => Ok(n),
            None => Err("Key "@ + key + " must be a non-negative number"@),
        },
    }
}

/// Whether a result of the code shows the text or the message.
pub open spec fn shows_text(
    r: Result<String, String>,
    expected: Result<Seq<char>, Seq<char>>,
) -> bool {
    match r {
        Ok(s) => expected == Ok::<Seq<char>, Seq<char>>(s@),
        Err(message) => expected == Err::<Seq<char>, Seq<char>>(message@),
    }
}

/// The text of a key that must be there.
pub fn require_str(json: &Json, key: &str) -> (r: Result<String, String>)
    ensures
        shows_text(r, required_str(json@, key@)),
{
    match json.get(key) {
        None => Err(text::joined3("Missing key: ", key, " in config")),
        Some(value) => match value.as_str() {
            Some(s) => Ok(s.to_owned()),
            None => Err(text::joined3("Key ", key, " must be a string")),
        },
    }
}

/// The number of a key that must be there.
pub fn require_u64(json: &Json, key: &str) -> (r: Result<u64, String>)
    ensures
        match r {
            Ok(n) => required_u64(json@, key@) == Ok::<u64, Seq<char>>(n),
            Err(message) => required_u64(json@, key@) == Err::<u64, Seq<char>>(message@),
        },
{
    match json.get(key) {
        None => Err(text::joined3("Missing key: ", key, " in config")),
        Some(value) => match value.as_u64() {
            Some(n) => Ok(n),
            None => Err(text::joined3("Key ", key, " must be a non-negative number")),
        },
    }
}

/// The settings of a configuration file, before the listen address and the
/// databases folder are looked up. A packet size that is missing or wrong is
/// reported only after the databases folder was found.
#[derive(Debug)]
pub struct FileSettings {
    pub listen_ip: String,
    pub listen_port: u16,
    pub busy_timeout_ms: u64,
    pub auth: String,
    pub ip_whitelist: Vec<Cidr>,
    pub workers: usize,
    pub databases_folder: String,
    pub client_max_packet_size: Result<u32, String>,
}

/// The settings of a configuration file with their texts as sequences.
pub struct SettingsView {
    pub listen_ip: Seq<char>,
    pub listen_port: nat,
    pub busy_timeout_ms: u64,
    pub auth: Seq<char>,
    pub ip_whitelist: Seq<Network>,
    pub workers: usize,
    pub databases_folder: Seq<char>,
    pub client_max_packet_size: Result<nat, Seq<char>>,
}

impl View for FileSettings {
    type V = SettingsView;

    open spec fn view(&self) -> SettingsView {
        SettingsView {
            listen_ip: self.listen_ip@,
            listen_port: self.listen_port as nat,
            busy_timeout_ms: self.busy_timeout_ms,
            auth: self.auth@,
            ip_whitelist: networks(self.ip_whitelist@),
            workers: self.workers,
            databases_folder: self.databases_folder@,
            client_max_packet_size: match self.client_max_packet_size {
                Ok(n) => Ok(n as nat),
                Err(message) => Err(message@),
            },
        }
    }
}

/// The busy timeout of a configuration file: the default where the key is
/// absent.
pub open spec fn busy_timeout(json: JsonView) -> Result<u64, Seq<char>> {
    match json.get("busy_timeout_ms"@) {
        None => Ok(DEFAULT_BUSY_TIMEOUT_MS),
        Some(value) => match value.as_u64() {
            Some(n) => Ok(n),
            None => Err("Key busy_timeout_ms must be a non-negative number"@),
        },
    }
}

/// The password of a configuration file: empty where the key is absent.
pub open spec fn password(json: JsonView) -> Result<Seq<char>, Seq<char>> {
    match json.get("auth"@) {
        None => Ok(Seq::empty()),
        Some(value) => match value.as_str() {
            Some(s) => Ok(s),
            None => Err("Key auth must be a string"@),
        },
    }
}

/// The packet size of a configuration file, by its lowest 32 bits.
pub open spec fn packet_size(json: JsonView) -> Result<nat, Seq<char>> {
    match required_u64(json, "client_max_packet_size"@) {
        Ok(n) => Ok((n % 0x1_0000_0000) as nat),
        Err(message) => Err(message),
    }
}

/// The settings that a configuration file holds, or what is said of the first
/// key that is missing or wrong. Of the port the lowest 16 bits count.
pub open spec fn settings(json: JsonView) -> Result<SettingsView, Seq<char>> {
    match (
        required_str(json, "listen_ip"@),
        required_u64(json, "listen_port"@),
        busy_timeout(json),
        password(json),
        json_whitelist(json),
        required_u64(json, "workers"@),
        required_str(json, "databases_folder"@),
    ) {
        (Err(message), _, _, _, _, _, _) => Err(message),
        (_, Err(message), _, _, _, _, _) => Err(message),
        (_, _, Err(message), _, _, _, _) => Err(message),
        (_, _, _, Err(message), _, _, _) => Err(message),
        (_, _, _, _, Err(message), _, _) => Err(message),
        (_, _, _, _, _, Err(message), _) => Err(message),
        (_, _, _, _, _, _, Err(message)) => Err(message),
        (Ok(ip), Ok(port), Ok(timeout), Ok(auth), Ok(whitelist), Ok(workers), Ok(folder)) => Ok(
            SettingsView {
                listen_ip: ip,
                listen_port: (port % 0x1_0000) as nat,
                busy_timeout_ms: timeout,
                auth,
                ip_whitelist: whitelist,
                workers: workers as usize,
                databases_folder: folder,
                client_max_packet_size: packet_size(json),
            },
        ),
    }
}

/// Whether a result of the code shows the settings or the message.
pub open spec fn shows_settings(
    r: Result<FileSettings, String>,
    expected: Result<SettingsView, Seq<char>>,
) -> bool {
    match r {
        Ok(s) => expected == Ok::<SettingsView, Seq<char>>(s@),
        Err(message) => expected == Err::<SettingsView, Seq<char>>(message@),
    }
}

fn read_busy_timeout(json: &Json) -> (r: Result<u64, String>)
    ensures
        match r {
            Ok(n) => busy_timeout(json@) == Ok::<u64, Seq<char>>(n),
            Err(message) => busy_timeout(json@) == Err::<u64, Seq<char>>(message@),
        },
{
    match json.get("busy_timeout_ms") {
        None => Ok(DEFAULT_BUSY_TIMEOUT_MS),
        Some(value) => match value.as_u64() {
            Some(n) => Ok(n),
            None => Err("Key busy_timeout_ms must be a non-negative number".to_owned()),
        },
    }
}

fn read_password(json: &Json) -> (r: Result<String, String>)
    ensures
        shows_text(r, password(json@)),
{
    match json.get("auth") {
        None => Ok(String::new()),
        Some(value) => match value.as_str() {
            Some(s) => Ok(s.to_owned()),
            None => Err("Key auth must be a string".to_owned()),
        },
    }
}

fn read_packet_size(json: &Json) -> (r: Result<u32, String>)
    ensures
        match r {
            Ok(n) => packet_size(json@) == Ok::<nat, Seq<char>>(n as nat),
            Err(message) => packet_size(json@) == Err::<nat, Seq<char>>(message@),
        },
{
    match require_u64(json, "client_max_packet_size") {
        Ok(n) => Ok((n % 0x1_0000_0000) as u32),
        Err(message) => Err(message),
    }
}

/// The settings that a configuration file's value holds.
pub fn read_settings(json: &Json) -> (r: Result<FileSettings, String>)
    ensures
        shows_settings(r, settings(json@)),
{
    let listen_ip: String = match require_str(json, "listen_ip") {
        Ok(s) => s,
        Err(message) => return Err(message),
    };
    let listen_port: u16 = match require_u64(json, "listen_port") {
        Ok(n) => (n % 0x1_0000) as u16,
        Err(message) => return Err(message),
    };
    let busy_timeout_ms: u64 = match read_busy_timeout(json) {
        Ok(n) => n,
        Err(message) => return Err(message),
    };
    let auth: String = match read_password(json) {
        Ok(s) => s,
        Err(message) => return Err(message),
    };
    let ip_whitelist: Vec<Cidr> = match parse_whitelist_json(json) {
        Ok(nets) => nets,
        Err(message) => return Err(message),
    };
    let workers: usize = match require_u64(json, "workers") {
        Ok(n) => n as usize,
        Err(message) => return Err(message),
    };
    let databases_folder: String = match require_str(json, "databases_folder") {
        Ok(s) => s,
        Err(message) => return Err(message),
    };
    let client_max_packet_size: Result<u32, String> = read_packet_size(json);
    Ok(
        FileSettings {
            listen_ip,
            listen_port,
            busy_timeout_ms,
            auth,
            ip_whitelist,
            workers,
            databases_folder,
            client_max_packet_size,
        },
    )
}

/// What the file system says of a configuration file: it is not there, it
/// cannot be read (with the error's text), or it holds a text.
#[derive(Debug)]
pub enum ConfigFile {
    Missing,
    Unreadable(String),
    Text(String),
}

/// The settings of what a file holds, or what is said of the file. `parsed` is
/// what its text reads as.
pub open spec fn file_settings(
    path: Seq<char>,
    file: ConfigFile,
    parsed: Result<JsonView, Seq<char>>,
) -> Result<SettingsView, Seq<char>> {
    match file {
        ConfigFile::Missing => Err("Config file does not exist in: "@ + path),
        ConfigFile::Unreadable(error) => Err("Config read error: "@ + error@),
        ConfigFile::Text(_) => match parsed {
            Err(message) => Err("Config parse error: "@ + message),
            Ok(json) => settings(json),
        },
    }
}

/// The text of a file that could be read.
pub open spec fn file_text(file: ConfigFile) -> Seq<char> {
    match file {
        ConfigFile::Text(s) => s@,
        _ => Seq::empty(),
    }
}

/// The settings of the configuration file at `path`.
pub fn from_file(path: &str, file: &ConfigFile) -> (r: Result<FileSettings, String>)
    ensures
        shows_settings(r, file_settings(path@, *file, json::json_text(file_text(*file)))),
{
    match file {
        ConfigFile::Missing => Err(text::joined("Config file does not exist in: ", path)),
        ConfigFile::Unreadable(error) => Err(text::joined("Config read error: ", error)),
        ConfigFile::Text(s) => match json::parse_json(s) {
            Err(message) => Err(text::joined("Config parse error: ", &message)),
            Ok(json) => read_settings(&json),
        },
    }
}

// ---------------------------------------------------------------------------
// Looking up the surroundings
// ---------------------------------------------------------------------------
/// The address that is listened on when nothing else is known.
pub open spec fn fallback_ip() -> Address {
    Address::V4(seq![127u8, 0, 0, 1])
}

/// The first IPv4 address among the first `n`.
pub open spec fn first_ipv4(addrs: Seq<SocketAddr>, n: nat) -> Option<SocketAddr>
    decreases n,
{
    if n == 0 {
        None
    } else {
        match first_ipv4(addrs, (n - 1) as nat) {
            Some(addr) => Some(addr),
            None => if addrs[n - 1].ip@ is V4 {
                Some(addrs[n - 1])
            } else {
                None
            },
        }
    }
}

/// The socket address of a host and a port. A host that is an address stands
/// for itself; of what was found for another one (nothing, where the search
/// failed) the first IPv4 address counts, else the first of all, else
/// 127.0.0.1:3333.
pub open spec fn endpoint(
    ip: Seq<char>,
    port: u16,
    found: Option<Vec<SocketAddr>>,
) -> SocketView {
    match (address::parse_address(ip), found) {
        (Some(a), _) => address::plain_socket(a, port),
        (None, Some(addrs)) => match first_ipv4(addrs@, addrs@.len()) {
            Some(addr) => addr@,
            None => if addrs@.len() > 0 {
                addrs@[0]@
            } else {
                address::plain_socket(fallback_ip(), 3333)
            },
        },
        (None, None) => address::plain_socket(fallback_ip(), 3333),
    }
}

/// Resolve `ip:port` to a socket address, preferring IPv4, falling back to
/// 127.0.0.1:3333 if resolution fails. `found` is what the resolver says of the
/// host.
pub fn resolve_endpoint(ip: &str, port: u16, found: &Option<Vec<SocketAddr>>) -> (r: SocketAddr)
    ensures
        r@ == endpoint(ip@, port, *found),
{
    if let Some(addr) = IpAddr::parse(ip) {
        return SocketAddr::new(addr, port);
    }
    let octets: [u8; 4] = [127, 0, 0, 1];
    let fallback: SocketAddr = SocketAddr::new(IpAddr::V4(octets), 3333);
    proof {
        assert(octets@ =~= seq![127u8, 0, 0, 1]);
    }
    match found {
        Some(addrs) => {
            let mut i: usize = 0;
            while i < addrs.len()
                invariant
                    i <= addrs.len(),
                    address::parse_address(ip@) is None,
                    *found == Some(*addrs),
                    first_ipv4(addrs@, i as nat) is None,
                decreases addrs.len() - i,
            {
                if addrs[i].ip.is_ipv4() {
                    proof {
                        lemma_first_ipv4_stays(addrs@, (i + 1) as nat, addrs@.len());
                    }
                    return addrs[i];
                }
                i = i + 1;
            }
            if addrs.len() > 0 {
                addrs[0]
            } else {
                fallback
            }
        },
        None => fallback,
    }
}

proof fn lemma_first_ipv4_stays(addrs: Seq<SocketAddr>, n: nat, m: nat)
    requires
        n <= m,
        first_ipv4(addrs, n) is Some,
    ensures
        first_ipv4(addrs, m) == first_ipv4(addrs, n),
    decreases m,
{
    if n < m {
        lemma_first_ipv4_stays(addrs, n, (m - 1) as nat);
    }
}

/// Where a path starts, as the platform reads it: it is absolute; it starts at
/// the current directory, which is given; it starts there on a platform that
/// does not join paths by a slash, and the joined path is given; or it starts
/// there and the current directory is unknown (with the error's text).
#[derive(Debug)]
pub enum Start {
    Absolute,
    CurrentDir(String),
    Joined(String),
    Unknown(String),
}

/// What the system says of the databases folder: where its path starts, and
/// whether something is at the absolute path.
#[derive(Debug)]
pub struct Folder {
    pub start: Start,
    pub exists: bool,
}

/// A relative path behind a directory, with one slash between them.
pub open spec fn joined_path(dir: Seq<char>, path: Seq<char>) -> Seq<char> {
    if dir.len() == 0 || dir.last() == '/' {
        dir + path
    } else {
        dir + "/"@ + path
    }
}

/// The absolute path of a path: itself, or what it is from the current
/// directory.
pub open spec fn absolute_path(path: Seq<char>, start: Start) -> Result<Seq<char>, Seq<char>> {
    match start {
        Start::Absolute => Ok(path),
        Start::CurrentDir(dir) => Ok(joined_path(dir@, path)),
        Start::Joined(joined) => Ok(joined@),
        Start::Unknown(error) => Err("Cannot resolve current directory: "@ + error@),
    }
}

/// The absolute path of the databases folder, or what is said where there is
/// none. The folder is never created by the server.
pub open spec fn folder_path(path: Seq<char>, folder: Folder) -> Result<Seq<char>, Seq<char>> {
    match absolute_path(path, folder.start) {
        Err(message) => Err(message),
        Ok(absolute) => if folder.exists {
            Ok(absolute)
        } else {
            Err("Databases folder does not exist in: "@ + absolute)
        },
    }
}

fn join_path(dir: &str, path: &str) -> (r: String)
    ensures
        r@ == joined_path(dir@, path@),
{
    let chars: Vec<char> = text::to_chars(dir);
    if chars.len() == 0 || chars[chars.len() - 1] == '/' {
        text::joined(dir, path)
    } else {
        text::joined3(dir, "/", path)
    }
}

fn make_absolute(path: &str, start: &Start) -> (r: Result<String, String>)
    ensures
        shows_text(r, absolute_path(path@, *start)),
{
    match start {
        Start::Absolute => Ok(path.to_owned()),
        Start::CurrentDir(dir) => Ok(join_path(dir, path)),
        Start::Joined(joined) => Ok(joined.clone()),
        Start::Unknown(error) => Err(text::joined("Cannot resolve current directory: ", error)),
    }
}

/// Make the databases folder absolute and confirm it exists. The folder is
/// never created by the server (individual database files inside it are created
/// on demand).
pub fn resolve_database_path(path: &str, folder: &Folder) -> (r: Result<String, String>)
    ensures
        shows_text(r, folder_path(path@, *folder)),
{
    match make_absolute(path, &folder.start) {
        Err(message) => Err(message),
        Ok(absolute) => if folder.exists {
            Ok(absolute)
        } else {
            Err(text::joined("Databases folder does not exist in: ", &absolute))
        },
    }
}

/// The number of worker threads where none is asked for: that of the processor
/// cores, or one where it is unknown.
pub fn default_workers(cores: Option<usize>) -> (r: usize)
    ensures
        r == (match cores {
            Some(n) => n,
            None => 1,
        }),
{
    match cores {
        Some(n) => n,
        None => 1,
    }
}

// ---------------------------------------------------------------------------
// Putting a configuration together
// ---------------------------------------------------------------------------
/// A configuration with its texts as sequences.
pub struct ConfigView {
    pub listen_addr: SocketView,
    pub workers: usize,
    pub databases_folder: Seq<char>,
    pub client_max_packet_size: nat,
    pub busy_timeout_ms: u64,
    pub auth: Seq<char>,
    pub ip_whitelist: Seq<Network>,
}

impl View for Config {
    type V = ConfigView;

    open spec fn view(&self) -> ConfigView {
        ConfigView {
            listen_addr: self.listen_addr@,
            workers: self.workers,
            databases_folder: self.databases_folder@,
            client_max_packet_size: self.client_max_packet_size as nat,
            busy_timeout_ms: self.busy_timeout_ms,
            auth: self.auth@,
            ip_whitelist: networks(self.ip_whitelist@),
        }
    }
}

/// Whether a result of the code shows the configuration or the message.
pub open spec fn shows_config(
    r: Result<Config, String>,
    expected: Result<ConfigView, Seq<char>>,
) -> bool {
    match r {
        Ok(config) => expected == Ok::<ConfigView, Seq<char>>(config@),
        Err(message) => expected == Err::<ConfigView, Seq<char>>(message@),
    }
}

/// The configuration of a file's settings with what was looked up.
pub open spec fn file_config(
    settings: SettingsView,
    found: Option<Vec<SocketAddr>>,
    folder: Folder,
) -> Result<ConfigView, Seq<char>> {
    match (
        folder_path(settings.databases_folder, folder),
        settings.client_max_packet_size,
    ) {
        (Err(message), _) => Err(message),
        (_, Err(message)) => Err(message),
        (Ok(path), Ok(size)) => Ok(
            ConfigView {
                listen_addr: endpoint(
                    settings.listen_ip,
                    settings.listen_port as u16,
                    found,
                ),
                workers: settings.workers,
                databases_folder: path,
                client_max_packet_size: size,
                busy_timeout_ms: settings.busy_timeout_ms,
                auth: settings.auth,
                ip_whitelist: settings.ip_whitelist,
            },
        ),
    }
}

impl FileSettings {
    /// The configuration of a file's settings, once the resolver was asked for
    /// the listen address and the databases folder was looked for.
    pub fn into_config(self, found: &Option<Vec<SocketAddr>>, folder: &Folder) -> (r: Result<
        Config,
        String,
    >)
        ensures
            shows_config(r, file_config(self@, *found, *folder)),
    {
        let listen_addr: SocketAddr = resolve_endpoint(&self.listen_ip, self.listen_port, found);
        let databases_folder: String = match resolve_database_path(
            &self.databases_folder,
            folder,
        ) {
            Ok(path) => path,
            Err(message) => return Err(message),
        };
        let client_max_packet_size: u32 = match self.client_max_packet_size {
            Ok(n) => n,
            Err(message) => return Err(message),
        };
        Ok(
            Config {
                listen_addr,
                workers: self.workers,
                databases_folder,
                client_max_packet_size,
                busy_timeout_ms: self.busy_timeout_ms,
                auth: self.auth,
                ip_whitelist: self.ip_whitelist,
            },
        )
    }
}

/// The command line's arguments.
#[derive(Debug)]
pub struct Args {
    pub version: bool,
    pub config: Option<String>,
    pub ip: String,
    pub port: u16,
    pub auth: String,
    pub ip_whitelist: String,
    pub databases_folder: String,
    pub workers: Option<usize>,
    pub client_max_packet_size: u32,
    pub busy_timeout_ms: u64,
}

/// What the command line asks for: the version, the settings of a file (the
/// other flags are then ignored), or the settings of the flags.
#[derive(Debug)]
pub enum Startup {
    ShowVersion,
    FromFile(String),
    FromFlags(Args),
}

/// Decide what the command line asks for.
pub fn parse(args: Args) -> (r: Startup)
    ensures
        match r {
            Startup::ShowVersion => args.version,
            Startup::FromFile(path) => !args.version && args.config == Some(path),
            Startup::FromFlags(flags) => !args.version && args.config is None && flags == args,
        },
{
    if args.version {
        return Startup::ShowVersion;
    }
    match args.config {
        Some(path) => Startup::FromFile(path),
        None => Startup::FromFlags(
            Args {
                version: args.version,
                config: None,
                ip: args.ip,
                port: args.port,
                auth: args.auth,
                ip_whitelist: args.ip_whitelist,
                databases_folder: args.databases_folder,
                workers: args.workers,
                client_max_packet_size: args.client_max_packet_size,
                busy_timeout_ms: args.busy_timeout_ms,
            },
        ),
    }
}

/// The version text: the branch and the commit that the server was built from.
pub fn version_text(branch: &str, commit: &str) -> (r: String)
    ensures
        r@ == "GIT Branch: "@ + branch@ + "\nGIT Commit hash: "@ + commit@,
{
    let head: String = text::joined3("GIT Branch: ", branch, "\nGIT Commit hash: ");
    text::joined(&head, commit)
}

/// The configuration of the flags with what was looked up.
pub open spec fn flags_config(
    args: Args,
    found: Option<Vec<SocketAddr>>,
    cores: Option<usize>,
    folder: Folder,
) -> Result<ConfigView, Seq<char>> {
    match (folder_path(args.databases_folder@, folder), csv_whitelist(args.ip_whitelist@)) {
        (Err(message), _) => Err(message),
        (_, Err(message)) => Err(message),
        (Ok(path), Ok(whitelist)) => Ok(
            ConfigView {
                listen_addr: endpoint(args.ip@, args.port, found),
                workers: match (args.workers, cores) {
                    (Some(n), _) => n,
                    (None, Some(n)) => n,
                    (None, None) => 1,
                },
                databases_folder: path,
                client_max_packet_size: args.client_max_packet_size as nat,
                busy_timeout_ms: args.busy_timeout_ms,
                auth: args.auth@,
                ip_whitelist: whitelist,
            },
        ),
    }
}

/// The configuration of the flags, once the resolver was asked for the listen
/// address, the cores are counted and the databases folder was looked for.
pub fn from_flags(
    args: Args,
    found: &Option<Vec<SocketAddr>>,
    cores: Option<usize>,
    folder: &Folder,
) -> (r: Result<Config, String>)
    ensures
        shows_config(r, flags_config(args, *found, cores, *folder)),
{
    let listen_addr: SocketAddr = resolve_endpoint(&args.ip, args.port, found);
    let workers: usize = match args.workers {
        Some(n) => n,
        None => default_workers(cores),
    };
    let databases_folder: String = match resolve_database_path(&args.databases_folder, folder) {
        Ok(path) => path,
        Err(message) => return Err(message),
    };
    let ip_whitelist: Vec<Cidr> = match parse_whitelist_csv(&args.ip_whitelist) {
        Ok(nets) => nets,
        Err(message) => return Err(message),
    };
    Ok(
        Config {
            listen_addr,
            workers,
            databases_folder,
            client_max_packet_size: args.client_max_packet_size,
            busy_timeout_ms: args.busy_timeout_ms,
            auth: args.auth,
            ip_whitelist,
        },
    )
}

// ---------------------------------------------------------------------------
// Laws
// ---------------------------------------------------------------------------
/// An empty whitelist admits every address.
pub proof fn empty_whitelist_admits_all(ip: Address)
    ensures
        admits(Seq::empty(), ip),
{
}

/// A whitelist admits exactly the addresses that one of its entries admits on
/// its own.
pub proof fn entries_admit_on_their_own(whitelist: Seq<Network>, ip: Address)
    requires
        whitelist.len() > 0,
    ensures
        admits(whitelist, ip) <==> exists|i: int|
            0 <= i < whitelist.len() && admits(seq![#[trigger] whitelist[i]], ip),
{
    if admits(whitelist, ip) {
        let i = choose|i: int| 0 <= i < whitelist.len() && (#[trigger] whitelist[i]).has(ip);
        assert(seq![whitelist[i]][0].has(ip));
        assert(admits(seq![whitelist[i]], ip));
    }
    if exists|i: int| 0 <= i < whitelist.len() && admits(seq![#[trigger] whitelist[i]], ip) {
        let i = choose|i: int|
            0 <= i < whitelist.len() && admits(seq![#[trigger] whitelist[i]], ip);
        assert(whitelist[i].has(ip));
    }
}

/// A blank entry anywhere in a list changes nothing.
pub proof fn blank_entries_are_skipped(
    front: Seq<Seq<char>>,
    blank: Seq<char>,
    back: Seq<Seq<char>>,
)
    requires
        forall|i: int| 0 <= i < blank.len() ==> text::is_white_space(#[trigger] blank[i]),
    ensures
        trimmed_parts(front.push(blank) + back) == trimmed_parts(front + back),
    decreases back.len(),
{
    if back.len() == 0 {
        text::lemma_trimmed_empty(blank);
        assert(front.push(blank) + back =~= front.push(blank));
        assert(front.push(blank).drop_last() =~= front);
        assert(front + back =~= front);
    } else {
        blank_entries_are_skipped(front, blank, back.drop_last());
        assert((front.push(blank) + back).drop_last() =~= front.push(blank) + back.drop_last());
        assert((front + back).drop_last() =~= front + back.drop_last());
    }
}

proof fn lemma_blank_parts(parts: Seq<Seq<char>>)
    requires
        forall|i: int, j: int|
            0 <= i < parts.len() && 0 <= j < parts[i].len() ==> text::is_white_space(
                #[trigger] parts[i][j],
            ),
    ensures
        trimmed_parts(parts) == Seq::<Seq<char>>::empty(),
    decreases parts.len(),
{
    if parts.len() > 0 {
        let rest = parts.drop_last();
        assert forall|i: int, j: int|
            0 <= i < rest.len() && 0 <= j < rest[i].len() implies text::is_white_space(
            #[trigger] rest[i][j],
        ) by {
            assert(text::is_white_space(parts[i][j]));
        }
        lemma_blank_parts(rest);
        let last = parts.last();
        assert forall|j: int| 0 <= j < last.len() implies text::is_white_space(
            #[trigger] last[j],
        ) by {
            assert(text::is_white_space(parts[parts.len() - 1][j]));
        }
        text::lemma_trimmed_empty(last);
    }
}

/// A list of nothing but white space and commas is an empty whitelist.
pub proof fn blank_list_is_empty(s: Seq<char>)
    requires
        forall|i: int|
            0 <= i < s.len() ==> (#[trigger] s[i]) == ',' || text::is_white_space(s[i]),
    ensures
        csv_whitelist(s) == Ok::<Seq<Network>, Seq<char>>(Seq::empty()),
{
    let parts = text::split(s, ',');
    assert forall|i: int, j: int|
        0 <= i < parts.len() && 0 <= j < parts[i].len() implies text::is_white_space(
        #[trigger] parts[i][j],
    ) by {
        text::lemma_split_characters(s, ',', i, j);
    }
    lemma_blank_parts(parts);
}

/// The entries of a configuration file write the same whitelist as those of a
/// flag.
pub proof fn file_and_flag_entries_agree(entries: Seq<Seq<char>>)
    ensures
        parse_items(entries.map_values(|entry: Seq<char>| JsonView::Str(entry))) == parse_entries(
            entries,
        ),
    decreases entries.len(),
{
    let items = entries.map_values(|entry: Seq<char>| JsonView::Str(entry));
    if entries.len() > 0 {
        file_and_flag_entries_agree(entries.drop_last());
        assert(items.drop_last() =~= entries.drop_last().map_values(
            |entry: Seq<char>| JsonView::Str(entry),
        ));
    }
}

/// The texts of the networks.
pub open spec fn network_texts(whitelist: Seq<Network>) -> Seq<Seq<char>> {
    whitelist.map_values(|net: Network| cidr::format_network(net))
}

/// The texts with a space before each but the first.
spec fn spaced(parts: Seq<Seq<char>>) -> Seq<Seq<char>> {
    parts.map(
        |i: int, part: Seq<char>|
            if i == 0 {
                part
            } else {
                seq![' '] + part
            },
    )
}

proof fn lemma_join_spaced(parts: Seq<Seq<char>>)
    ensures
        text::join(parts, ", "@) == text::join(spaced(parts), seq![',']),
    decreases parts.len(),
{
    reveal_strlit(", ");
    assert(", "@ =~= seq![',', ' ']);
    if parts.len() > 1 {
        lemma_join_spaced(parts.drop_last());
        assert(spaced(parts).drop_last() =~= spaced(parts.drop_last()));
        let head = text::join(parts.drop_last(), ", "@);
        assert(head + ", "@ + parts.last() =~= head + seq![','] + (seq![' '] + parts.last()));
    }
}

/// Whether a text has neither commas nor white space, and is not empty.
spec fn compact(s: Seq<char>) -> bool {
    s.len() > 0 && forall|i: int|
        0 <= i < s.len() ==> (#[trigger] s[i]) != ',' && !text::is_white_space(s[i])
}

proof fn lemma_network_compact(n: Network)
    ensures
        compact(cidr::format_network(n)),
{
    let s = cidr::format_network(n);
    assert forall|i: int| 0 <= i < s.len() implies (#[trigger] s[i]) != ','
        && !text::is_white_space(s[i]) by {
        let c = s[i];
        assert(s.contains(c));
        if c == ',' || text::is_white_space(c) {
            cidr::network_characters(n, c);
        }
    }
}

proof fn lemma_trimmed_compact(s: Seq<char>)
    requires
        compact(s),
    ensures
        text::trimmed(s) == s,
        text::trimmed(seq![' '] + s) == s,
{
    let t = seq![' '] + s;
    assert(!text::is_white_space(s[0]));
    assert(!text::is_white_space(s[s.len() - 1]));
    assert(t.drop_first() =~= s);
    assert(text::trimmed_start(s) == s);
    assert(text::trimmed_start(t) == text::trimmed_start(s));
}

proof fn lemma_trimmed_parts_spaced(parts: Seq<Seq<char>>)
    requires
        forall|i: int| 0 <= i < parts.len() ==> compact(#[trigger] parts[i]),
    ensures
        trimmed_parts(spaced(parts)) == parts,
    decreases parts.len(),
{
    if parts.len() > 0 {
        let rest = parts.drop_last();
        assert forall|i: int| 0 <= i < rest.len() implies compact(#[trigger] rest[i]) by {
            assert(rest[i] == parts[i]);
        }
        lemma_trimmed_parts_spaced(rest);
        assert(spaced(parts).drop_last() =~= spaced(rest));
        assert(compact(parts[parts.len() - 1]));
        lemma_trimmed_compact(parts.last());
        assert(rest.push(parts.last()) =~= parts);
    } else {
        assert(trimmed_parts(spaced(parts)) =~= parts);
    }
}

proof fn lemma_parse_network_texts(whitelist: Seq<Network>)
    requires
        forall|i: int| 0 <= i < whitelist.len() ==> (#[trigger] whitelist[i]).wf(),
    ensures
        parse_entries(network_texts(whitelist)) == Ok::<Seq<Network>, Seq<char>>(whitelist),
    decreases whitelist.len(),
{
    if whitelist.len() > 0 {
        let rest = whitelist.drop_last();
        assert forall|i: int| 0 <= i < rest.len() implies (#[trigger] rest[i]).wf() by {
            assert(rest[i] == whitelist[i]);
        }
        lemma_parse_network_texts(rest);
        assert(network_texts(whitelist).drop_last() =~= network_texts(rest));
        assert(whitelist[whitelist.len() - 1].wf());
        cidr::network_roundtrip(whitelist.last());
        assert(rest.push(whitelist.last()) =~= whitelist);
    } else {
        assert(whitelist =~= Seq::<Network>::empty());
    }
}

/// The text form of a whitelist that is not empty can be given as a flag: it is
/// read as the same whitelist.
pub proof fn whitelist_roundtrip(whitelist: Seq<Network>)
    requires
        whitelist.len() > 0,
        forall|i: int| 0 <= i < whitelist.len() ==> (#[trigger] whitelist[i]).wf(),
    ensures
        csv_whitelist(format_whitelist(whitelist)) == Ok::<Seq<Network>, Seq<char>>(whitelist),
{
    let parts = network_texts(whitelist);
    assert forall|i: int| 0 <= i < parts.len() implies compact(#[trigger] parts[i]) by {
        lemma_network_compact(whitelist[i]);
    }
    let apart = spaced(parts);
    assert forall|i: int| 0 <= i < apart.len() implies !(#[trigger] apart[i]).contains(',') by {
        assert(compact(parts[i]));
        if apart[i].contains(',') {
            let k = choose|k: int| 0 <= k < apart[i].len() && apart[i][k] == ',';
            assert(apart[i][k] == if i == 0 {
                parts[i][k]
            } else {
                (seq![' '] + parts[i])[k]
            });
        }
    }
    lemma_join_spaced(parts);
    text::lemma_join_split(apart, ',');
    lemma_trimmed_parts_spaced(parts);
    lemma_parse_network_texts(whitelist);
}

/// A relative databases folder lies below the current directory, an absolute one
/// is where it says.
pub proof fn folder_starts_where_it_should(path: Seq<char>, dir: String)
    ensures
        folder_path(path, Folder { start: Start::Absolute, exists: true }) == Ok::<
            Seq<char>,
            Seq<char>,
        >(path),
        folder_path(path, Folder { start: Start::CurrentDir(dir), exists: true }) matches Ok(p)
            && p.take(dir@.len() as int) == dir@ && text::has_suffix(p, path),
{
    let p = joined_path(dir@, path);
    assert(p.take(dir@.len() as int) =~= dir@);
    assert(p.skip(p.len() - path.len()) =~= path);
}

/// An IPv4 address is chosen where there is one, and always one of those that
/// were found.
pub proof fn endpoint_prefers_ipv4(addrs: Seq<SocketAddr>, n: nat)
    requires
        n <= addrs.len(),
    ensures
        match first_ipv4(addrs, n) {
            Some(addr) => addr.ip@ is V4 && exists|i: int|
                0 <= i < n && #[trigger] addrs[i] == addr && forall|j: int|
                    0 <= j < i ==> !((#[trigger] addrs[j]).ip@ is V4),
            None => forall|i: int| 0 <= i < n ==> !((#[trigger] addrs[i]).ip@ is V4),
        },
    decreases n,
{
    if n > 0 {
        endpoint_prefers_ipv4(addrs, (n - 1) as nat);
        assert(addrs[n - 1] == addrs[n - 1]);
    }
}

} // verus!
