//! Laws of configuration: whitelists, files, flags and what they resolve to.
use vstd::prelude::*;

use crate::address::{Address, IpAddr, SocketAddr};
use crate::cidr;
use crate::cidr::Cidr;
use crate::config;
use crate::config::{Args, Config, ConfigFile, FileSettings, Folder, Start, Startup};
use crate::json;
use crate::json::{Json, JsonNumber, JsonView};
use crate::text;

verus! {

// ---------------------------------------------------------------------------
// Whitelists
// ---------------------------------------------------------------------------
/// A list without commas is blank, which is an empty whitelist, or it is one
/// entry, with white space round it or not.
pub proof fn a_list_of_one_entry(
    s: &str,
    chars: &Vec<char>,
    entry: Vec<char>,
    r: Result<Vec<Cidr>, String>,
)
    requires
        chars@ == s@,
        !s@.contains(','),
        call_ensures(text::trim, (chars,), entry),
        call_ensures(config::parse_whitelist_csv, (s,), r),
    ensures
        entry@.len() == 0 ==> (r matches Ok(nets) && nets@.len() == 0),
        entry@.len() > 0 ==> match cidr::parse_network(entry@) {
            Some(net) => r matches Ok(nets) && nets@.len() == 1 && nets@[0]@ == net,
            None => r matches Err(message) && message@ == "Invalid ip_whitelist entry: "@ + entry@,
        },
{
    let parts = seq![s@];
    assert(text::join(parts, seq![',']) == s@);
    text::lemma_join_split(parts, ',');
    assert(parts.drop_last() =~= Seq::<Seq<char>>::empty());
    let trimmed = config::trimmed_parts(parts);
    assert(config::trimmed_parts(parts.drop_last()) == Seq::<Seq<char>>::empty());
    if entry@.len() > 0 {
        assert(trimmed =~= seq![entry@]);
        assert(trimmed.drop_last() =~= Seq::<Seq<char>>::empty());
        assert(config::parse_entries(trimmed.drop_last()) == Ok::<
            Seq<cidr::Network>,
            Seq<char>,
        >(Seq::empty()));
        if let Ok(nets) = r {
            let all = config::networks(nets@);
            assert(all.len() == 1);
            assert(all[0] == nets@[0]@);
        }
    } else if let Ok(nets) = r {
        assert(config::networks(nets@).len() == 0);
    }
}

/// What stands behind a list's last comma adds the network that it writes to the
/// networks before it. Where it is blank it adds nothing; where it writes no
/// network, that is what is said, unless an entry before it was wrong.
#[verifier::rlimit(60)]
pub proof fn a_list_is_read_entry_by_entry(
    shorter: &str,
    longer: &str,
    last: &Vec<char>,
    entry: Vec<char>,
    few: Result<Vec<Cidr>, String>,
    more: Result<Vec<Cidr>, String>,
)
    requires
        longer@ == shorter@ + seq![','] + last@,
        !last@.contains(','),
        call_ensures(text::trim, (last,), entry),
        call_ensures(config::parse_whitelist_csv, (shorter,), few),
        call_ensures(config::parse_whitelist_csv, (longer,), more),
    ensures
        few matches Err(message) ==> (more matches Err(same) && same@ == message@),
        few matches Ok(nets) ==> if entry@.len() == 0 {
            more matches Ok(all) && all@.len() == nets@.len() && forall|i: int|
                0 <= i < nets@.len() ==> (#[trigger] all@[i])@ == nets@[i]@
        } else {
            match cidr::parse_network(entry@) {
                Some(net) => more matches Ok(all) && {
                    &&& all@.len() == nets@.len() + 1
                    &&& all@[nets@.len() as int]@ == net
                    &&& forall|i: int| 0 <= i < nets@.len() ==> (#[trigger] all@[i])@ == nets@[i]@
                },
                None => more matches Err(message) && message@ == "Invalid ip_whitelist entry: "@
                    + entry@,
            }
        },
{
    let head = shorter@ + seq![','];
    assert(head.drop_last() =~= shorter@);
    let parts = text::split(shorter@, ',');
    text::lemma_split_append(head, last@, ',');
    assert(text::split(head, ',') == parts.push(Seq::empty()));
    let all_parts = text::split(longer@, ',');
    assert(parts.push(Seq::<char>::empty()).drop_last() =~= parts);
    assert(Seq::<char>::empty() + last@ =~= last@);
    assert(all_parts =~= parts.push(last@));
    assert(all_parts.drop_last() =~= parts);
    let before = config::trimmed_parts(parts);
    let after = config::trimmed_parts(all_parts);
    if entry@.len() > 0 {
        assert(after == before.push(entry@));
        assert(after.drop_last() =~= before);
    }
    if let Ok(nets) = few {
        let a = config::networks(nets@);
        assert(forall|i: int| 0 <= i < nets@.len() ==> a[i] == (#[trigger] nets@[i])@);
        if let Ok(all) = more {
            let b = config::networks(all@);
            assert(forall|i: int| 0 <= i < all@.len() ==> b[i] == (#[trigger] all@[i])@);
            if entry@.len() > 0 {
                assert(b == a.push(cidr::parse_network(entry@)->0));
                assert(b[a.len() as int] == all@[a.len() as int]@);
            } else {
                assert(b == a);
            }
            assert forall|i: int| 0 <= i < nets@.len() implies (#[trigger] all@[i])@ == nets@[i]@ by {
                assert(b[i] == a[i]);
                assert(b[i] == all@[i]@);
                assert(a[i] == nets@[i]@);
            }
        }
    }
}

/// Whether an item of a configuration file's whitelist is a network.
pub open spec fn is_entry(item: JsonView) -> bool {
    item matches JsonView::Str(entry) && cidr::parse_network(entry) is Some
}

proof fn lemma_items(items: Seq<JsonView>)
    ensures
        config::parse_items(items) matches Ok(nets) ==> nets.len() == items.len() && forall|i: int|
            0 <= i < items.len() ==> (#[trigger] items[i] matches JsonView::Str(entry)
                && cidr::parse_network(entry) == Some(nets[i])),
        config::parse_items(items) matches Err(message) ==> exists|k: int|
            0 <= k < items.len() && !is_entry(#[trigger] items[k]) && (forall|i: int|
                0 <= i < k ==> is_entry(#[trigger] items[i])) && message == match items[k] {
                JsonView::Str(entry) => "Invalid ip_whitelist entry: "@ + entry,
                _ => "Config key ip_whitelist must contain only strings"@,
            },
    decreases items.len(),
{
    if items.len() > 0 {
        let rest = items.drop_last();
        let n = rest.len() as int;
        lemma_items(rest);
        match config::parse_items(rest) {
            Err(message) => {
                let k = choose|k: int|
                    0 <= k < rest.len() && !is_entry(#[trigger] rest[k]) && (forall|i: int|
                        0 <= i < k ==> is_entry(#[trigger] rest[i])) && message == match rest[k] {
                        JsonView::Str(entry) => "Invalid ip_whitelist entry: "@ + entry,
                        _ => "Config key ip_whitelist must contain only strings"@,
                    };
                assert(items[k] == rest[k]);
                assert forall|i: int| 0 <= i < k implies is_entry(#[trigger] items[i]) by {
                    assert(is_entry(rest[i]));
                }
            },
            Ok(nets) => {
                assert forall|i: int| 0 <= i < n implies (#[trigger] items[i] matches JsonView::Str(
                    entry,
                ) && cidr::parse_network(entry) == Some(nets[i])) by {
                    assert(rest[i] == items[i]);
                }
                if !is_entry(items[n]) {
                    assert forall|i: int| 0 <= i < n implies is_entry(#[trigger] items[i]) by {
                    }
                }
            },
        }
    }
}

/// A configuration file's whitelist: none where the key is absent. A list has
/// one network for each item, in order; it is refused for the first item that
/// is no string or no network. Another value is refused.
pub proof fn a_files_whitelist_has_all_its_items(json: &Json, r: Result<Vec<Cidr>, String>)
    requires
        call_ensures(config::parse_whitelist_json, (json,), r),
    ensures
        json@.get("ip_whitelist"@) is None ==> (r matches Ok(nets) && nets@.len() == 0),
        json@.get("ip_whitelist"@) matches Some(value) ==> (!(value is Array) ==> (
        r matches Err(message) && message@
            == "Config key ip_whitelist must be an array of CIDR strings"@)),
        json@.get("ip_whitelist"@) matches Some(JsonView::Array(items)) ==> {
            &&& r is Ok <==> forall|i: int| 0 <= i < items.len() ==> is_entry(#[trigger] items[i])
            &&& r matches Ok(nets) ==> nets@.len() == items.len() && forall|i: int|
                0 <= i < items.len() ==> (#[trigger] items[i] matches JsonView::Str(entry)
                    && cidr::parse_network(entry) == Some(nets@[i]@))
            &&& r matches Err(message) ==> exists|k: int|
                0 <= k < items.len() && !is_entry(#[trigger] items[k]) && (forall|i: int|
                    0 <= i < k ==> is_entry(#[trigger] items[i])) && message@ == match items[k] {
                    JsonView::Str(entry) => "Invalid ip_whitelist entry: "@ + entry,
                    _ => "Config key ip_whitelist must contain only strings"@,
                }
        },
{
    if let Some(JsonView::Array(items)) = json@.get("ip_whitelist"@) {
        lemma_items(items);
        match r {
            Ok(nets) => {
                let all = config::networks(nets@);
                assert(forall|i: int| 0 <= i < nets@.len() ==> all[i] == (#[trigger] nets@[i])@);
                assert forall|i: int| 0 <= i < items.len() implies is_entry(#[trigger] items[i]) by {
                }
            },
            Err(message) => {
                let k = choose|k: int|
                    0 <= k < items.len() && !is_entry(#[trigger] items[k]) && (forall|i: int|
                        0 <= i < k ==> is_entry(#[trigger] items[i])) && message@ == match items[k] {
                        JsonView::Str(entry) => "Invalid ip_whitelist entry: "@ + entry,
                        _ => "Config key ip_whitelist must contain only strings"@,
                    };
                assert(!is_entry(items[k]));
            },
        }
    } else if let Ok(nets) = r {
        assert(config::networks(nets@).len() == 0);
    }
}

/// A whitelist is written as its networks in order, with a comma and a space
/// between two of them; an empty one as `(any)`.
pub proof fn a_whitelist_is_written_entry_by_entry(
    shorter: &Config,
    longer: &Config,
    net: Cidr,
    text_of_net: String,
    few: String,
    more: String,
)
    requires
        longer.ip_whitelist@ == shorter.ip_whitelist@.push(net),
        call_ensures(Cidr::to_string, (&net,), text_of_net),
        call_ensures(Config::ip_whitelist_repr, (shorter,), few),
        call_ensures(Config::ip_whitelist_repr, (longer,), more),
    ensures
        shorter.ip_whitelist@.len() == 0 ==> few@ == "(any)"@ && more@ == text_of_net@,
        shorter.ip_whitelist@.len() > 0 ==> more@ == few@ + ", "@ + text_of_net@,
{
    let a = config::networks(shorter.ip_whitelist@);
    let b = config::networks(longer.ip_whitelist@);
    let x = a.map_values(|n: cidr::Network| cidr::format_network(n));
    let y = b.map_values(|n: cidr::Network| cidr::format_network(n));
    assert(b =~= a.push(net@));
    assert(y.drop_last() =~= x);
    assert(y.last() == cidr::format_network(net@));
}

// ---------------------------------------------------------------------------
// Keys of a configuration file
// ---------------------------------------------------------------------------
/// A key that has to be a text gives the text; one that is missing, and one that
/// is something else, is named.
pub proof fn a_required_text_is_the_keys(json: &Json, key: &str, r: Result<String, String>)
    requires
        call_ensures(config::require_str, (json, key), r),
    ensures
        match json@.get(key@) {
            Some(JsonView::Str(s)) => r matches Ok(t) && t@ == s,
            Some(_) => r matches Err(m) && m@ == "Key "@ + key@ + " must be a string"@,
            None => r matches Err(m) && m@ == "Missing key: "@ + key@ + " in config"@,
        },
{
}

/// A key that has to be a number gives the number; one that is missing, and one
/// that is something else, is named.
pub proof fn a_required_number_is_the_keys(json: &Json, key: &str, r: Result<u64, String>)
    requires
        call_ensures(config::require_u64, (json, key), r),
    ensures
        match json@.get(key@) {
            Some(JsonView::Number(JsonNumber::Unsigned(n))) => r == Ok::<u64, String>(n),
            Some(_) => r matches Err(m) && m@ == "Key "@ + key@ + " must be a non-negative number"@,
            None => r matches Err(m) && m@ == "Missing key: "@ + key@ + " in config"@,
        },
{
}

/// The number of a key.
pub open spec fn number_at(json: JsonView, key: Seq<char>) -> Option<u64> {
    match json.get(key) {
        Some(JsonView::Number(JsonNumber::Unsigned(n))) => Some(n),
        _ => None,
    }
}

/// The text of a key.
pub open spec fn text_at(json: JsonView, key: Seq<char>) -> Option<Seq<char>> {
    match json.get(key) {
        Some(JsonView::Str(s)) => Some(s),
        _ => None,
    }
}

/// The settings of a configuration file are those that its keys give. A number
/// that does not fit counts by its lowest bits. Without `busy_timeout_ms` the
/// timeout is 5000, without `auth` there is no password.
#[verifier::rlimit(60)]
pub proof fn settings_are_what_the_file_says(
    json: &Json,
    nets: Result<Vec<Cidr>, String>,
    r: Result<FileSettings, String>,
)
    requires
        call_ensures(config::parse_whitelist_json, (json,), nets),
        call_ensures(config::read_settings, (json,), r),
    ensures
        r is Ok <==> ({
            &&& text_at(json@, "listen_ip"@) is Some
            &&& number_at(json@, "listen_port"@) is Some
            &&& json@.get("busy_timeout_ms"@) is None || number_at(
                json@,
                "busy_timeout_ms"@,
            ) is Some
            &&& json@.get("auth"@) is None || text_at(json@, "auth"@) is Some
            &&& nets is Ok
            &&& number_at(json@, "workers"@) is Some
            &&& text_at(json@, "databases_folder"@) is Some
        }),
        r matches Ok(s) ==> {
            &&& Some(s.listen_ip@) == text_at(json@, "listen_ip"@)
            &&& Some(s.databases_folder@) == text_at(json@, "databases_folder"@)
            &&& number_at(json@, "listen_port"@) matches Some(n) && s.listen_port as int == n as int
                % 65536
            &&& number_at(json@, "workers"@) matches Some(n) && (n <= usize::MAX ==> s.workers
                as int == n as int)
            &&& json@.get("busy_timeout_ms"@) is None ==> s.busy_timeout_ms == 5000
            &&& json@.get("busy_timeout_ms"@) is Some ==> Some(s.busy_timeout_ms) == number_at(
                json@,
                "busy_timeout_ms"@,
            )
            &&& json@.get("auth"@) is None ==> s.auth@.len() == 0
            &&& json@.get("auth"@) is Some ==> Some(s.auth@) == text_at(json@, "auth"@)
            &&& s.ip_whitelist@.len() == nets->Ok_0@.len()
            &&& forall|i: int|
                0 <= i < s.ip_whitelist@.len() ==> (#[trigger] s.ip_whitelist@[i])@
                    == nets->Ok_0@[i]@
            &&& match json@.get("client_max_packet_size"@) {
                Some(JsonView::Number(JsonNumber::Unsigned(n))) => s.client_max_packet_size matches Ok(
                    size,
                ) && size as int == n as int % 4294967296,
                Some(_) => s.client_max_packet_size matches Err(m) && m@ == "Key "@
                    + "client_max_packet_size"@ + " must be a non-negative number"@,
                None => s.client_max_packet_size matches Err(m) && m@ == "Missing key: "@
                    + "client_max_packet_size"@ + " in config"@,
            }
        },
{
    if let Ok(s) = r {
        let a = config::networks(s.ip_whitelist@);
        let b = config::networks(nets->Ok_0@);
        assert(a == b);
        assert(a.len() == s.ip_whitelist@.len() && b.len() == nets->Ok_0@.len());
        assert forall|i: int| 0 <= i < s.ip_whitelist@.len() implies (
        #[trigger] s.ip_whitelist@[i])@ == nets->Ok_0@[i]@ by {
            assert(a[i] == b[i]);
        }
    }
}

/// Of the keys of a configuration file, the first that is missing or wrong is
/// reported; they are looked at in the order of this law's clauses.
#[verifier::rlimit(60)]
pub proof fn the_first_wrong_key_is_reported(
    json: &Json,
    nets: Result<Vec<Cidr>, String>,
    r: Result<FileSettings, String>,
    ip: Result<String, String>,
    port: Result<u64, String>,
    workers: Result<u64, String>,
    folder: Result<String, String>,
    key1: &str,
    key2: &str,
    key3: &str,
    key4: &str,
)
    requires
        key1@ == "listen_ip"@,
        key2@ == "listen_port"@,
        key3@ == "workers"@,
        key4@ == "databases_folder"@,
        call_ensures(config::require_str, (json, key1), ip),
        call_ensures(config::require_u64, (json, key2), port),
        call_ensures(config::parse_whitelist_json, (json,), nets),
        call_ensures(config::require_u64, (json, key3), workers),
        call_ensures(config::require_str, (json, key4), folder),
        call_ensures(config::read_settings, (json,), r),
    ensures
        r matches Err(m) ==> m@ == if let Err(e) = ip {
            e@
        } else if let Err(e) = port {
            e@
        } else if json@.get("busy_timeout_ms"@) is Some && number_at(
            json@,
            "busy_timeout_ms"@,
        ) is None {
            "Key busy_timeout_ms must be a non-negative number"@
        } else if json@.get("auth"@) is Some && text_at(json@, "auth"@) is None {
            "Key auth must be a string"@
        } else if let Err(e) = nets {
            e@
        } else if let Err(e) = workers {
            e@
        } else {
            folder->Err_0@
        },
{
}

/// A configuration file that is not there, or cannot be read, or holds no JSON
/// is reported as such; of another one the settings are those of its value.
pub proof fn a_file_gives_the_settings_of_its_text(
    path: &str,
    file: &ConfigFile,
    json: &Json,
    settings: Result<FileSettings, String>,
    r: Result<FileSettings, String>,
)
    requires
        call_ensures(config::from_file, (path, file), r),
        call_ensures(config::read_settings, (json,), settings),
    ensures
        file is Missing ==> (r matches Err(m) && m@ == "Config file does not exist in: "@ + path@),
        file matches ConfigFile::Unreadable(e) ==> (r matches Err(m) && m@ == "Config read error: "@
            + e@),
        file matches ConfigFile::Text(s) ==> {
            &&& json::json_text(s@) matches Err(e) ==> (r matches Err(m) && m@
                == "Config parse error: "@ + e)
            &&& json::json_text(s@) == Ok::<JsonView, Seq<char>>(json@) ==> {
                &&& r is Ok <==> settings is Ok
                &&& r is Ok ==> r->Ok_0@ == settings->Ok_0@
                &&& r is Err ==> r->Err_0@ == settings->Err_0@
            }
        },
{
}

// ---------------------------------------------------------------------------
// Looking up the surroundings
// ---------------------------------------------------------------------------
proof fn lemma_first_v4(addrs: Seq<SocketAddr>, n: nat)
    requires
        n <= addrs.len(),
    ensures
        match config::first_ipv4(addrs, n) {
            Some(addr) => exists|i: int|
                0 <= i < n && #[trigger] addrs[i] == addr && addr.ip is V4 && forall|j: int|
                    0 <= j < i ==> (#[trigger] addrs[j]).ip is V6,
            None => forall|j: int| 0 <= j < n ==> (#[trigger] addrs[j]).ip is V6,
        },
    decreases n,
{
    if n > 0 {
        lemma_first_v4(addrs, (n - 1) as nat);
        assert(addrs[n - 1] == addrs[n - 1]);
    }
}

/// The address that is listened on. A host that is an address stands for
/// itself, with the port asked for. Of the addresses found for another host the
/// first of IPv4 is taken, else the first; where none was found it is
/// 127.0.0.1:3333.
pub proof fn the_endpoint_is_the_host_asked_for(
    host: &str,
    port: u16,
    found: &Option<Vec<SocketAddr>>,
    ip: Option<IpAddr>,
    r: SocketAddr,
)
    requires
        call_ensures(IpAddr::parse, (host,), ip),
        call_ensures(config::resolve_endpoint, (host, port, found), r),
    ensures
        ip matches Some(a) ==> r.ip@ == a@ && r.port == port && r.flowinfo == 0 && r.scope_id == 0,
        ip is None && found is Some && found->0@.len() > 0 ==> {
            let addrs = found->0@;
            ||| exists|i: int|
                0 <= i < addrs.len() && (#[trigger] addrs[i])@ == r@ && addrs[i].ip is V4 && forall|
                    j: int,
                |
                    0 <= j < i ==> (#[trigger] addrs[j]).ip is V6
            ||| r@ == addrs[0]@ && forall|j: int|
                0 <= j < addrs.len() ==> (#[trigger] addrs[j]).ip is V6
        },
        ip is None && (found is None || found->0@.len() == 0) ==> r.ip@ == Address::V4(
            seq![127u8, 0u8, 0u8, 1u8],
        ) && r.port == 3333 && r.flowinfo == 0 && r.scope_id == 0,
{
    if ip is None && found is Some {
        let addrs = found->0@;
        lemma_first_v4(addrs, addrs.len());
        if let Some(addr) = config::first_ipv4(addrs, addrs.len()) {
            let i = choose|i: int|
                0 <= i < addrs.len() && #[trigger] addrs[i] == addr && addr.ip is V4 && forall|
                    j: int,
                |
                    0 <= j < i ==> (#[trigger] addrs[j]).ip is V6;
            assert(addrs[i]@ == r@);
        }
    }
}

/// The databases folder is where its path says: an absolute path is taken as it
/// is, a relative one starts at the current directory, with one slash between.
/// A folder that is not there is named by that path.
pub proof fn the_folder_is_the_path_asked_for(
    path: &str,
    folder: &Folder,
    r: Result<String, String>,
)
    requires
        call_ensures(config::resolve_database_path, (path, folder), r),
    ensures
        folder.start matches Start::Unknown(e) ==> (r matches Err(m) && m@
            == "Cannot resolve current directory: "@ + e@),
        !(folder.start is Unknown) ==> {
            let absolute = match folder.start {
                Start::Absolute => path@,
                Start::Joined(joined) => joined@,
                Start::CurrentDir(dir) => if dir@.len() > 0 && dir@[dir@.len() - 1] != '/' {
                    dir@ + seq!['/'] + path@
                } else {
                    dir@ + path@
                },
                Start::Unknown(_) => path@,
            };
            if folder.exists {
                r matches Ok(p) && p@ == absolute
            } else {
                r matches Err(m) && m@ == "Databases folder does not exist in: "@ + absolute
            }
        },
{
    reveal_strlit("/");
    assert("/"@ =~= seq!['/']);
}

/// As many workers as there are cores, one where that is unknown.
pub proof fn workers_default_to_cores(cores: Option<usize>, r: usize)
    requires
        call_ensures(config::default_workers, (cores,), r),
    ensures
        cores matches Some(n) ==> r == n,
        cores is None ==> r == 1,
{
}

// ---------------------------------------------------------------------------
// Configurations
// ---------------------------------------------------------------------------
/// A file's configuration holds the file's settings, the resolved address and
/// the folder's path. A folder that cannot be had is reported first, then a
/// packet size that is missing or wrong.
pub proof fn a_files_configuration_is_its_settings(
    settings: FileSettings,
    found: &Option<Vec<SocketAddr>>,
    folder: &Folder,
    host: &str,
    asked: &str,
    addr: SocketAddr,
    path: Result<String, String>,
    r: Result<Config, String>,
)
    requires
        host@ == settings.listen_ip@,
        asked@ == settings.databases_folder@,
        call_ensures(config::resolve_endpoint, (host, settings.listen_port, found), addr),
        call_ensures(config::resolve_database_path, (asked, folder), path),
        call_ensures(FileSettings::into_config, (settings, found, folder), r),
    ensures
        path matches Err(e) ==> (r matches Err(m) && m@ == e@),
        path is Ok && settings.client_max_packet_size is Err ==> (r matches Err(m) && m@
            == settings.client_max_packet_size->Err_0@),
        path is Ok && settings.client_max_packet_size is Ok ==> {
            &&& r matches Ok(config)
            &&& config.listen_addr@ == addr@
            &&& config.workers == settings.workers
            &&& config.databases_folder@ == path->Ok_0@
            &&& config.client_max_packet_size == settings.client_max_packet_size->Ok_0
            &&& config.busy_timeout_ms == settings.busy_timeout_ms
            &&& config.auth@ == settings.auth@
            &&& config.ip_whitelist@.len() == settings.ip_whitelist@.len()
            &&& forall|i: int|
                0 <= i < config.ip_whitelist@.len() ==> (#[trigger] config.ip_whitelist@[i])@
                    == settings.ip_whitelist@[i]@
        },
{
    if let Ok(config) = r {
        lemma_same_networks(config.ip_whitelist@, settings.ip_whitelist@);
    }
}

proof fn lemma_same_networks(a: Seq<Cidr>, b: Seq<Cidr>)
    requires
        config::networks(a) == config::networks(b),
    ensures
        a.len() == b.len(),
        forall|i: int| 0 <= i < a.len() ==> (#[trigger] a[i])@ == b[i]@,
{
    assert(config::networks(a).len() == a.len() && config::networks(b).len() == b.len());
    assert forall|i: int| 0 <= i < a.len() implies (#[trigger] a[i])@ == b[i]@ by {
        assert(config::networks(a)[i] == a[i]@);
        assert(config::networks(b)[i] == b[i]@);
    }
}

/// What a configuration file says is what the server runs with: the packet size
/// where it fits 32 bits, the port where it fits 16 and the host is an address,
/// the workers, the busy timeout and the password.
#[verifier::rlimit(60)]
pub proof fn the_server_runs_with_what_the_file_says(
    path: &str,
    file: &ConfigFile,
    json: JsonView,
    settings: FileSettings,
    found: &Option<Vec<SocketAddr>>,
    folder: &Folder,
    host: &str,
    ip: Option<IpAddr>,
    config: Config,
)
    requires
        host@ == settings.listen_ip@,
        file matches ConfigFile::Text(s) && json::json_text(s@) == Ok::<JsonView, Seq<char>>(json),
        call_ensures(config::from_file, (path, file), Ok::<FileSettings, String>(settings)),
        call_ensures(
            FileSettings::into_config,
            (settings, found, folder),
            Ok::<Config, String>(config),
        ),
        call_ensures(IpAddr::parse, (host,), ip),
    ensures
        number_at(json, "client_max_packet_size"@) matches Some(n) && (n < 4294967296
            ==> config.client_max_packet_size as int == n as int),
        number_at(json, "listen_port"@) matches Some(n) && (n < 65536 && ip is Some
            ==> config.listen_addr.port as int == n as int),
        number_at(json, "workers"@) matches Some(n) && (n <= usize::MAX ==> config.workers as int
            == n as int),
        match number_at(json, "busy_timeout_ms"@) {
            Some(n) => config.busy_timeout_ms == n,
            None => config.busy_timeout_ms == 5000,
        },
        match text_at(json, "auth"@) {
            Some(s) => config.auth@ == s,
            None => config.auth@.len() == 0,
        },
        folder.start is Absolute ==> Some(config.databases_folder@) == text_at(
            json,
            "databases_folder"@,
        ),
        json.get("ip_whitelist"@) is None ==> config.ip_whitelist@.len() == 0,
        json.get("ip_whitelist"@) matches Some(list) ==> (list matches JsonView::Array(items)
            && items.len() == config.ip_whitelist@.len() && forall|i: int|
            0 <= i < items.len() ==> (#[trigger] items[i] matches JsonView::Str(entry)
                && cidr::parse_network(entry) == Some(config.ip_whitelist@[i]@))),
{
    let all = config::networks(config.ip_whitelist@);
    assert(all.len() == config.ip_whitelist@.len());
    assert(forall|i: int| 0 <= i < all.len() ==> all[i] == (#[trigger] config.ip_whitelist@[i])@);
    if let Some(JsonView::Array(items)) = json.get("ip_whitelist"@) {
        lemma_items(items);
    }
}

/// A configuration and a file's settings are seen with all that they hold.
pub proof fn configurations_are_seen_as_they_are(c: Config, s: FileSettings)
    ensures
        c@.listen_addr == c.listen_addr@,
        c@.workers == c.workers,
        c@.databases_folder == c.databases_folder@,
        c@.client_max_packet_size == c.client_max_packet_size,
        c@.busy_timeout_ms == c.busy_timeout_ms,
        c@.auth == c.auth@,
        c@.ip_whitelist.len() == c.ip_whitelist@.len(),
        forall|i: int|
            0 <= i < c.ip_whitelist@.len() ==> c@.ip_whitelist[i] == (#[trigger] c.ip_whitelist@[i])@,
        s@.listen_ip == s.listen_ip@,
        s@.listen_port == s.listen_port,
        s@.busy_timeout_ms == s.busy_timeout_ms,
        s@.auth == s.auth@,
        s@.workers == s.workers,
        s@.databases_folder == s.databases_folder@,
        s.client_max_packet_size matches Ok(n) ==> s@.client_max_packet_size == Ok::<
            nat,
            Seq<char>,
        >(n as nat),
        s.client_max_packet_size matches Err(m) ==> s@.client_max_packet_size == Err::<
            nat,
            Seq<char>,
        >(m@),
        s@.ip_whitelist.len() == s.ip_whitelist@.len(),
        forall|i: int|
            0 <= i < s.ip_whitelist@.len() ==> s@.ip_whitelist[i] == (#[trigger] s.ip_whitelist@[i])@,
{
}

/// The configuration of the flags holds what they give, the resolved address and
/// the folder's path. A folder that cannot be had is reported first, then a
/// wrong whitelist.
pub proof fn the_flags_configuration_is_the_flags(
    args: Args,
    found: &Option<Vec<SocketAddr>>,
    cores: Option<usize>,
    folder: &Folder,
    host: &str,
    asked: &str,
    list: &str,
    addr: SocketAddr,
    path: Result<String, String>,
    nets: Result<Vec<Cidr>, String>,
    r: Result<Config, String>,
)
    requires
        host@ == args.ip@,
        asked@ == args.databases_folder@,
        list@ == args.ip_whitelist@,
        call_ensures(config::resolve_endpoint, (host, args.port, found), addr),
        call_ensures(config::resolve_database_path, (asked, folder), path),
        call_ensures(config::parse_whitelist_csv, (list,), nets),
        call_ensures(config::from_flags, (args, found, cores, folder), r),
    ensures
        path matches Err(e) ==> (r matches Err(m) && m@ == e@),
        path is Ok && nets is Err ==> (r matches Err(m) && m@ == nets->Err_0@),
        path is Ok && nets is Ok ==> {
            &&& r matches Ok(config)
            &&& config.listen_addr@ == addr@
            &&& args.workers matches Some(n) ==> config.workers == n
            &&& args.workers is None && cores is Some ==> config.workers == cores->0
            &&& args.workers is None && cores is None ==> config.workers == 1
            &&& config.databases_folder@ == path->Ok_0@
            &&& config.client_max_packet_size == args.client_max_packet_size
            &&& config.busy_timeout_ms == args.busy_timeout_ms
            &&& config.auth@ == args.auth@
            &&& config.ip_whitelist@.len() == nets->Ok_0@.len()
            &&& forall|i: int|
                0 <= i < config.ip_whitelist@.len() ==> (#[trigger] config.ip_whitelist@[i])@
                    == nets->Ok_0@[i]@
        },
{
    if let Ok(config) = r {
        lemma_same_networks(config.ip_whitelist@, nets->Ok_0@);
    }
}

/// The version is shown exactly where it is asked for; else a file that is named
/// is used, and the other flags are not; else the flags are.
pub proof fn the_command_line_is_obeyed(args: Args, r: Startup)
    requires
        call_ensures(config::parse, (args,), r),
    ensures
        r is ShowVersion <==> args.version,
        r is FromFile <==> !args.version && args.config is Some,
        r matches Startup::FromFile(path) ==> args.config == Some(path),
        r matches Startup::FromFlags(flags) ==> flags == args,
{
}

/// The version text names the branch and the commit.
pub proof fn the_version_names_branch_and_commit(branch: &str, commit: &str, r: String)
    requires
        call_ensures(config::version_text, (branch, commit), r),
    ensures
        r@ == "GIT Branch: "@ + branch@ + "\nGIT Commit hash: "@ + commit@,
{
}

} // verus!
