//! Configuration, networks and addresses.
use sqlite_server::address::{IpAddr, SocketAddr};
use sqlite_server::cidr::{canonicalize, masked_eq, Cidr};
use sqlite_server::config::{
    default_workers, from_file, from_flags, parse, parse_whitelist_csv, read_settings,
    resolve_database_path, resolve_endpoint, version_text, Args, Config, ConfigFile, Folder,
    Start, Startup, DEFAULT_AUTH, DEFAULT_BUSY_TIMEOUT_MS, DEFAULT_CLIENT_MAX_PACKET_SIZE,
    DEFAULT_DATABASES_FOLDER, DEFAULT_IP, DEFAULT_IP_WHITELIST, DEFAULT_PORT,
};
use sqlite_server::json::parse_json;
use sqlite_server::server::{listening_line, run, worker_limit, ServerAction, ServerEvent};

fn ip(s: &str) -> IpAddr {
    IpAddr::parse(s).unwrap()
}

fn addr(s: &str, port: u16) -> SocketAddr {
    SocketAddr::new(ip(s), port)
}

/// A folder with an absolute path.
fn folder(exists: bool) -> Folder {
    Folder { start: Start::Absolute, exists }
}

/// The configuration of a file with that text, in a folder that exists.
fn load(text: &str) -> Result<Config, String> {
    let settings = from_file("/etc/config.json", &ConfigFile::Text(text.to_string()))?;
    settings.into_config(&None, &folder(true))
}

#[test]
fn resolve_endpoint_prefers_ipv4_numeric() {
    let addr = resolve_endpoint("127.0.0.1", 3333, &None);
    assert!(addr.ip.is_ipv4());
    assert_eq!(addr.port, 3333);
}

#[test]
fn resolve_endpoint_falls_back_when_unresolvable() {
    // No resolver finds a host with an interior NUL.
    let addr = resolve_endpoint("bad\0host", 1234, &None);
    assert_eq!(addr, SocketAddr::new(ip("127.0.0.1"), 3333));
    assert_eq!(resolve_endpoint("h", 1, &Some(vec![])).to_string(), "127.0.0.1:3333");
}

#[test]
fn resolve_endpoint_takes_the_first_ipv4_else_the_first() {
    let mixed = vec![addr("::1", 9), addr("10.0.0.1", 9), addr("10.0.0.2", 9)];
    assert_eq!(resolve_endpoint("h", 9, &Some(mixed)).to_string(), "10.0.0.1:9");
    let six = vec![addr("::1", 9), addr("::2", 9)];
    assert_eq!(resolve_endpoint("h", 9, &Some(six)).to_string(), "[::1]:9");
    // An address stands for itself.
    let other = vec![addr("10.0.0.1", 9)];
    assert_eq!(resolve_endpoint("::2", 7, &Some(other)).to_string(), "[::2]:7");
}

#[test]
fn resolve_database_path_makes_absolute_when_existing() {
    let home = Folder { start: Start::CurrentDir("/home".to_string()), exists: true };
    let resolved = resolve_database_path("ssrs-config", &home).unwrap();
    assert!(std::path::Path::new(&resolved).is_absolute());
    let resolved = resolve_database_path("/tmp/ssrs-config", &folder(true)).unwrap();
    assert!(std::path::Path::new(&resolved).is_absolute());
}

#[test]
fn resolve_database_path_errors_when_missing() {
    let err = resolve_database_path("/no/such/folder/ssrs-xyz", &folder(false)).unwrap_err();
    assert!(err.contains("does not exist"), "got: {err}");
    assert_eq!(err, "Databases folder does not exist in: /no/such/folder/ssrs-xyz");
}

#[test]
fn relative_folders_start_at_the_current_directory() {
    let from = |dir: &str, exists| Folder { start: Start::CurrentDir(dir.to_string()), exists };
    assert_eq!(resolve_database_path("sqlite", &from("/srv", true)).unwrap(), "/srv/sqlite");
    assert_eq!(resolve_database_path("./d", &from("/", true)).unwrap(), "/./d");
    assert_eq!(
        resolve_database_path("sqlite", &from("/srv", false)).unwrap_err(),
        "Databases folder does not exist in: /srv/sqlite"
    );
    assert_eq!(resolve_database_path("/d", &folder(true)).unwrap(), "/d");
    let joined = Folder { start: Start::Joined(r"C:\d".to_string()), exists: true };
    assert_eq!(resolve_database_path("d", &joined).unwrap(), r"C:\d");
    let unknown = Folder { start: Start::Unknown("gone".to_string()), exists: false };
    assert_eq!(
        resolve_database_path("d", &unknown).unwrap_err(),
        "Cannot resolve current directory: gone"
    );
}

#[test]
fn defaults_are_as_documented() {
    assert_eq!(DEFAULT_IP, "localhost");
    assert_eq!(DEFAULT_PORT, 3333);
    assert_eq!(DEFAULT_DATABASES_FOLDER, "sqlite");
    assert_eq!(DEFAULT_CLIENT_MAX_PACKET_SIZE, 16 * 1024 * 1024);
    assert_eq!(DEFAULT_BUSY_TIMEOUT_MS, 5000);
    assert_eq!(DEFAULT_AUTH, "");
    assert!(parse_whitelist_csv(DEFAULT_IP_WHITELIST).unwrap().is_empty());
}

#[test]
fn scopes_are_shown() {
    let mut local = addr("fe80::1", 3333);
    local.scope_id = 2;
    local.flowinfo = 9;
    assert_eq!(local.to_string(), "[fe80::1%2]:3333");
    assert_eq!(addr("fe80::1", 3333).to_string(), "[fe80::1]:3333");
    assert_eq!(addr("10.0.0.1", 80).to_string(), "10.0.0.1:80");
    // The chosen address keeps its scope.
    assert_eq!(resolve_endpoint("host", 3333, &Some(vec![local])), local);
}

#[test]
fn from_file_parses_all_keys() {
    let config = load(
        r#"{"client_max_packet_size":1024,"workers":3,"listen_ip":"127.0.0.1","listen_port":4567,"busy_timeout_ms":1234,"databases_folder":"/data"}"#,
    )
    .unwrap();
    assert_eq!(config.client_max_packet_size, 1024);
    assert_eq!(config.workers, 3);
    assert_eq!(config.listen_addr.port, 4567);
    assert!(config.listen_addr.ip.is_ipv4());
    assert_eq!(config.databases_folder, "/data");
    assert_eq!(config.busy_timeout_ms, 1234);
}

#[test]
fn cidr_parse_and_contains_ipv4() {
    let net = Cidr::parse("10.0.0.0/8").unwrap();
    assert!(net.contains(ip("10.1.2.3")));
    assert!(!net.contains(ip("11.0.0.1")));
    // Display is canonical (host bits zeroed).
    assert_eq!(Cidr::parse("10.1.2.3/8").unwrap().to_string(), "10.0.0.0/8");
}

#[test]
fn cidr_bare_address_is_single_host() {
    let net = Cidr::parse("127.0.0.1").unwrap();
    assert_eq!(net.to_string(), "127.0.0.1/32");
    assert!(net.contains(ip("127.0.0.1")));
    assert!(!net.contains(ip("127.0.0.2")));
}

#[test]
fn cidr_ipv6_and_cross_family() {
    let net = Cidr::parse("2001:db8::/32").unwrap();
    assert!(net.contains(ip("2001:db8::1")));
    assert!(!net.contains(ip("2001:dead::1")));
    // An IPv4 address never matches an IPv6 network (and vice versa).
    assert!(!net.contains(ip("10.0.0.1")));
}

#[test]
fn cidr_rejects_invalid() {
    assert!(Cidr::parse("not.an.ip/8").is_err());
    assert!(Cidr::parse("10.0.0.0/33").is_err());
    assert!(Cidr::parse("::1/129").is_err());
}

#[test]
fn cidr_edges() {
    for bad in ["", "/", "10.0.0.0/", "/8", "10.0.0.0/8/8", "10.0.0.0/-1", "10.0.0.0/256", "010.0.0.0", "1.2.3", " 10.0.0.1"] {
        assert_eq!(
            Cidr::parse(bad).unwrap_err(),
            format!("Invalid ip_whitelist entry: {bad}")
        );
    }
    assert_eq!(Cidr::parse("10.0.0.0/+8").unwrap().to_string(), "10.0.0.0/8");
    assert_eq!(Cidr::parse("10.0.0.0/008").unwrap().to_string(), "10.0.0.0/8");
    assert_eq!(Cidr::parse("172.31.255.255/12").unwrap().to_string(), "172.16.0.0/12");
    assert_eq!(Cidr::parse("1.2.3.4/0").unwrap().to_string(), "0.0.0.0/0");
    assert!(Cidr::parse("1.2.3.4/0").unwrap().contains(ip("255.1.2.3")));
    assert!(!Cidr::parse("1.2.3.4/0").unwrap().contains(ip("::1")));
    assert_eq!(Cidr::parse("::1").unwrap().to_string(), "::1/128");
    assert_eq!(Cidr::parse("fe80::ffff/10").unwrap().to_string(), "fe80::/10");
    // What is written is read back.
    let net = Cidr::parse("2001:db8:0:1::/64").unwrap();
    assert_eq!(Cidr::parse(&net.to_string()).unwrap(), net);
}

#[test]
fn prefixes_are_compared_bit_by_bit() {
    assert!(masked_eq(&[0b1010_1010, 7], &[0b1010_1111, 9], 5));
    assert!(!masked_eq(&[0b1010_1010, 7], &[0b1010_1111, 9], 6));
    assert!(masked_eq(&[1, 2], &[1, 2], 16));
    assert!(!masked_eq(&[1, 2], &[1, 3], 16));
    assert!(masked_eq(&[1, 2], &[3, 4], 0));
    assert!(!masked_eq(&[1], &[2], 9));
    assert!(masked_eq(&[1, 2, 3], &[1, 2], 16));
    assert_eq!(canonicalize(ip("255.255.255.255"), 13).to_string(), "255.248.0.0");
    assert_eq!(canonicalize(ip("ffff::ffff"), 127).to_string(), "ffff::fffe");
}

#[test]
fn addresses_are_written_in_their_short_form() {
    for text in ["0.0.0.0", "255.255.255.255", "::", "::1", "1::", "2001:db8::1", "1:2:3:4:5:6:7:8", "::ffff:1.2.3.4", "1:0:0:2::3", "fe80::1:0:0:2", "1:2:3:4:5:6:7:0"] {
        assert_eq!(ip(text).to_string(), text);
    }
    assert_eq!(ip("0:0:0:0:0:0:0:1").to_string(), "::1");
    assert_eq!(ip("::1.2.3.4").to_string(), "::102:304");
    assert_eq!(ip("::FFFF:0102:0304").to_string(), "::ffff:1.2.3.4");
    assert_eq!(ip("ABCD::").to_string(), "abcd::");
    for bad in ["256.0.0.1", "1.2.3.4.5", "01.2.3.4", ":::", "1::2::3", "12345::", "1:2:3:4:5:6:7", "1:2:3:4:5:6:7:8:9", "::1.2.3", "g::", "1.2.3.4::", "[::1]"] {
        assert!(IpAddr::parse(bad).is_none(), "{bad}");
    }
}

#[test]
fn is_ip_allowed_empty_allows_all() {
    let config = load(
        r#"{"client_max_packet_size":1,"workers":1,"listen_ip":"127.0.0.1","listen_port":3333,"databases_folder":"/data"}"#,
    )
    .unwrap();
    assert!(config.auth.is_empty());
    assert!(config.ip_whitelist.is_empty());
    assert!(config.is_ip_allowed(ip("8.8.8.8")));
    assert_eq!(config.ip_whitelist_repr(), "(any)");
}

#[test]
fn from_file_parses_auth_and_whitelist() {
    let config = load(
        r#"{"client_max_packet_size":1,"workers":1,"listen_ip":"127.0.0.1","listen_port":3333,"auth":"s3cret","ip_whitelist":["127.0.0.1","10.0.0.0/8"],"databases_folder":"/data"}"#,
    )
    .unwrap();
    assert_eq!(config.auth, "s3cret");
    assert!(config.is_ip_allowed(ip("127.0.0.1")));
    assert!(config.is_ip_allowed(ip("10.9.9.9")));
    assert!(!config.is_ip_allowed(ip("192.168.0.1")));
    assert_eq!(config.ip_whitelist_repr(), "127.0.0.1/32, 10.0.0.0/8");
}

#[test]
fn from_file_rejects_bad_whitelist() {
    // Not an array.
    let err = load(
        r#"{"client_max_packet_size":1,"workers":1,"listen_ip":"127.0.0.1","listen_port":3333,"ip_whitelist":"127.0.0.1","databases_folder":"/data"}"#,
    )
    .unwrap_err();
    assert!(err.contains("must be an array"), "got: {err}");

    // Invalid CIDR entry.
    let err = load(
        r#"{"client_max_packet_size":1,"workers":1,"listen_ip":"127.0.0.1","listen_port":3333,"ip_whitelist":["nope/8"],"databases_folder":"/data"}"#,
    )
    .unwrap_err();
    assert!(err.contains("Invalid ip_whitelist entry"), "got: {err}");

    // An entry that is no string.
    let err = load(
        r#"{"client_max_packet_size":1,"workers":1,"listen_ip":"127.0.0.1","listen_port":3333,"ip_whitelist":["::1",5],"databases_folder":"/data"}"#,
    )
    .unwrap_err();
    assert_eq!(err, "Config key ip_whitelist must contain only strings");
}

#[test]
fn from_file_busy_timeout_defaults_when_absent() {
    let config = load(
        r#"{"client_max_packet_size":1024,"workers":1,"listen_ip":"127.0.0.1","listen_port":3333,"databases_folder":"/data"}"#,
    )
    .unwrap();
    assert_eq!(config.busy_timeout_ms, DEFAULT_BUSY_TIMEOUT_MS);
}

#[test]
fn from_file_missing_file() {
    let err = from_file("/no/such/path/ssrs-config.json", &ConfigFile::Missing).unwrap_err();
    assert!(err.contains("Config file does not exist"), "got: {err}");
    let err = from_file("p", &ConfigFile::Unreadable("denied".to_string())).unwrap_err();
    assert_eq!(err, "Config read error: denied");
}

#[test]
fn from_file_invalid_json() {
    let err = load("{ this is not json").unwrap_err();
    assert!(err.contains("Config parse error"), "got: {err}");
}

#[test]
fn from_file_missing_key() {
    let err = load(r#"{"workers":1}"#).unwrap_err();
    assert!(err.contains("Missing key"), "got: {err}");
    assert_eq!(err, "Missing key: listen_ip in config");
}

#[test]
fn from_file_wrong_value_type() {
    // workers as a string instead of a number.
    let err = load(
        r#"{"client_max_packet_size":1024,"workers":"three","listen_ip":"127.0.0.1","listen_port":4567,"databases_folder":"/data"}"#,
    )
    .unwrap_err();
    assert!(err.contains("must be a non-negative number"), "got: {err}");
}

#[test]
fn settings_edges() {
    let read = |text: &str| read_settings(&parse_json(text).unwrap());
    let all = r#"{"client_max_packet_size":4294967297,"workers":2,"listen_ip":"h","listen_port":65537,"auth":"","databases_folder":"d"}"#;
    let settings = read(all).unwrap();
    // Numbers are cut to the width of the setting.
    assert_eq!(settings.listen_port, 1);
    assert_eq!(settings.client_max_packet_size, Ok(1));
    assert_eq!(
        read(r#"{"listen_ip":5}"#).unwrap_err(),
        "Key listen_ip must be a string"
    );
    assert_eq!(
        read(r#"{"listen_ip":"h","listen_port":1,"busy_timeout_ms":-1}"#).unwrap_err(),
        "Key busy_timeout_ms must be a non-negative number"
    );
    assert_eq!(
        read(r#"{"listen_ip":"h","listen_port":1,"auth":1}"#).unwrap_err(),
        "Key auth must be a string"
    );
    // The folder is looked for before the packet size is asked for.
    let partly = r#"{"listen_ip":"h","listen_port":1,"workers":1,"databases_folder":"d"}"#;
    assert_eq!(
        read(partly).unwrap().into_config(&None, &folder(false)).unwrap_err(),
        "Databases folder does not exist in: d"
    );
    assert_eq!(
        read(partly).unwrap().into_config(&None, &folder(true)).unwrap_err(),
        "Missing key: client_max_packet_size in config"
    );
}

fn args() -> Args {
    Args {
        version: false,
        config: None,
        ip: DEFAULT_IP.to_string(),
        port: DEFAULT_PORT,
        auth: DEFAULT_AUTH.to_string(),
        ip_whitelist: " 127.0.0.1 ,, 10.0.0.0/8".to_string(),
        databases_folder: DEFAULT_DATABASES_FOLDER.to_string(),
        workers: None,
        client_max_packet_size: DEFAULT_CLIENT_MAX_PACKET_SIZE,
        busy_timeout_ms: DEFAULT_BUSY_TIMEOUT_MS,
    }
}

#[test]
fn command_line_decides_where_settings_come_from() {
    let mut version = args();
    version.version = true;
    version.config = Some("c".to_string());
    assert!(matches!(parse(version), Startup::ShowVersion));
    let mut file = args();
    file.config = Some("c".to_string());
    match parse(file) {
        Startup::FromFile(path) => assert_eq!(path, "c"),
        other => panic!("{other:?}"),
    }
    match parse(args()) {
        Startup::FromFlags(flags) => assert_eq!(flags.port, 3333),
        other => panic!("{other:?}"),
    }
    assert_eq!(version_text("main", "abc"), "GIT Branch: main\nGIT Commit hash: abc");
}

#[test]
fn flags_make_a_configuration() {
    let home = Folder { start: Start::CurrentDir("/home".to_string()), exists: true };
    let found = Some(vec![addr("::1", 3333), addr("127.0.0.1", 3333)]);
    let config = from_flags(args(), &found, Some(6), &home).unwrap();
    assert_eq!(config.listen_addr.to_string(), "127.0.0.1:3333");
    assert_eq!(config.databases_folder, "/home/sqlite");
    assert_eq!(config.workers, 6);
    assert_eq!(config.ip_whitelist_repr(), "127.0.0.1/32, 10.0.0.0/8");
    assert_eq!(config.client_max_packet_size, 16777216);
    let mut flags = args();
    flags.workers = Some(0);
    let config = from_flags(flags, &None, Some(6), &home).unwrap();
    assert_eq!(config.workers, 0);
    assert_eq!(worker_limit(&config), 1);
    let mut flags = args();
    flags.ip_whitelist = "::1,x".to_string();
    assert_eq!(
        from_flags(flags, &None, None, &home).unwrap_err(),
        "Invalid ip_whitelist entry: x"
    );
    assert_eq!(default_workers(None), 1);
    assert_eq!(default_workers(Some(4)), 4);
}

#[test]
fn whitelists_are_read_back() {
    assert!(parse_whitelist_csv("").unwrap().is_empty());
    assert!(parse_whitelist_csv(" , ,\t").unwrap().is_empty());
    let nets = parse_whitelist_csv("127.0.0.1,\u{a0}::1/64 ,10.1.2.3/8").unwrap();
    let mut flags = args();
    flags.ip_whitelist = "127.0.0.1,::1/64,10.1.2.3/8".to_string();
    let config = from_flags(flags, &None, None, &folder(true)).unwrap();
    assert_eq!(config.ip_whitelist, nets);
    assert_eq!(config.ip_whitelist_repr(), "127.0.0.1/32, ::/64, 10.0.0.0/8");
    assert_eq!(parse_whitelist_csv(&config.ip_whitelist_repr()).unwrap(), nets);
}

#[test]
fn server_decisions() {
    let mut flags = args();
    flags.databases_folder = "/data".to_string();
    flags.ip_whitelist = "10.0.0.0/8".to_string();
    flags.auth = "s3cret".to_string();
    let config = from_flags(flags, &None, Some(2), &folder(true)).unwrap();
    assert!(matches!(
        run(&config, ServerEvent::Accepted(ip("10.2.3.4"))),
        ServerAction::Serve
    ));
    match run(&config, ServerEvent::Accepted(ip("127.0.0.1"))) {
        ServerAction::Reject(line) => {
            assert_eq!(line, "Connection rejected, not in ip whitelist: 127.0.0.1")
        }
        other => panic!("{other:?}"),
    }
    match run(&config, ServerEvent::AcceptFailed("too many".to_string())) {
        ServerAction::Log(line) => assert_eq!(line, "Accept error: too many"),
        other => panic!("{other:?}"),
    }
    match run(&config, ServerEvent::Shutdown) {
        ServerAction::Stop(line) => assert_eq!(line, "Server shutdown..."),
        other => panic!("{other:?}"),
    }
    assert_eq!(worker_limit(&config), 2);
    let mut scoped = addr("fe80::1", 3333);
    scoped.scope_id = 4;
    assert!(listening_line(&config, scoped)
        .starts_with("sqlite-server listening on [fe80::1%4]:3333 (workers: 2,"));
    assert_eq!(
        listening_line(&config, addr("::1", 54321)),
        "sqlite-server listening on [::1]:54321 (workers: 2, databases: /data, max packet: 16777216 bytes, auth: enabled, ip whitelist: 10.0.0.0/8)"
    );
}
