use base64::Engine;
use vnts::config::{
    check_gateway, check_netmask, ConfigError, ConfigFile, ConfigInfo, StartArgs, WebConfig,
};
use vnts::ipv4::Ipv4Addr;
use vnts::wg_key::{WgKeyChoice, WgKeyPair};

const KEY_TEXT: &str = "AAECAwQFBgcICQoLDA0ODxAREhMUFRYXGBkaGxwdHh8=";

fn key() -> [u8; 32] {
    let mut k = [0u8; 32];
    for (i, b) in k.iter_mut().enumerate() {
        *b = i as u8;
    }
    k
}

fn no_args() -> StartArgs {
    StartArgs {
        host: None,
        port: None,
        white_token: None,
        gateway: None,
        netmask: None,
        finger: false,
        log_path: None,
        web_port: None,
        username: None,
        password: None,
        wg_secret_key: None,
        rate_limit: None,
        conf: None,
        token: None,
    }
}

fn empty() -> ConfigFile {
    ConfigFile::or_empty(None)
}

fn some(s: &str) -> Option<String> {
    Some(s.to_string())
}

fn full_file() -> ConfigFile {
    ConfigFile {
        host: some("127.0.0.1"),
        port: Some(1000),
        white_token: Some(vec!["f1".to_string(), "f2".to_string()]),
        gateway: some("10.10.0.1"),
        netmask: some("255.255.0.0"),
        finger: Some(true),
        log_path: some("/tmp/file"),
        wg_secret_key: some(KEY_TEXT),
        rate_limit: Some(5),
        web: Some(WebConfig {
            web_port: Some(2000),
            username: some("fu"),
            password: some("fp"),
        }),
    }
}

fn tokens(config: &ConfigInfo) -> Option<Vec<String>> {
    config.white_token.as_ref().map(|t| t.as_vec().clone())
}

#[test]
fn defaults() {
    let args = no_args();
    let file = empty();
    assert_eq!(args.effective_port(&file), 29872);
    assert_eq!(args.effective_web_port(&file), Ok(29870));
    assert_eq!(args.effective_host(&file), None);
    assert_eq!(args.effective_log_path(&file), None);
    let c = ConfigInfo::resolve_with(&args, &file, &None, [9u8; 32]).ok().unwrap();
    assert_eq!(c.port, 29872);
    assert!(c.white_token.is_none());
    assert_eq!(c.gateway, Ipv4Addr::new(10, 26, 0, 1));
    assert_eq!(c.netmask, Ipv4Addr::new(255, 255, 255, 0));
    assert_eq!(c.broadcast, Ipv4Addr::new(10, 26, 0, 255));
    assert!(!c.check_finger);
    assert_eq!(c.username, "admin");
    assert_eq!(c.password, "admin");
    assert_eq!(c.wg_secret_key, [9u8; 32]);
    assert_eq!(c.rate_limit, None);
}

#[test]
fn file_fills_in() {
    let args = no_args();
    let file = full_file();
    assert_eq!(args.effective_host(&file), some("127.0.0.1"));
    assert_eq!(args.effective_log_path(&file), some("/tmp/file"));
    assert_eq!(args.effective_web_port(&file), Ok(2000));
    let c = ConfigInfo::resolve(&args, &file, &None).ok().unwrap();
    assert_eq!(c.port, 1000);
    assert_eq!(tokens(&c), Some(vec!["f1".to_string(), "f2".to_string()]));
    assert_eq!(c.gateway, Ipv4Addr::new(10, 10, 0, 1));
    assert_eq!(c.broadcast, Ipv4Addr::new(10, 10, 255, 255));
    assert!(c.check_finger);
    assert_eq!(c.username, "fu");
    assert_eq!(c.password, "fp");
    assert_eq!(c.wg_secret_key, key());
    assert_eq!(c.rate_limit, Some(5));
}

#[test]
fn command_line_wins() {
    let args = StartArgs {
        host: some("::1"),
        port: Some(1),
        white_token: Some(vec!["a".to_string()]),
        gateway: some("192.168.3.4"),
        netmask: some("255.255.255.128"),
        finger: true,
        log_path: some("/dev/null"),
        web_port: Some(0),
        username: some("au"),
        password: some("ap"),
        wg_secret_key: some("bad"),
        rate_limit: Some(0),
        conf: None,
        token: None,
    };
    let file = full_file();
    assert_eq!(args.effective_host(&file), some("::1"));
    assert_eq!(args.effective_log_path(&file), some("/dev/null"));
    assert_eq!(args.effective_web_port(&file), Ok(0));
    let c = ConfigInfo::resolve_with(&args, &file, &None, [1u8; 32]).ok().unwrap();
    assert_eq!(c.port, 1);
    assert_eq!(tokens(&c), Some(vec!["a".to_string()]));
    assert_eq!(c.gateway, Ipv4Addr::new(192, 168, 3, 4));
    assert_eq!(c.broadcast, Ipv4Addr::new(192, 168, 3, 127));
    assert_eq!(c.username, "au");
    assert_eq!(c.password, "ap");
    assert_eq!(c.wg_secret_key, [1u8; 32]);
    assert_eq!(c.rate_limit, Some(0));
}

#[test]
fn web_console_needs_a_port_of_its_own() {
    let mut args = no_args();
    args.web_port = Some(29872);
    assert_eq!(
        args.effective_web_port(&empty()),
        Err(ConfigError::WebPortIsPort)
    );
    assert_eq!(
        ConfigInfo::resolve(&args, &empty(), &None).err(),
        Some(ConfigError::WebPortIsPort)
    );
    args.port = Some(0);
    args.web_port = Some(0);
    assert_eq!(args.effective_web_port(&empty()), Ok(0));
}

fn with_gateway(g: &str) -> Option<ConfigError> {
    let mut args = no_args();
    args.gateway = some(g);
    ConfigInfo::resolve(&args, &empty(), &None).err()
}

fn with_netmask(m: &str) -> Option<ConfigError> {
    let mut args = no_args();
    args.netmask = some(m);
    ConfigInfo::resolve(&args, &empty(), &None).err()
}

#[test]
fn refused_addresses() {
    assert_eq!(with_gateway("nonsense"), Some(ConfigError::GatewayNotIpv4));
    assert_eq!(with_gateway("0.0.0.0"), Some(ConfigError::GatewayUnspecified));
    assert_eq!(with_gateway("255.255.255.255"), Some(ConfigError::GatewayBroadcast));
    assert_eq!(with_gateway("239.1.1.1"), Some(ConfigError::GatewayMulticast));
    assert_eq!(with_gateway("8.8.8.8"), None);
    assert_eq!(with_netmask("24"), Some(ConfigError::NetmaskNotIpv4));
    assert_eq!(with_netmask("0.0.0.0"), Some(ConfigError::NetmaskInvalid));
    assert_eq!(with_netmask("255.255.255.255"), Some(ConfigError::NetmaskInvalid));
    assert_eq!(with_netmask("255.0.255.0"), Some(ConfigError::NetmaskInvalid));
    assert_eq!(with_netmask("128.0.0.0"), None);
}

#[test]
fn first_refusal_counts() {
    let mut args = no_args();
    args.gateway = some("0.0.0.0");
    args.netmask = some("0.0.0.0");
    assert_eq!(
        ConfigInfo::resolve(&args, &empty(), &None).err(),
        Some(ConfigError::GatewayUnspecified)
    );
    args.web_port = Some(29872);
    assert_eq!(
        ConfigInfo::resolve(&args, &empty(), &None).err(),
        Some(ConfigError::WebPortIsPort)
    );
}

#[test]
fn whitelist_sources() {
    let mut args = no_args();
    let file = full_file();
    let from_file = some("t1\n# no\nt2\n");
    let c = ConfigInfo::resolve(&args, &file, &from_file).ok().unwrap();
    assert_eq!(tokens(&c), Some(vec!["t1".to_string(), "t2".to_string()]));
    args.white_token = Some(vec!["a".to_string(), "t2".to_string()]);
    let c = ConfigInfo::resolve(&args, &file, &from_file).ok().unwrap();
    assert_eq!(
        tokens(&c),
        Some(vec!["a".to_string(), "t2".to_string(), "t1".to_string()])
    );
    assert_eq!(args.started_tokens(&from_file).len(), 3);
    args.white_token = Some(Vec::new());
    let c = ConfigInfo::resolve(&args, &file, &some("# only\n")).ok().unwrap();
    assert_eq!(tokens(&c), Some(vec!["f1".to_string(), "f2".to_string()]));
    let c = ConfigInfo::resolve(&args, &empty(), &some("")).ok().unwrap();
    assert_eq!(tokens(&c), None);
}

#[test]
fn finger_is_checked_if_either_says_so() {
    let mut args = no_args();
    let mut file = empty();
    assert!(!args.effective_check_finger(&file));
    file.finger = Some(false);
    assert!(!args.effective_check_finger(&file));
    args.finger = true;
    assert!(args.effective_check_finger(&file));
    args.finger = false;
    file.finger = Some(true);
    assert!(args.effective_check_finger(&file));
}

#[test]
fn secret_key_texts() {
    match WgKeyChoice::from_text(&some(KEY_TEXT)) {
        WgKeyChoice::Given(k) => assert_eq!(k, key()),
        other => panic!("{:?}", other),
    }
    let padded = format!("  {}\n", KEY_TEXT);
    match WgKeyChoice::from_text(&Some(padded)) {
        WgKeyChoice::Given(k) => assert_eq!(k, key()),
        other => panic!("{:?}", other),
    }
    match WgKeyChoice::from_text(&some("AAEC")) {
        WgKeyChoice::WrongLength(n) => assert_eq!(n, 3),
        other => panic!("{:?}", other),
    }
    match WgKeyChoice::from_text(&some("AAE!")) {
        WgKeyChoice::NotBase64(e) => assert_eq!(e, "Invalid symbol 33, offset 3."),
        other => panic!("{:?}", other),
    }
    match WgKeyChoice::from_text(&some("AAECAw")) {
        WgKeyChoice::NotBase64(e) => assert_eq!(e, "Invalid padding"),
        other => panic!("{:?}", other),
    }
    assert!(matches!(WgKeyChoice::from_text(&None), WgKeyChoice::Absent));
}

#[test]
fn given_key_is_written_as_configured() {
    let text = format!("\t{} ", KEY_TEXT);
    match WgKeyChoice::from_text(&Some(text)) {
        WgKeyChoice::Given(k) => assert_eq!(WgKeyPair::from_secret(k).secret_text(), KEY_TEXT),
        other => panic!("{:?}", other),
    }
    let trailing_bits = "AAECAwQFBgcICQoLDA0ODxAREhMUFRYXGBkaGxwdHh9=";
    assert!(matches!(
        WgKeyChoice::from_text(&some(trailing_bits)),
        WgKeyChoice::NotBase64(_)
    ));
}

#[test]
fn judging_decoded_keys() {
    assert!(matches!(
        WgKeyChoice::from_decoded(Ok(vec![0; 31])),
        WgKeyChoice::WrongLength(31)
    ));
    assert!(matches!(
        WgKeyChoice::from_decoded(Ok(vec![7; 32])),
        WgKeyChoice::Given([7, ..])
    ));
    assert!(matches!(
        WgKeyChoice::from_decoded(Err("e".to_string())),
        WgKeyChoice::NotBase64(_)
    ));
}

#[test]
fn fallback_keys() {
    let given = WgKeyChoice::Given(key());
    assert_eq!(given.secret_or([5; 32]), key());
    assert_eq!(given.secret_or_random(), key());
    let absent = WgKeyChoice::Absent;
    assert_eq!(absent.secret_or([5; 32]), [5; 32]);
    assert_ne!(absent.secret_or_random(), absent.secret_or_random());
}

#[test]
fn public_key_belongs_to_the_secret_key() {
    let pair = WgKeyPair::from_secret(key());
    let secret = boringtun::x25519::StaticSecret::from(key());
    let public = boringtun::x25519::PublicKey::from(&secret);
    assert_eq!(pair.secret, key());
    assert_eq!(pair.public, public.to_bytes());
    assert_ne!(pair.public, pair.secret);
}

#[test]
fn printed_key_can_be_configured() {
    let pair = WgKeyPair::from_secret(key());
    assert_eq!(pair.secret_text(), KEY_TEXT);
    assert!(matches!(
        WgKeyChoice::from_text(&Some(pair.secret_text())),
        WgKeyChoice::Given(k) if k == key()
    ));
    assert_eq!(
        pair.public_text(),
        base64::engine::general_purpose::STANDARD.encode(pair.public)
    );
}

#[test]
fn printed_configuration() {
    let mut args = no_args();
    args.white_token = Some(vec!["a\"b".to_string(), "c".to_string()]);
    args.wg_secret_key = some(KEY_TEXT);
    args.password = some("hidden");
    args.finger = true;
    let c = ConfigInfo::resolve(&args, &empty(), &None).ok().unwrap();
    let public = WgKeyPair::from_secret(key()).public_text();
    assert_eq!(
        c.debug_text(),
        format!(
            "ConfigInfo {{ port: 29872, white_token: Some({{\"a\\\"b\", \"c\"}}), gateway: 10.26.0.1, broadcast: 10.26.0.255, netmask: 255.255.255.0, check_finger: true, wg_secret_key: \"{}\", wg_public_key: \"{}\" }}",
            KEY_TEXT, public
        )
    );
    let mut other = c.clone();
    other.password = "else".to_string();
    other.username = "else".to_string();
    assert_eq!(other.debug_text(), c.debug_text());
    other.white_token = None;
    assert!(other.debug_text().contains("white_token: None,"));
}

#[test]
fn configured_addresses_before_they_are_checked() {
    let mut args = no_args();
    let file = full_file();
    assert_eq!(args.gateway_text(&empty()), None);
    assert_eq!(args.gateway_address(&empty()), Ok(Ipv4Addr::new(10, 26, 0, 1)));
    assert_eq!(args.netmask_text(&empty()), None);
    assert_eq!(args.netmask_address(&empty()), Ok(Ipv4Addr::new(255, 255, 255, 0)));
    assert_eq!(args.gateway_text(&file), some("10.10.0.1"));
    assert_eq!(args.netmask_text(&file), some("255.255.0.0"));
    args.gateway = some("224.0.0.1");
    args.netmask = some("255.0.255.0");
    assert_eq!(args.gateway_address(&file), Ok(Ipv4Addr::new(224, 0, 0, 1)));
    assert_eq!(args.effective_gateway(&file), Err(ConfigError::GatewayMulticast));
    assert_eq!(args.netmask_address(&file), Ok(Ipv4Addr::new(255, 0, 255, 0)));
    assert_eq!(args.effective_netmask(&file), Err(ConfigError::NetmaskInvalid));
    args.gateway = some("10.0.0");
    args.netmask = some("x");
    assert_eq!(args.gateway_address(&file), Err(ConfigError::GatewayNotIpv4));
    assert_eq!(args.netmask_address(&file), Err(ConfigError::NetmaskNotIpv4));
}

#[test]
fn checked_addresses() {
    let ok = Ipv4Addr::new(10, 0, 0, 1);
    assert_eq!(check_gateway(ok), Ok(ok));
    assert_eq!(
        check_gateway(Ipv4Addr::new(0, 0, 0, 0)),
        Err(ConfigError::GatewayUnspecified)
    );
    assert_eq!(
        check_gateway(Ipv4Addr::new(255, 255, 255, 255)),
        Err(ConfigError::GatewayBroadcast)
    );
    let mask = Ipv4Addr::new(255, 255, 255, 128);
    assert_eq!(check_netmask(mask), Ok(mask));
    assert_eq!(check_netmask(ok), Err(ConfigError::NetmaskInvalid));
}

#[test]
fn text_of_the_secret_key() {
    let mut args = no_args();
    assert_eq!(args.wg_key_text(&empty()), None);
    assert_eq!(args.wg_key_text(&full_file()), some(KEY_TEXT));
    args.wg_secret_key = some(" no key ");
    assert_eq!(args.wg_key_text(&full_file()), some(" no key "));
}

#[test]
fn copies_print_alike() {
    let mut args = no_args();
    args.white_token = Some(vec!["z".to_string(), "a".to_string(), "m".to_string()]);
    let c = ConfigInfo::resolve_with(&args, &full_file(), &some("q\nb"), key()).ok().unwrap();
    assert_eq!(tokens(&c), Some(["z", "a", "m", "q", "b"].map(|t| t.to_string()).to_vec()));
    assert_eq!(c.clone().debug_text(), c.debug_text());
}

#[test]
fn copies_of_what_is_configured() {
    let mut args = no_args();
    args.white_token = Some(vec!["z".to_string(), "z".to_string()]);
    args.host = some("h");
    args.conf = some("c.toml");
    assert_eq!(format!("{:?}", args.clone()), format!("{:?}", args));
    let file = full_file();
    assert_eq!(format!("{:?}", file.clone()), format!("{:?}", file));
    let web = file.web.as_ref().unwrap();
    assert_eq!(format!("{:?}", web.clone()), format!("{:?}", web));
    assert_eq!(format!("{:?}", empty().clone()), format!("{:?}", empty()));
}

#[test]
fn layout_of_a_printed_configuration() {
    let c = ConfigInfo::resolve_with(&no_args(), &empty(), &None, key()).ok().unwrap();
    let head = "ConfigInfo { port: 29872, white_token: ";
    let tail = ", gateway: 10.26.0.1, broadcast: 10.26.0.255, netmask: 255.255.255.0, \
                check_finger: false, wg_secret_key: <s>, wg_public_key: <p> }";
    let cases = [
        (None, "None"),
        (Some(vec![]), "Some({})"),
        (Some(vec!["<a>".to_string()]), "Some({<a>})"),
        (
            Some(vec!["<a>".to_string(), "<b>".to_string(), "".to_string()]),
            "Some({<a>, <b>, })",
        ),
    ];
    for (tokens, shown) in cases {
        assert_eq!(
            c.debug_text_with(&tokens, "<s>", "<p>"),
            format!("{}{}{}", head, shown, tail)
        );
    }
}
