//! What the server is started with: the command line, the configuration file, and the
//! configuration that they resolve to.

use vstd::prelude::*;

use crate::ipv4::Ipv4Addr;
use crate::subnet;
use crate::subnet::{broadcast_address, is_valid_netmask};
use crate::text;
use crate::text::push_decimal;
use crate::tokens;
use crate::tokens::TokenSet;
use crate::wg_key;
use crate::wg_key::{WgKeyChoice, WgKeyPair};

verus! {

/// The port that the server listens on, unless another one is configured.
pub const PORT: u16 = 29872;

/// The port of the web console, unless another one is configured.
pub const WEB_PORT: u16 = 29870;

/// The gateway `10.26.0.1`, unless another one is configured.
pub const GATEWAY: u32 = 0x0a1a_0001;

/// The subnet mask `255.255.255.0`, unless another one is configured.
pub const NETMASK: u32 = 0xffff_ff00;

/// The options of the command line.
#[derive(Debug)]
pub struct StartArgs {
    /// The address to listen on; all addresses, if absent.
    pub host: Option<String>,
    /// The port to listen on.
    pub port: Option<u16>,
    /// Tokens of the whitelist.
    pub white_token: Option<Vec<String>>,
    /// The gateway of the virtual network.
    pub gateway: Option<String>,
    /// The subnet mask of the virtual network.
    pub netmask: Option<String>,
    /// Forward only packets whose fingerprint is right.
    pub finger: bool,
    /// Where the log goes; `/dev/null` for no log.
    pub log_path: Option<String>,
    /// The port of the web console; 0 for no console.
    pub web_port: Option<u16>,
    /// The user name of the web console.
    pub username: Option<String>,
    /// The password of the web console.
    pub password: Option<String>,
    /// The WireGuard secret key, in base64.
    pub wg_secret_key: Option<String>,
    /// The rate limit in bytes per second; 0 forwards nothing.
    pub rate_limit: Option<u64>,
    /// The path of the configuration file.
    pub conf: Option<String>,
    /// The path of the token file.
    pub token: Option<String>,
}

/// The web section of the configuration file.
#[derive(Debug)]
pub struct WebConfig {
    pub web_port: Option<u16>,
    pub username: Option<String>,
    pub password: Option<String>,
}

/// The configuration file. Where there is none, nothing is set in it.
#[derive(Debug)]
pub struct ConfigFile {
    pub host: Option<String>,
    pub port: Option<u16>,
    pub white_token: Option<Vec<String>>,
    pub gateway: Option<String>,
    pub netmask: Option<String>,
    pub finger: Option<bool>,
    pub log_path: Option<String>,
    pub wg_secret_key: Option<String>,
    pub rate_limit: Option<u64>,
    pub web: Option<WebConfig>,
}

/// Why a configuration is refused.
#[derive(Clone, Copy, Debug, PartialEq, Eq, Structural)]
pub enum ConfigError {
    /// The web console and the server would listen on the same port.
    WebPortIsPort,
    /// The gateway is not an IPv4 address.
    GatewayNotIpv4,
    /// The gateway is `0.0.0.0`.
    GatewayUnspecified,
    /// The gateway is `255.255.255.255`.
    GatewayBroadcast,
    /// The gateway is a multicast address.
    GatewayMulticast,
    /// The subnet mask is not an IPv4 address.
    NetmaskNotIpv4,
    /// The subnet mask is an address, but not a mask.
    NetmaskInvalid,
}

/// The resolved configuration.
pub struct ConfigInfo {
    pub port: u16,
    pub white_token: Option<TokenSet>,
    pub gateway: Ipv4Addr,
    pub broadcast: Ipv4Addr,
    pub netmask: Ipv4Addr,
    pub check_finger: bool,
    pub username: String,
    pub password: String,
    pub wg_secret_key: [u8; 32],
    pub wg_public_key: [u8; 32],
    pub rate_limit: Option<u64>,
}

/// A copy of an optional text.
fn copied_text(text: &Option<String>) -> (r: Option<String>)
    ensures
        r.deep_view() == text.deep_view(),
{
    match text {
        Some(t) => Some(t.clone()),
        None => None,
    }
}

/// A copy of an optional list of texts.
fn copied_list(list: &Option<Vec<String>>) -> (r: Option<Vec<String>>)
    ensures
        r.deep_view() == list.deep_view(),
{
    match list {
        Some(texts) => {
            let copy = texts.clone();
            assert(copy.deep_view() =~= texts.deep_view());
            Some(copy)
        },
        None => None,
    }
}

impl Clone for StartArgs {
    fn clone(&self) -> (r: Self)
        ensures
            r.host.deep_view() == self.host.deep_view(),
            r.port == self.port,
            r.white_token.deep_view() == self.white_token.deep_view(),
            r.gateway.deep_view() == self.gateway.deep_view(),
            r.netmask.deep_view() == self.netmask.deep_view(),
            r.finger == self.finger,
            r.log_path.deep_view() == self.log_path.deep_view(),
            r.web_port == self.web_port,
            r.username.deep_view() == self.username.deep_view(),
            r.password.deep_view() == self.password.deep_view(),
            r.wg_secret_key.deep_view() == self.wg_secret_key.deep_view(),
            r.rate_limit == self.rate_limit,
            r.conf.deep_view() == self.conf.deep_view(),
            r.token.deep_view() == self.token.deep_view(),
    {
        StartArgs {
            host: copied_text(&self.host),
            port: self.port,
            white_token: copied_list(&self.white_token),
            gateway: copied_text(&self.gateway),
            netmask: copied_text(&self.netmask),
            finger: self.finger,
            log_path: copied_text(&self.log_path),
            web_port: self.web_port,
            username: copied_text(&self.username),
            password: copied_text(&self.password),
            wg_secret_key: copied_text(&self.wg_secret_key),
            rate_limit: self.rate_limit,
            conf: copied_text(&self.conf),
            token: copied_text(&self.token),
        }
    }
}

impl Clone for WebConfig {
    fn clone(&self) -> (r: Self)
        ensures
            r.web_port == self.web_port,
            r.username.deep_view() == self.username.deep_view(),
            r.password.deep_view() == self.password.deep_view(),
    {
        WebConfig {
            web_port: self.web_port,
            username: copied_text(&self.username),
            password: copied_text(&self.password),
        }
    }
}

impl Clone for ConfigFile {
    fn clone(&self) -> (r: Self)
        ensures
            r.host.deep_view() == self.host.deep_view(),
            r.port == self.port,
            r.white_token.deep_view() == self.white_token.deep_view(),
            r.gateway.deep_view() == self.gateway.deep_view(),
            r.netmask.deep_view() == self.netmask.deep_view(),
            r.finger == self.finger,
            r.log_path.deep_view() == self.log_path.deep_view(),
            r.wg_secret_key.deep_view() == self.wg_secret_key.deep_view(),
            r.rate_limit == self.rate_limit,
            r.web is Some == self.web is Some,
            r.web_port() == self.web_port(),
            r.web_username() == self.web_username(),
            r.web_password() == self.web_password(),
    {
        ConfigFile {
            host: copied_text(&self.host),
            port: self.port,
            white_token: copied_list(&self.white_token),
            gateway: copied_text(&self.gateway),
            netmask: copied_text(&self.netmask),
            finger: self.finger,
            log_path: copied_text(&self.log_path),
            wg_secret_key: copied_text(&self.wg_secret_key),
            rate_limit: self.rate_limit,
            web: match &self.web {
                Some(web) => Some(web.clone()),
                None => None,
            },
        }
    }
}

impl Clone for ConfigInfo {
    fn clone(&self) -> (r: Self)
        ensures
            r@ == self@,
            config_text(r) == config_text(*self),
    {
        let white_token = match &self.white_token {
            Some(tokens) => Some(tokens.clone()),
            None => None,
        };
        ConfigInfo {
            port: self.port,
            white_token,
            gateway: self.gateway,
            broadcast: self.broadcast,
            netmask: self.netmask,
            check_finger: self.check_finger,
            username: self.username.clone(),
            password: self.password.clone(),
            wg_secret_key: self.wg_secret_key,
            wg_public_key: self.wg_public_key,
            rate_limit: self.rate_limit,
        }
    }
}

/// The resolved configuration over plain values.
#[verifier::ext_equal]
pub ghost struct ConfigModel {
    pub port: u16,
    pub white_token: Option<Set<Seq<char>>>,
    pub gateway: Ipv4Addr,
    pub broadcast: Ipv4Addr,
    pub netmask: Ipv4Addr,
    pub check_finger: bool,
    pub username: Seq<char>,
    pub password: Seq<char>,
    pub wg_secret_key: Seq<u8>,
    pub wg_public_key: Seq<u8>,
    pub rate_limit: Option<u64>,
}

impl View for ConfigInfo {
    type V = ConfigModel;

    open spec fn view(&self) -> ConfigModel {
        ConfigModel {
            port: self.port,
            white_token: match self.white_token {
                Some(tokens) => Some(tokens@),
                None => None,
            },
            gateway: self.gateway,
            broadcast: self.broadcast,
            netmask: self.netmask,
            check_finger: self.check_finger,
            username: self.username@,
            password: self.password@,
            wg_secret_key: self.wg_secret_key@,
            wg_public_key: self.wg_public_key@,
            rate_limit: self.rate_limit,
        }
    }
}

/// The first of two optional settings that is present.
pub open spec fn first_of<T>(a: Option<T>, b: Option<T>) -> Option<T> {
    match a {
        Some(_) => a,
        None => b,
    }
}

/// An optional setting or its default.
pub open spec fn or_default<T>(a: Option<T>, default: T) -> T {
    match a {
        Some(v) => v,
        None => default,
    }
}

fn first_number<T: Copy>(a: Option<T>, b: Option<T>) -> (r: Option<T>)
    ensures
        r == first_of(a, b),
{
    match a {
        Some(_) => a,
        None => b,
    }
}

fn first_text(a: &Option<String>, b: &Option<String>) -> (r: Option<String>)
    ensures
        r.deep_view() == first_of(a.deep_view(), b.deep_view()),
{
    match a {
        Some(text) => Some(text.clone()),
        None => match b {
            Some(text) => Some(text.clone()),
            None => None,
        },
    }
}

impl ConfigFile {
    /// The port of the web console, if the web section sets it.
    pub open spec fn web_port(self) -> Option<u16> {
        match self.web {
            Some(web) => web.web_port,
            None => None,
        }
    }

    /// The user name of the web console, if the web section sets it.
    pub open spec fn web_username(self) -> Option<Seq<char>> {
        match self.web {
            Some(web) => web.username.deep_view(),
            None => None,
        }
    }

    /// The password of the web console, if the web section sets it.
    pub open spec fn web_password(self) -> Option<Seq<char>> {
        match self.web {
            Some(web) => web.password.deep_view(),
            None => None,
        }
    }

    /// Whether nothing is set.
    pub open spec fn sets_nothing(self) -> bool {
        &&& self.host is None
        &&& self.port is None
        &&& self.white_token is None
        &&& self.gateway is None
        &&& self.netmask is None
        &&& self.finger is None
        &&& self.log_path is None
        &&& self.wg_secret_key is None
        &&& self.rate_limit is None
        &&& self.web is None
    }

    /// The given file, or one that sets nothing.
    pub fn or_empty(file: Option<ConfigFile>) -> (r: ConfigFile)
        ensures
            match file {
                Some(f) => r == f,
                None => r.sets_nothing(),
            },
    {
        match file {
            Some(f) => f,
            None => ConfigFile {
                host: None,
                port: None,
                white_token: None,
                gateway: None,
                netmask: None,
                finger: None,
                log_path: None,
                wg_secret_key: None,
                rate_limit: None,
                web: None,
            },
        }
    }
}

/// The port: command line, then file, then default.
pub open spec fn port_of(args: StartArgs, file: ConfigFile) -> u16 {
    or_default(first_of(args.port, file.port), PORT)
}

/// The web console's port, unless it is the server's own. Port 0 stands for no console.
pub open spec fn web_port_of(args: StartArgs, file: ConfigFile) -> Result<u16, ConfigError> {
    let web_port = or_default(first_of(args.web_port, file.web_port()), WEB_PORT);
    if web_port != 0 && web_port == port_of(args, file) {
        Err(ConfigError::WebPortIsPort)
    } else {
        Ok(web_port)
    }
}

/// The listening address: command line, then file.
pub open spec fn host_of(args: StartArgs, file: ConfigFile) -> Option<Seq<char>> {
    first_of(args.host.deep_view(), file.host.deep_view())
}

/// The log path: command line, then file.
pub open spec fn log_path_of(args: StartArgs, file: ConfigFile) -> Option<Seq<char>> {
    first_of(args.log_path.deep_view(), file.log_path.deep_view())
}

/// The web console's user name: command line, then file, then default.
pub open spec fn username_of(args: StartArgs, file: ConfigFile) -> Seq<char> {
    or_default(first_of(args.username.deep_view(), file.web_username()), "admin"@)
}

/// The web console's password: command line, then file, then default.
pub open spec fn password_of(args: StartArgs, file: ConfigFile) -> Seq<char> {
    or_default(first_of(args.password.deep_view(), file.web_password()), "admin"@)
}

/// The tokens of the command line and of the token file.
pub open spec fn started_tokens(args: StartArgs, token_file: Option<Seq<char>>) -> Set<Seq<char>> {
    tokens::tokens_in_list(args.white_token.deep_view()).union(
        match token_file {
            Some(content) => tokens::tokens_in_file(content),
            None => Set::empty(),
        },
    )
}

/// The whitelist: the tokens of the command line and of the token file together. Where these name
/// none, the tokens of the configuration file. Where these name none either, there is none.
pub open spec fn white_token_of(
    args: StartArgs,
    file: ConfigFile,
    token_file: Option<Seq<char>>,
) -> Option<Set<Seq<char>>> {
    let started = started_tokens(args, token_file);
    let tokens = if started == Set::<Seq<char>>::empty() {
        tokens::tokens_in_list(file.white_token.deep_view())
    } else {
        started
    };
    if tokens == Set::<Seq<char>>::empty() {
        None
    } else {
        Some(tokens)
    }
}

/// A gateway, if it may be one.
pub open spec fn checked_gateway(gateway: Ipv4Addr) -> Result<Ipv4Addr, ConfigError> {
    if gateway.unspecified() {
        Err(ConfigError::GatewayUnspecified)
    } else if gateway.limited_broadcast() {
        Err(ConfigError::GatewayBroadcast)
    } else if gateway.multicast() {
        Err(ConfigError::GatewayMulticast)
    } else {
        Ok(gateway)
    }
}

/// The address that is configured as the gateway: command line, then file, then default.
pub open spec fn gateway_address_of(
    args: StartArgs,
    file: ConfigFile,
) -> Result<Ipv4Addr, ConfigError> {
    match first_of(args.gateway.deep_view(), file.gateway.deep_view()) {
        None => Ok(Ipv4Addr { bits: GATEWAY }),
        Some(text) => match Ipv4Addr::parsed(text) {
            None => Err(ConfigError::GatewayNotIpv4),
            Some(gateway) => Ok(gateway),
        },
    }
}

/// The gateway: the configured address, if it may be one.
pub open spec fn gateway_of(args: StartArgs, file: ConfigFile) -> Result<Ipv4Addr, ConfigError> {
    match gateway_address_of(args, file) {
        Ok(gateway) => checked_gateway(gateway),
        Err(e) => Err(e),
    }
}

/// A subnet mask, if it is one.
pub open spec fn checked_netmask(netmask: Ipv4Addr) -> Result<Ipv4Addr, ConfigError> {
    if subnet::is_netmask(netmask) {
        Ok(netmask)
    } else {
        Err(ConfigError::NetmaskInvalid)
    }
}

/// The address that is configured as the subnet mask: command line, then file, then default.
pub open spec fn netmask_address_of(
    args: StartArgs,
    file: ConfigFile,
) -> Result<Ipv4Addr, ConfigError> {
    match first_of(args.netmask.deep_view(), file.netmask.deep_view()) {
        None => Ok(Ipv4Addr { bits: NETMASK }),
        Some(text) => match Ipv4Addr::parsed(text) {
            None => Err(ConfigError::NetmaskNotIpv4),
            Some(netmask) => Ok(netmask),
        },
    }
}

/// The subnet mask: the configured address, if it is one.
pub open spec fn netmask_of(args: StartArgs, file: ConfigFile) -> Result<Ipv4Addr, ConfigError> {
    match netmask_address_of(args, file) {
        Ok(netmask) => checked_netmask(netmask),
        Err(e) => Err(e),
    }
}

/// Whether fingerprints are checked: the command line or the file says so.
pub open spec fn check_finger_of(args: StartArgs, file: ConfigFile) -> bool {
    args.finger || file.finger == Some(true)
}

/// The WireGuard secret key that is configured: command line, then file.
pub open spec fn key_choice_of(args: StartArgs, file: ConfigFile) -> wg_key::KeyChoice {
    wg_key::choice_of_text(first_of(args.wg_secret_key.deep_view(), file.wg_secret_key.deep_view()))
}

/// The rate limit: command line, then file.
pub open spec fn rate_limit_of(args: StartArgs, file: ConfigFile) -> Option<u64> {
    first_of(args.rate_limit, file.rate_limit)
}

/// The configuration that the command line, the configuration file and the text of the token file
/// resolve to, where `fallback` is the secret key to use if none is configured. The port of the
/// web console, the gateway and the subnet mask are checked in this order.
pub open spec fn resolved(
    args: StartArgs,
    file: ConfigFile,
    token_file: Option<Seq<char>>,
    fallback: Seq<u8>,
) -> Result<ConfigModel, ConfigError> {
    if web_port_of(args, file) is Err {
        Err(web_port_of(args, file)->Err_0)
    } else if gateway_of(args, file) is Err {
        Err(gateway_of(args, file)->Err_0)
    } else if netmask_of(args, file) is Err {
        Err(netmask_of(args, file)->Err_0)
    } else {
        let gateway = gateway_of(args, file)->Ok_0;
        let netmask = netmask_of(args, file)->Ok_0;
        let secret = wg_key::secret_of(key_choice_of(args, file), fallback);
        Ok(
            ConfigModel {
                port: port_of(args, file),
                white_token: white_token_of(args, file, token_file),
                gateway,
                broadcast: subnet::broadcast_of(gateway, netmask),
                netmask,
                check_finger: check_finger_of(args, file),
                username: username_of(args, file),
                password: password_of(args, file),
                wg_secret_key: secret,
                wg_public_key: wg_key::x25519_public_key(secret),
                rate_limit: rate_limit_of(args, file),
            },
        )
    }
}

/// Checks whether an address may be the gateway.
pub fn check_gateway(gateway: Ipv4Addr) -> (r: Result<Ipv4Addr, ConfigError>)
    ensures
        r == checked_gateway(gateway),
{
    if gateway.is_unspecified() {
        Err(ConfigError::GatewayUnspecified)
    } else if gateway.is_broadcast() {
        Err(ConfigError::GatewayBroadcast)
    } else if gateway.is_multicast() {
        Err(ConfigError::GatewayMulticast)
    } else {
        Ok(gateway)
    }
}

/// Checks whether an address is a subnet mask.
pub fn check_netmask(netmask: Ipv4Addr) -> (r: Result<Ipv4Addr, ConfigError>)
    ensures
        r == checked_netmask(netmask),
{
    if is_valid_netmask(&netmask) {
        Ok(netmask)
    } else {
        Err(ConfigError::NetmaskInvalid)
    }
}

impl StartArgs {
    /// The port to listen on.
    pub fn effective_port(&self, file: &ConfigFile) -> (r: u16)
        ensures
            r == port_of(*self, *file),
    {
        match first_number(self.port, file.port) {
            Some(port) => port,
            None => PORT,
        }
    }

    /// The port of the web console, 0 for no console.
    pub fn effective_web_port(&self, file: &ConfigFile) -> (r: Result<u16, ConfigError>)
        ensures
            r == web_port_of(*self, *file),
    {
        let from_file = match &file.web {
            Some(web) => web.web_port,
            None => None,
        };
        let web_port: u16 = match first_number(self.web_port, from_file) {
            Some(port) => port,
            None => WEB_PORT,
        };
        if web_port != 0 && web_port == self.effective_port(file) {
            Err(ConfigError::WebPortIsPort)
        } else {
            Ok(web_port)
        }
    }

    /// The address to listen on.
    pub fn effective_host(&self, file: &ConfigFile) -> (r: Option<String>)
        ensures
            r.deep_view() == host_of(*self, *file),
    {
        first_text(&self.host, &file.host)
    }

    /// Where the log goes.
    pub fn effective_log_path(&self, file: &ConfigFile) -> (r: Option<String>)
        ensures
            r.deep_view() == log_path_of(*self, *file),
    {
        first_text(&self.log_path, &file.log_path)
    }

    /// The user name of the web console.
    pub fn effective_username(&self, file: &ConfigFile) -> (r: String)
        ensures
            r@ == username_of(*self, *file),
    {
        let found = match &file.web {
            Some(web) => first_text(&self.username, &web.username),
            None => first_text(&self.username, &None),
        };
        match found {
            Some(username) => username,
            None => "admin".to_owned(),
        }
    }

    /// The password of the web console.
    pub fn effective_password(&self, file: &ConfigFile) -> (r: String)
        ensures
            r@ == password_of(*self, *file),
    {
        let found = match &file.web {
            Some(web) => first_text(&self.password, &web.password),
            None => first_text(&self.password, &None),
        };
        match found {
            Some(password) => password,
            None => "admin".to_owned(),
        }
    }

    /// The tokens of the command line and of the token file.
    pub fn started_tokens(&self, token_file: &Option<String>) -> (r: TokenSet)
        ensures
            r@ == started_tokens(*self, token_file.deep_view()),
    {
        let mut set = TokenSet::new();
        if let Some(list) = &self.white_token {
            set.extend(list);
        }
        assert(set@ =~= tokens::tokens_in_list(self.white_token.deep_view()));
        if let Some(content) = token_file {
            set.load(content.as_str());
        }
        assert(set@ =~= started_tokens(*self, token_file.deep_view()));
        set
    }

    /// The whitelist, if there is one.
    pub fn effective_white_token(
        &self,
        file: &ConfigFile,
        token_file: &Option<String>,
    ) -> (r: Option<TokenSet>)
        ensures
            (match r {
                Some(tokens) => Some(tokens@),
                None => None,
            }) == white_token_of(*self, *file, token_file.deep_view()),
    {
        let mut set = self.started_tokens(token_file);
        if set.is_empty() {
            if let Some(list) = &file.white_token {
                set.extend(list);
            }
            assert(set@ =~= tokens::tokens_in_list(file.white_token.deep_view()));
        }
        if set.is_empty() {
            None
        } else {
            Some(set)
        }
    }

    /// The gateway of the virtual network as it is configured.
    pub fn gateway_text(&self, file: &ConfigFile) -> (r: Option<String>)
        ensures
            r.deep_view() == first_of(self.gateway.deep_view(), file.gateway.deep_view()),
    {
        first_text(&self.gateway, &file.gateway)
    }

    /// The address that is configured as the gateway, or the default one.
    pub fn gateway_address(&self, file: &ConfigFile) -> (r: Result<Ipv4Addr, ConfigError>)
        ensures
            r == gateway_address_of(*self, *file),
    {
        match self.gateway_text(file) {
            None => Ok(Ipv4Addr { bits: GATEWAY }),
            Some(text) => match Ipv4Addr::parse(text.as_str()) {
                None => Err(ConfigError::GatewayNotIpv4),
                Some(gateway) => Ok(gateway),
            },
        }
    }

    /// The gateway of the virtual network.
    pub fn effective_gateway(&self, file: &ConfigFile) -> (r: Result<Ipv4Addr, ConfigError>)
        ensures
            r == gateway_of(*self, *file),
    {
        match self.gateway_address(file) {
            Ok(gateway) => check_gateway(gateway),
            Err(e) => Err(e),
        }
    }

    /// The subnet mask of the virtual network as it is configured.
    pub fn netmask_text(&self, file: &ConfigFile) -> (r: Option<String>)
        ensures
            r.deep_view() == first_of(self.netmask.deep_view(), file.netmask.deep_view()),
    {
        first_text(&self.netmask, &file.netmask)
    }

    /// The address that is configured as the subnet mask, or the default one.
    pub fn netmask_address(&self, file: &ConfigFile) -> (r: Result<Ipv4Addr, ConfigError>)
        ensures
            r == netmask_address_of(*self, *file),
    {
        match self.netmask_text(file) {
            None => Ok(Ipv4Addr { bits: NETMASK }),
            Some(text) => match Ipv4Addr::parse(text.as_str()) {
                None => Err(ConfigError::NetmaskNotIpv4),
                Some(netmask) => Ok(netmask),
            },
        }
    }

    /// The subnet mask of the virtual network.
    pub fn effective_netmask(&self, file: &ConfigFile) -> (r: Result<Ipv4Addr, ConfigError>)
        ensures
            r == netmask_of(*self, *file),
    {
        match self.netmask_address(file) {
            Ok(netmask) => check_netmask(netmask),
            Err(e) => Err(e),
        }
    }

    /// Whether fingerprints are checked.
    pub fn effective_check_finger(&self, file: &ConfigFile) -> (r: bool)
        ensures
            r == check_finger_of(*self, *file),
    {
        if self.finger {
            true
        } else {
            match file.finger {
                Some(finger) => finger,
                None => false,
            }
        }
    }

    /// The WireGuard secret key that is configured.
    pub fn effective_wg_key(&self, file: &ConfigFile) -> (r: WgKeyChoice)
        ensures
            r@ == key_choice_of(*self, *file),
    {
        WgKeyChoice::from_text(&self.wg_key_text(file))
    }

    /// The text of the WireGuard secret key that is configured.
    pub fn wg_key_text(&self, file: &ConfigFile) -> (r: Option<String>)
        ensures
            r.deep_view() == first_of(
                self.wg_secret_key.deep_view(),
                file.wg_secret_key.deep_view(),
            ),
    {
        first_text(&self.wg_secret_key, &file.wg_secret_key)
    }

    /// The rate limit in bytes per second.
    pub fn effective_rate_limit(&self, file: &ConfigFile) -> (r: Option<u64>)
        ensures
            r == rate_limit_of(*self, *file),
    {
        first_number(self.rate_limit, file.rate_limit)
    }
}

impl ConfigInfo {
    /// Resolves a configuration. `fallback` is the secret key to use if none is configured.
    pub fn resolve_with(
        args: &StartArgs,
        file: &ConfigFile,
        token_file: &Option<String>,
        fallback: [u8; 32],
    ) -> (r: Result<ConfigInfo, ConfigError>)
        ensures
            (match r {
                Ok(config) => Ok(config@),
                Err(e) => Err(e),
            }) == resolved(*args, *file, token_file.deep_view(), fallback@),
    {
        let port: u16 = args.effective_port(file);
        if let Err(e) = args.effective_web_port(file) {
            return Err(e);
        }
        let username = args.effective_username(file);
        let password = args.effective_password(file);
        let white_token = args.effective_white_token(file, token_file);
        let gateway = match args.effective_gateway(file) {
            Ok(gateway) => gateway,
            Err(e) => return Err(e),
        };
        let netmask = match args.effective_netmask(file) {
            Ok(netmask) => netmask,
            Err(e) => return Err(e),
        };
        let broadcast = broadcast_address(&gateway, &netmask);
        let check_finger = args.effective_check_finger(file);
        let keys = WgKeyPair::from_secret(args.effective_wg_key(file).secret_or(fallback));
        let rate_limit = args.effective_rate_limit(file);
        Ok(
            ConfigInfo {
                port,
                white_token,
                gateway,
                broadcast,
                netmask,
                check_finger,
                username,
                password,
                wg_secret_key: keys.secret,
                wg_public_key: keys.public,
                rate_limit,
            },
        )
    }

    /// Resolves a configuration. Where no secret key is configured, one is drawn at random.
    pub fn resolve(
        args: &StartArgs,
        file: &ConfigFile,
        token_file: &Option<String>,
    ) -> (r: Result<ConfigInfo, ConfigError>)
        ensures
            exists|fallback: Seq<u8>|
                fallback.len() == wg_key::KEY_LEN &&
                (match r {
                    Ok(config) => Ok(config@),
                    Err(e) => Err(e),
                }) == #[trigger] resolved(*args, *file, token_file.deep_view(), fallback),
    {
        let fallback = args.effective_wg_key(file).secret_or_random();
        ConfigInfo::resolve_with(args, file, token_file, fallback)
    }
}

/// A text as `{:?}` writes it: in quotes, with escapes.
pub uninterp spec fn debug_quoted(text: Seq<char>) -> Seq<char>;

/// The `Debug` form that std's `format` gives a `str`. The result depends on the text alone.
#[verifier::external_body]
fn quoted(text: &str) -> (r: String)
    ensures
        r@ == debug_quoted(text@),
{
    format!("{:?}", text)
}

/// Texts, separated by commas.
pub open spec fn comma_list(texts: Seq<Seq<char>>) -> Seq<char>
    decreases texts.len(),
{
    if texts.len() == 0 {
        Seq::empty()
    } else if texts.len() == 1 {
        texts[0]
    } else {
        comma_list(texts.drop_last()) + ", "@ + texts.last()
    }
}

/// The whitelist as a programmer reads it, given its tokens as a programmer reads them.
pub open spec fn white_token_text(quoted_tokens: Option<Seq<Seq<char>>>) -> Seq<char> {
    match quoted_tokens {
        None => "None"@,
        Some(texts) => "Some({"@ + comma_list(texts) + "})"@,
    }
}

/// The configuration as a programmer reads it, given its tokens and its keys as a programmer reads
/// them. It shows neither the web console's credentials nor the rate limit.
pub open spec fn text_with(
    config: ConfigInfo,
    quoted_tokens: Option<Seq<Seq<char>>>,
    quoted_secret: Seq<char>,
    quoted_public: Seq<char>,
) -> Seq<char> {
    "ConfigInfo { port: "@ + text::decimal(config.port as nat) + ", white_token: "@
        + white_token_text(quoted_tokens) + ", gateway: "@ + config.gateway.dotted()
        + ", broadcast: "@ + config.broadcast.dotted() + ", netmask: "@ + config.netmask.dotted()
        + ", check_finger: "@ + (if config.check_finger {
        "true"@
    } else {
        "false"@
    }) + ", wg_secret_key: "@ + quoted_secret + ", wg_public_key: "@ + quoted_public + " }"@
}

/// The tokens of a whitelist as a programmer reads them.
pub open spec fn quoted_tokens_of(tokens: Option<TokenSet>) -> Option<Seq<Seq<char>>> {
    match tokens {
        None => None,
        Some(set) => Some(
            Seq::new(set.listed().len(), |i: int| debug_quoted(set.listed()[i])),
        ),
    }
}

/// The configuration as a programmer reads it. The keys are shown in base64.
pub open spec fn config_text(config: ConfigInfo) -> Seq<char> {
    text_with(
        config,
        quoted_tokens_of(config.white_token),
        debug_quoted(wg_key::base64_encoded(config.wg_secret_key@)),
        debug_quoted(wg_key::base64_encoded(config.wg_public_key@)),
    )
}

/// The tokens of a whitelist as a programmer reads them.
fn quoted_tokens(tokens: &Option<TokenSet>) -> (r: Option<Vec<String>>)
    ensures
        r.deep_view() == quoted_tokens_of(*tokens),
{
    match tokens {
        None => None,
        Some(set) => {
            let list = set.as_vec();
            let ghost all = list.deep_view();
            let mut texts: Vec<String> = Vec::new();
            let mut i: usize = 0;
            while i < list.len()
                invariant
                    i <= list.len(),
                    all == list.deep_view(),
                    texts@.len() == i,
                    forall|j: int| 0 <= j < i ==> (#[trigger] texts@[j])@ == debug_quoted(all[j]),
                decreases list.len() - i,
            {
                texts.push(quoted(list[i].as_str()));
                i += 1;
            }
            assert(texts.deep_view() =~= Seq::new(all.len(), |j: int| debug_quoted(all[j])));
            Some(texts)
        },
    }
}

/// Appends the whitelist as a programmer reads it.
fn push_white_token(s: &mut String, quoted_tokens: &Option<Vec<String>>)
    ensures
        final(s)@ == old(s)@ + white_token_text(quoted_tokens.deep_view()),
{
    match quoted_tokens {
        None => s.append("None"),
        Some(list) => {
            let ghost all = list.deep_view();
            let ghost start = s@ + "Some({"@;
            s.append("Some({");
            assert(s@ =~= start + comma_list(all.take(0)));
            let mut i: usize = 0;
            while i < list.len()
                invariant
                    i <= list.len(),
                    all == list.deep_view(),
                    s@ == start + comma_list(all.take(i as int)),
                decreases list.len() - i,
            {
                if i > 0 {
                    s.append(", ");
                }
                s.append(list[i].as_str());
                proof {
                    let more = all.take(i + 1);
                    assert(more.drop_last() =~= all.take(i as int));
                    assert(more.last() == all[i as int]);
                    if i == 0 {
                        assert(comma_list(all.take(0)) =~= Seq::<char>::empty());
                    }
                    assert(s@ =~= start + comma_list(more));
                }
                i += 1;
            }
            assert(all.take(i as int) =~= all);
            s.append("})");
            assert(s@ =~= old(s)@ + white_token_text(quoted_tokens.deep_view()));
        },
    }
}

impl ConfigInfo {
    /// The configuration as a programmer reads it.
    pub fn debug_text(&self) -> (r: String)
        ensures
            r@ == config_text(*self),
    {
        let keys = WgKeyPair { secret: self.wg_secret_key, public: self.wg_public_key };
        let tokens = quoted_tokens(&self.white_token);
        let secret = quoted(keys.secret_text().as_str());
        let public = quoted(keys.public_text().as_str());
        self.debug_text_with(&tokens, secret.as_str(), public.as_str())
    }

    /// The configuration as a programmer reads it, given its tokens and its keys as a programmer
    /// reads them.
    pub fn debug_text_with(
        &self,
        quoted_tokens: &Option<Vec<String>>,
        quoted_secret: &str,
        quoted_public: &str,
    ) -> (r: String)
        ensures
            r@ == text_with(*self, quoted_tokens.deep_view(), quoted_secret@, quoted_public@),
    {
        let mut s = "ConfigInfo { port: ".to_owned();
        push_decimal(&mut s, self.port as u64);
        s.append(", white_token: ");
        push_white_token(&mut s, quoted_tokens);
        s.append(", gateway: ");
        s.append(self.gateway.to_text().as_str());
        s.append(", broadcast: ");
        s.append(self.broadcast.to_text().as_str());
        s.append(", netmask: ");
        s.append(self.netmask.to_text().as_str());
        s.append(", check_finger: ");
        if self.check_finger {
            s.append("true");
        } else {
            s.append("false");
        }
        s.append(", wg_secret_key: ");
        s.append(quoted_secret);
        s.append(", wg_public_key: ");
        s.append(quoted_public);
        s.append(" }");
        s
    }
}

/// What is set on the command line does not depend on the configuration file.
pub proof fn law_command_line_wins(args: StartArgs, a: ConfigFile, b: ConfigFile)
    ensures
        args.port is Some ==> port_of(args, a) == port_of(args, b),
        args.port is Some && args.web_port is Some ==> web_port_of(args, a) == web_port_of(args, b),
        args.host is Some ==> host_of(args, a) == host_of(args, b),
        args.log_path is Some ==> log_path_of(args, a) == log_path_of(args, b),
        args.username is Some ==> username_of(args, a) == username_of(args, b),
        args.password is Some ==> password_of(args, a) == password_of(args, b),
        args.gateway is Some ==> gateway_of(args, a) == gateway_of(args, b),
        args.netmask is Some ==> netmask_of(args, a) == netmask_of(args, b),
        args.finger ==> check_finger_of(args, a) == check_finger_of(args, b),
        args.wg_secret_key is Some ==> key_choice_of(args, a) == key_choice_of(args, b),
        args.rate_limit is Some ==> rate_limit_of(args, a) == rate_limit_of(args, b),
{
}

/// Where neither the command line nor the file says otherwise, the defaults hold: the server
/// listens on its port on all addresses, the network is `10.26.0.0/24` with the gateway
/// `10.26.0.1`, and neither limits nor fingerprints apply.
pub proof fn law_defaults_hold(args: StartArgs, file: ConfigFile)
    requires
        file.sets_nothing(),
    ensures
        args.port is None ==> port_of(args, file) == PORT,
        args.host is None ==> host_of(args, file) is None,
        args.log_path is None ==> log_path_of(args, file) is None,
        args.username is None ==> username_of(args, file) == "admin"@,
        args.password is None ==> password_of(args, file) == "admin"@,
        args.web_port is None && port_of(args, file) != WEB_PORT ==> web_port_of(args, file) == Ok::<
            u16,
            ConfigError,
        >(WEB_PORT),
        args.gateway is None ==> gateway_of(args, file) == Ok::<Ipv4Addr, ConfigError>(
            Ipv4Addr { bits: GATEWAY },
        ),
        args.netmask is None ==> netmask_of(args, file) == Ok::<Ipv4Addr, ConfigError>(
            Ipv4Addr { bits: NETMASK },
        ),
        subnet::broadcast_of(Ipv4Addr { bits: GATEWAY }, Ipv4Addr { bits: NETMASK }) == (Ipv4Addr {
            bits: 0x0a1a_00ff,
        }),
        !args.finger ==> !check_finger_of(args, file),
        args.wg_secret_key is None ==> key_choice_of(args, file) == wg_key::KeyChoice::Absent,
        args.rate_limit is None ==> rate_limit_of(args, file) is None,
{
    vstd::arithmetic::power2::lemma2_to64();
    assert(subnet::prefix_mask(24) == NETMASK);
    assert(!0xffff_ff00u32 | 0x0a1a_0001u32 == 0x0a1a_00ffu32) by (bit_vector);
}

/// The configuration file's whitelist counts only where neither the command line nor the token
/// file names a token; where one does, every token of both is in the whitelist and no other.
pub proof fn law_file_whitelist_is_fallback(
    args: StartArgs,
    a: ConfigFile,
    b: ConfigFile,
    token_file: Option<Seq<char>>,
    token: Seq<char>,
)
    requires
        started_tokens(args, token_file).contains(token),
    ensures
        white_token_of(args, a, token_file) == white_token_of(args, b, token_file),
        white_token_of(args, a, token_file) == Some(started_tokens(args, token_file)),
{
    assert(started_tokens(args, token_file) != Set::<Seq<char>>::empty());
}

/// A whitelist that exists is not empty.
pub proof fn law_whitelist_is_not_empty(
    args: StartArgs,
    file: ConfigFile,
    token_file: Option<Seq<char>>,
)
    ensures
        white_token_of(args, file, token_file) matches Some(tokens) ==> exists|t: Seq<char>|
            tokens.contains(t),
{
    if let Some(tokens) = white_token_of(args, file, token_file) {
        if forall|t: Seq<char>| !tokens.contains(t) {
            assert(tokens =~= Set::<Seq<char>>::empty());
        }
    }
}

/// A resolved configuration is sound: its mask is a mask, its gateway is a host's address, its
/// broadcast address is the last one of the gateway's subnet, its public key belongs to its secret
/// key, and the web console has a port of its own or none.
pub proof fn law_resolved_is_sound(
    args: StartArgs,
    file: ConfigFile,
    token_file: Option<Seq<char>>,
    fallback: Seq<u8>,
    addr: Ipv4Addr,
)
    requires
        resolved(args, file, token_file, fallback) is Ok,
    ensures
        ({
            let c = resolved(args, file, token_file, fallback)->Ok_0;
            &&& subnet::is_netmask(c.netmask)
            &&& !c.gateway.unspecified()
            &&& !c.gateway.limited_broadcast()
            &&& !c.gateway.multicast()
            &&& subnet::in_subnet(c.broadcast, c.gateway, c.netmask)
            &&& subnet::in_subnet(addr, c.gateway, c.netmask) ==> addr.bits <= c.broadcast.bits
            &&& c.wg_public_key == wg_key::x25519_public_key(c.wg_secret_key)
            &&& web_port_of(args, file) matches Ok(web_port) && (web_port == 0 || web_port
                != c.port)
        }),
{
    let c = resolved(args, file, token_file, fallback)->Ok_0;
    subnet::law_broadcast_is_last(c.gateway, c.netmask, c.gateway);
    if subnet::in_subnet(addr, c.gateway, c.netmask) {
        subnet::law_broadcast_is_last(c.gateway, c.netmask, addr);
    }
}

/// The fallback secret key counts only where no valid one is configured.
pub proof fn law_configured_key_is_used(
    args: StartArgs,
    file: ConfigFile,
    token_file: Option<Seq<char>>,
    a: Seq<u8>,
    b: Seq<u8>,
)
    requires
        key_choice_of(args, file) is Given,
    ensures
        resolved(args, file, token_file, a) == resolved(args, file, token_file, b),
{
}

/// The printed configuration does not give away the web console's credentials: it is the same for
/// all of them.
pub proof fn law_credentials_are_not_shown(a: ConfigInfo, b: ConfigInfo)
    requires
        b == (ConfigInfo {
            username: b.username,
            password: b.password,
            rate_limit: b.rate_limit,
            ..a
        }),
    ensures
        config_text(a) == config_text(b),
{
}

/// What is set on the command line takes effect as it is set; else what the configuration file
/// sets; else the port is 29872, both credentials are `admin`, and there is no rate limit. The
/// fingerprints are checked if either says so.
pub proof fn law_settings_take_effect(
    args: StartArgs,
    file: ConfigFile,
    token_file: Option<Seq<char>>,
    fallback: Seq<u8>,
)
    requires
        resolved(args, file, token_file, fallback) is Ok,
    ensures
        ({
            let c = resolved(args, file, token_file, fallback)->Ok_0;
            &&& args.port matches Some(port) ==> c.port == port
            &&& args.port is None && file.port is Some ==> c.port == file.port->0
            &&& args.port is None && file.port is None ==> c.port == 29872
            &&& args.username matches Some(name) ==> c.username == name@
            &&& args.username is None && file.web is Some && file.web->0.username is Some
                ==> c.username == file.web->0.username->0@
            &&& args.username is None && (file.web is None || file.web->0.username is None)
                ==> c.username == "admin"@
            &&& args.password matches Some(word) ==> c.password == word@
            &&& args.password is None && file.web is Some && file.web->0.password is Some
                ==> c.password == file.web->0.password->0@
            &&& args.password is None && (file.web is None || file.web->0.password is None)
                ==> c.password == "admin"@
            &&& c.check_finger <==> args.finger || (file.finger is Some && file.finger->0)
            &&& args.rate_limit is Some ==> c.rate_limit == args.rate_limit
            &&& args.rate_limit is None ==> c.rate_limit == file.rate_limit
        }),
{
}

/// The server listens on the host and the port that are set, and logs to the path that is set; the
/// command line comes before the configuration file. The web console's port is 29870 unless set
/// otherwise.
pub proof fn law_places_are_those_set(args: StartArgs, file: ConfigFile)
    ensures
        args.port matches Some(port) ==> port_of(args, file) == port,
        args.port is None && file.port is Some ==> port_of(args, file) == file.port->0,
        args.port is None && file.port is None ==> port_of(args, file) == 29872,
        args.host matches Some(host) ==> host_of(args, file) == Some(host@),
        args.host is None ==> host_of(args, file) == file.host.deep_view(),
        args.log_path matches Some(path) ==> log_path_of(args, file) == Some(path@),
        args.log_path is None ==> log_path_of(args, file) == file.log_path.deep_view(),
        ({
            let web_port: u16 = match args.web_port {
                Some(port) => port,
                None => if file.web is Some && file.web->0.web_port is Some {
                    file.web->0.web_port->0
                } else {
                    29870
                },
            };
            &&& web_port == 0 || web_port != port_of(args, file) ==> web_port_of(args, file)
                == Ok::<u16, ConfigError>(web_port)
            &&& web_port != 0 && web_port == port_of(args, file) ==> web_port_of(args, file)
                == Err::<u16, ConfigError>(ConfigError::WebPortIsPort)
        }),
{
}

/// The text that is configured as the gateway or the subnet mask, where the command line comes
/// before the configuration file.
pub open spec fn set_text(args: Option<String>, file: Option<String>) -> Option<Seq<char>> {
    if args is Some {
        Some(args->0@)
    } else if file is Some {
        Some(file->0@)
    } else {
        None
    }
}

/// Any address in dotted form is taken as the gateway as it is written, but for `0.0.0.0`,
/// `255.255.255.255` and the multicast addresses, which are each refused for their reason.
pub proof fn law_gateway_is_the_one_written(args: StartArgs, file: ConfigFile, addr: Ipv4Addr)
    requires
        set_text(args.gateway, file.gateway) == Some(addr.dotted()),
    ensures
        gateway_address_of(args, file) == Ok::<Ipv4Addr, ConfigError>(addr),
        addr.bits == 0 ==> gateway_of(args, file) == Err::<Ipv4Addr, ConfigError>(
            ConfigError::GatewayUnspecified,
        ),
        addr.bits == u32::MAX ==> gateway_of(args, file) == Err::<Ipv4Addr, ConfigError>(
            ConfigError::GatewayBroadcast,
        ),
        0xe000_0000 <= addr.bits <= 0xefff_ffff ==> gateway_of(args, file) == Err::<
            Ipv4Addr,
            ConfigError,
        >(ConfigError::GatewayMulticast),
        addr.bits != 0 && addr.bits != u32::MAX && !(0xe000_0000 <= addr.bits <= 0xefff_ffff)
            ==> gateway_of(args, file) == Ok::<Ipv4Addr, ConfigError>(addr),
{
    crate::ipv4::law_dotted_read_back(addr);
    crate::ipv4::law_classes_are_ranges(addr);
}

/// Any subnet mask in dotted form is taken as it is written; any other address is refused.
pub proof fn law_netmask_is_the_one_written(args: StartArgs, file: ConfigFile, addr: Ipv4Addr)
    requires
        set_text(args.netmask, file.netmask) == Some(addr.dotted()),
    ensures
        netmask_address_of(args, file) == Ok::<Ipv4Addr, ConfigError>(addr),
        addr.bits != 0 && addr.bits != u32::MAX && (addr.bits << 1) & !addr.bits == 0
            ==> netmask_of(args, file) == Ok::<Ipv4Addr, ConfigError>(addr),
        !(addr.bits != 0 && addr.bits != u32::MAX && (addr.bits << 1) & !addr.bits == 0)
            ==> netmask_of(args, file) == Err::<Ipv4Addr, ConfigError>(ConfigError::NetmaskInvalid),
{
    crate::ipv4::law_dotted_read_back(addr);
    subnet::law_netmasks_have_no_gaps(addr);
}

/// A text that is the dotted form of no address is refused as a gateway and as a subnet mask.
/// Without a text the gateway is `10.26.0.1` and the mask `255.255.255.0`.
pub proof fn law_other_texts_are_refused(args: StartArgs, file: ConfigFile)
    ensures
        set_text(args.gateway, file.gateway) matches Some(t) ==> ((forall|addr: Ipv4Addr|
            t != #[trigger] addr.dotted()) ==> gateway_of(args, file) == Err::<Ipv4Addr, ConfigError>(
            ConfigError::GatewayNotIpv4,
        )),
        set_text(args.netmask, file.netmask) matches Some(t) ==> ((forall|addr: Ipv4Addr|
            t != #[trigger] addr.dotted()) ==> netmask_of(args, file) == Err::<Ipv4Addr, ConfigError>(
            ConfigError::NetmaskNotIpv4,
        )),
        set_text(args.gateway, file.gateway) is None ==> gateway_of(args, file) == Ok::<
            Ipv4Addr,
            ConfigError,
        >(Ipv4Addr { bits: 0x0a1a_0001 }),
        set_text(args.netmask, file.netmask) is None ==> netmask_of(args, file) == Ok::<
            Ipv4Addr,
            ConfigError,
        >(Ipv4Addr { bits: 0xffff_ff00 }),
{
    subnet::law_netmasks_have_no_gaps(Ipv4Addr { bits: 0xffff_ff00 });
    assert((0xffff_ff00u32 << 1) & !0xffff_ff00u32 == 0) by (bit_vector);
}

/// A configuration is refused if and only if the port of the web console, the gateway or the mask
/// is, and for the first of these reasons. Else it has this gateway and this mask, and its
/// broadcast address is the gateway with every host bit set.
pub proof fn law_first_refusal_counts(
    args: StartArgs,
    file: ConfigFile,
    token_file: Option<Seq<char>>,
    fallback: Seq<u8>,
)
    ensures
        ({
            let r = resolved(args, file, token_file, fallback);
            &&& web_port_of(args, file) matches Err(e) ==> r == Err::<ConfigModel, ConfigError>(e)
            &&& web_port_of(args, file) is Ok ==> (gateway_of(args, file) matches Err(e) ==> r
                == Err::<ConfigModel, ConfigError>(e))
            &&& web_port_of(args, file) is Ok && gateway_of(args, file) is Ok ==> (netmask_of(
                args,
                file,
            ) matches Err(e) ==> r == Err::<ConfigModel, ConfigError>(e))
            &&& web_port_of(args, file) is Ok && gateway_of(args, file) is Ok && netmask_of(
                args,
                file,
            ) is Ok ==> {
                &&& r is Ok
                &&& gateway_of(args, file) == Ok::<Ipv4Addr, ConfigError>(r->Ok_0.gateway)
                &&& netmask_of(args, file) == Ok::<Ipv4Addr, ConfigError>(r->Ok_0.netmask)
                &&& r->Ok_0.broadcast.bits == r->Ok_0.gateway.bits | !r->Ok_0.netmask.bits
            }
        }),
{
    if let Ok(c) = resolved(args, file, token_file, fallback) {
        subnet::law_broadcast_sets_the_host_bits(c.gateway, c.netmask);
    }
}

/// The configured secret key is used exactly as it decodes: where the text without the white space
/// around it decodes to 32 bytes, these are the secret key, whatever the fallback. In any other
/// case the fallback is. The public key is the one that belongs to the secret key.
pub proof fn law_secret_key_is_the_one_configured(
    args: StartArgs,
    file: ConfigFile,
    token_file: Option<Seq<char>>,
    fallback: Seq<u8>,
    bytes: Seq<u8>,
)
    requires
        resolved(args, file, token_file, fallback) is Ok,
    ensures
        ({
            let c = resolved(args, file, token_file, fallback)->Ok_0;
            let text = set_text(args.wg_secret_key, file.wg_secret_key);
            &&& text matches Some(t) ==> {
                let decoded = wg_key::base64_decoded(text::trim(t));
                let key = Ok::<Seq<u8>, Seq<char>>(bytes);
                &&& decoded == key && bytes.len() == 32 ==> c.wg_secret_key == bytes
                &&& decoded == key && bytes.len() != 32 ==> c.wg_secret_key == fallback
                &&& decoded is Err ==> c.wg_secret_key == fallback
            }
            &&& text is None ==> c.wg_secret_key == fallback
            &&& c.wg_public_key == wg_key::x25519_public_key(c.wg_secret_key)
        }),
{
}

/// Whether a token is named on the command line or in the token file.
pub open spec fn named_at_start(
    args: StartArgs,
    token_file: Option<Seq<char>>,
    token: Seq<char>,
) -> bool {
    ||| args.white_token.deep_view() matches Some(list) && list.contains(token)
    ||| token_file matches Some(content) && tokens::tokens_in_file(content).contains(token)
}

/// Whether a token is named in the configuration file.
pub open spec fn named_in_config(file: ConfigFile, token: Seq<char>) -> bool {
    file.white_token.deep_view() matches Some(list) && list.contains(token)
}

/// The whitelist of a configuration holds every token that is named on the command line or in the
/// token file, and no other if there is one. If there is none, it holds every token of the
/// configuration file and no other. There is no whitelist if and only if no token is named
/// anywhere.
pub proof fn law_whitelist_holds_the_named(
    args: StartArgs,
    file: ConfigFile,
    token_file: Option<Seq<char>>,
    fallback: Seq<u8>,
    token: Seq<char>,
)
    requires
        resolved(args, file, token_file, fallback) is Ok,
    ensures
        ({
            let list = resolved(args, file, token_file, fallback)->Ok_0.white_token;
            let started = exists|t: Seq<char>| #[trigger] named_at_start(args, token_file, t);
            &&& started ==> list is Some && (list->0.contains(token) <==> named_at_start(
                args,
                token_file,
                token,
            ))
            &&& !started && named_in_config(file, token) ==> list is Some
            &&& !started && list is Some ==> (list->0.contains(token) <==> named_in_config(
                file,
                token,
            ))
            &&& list is None <==> forall|t: Seq<char>|
                !named_at_start(args, token_file, t) && !#[trigger] named_in_config(file, t)
        }),
{
    let started = started_tokens(args, token_file);
    let configured = tokens::tokens_in_list(file.white_token.deep_view());
    let list = white_token_of(args, file, token_file);
    lemma_first_set_that_holds(started, configured, list);
    assert forall|t: Seq<char>|
        #![trigger named_at_start(args, token_file, t)]
        #![trigger named_in_config(file, t)]
        (named_at_start(args, token_file, t) <==> started.contains(t)) && (named_in_config(file, t)
            <==> configured.contains(t)) by {
        lemma_named(args, file, token_file, t);
    }
    assert(started.contains(token) <==> named_at_start(args, token_file, token));
    if exists|t: Seq<char>| #[trigger] named_at_start(args, token_file, t) {
        let t = choose|t: Seq<char>| #[trigger] named_at_start(args, token_file, t);
        assert(started.contains(t));
        assert(named_at_start(args, token_file, t) || named_in_config(file, t));
    } else {
        assert forall|t: Seq<char>| !started.contains(t) by {
            assert(!named_at_start(args, token_file, t));
        }
        if list is Some {
            let t = choose|t: Seq<char>| #[trigger] configured.contains(t);
            assert(named_in_config(file, t));
        }
    }
}

/// The tokens of the command line and of the token file are those that are named there, and those
/// of the configuration file are those that are named in it.
proof fn lemma_named(
    args: StartArgs,
    file: ConfigFile,
    token_file: Option<Seq<char>>,
    token: Seq<char>,
)
    ensures
        started_tokens(args, token_file).contains(token) <==> named_at_start(
            args,
            token_file,
            token,
        ),
        tokens::tokens_in_list(file.white_token.deep_view()).contains(token) <==> named_in_config(
            file,
            token,
        ),
{
}

/// The first of two sets that holds something, if one does.
proof fn lemma_first_set_that_holds(
    first: Set<Seq<char>>,
    second: Set<Seq<char>>,
    r: Option<Set<Seq<char>>>,
)
    requires
        ({
            let chosen = if first == Set::<Seq<char>>::empty() {
                second
            } else {
                first
            };
            r == if chosen == Set::<Seq<char>>::empty() {
                None
            } else {
                Some(chosen)
            }
        }),
    ensures
        (exists|t: Seq<char>| #[trigger] first.contains(t)) ==> r == Some(first),
        (forall|t: Seq<char>| !#[trigger] first.contains(t)) && (exists|t: Seq<char>| #[trigger]
            second.contains(t)) ==> r == Some(second),
        r is None <==> (forall|t: Seq<char>| !#[trigger] first.contains(t)) && (forall|
            t: Seq<char>,
        |
            !#[trigger] second.contains(t)),
{
    let empty = Set::<Seq<char>>::empty();
    if forall|t: Seq<char>| !#[trigger] first.contains(t) {
        assert(first =~= empty);
    }
    if forall|t: Seq<char>| !#[trigger] second.contains(t) {
        assert(second =~= empty);
    }
}

/// One more text comes after a comma, unless it is the first.
pub proof fn law_lists_are_separated_by_commas(texts: Seq<Seq<char>>, more: Seq<char>)
    ensures
        comma_list(Seq::<Seq<char>>::empty()) == Seq::<char>::empty(),
        texts.len() == 0 ==> comma_list(texts.push(more)) == more,
        texts.len() > 0 ==> comma_list(texts.push(more)) == comma_list(texts) + ", "@ + more,
{
    assert(texts.push(more).drop_last() =~= texts);
    assert(texts.push(more).last() == more);
}

/// The printed configuration shows every setting but the web console's credentials and the rate
/// limit, each under its name: every token of the whitelist in quotes, and the keys in base64.
pub proof fn law_printed_configuration_shows_the_settings(config: ConfigInfo)
    ensures
        ({
            let tokens = match config.white_token {
                None => "None"@,
                Some(set) => "Some({"@ + comma_list(
                    set.listed().map_values(|t: Seq<char>| debug_quoted(t)),
                ) + "})"@,
            };
            let finger = if config.check_finger {
                "true"@
            } else {
                "false"@
            };
            config_text(config) == "ConfigInfo { port: "@ + text::decimal(config.port as nat)
                + ", white_token: "@ + tokens + ", gateway: "@ + config.gateway.dotted()
                + ", broadcast: "@ + config.broadcast.dotted() + ", netmask: "@
                + config.netmask.dotted() + ", check_finger: "@ + finger + ", wg_secret_key: "@
                + debug_quoted(wg_key::base64_encoded(config.wg_secret_key@)) + ", wg_public_key: "@
                + debug_quoted(wg_key::base64_encoded(config.wg_public_key@)) + " }"@
        }),
{
    if let Some(set) = config.white_token {
        assert(set.listed().map_values(|t: Seq<char>| debug_quoted(t)) =~= quoted_tokens_of(
            config.white_token,
        )->0);
    }
}

/// A configuration file that sets nothing leaves every setting to the command line.
pub proof fn law_empty_file_sets_nothing(file: ConfigFile)
    ensures
        file.sets_nothing() <==> (file.host is None && file.port is None && file.white_token is None
            && file.gateway is None && file.netmask is None && file.finger is None
            && file.log_path is None && file.wg_secret_key is None && file.rate_limit is None
            && file.web is None),
{
}

} // verus!
