//! The network settings: how option texts become a checked configuration.
use crate::text;
use crate::time::Duration;
use vstd::prelude::*;

verus! {

pub const DEFAULT_QUIC_PORT: u16 = 48100;

#[derive(Clone, Copy, Debug, Eq, PartialEq, Structural)]
pub enum RemoteTransportMode {
    Tcp,
    QuicPreferred,
    QuicOnly,
}

/// An IP address to listen on.
#[derive(Clone, Copy, Debug, Eq, PartialEq)]
pub enum ListenAddress {
    V4([u8; 4]),
    V6([u16; 8]),
}

/// The texts of the options, each empty where the option is not set.
#[derive(Clone, Debug, Eq, PartialEq)]
pub struct NetworkOptions {
    pub disable_udp: String,
    pub remote_transport: String,
    pub listen_address: String,
    pub listen_port: String,
    pub connect_timeout_ms: String,
    pub keepalive_interval_ms: String,
    pub enable_ipv6: String,
    pub file_bandwidth_mbps: String,
}

/// An address that was read from a text, with the text that stands for it.
#[derive(Clone, Debug, Eq, PartialEq)]
pub struct ParsedAddress {
    pub address: ListenAddress,
    pub text: String,
}

/// A checked configuration. `P` is what names the place of the trusted peers' records.
#[derive(Clone, Debug, Eq, PartialEq)]
pub struct NetworkTransportConfig<P> {
    pub mode: RemoteTransportMode,
    pub listen_address: ListenAddress,
    pub listen_port: u16,
    pub connect_timeout: Duration,
    pub keepalive_interval: Duration,
    pub enable_ipv6: bool,
    pub file_bandwidth_limit_mbps: u32,
    pub trusted_peer_store: P,
}

#[derive(Clone, Debug, Eq, PartialEq)]
pub enum NetworkConfigError {
    InvalidMode(String),
    InvalidListenAddress(String),
    InvalidPort(String),
    InvalidConnectTimeout(String),
    InvalidKeepalive(String),
    InvalidFileBandwidth(String),
}

/// What an error names.
pub enum ConfigErrorView {
    InvalidMode(Seq<char>),
    InvalidListenAddress(Seq<char>),
    InvalidPort(Seq<char>),
    InvalidConnectTimeout(Seq<char>),
    InvalidKeepalive(Seq<char>),
    InvalidFileBandwidth(Seq<char>),
}

impl View for NetworkConfigError {
    type V = ConfigErrorView;

    open spec fn view(&self) -> ConfigErrorView {
        match *self {
            NetworkConfigError::InvalidMode(text) => ConfigErrorView::InvalidMode(text@),
            NetworkConfigError::InvalidListenAddress(text) => {
                ConfigErrorView::InvalidListenAddress(text@)
            },
            NetworkConfigError::InvalidPort(text) => ConfigErrorView::InvalidPort(text@),
            NetworkConfigError::InvalidConnectTimeout(text) => {
                ConfigErrorView::InvalidConnectTimeout(text@)
            },
            NetworkConfigError::InvalidKeepalive(text) => ConfigErrorView::InvalidKeepalive(text@),
            NetworkConfigError::InvalidFileBandwidth(text) => {
                ConfigErrorView::InvalidFileBandwidth(text@)
            },
        }
    }
}

/// The mode that an option's text names.
pub open spec fn mode_of(value: Seq<char>) -> Option<RemoteTransportMode> {
    if value == ""@ || value == "quic-preferred"@ {
        Some(RemoteTransportMode::QuicPreferred)
    } else if value == "tcp"@ {
        Some(RemoteTransportMode::Tcp)
    } else if value == "quic-only"@ {
        Some(RemoteTransportMode::QuicOnly)
    } else {
        None
    }
}

/// The number that an option's text stands for, `default` where the option is not set.
pub open spec fn number_of(value: Seq<char>, default: nat, maximum: nat) -> Option<nat> {
    if value.len() == 0 {
        Some(default)
    } else {
        match text::decimal_value(value) {
            Some(number) => if number <= maximum {
                Some(number)
            } else {
                None
            },
            None => None,
        }
    }
}

impl NetworkOptions {
    /// The address to listen on, if the option names one. `parsed` is what the option's
    /// text was read as.
    pub open spec fn address(self, parsed: Option<ParsedAddress>) -> Option<ListenAddress> {
        if self.listen_address@.len() == 0 {
            Some(ListenAddress::V4([0u8, 0u8, 0u8, 0u8]))
        } else {
            match parsed {
                Some(parsed) => Some(parsed.address),
                None => None,
            }
        }
    }

    pub open spec fn port(self) -> Option<nat> {
        number_of(self.listen_port@, DEFAULT_QUIC_PORT as nat, u16::MAX as nat)
    }

    pub open spec fn timeout(self) -> Option<nat> {
        number_of(self.connect_timeout_ms@, 5_000, u64::MAX as nat)
    }

    pub open spec fn keepalive(self) -> Option<nat> {
        number_of(self.keepalive_interval_ms@, 5_000, u64::MAX as nat)
    }

    pub open spec fn file_bandwidth(self) -> Option<nat> {
        number_of(self.file_bandwidth_mbps@, 20, u32::MAX as nat)
    }

    /// The first option that is refused, if any.
    pub open spec fn error(self, parsed: Option<ParsedAddress>) -> Option<ConfigErrorView> {
        if mode_of(self.remote_transport@) is None {
            Some(ConfigErrorView::InvalidMode(self.remote_transport@))
        } else if self.address(parsed) is None {
            Some(ConfigErrorView::InvalidListenAddress(self.listen_address@))
        } else if self.port() is None {
            Some(ConfigErrorView::InvalidPort(self.listen_port@))
        } else if self.port()->Some_0 == 0 {
            Some(ConfigErrorView::InvalidPort("0"@))
        } else if self.timeout() is None {
            Some(ConfigErrorView::InvalidConnectTimeout(self.connect_timeout_ms@))
        } else if !(250 <= self.timeout()->Some_0 <= 60_000) {
            Some(ConfigErrorView::InvalidConnectTimeout(text::decimal_text(self.timeout()->Some_0)))
        } else if self.keepalive() is None {
            Some(ConfigErrorView::InvalidKeepalive(self.keepalive_interval_ms@))
        } else if self.keepalive()->Some_0 != 0 && !(1_000 <= self.keepalive()->Some_0 <= 60_000) {
            Some(ConfigErrorView::InvalidKeepalive(text::decimal_text(self.keepalive()->Some_0)))
        } else if self.file_bandwidth() is None {
            Some(ConfigErrorView::InvalidFileBandwidth(self.file_bandwidth_mbps@))
        } else if self.file_bandwidth()->Some_0 > 10_000 {
            Some(
                ConfigErrorView::InvalidFileBandwidth(
                    text::decimal_text(self.file_bandwidth()->Some_0),
                ),
            )
        } else if self.enable_ipv6@ == "N"@ && self.address(parsed)->Some_0 is V6 {
            Some(ConfigErrorView::InvalidListenAddress(parsed->Some_0.text@))
        } else {
            None
        }
    }

    /// The configuration that the options describe, once none is refused.
    pub open spec fn configuration<P>(
        self,
        parsed: Option<ParsedAddress>,
        trusted_peer_store: P,
    ) -> NetworkTransportConfig<P> {
        NetworkTransportConfig {
            mode: if self.disable_udp@ == "Y"@ {
                RemoteTransportMode::Tcp
            } else {
                mode_of(self.remote_transport@)->Some_0
            },
            listen_address: self.address(parsed)->Some_0,
            listen_port: self.port()->Some_0 as u16,
            connect_timeout: Duration::of_millis(self.timeout()->Some_0 as u64),
            keepalive_interval: Duration::of_millis(self.keepalive()->Some_0 as u64),
            enable_ipv6: self.enable_ipv6@ != "N"@,
            file_bandwidth_limit_mbps: self.file_bandwidth()->Some_0 as u32,
            trusted_peer_store,
        }
    }
}

impl Default for NetworkOptions {
    fn default() -> (options: NetworkOptions)
        ensures
            options.disable_udp@.len() == 0,
            options.remote_transport@.len() == 0,
            options.listen_address@.len() == 0,
            options.listen_port@.len() == 0,
            options.connect_timeout_ms@.len() == 0,
            options.keepalive_interval_ms@.len() == 0,
            options.enable_ipv6@.len() == 0,
            options.file_bandwidth_mbps@.len() == 0,
    {
        NetworkOptions {
            disable_udp: String::new(),
            remote_transport: String::new(),
            listen_address: String::new(),
            listen_port: String::new(),
            connect_timeout_ms: String::new(),
            keepalive_interval_ms: String::new(),
            enable_ipv6: String::new(),
            file_bandwidth_mbps: String::new(),
        }
    }
}

/// The mode that an option's text names.
fn parse_mode(value: &str) -> (mode: Option<RemoteTransportMode>)
    ensures
        mode == mode_of(value@),
{
    if text::same_text(value, "") || text::same_text(value, "quic-preferred") {
        Some(RemoteTransportMode::QuicPreferred)
    } else if text::same_text(value, "tcp") {
        Some(RemoteTransportMode::Tcp)
    } else if text::same_text(value, "quic-only") {
        Some(RemoteTransportMode::QuicOnly)
    } else {
        None
    }
}

/// The number that an option's text stands for, `default` where the option is not set.
fn parse_or_default(value: &str, default: u64, maximum: u64) -> (number: Option<u64>)
    requires
        default <= maximum,
    ensures
        match number {
            Some(number) => number_of(value@, default as nat, maximum as nat) == Some(
                number as nat,
            ) && number <= maximum,
            None => number_of(value@, default as nat, maximum as nat) is None,
        },
{
    if value.unicode_len() == 0 {
        return Some(default);
    }
    text::parse_decimal(value, maximum)
}

impl<P> NetworkTransportConfig<P> {
    /// Checks the options and makes a configuration of them. `parsed` is what the text of
    /// the listen address was read as, none where it is no address.
    pub fn from_values(
        options: &NetworkOptions,
        parsed: Option<ParsedAddress>,
        trusted_peer_store: P,
    ) -> (result: Result<NetworkTransportConfig<P>, NetworkConfigError>)
        ensures
            match options.error(parsed) {
                Some(view) => result matches Err(error) && error@ == view,
                None => result == Ok::<_, NetworkConfigError>(
                    options.configuration(parsed, trusted_peer_store),
                ),
            },
    {
        let udp_disabled = text::same_text(options.disable_udp.as_str(), "Y");
        let configured_mode = match parse_mode(options.remote_transport.as_str()) {
            Some(mode) => mode,
            None => return Err(
                NetworkConfigError::InvalidMode(options.remote_transport.clone()),
            ),
        };
        let mode = if udp_disabled {
            RemoteTransportMode::Tcp
        } else {
            configured_mode
        };
        let (listen_address, address_text) = if options.listen_address.as_str().unicode_len() == 0 {
            (ListenAddress::V4([0u8, 0u8, 0u8, 0u8]), String::new())
        } else {
            match parsed {
                Some(parsed) => (parsed.address, parsed.text),
                None => return Err(
                    NetworkConfigError::InvalidListenAddress(options.listen_address.clone()),
                ),
            }
        };
        let listen_port: u64 = match parse_or_default(
            options.listen_port.as_str(),
            DEFAULT_QUIC_PORT as u64,
            u16::MAX as u64,
        ) {
            Some(port) => port,
            None => return Err(NetworkConfigError::InvalidPort(options.listen_port.clone())),
        };
        if listen_port == 0 {
            return Err(NetworkConfigError::InvalidPort(text::copy_text("0")));
        }
        let connect_timeout_ms: u64 = match parse_or_default(
            options.connect_timeout_ms.as_str(),
            5_000,
            u64::MAX,
        ) {
            Some(timeout) => timeout,
            None => return Err(
                NetworkConfigError::InvalidConnectTimeout(options.connect_timeout_ms.clone()),
            ),
        };
        if connect_timeout_ms < 250 || connect_timeout_ms > 60_000 {
            return Err(NetworkConfigError::InvalidConnectTimeout(text::decimal(connect_timeout_ms)));
        }
        let keepalive_interval_ms: u64 = match parse_or_default(
            options.keepalive_interval_ms.as_str(),
            5_000,
            u64::MAX,
        ) {
            Some(interval) => interval,
            None => return Err(
                NetworkConfigError::InvalidKeepalive(options.keepalive_interval_ms.clone()),
            ),
        };
        if keepalive_interval_ms != 0 && (keepalive_interval_ms < 1_000 || keepalive_interval_ms
            > 60_000) {
            return Err(NetworkConfigError::InvalidKeepalive(text::decimal(keepalive_interval_ms)));
        }
        let file_bandwidth_limit_mbps: u64 = match parse_or_default(
            options.file_bandwidth_mbps.as_str(),
            20,
            u32::MAX as u64,
        ) {
            Some(limit) => limit,
            None => return Err(
                NetworkConfigError::InvalidFileBandwidth(options.file_bandwidth_mbps.clone()),
            ),
        };
        if file_bandwidth_limit_mbps > 10_000 {
            return Err(
                NetworkConfigError::InvalidFileBandwidth(text::decimal(file_bandwidth_limit_mbps)),
            );
        }
        let enable_ipv6 = !text::same_text(options.enable_ipv6.as_str(), "N");
        if !enable_ipv6 && matches!(listen_address, ListenAddress::V6(_)) {
            return Err(NetworkConfigError::InvalidListenAddress(address_text));
        }
        Ok(
            NetworkTransportConfig {
                mode,
                listen_address,
                listen_port: listen_port as u16,
                connect_timeout: Duration::from_millis(connect_timeout_ms),
                keepalive_interval: Duration::from_millis(keepalive_interval_ms),
                enable_ipv6,
                file_bandwidth_limit_mbps: file_bandwidth_limit_mbps as u32,
                trusted_peer_store,
            },
        )
    }
}

/// Disabling UDP is a kill switch: whatever else is set, an accepted configuration then
/// uses TCP.
pub proof fn lemma_disabling_udp_forces_tcp<P>(
    options: NetworkOptions,
    parsed: Option<ParsedAddress>,
    trusted_peer_store: P,
)
    requires
        options.disable_udp@ == "Y"@,
        options.error(parsed) is None,
    ensures
        options.configuration(parsed, trusted_peer_store).mode == RemoteTransportMode::Tcp,
{
}

/// Every accepted configuration keeps within the limits of its options.
pub proof fn lemma_accepted_configuration_is_bounded<P>(
    options: NetworkOptions,
    parsed: Option<ParsedAddress>,
    trusted_peer_store: P,
)
    requires
        options.error(parsed) is None,
    ensures
        ({
            let config = options.configuration(parsed, trusted_peer_store);
            &&& config.listen_port != 0
            &&& 250_000_000 <= config.connect_timeout.nanos <= 60_000_000_000
            &&& config.keepalive_interval.nanos == 0 || 1_000_000_000
                <= config.keepalive_interval.nanos <= 60_000_000_000
            &&& config.file_bandwidth_limit_mbps <= 10_000
            &&& config.listen_address is V6 ==> config.enable_ipv6
        }),
{
}


/// Whether an option is not set or names a number in the given range.
pub open spec fn is_unset_or_within(value: Seq<char>, least: nat, greatest: nat) -> bool {
    value.len() == 0 || (text::decimal_value(value) matches Some(number) && least <= number
        <= greatest)
}

/// Options are accepted exactly where each of them is: the mode has one of its three names,
/// the address could be read, every number is in its range, and no address of IPv6 is
/// listened on while IPv6 is off. An option that is not set is accepted.
pub proof fn lemma_accepted_options(options: NetworkOptions, parsed: Option<ParsedAddress>)
    ensures
        options.error(parsed) is None <==> {
            &&& options.remote_transport@.len() == 0 || options.remote_transport@
                == "quic-preferred"@ || options.remote_transport@ == "quic-only"@
                || options.remote_transport@ == "tcp"@
            &&& options.listen_address@.len() == 0 || parsed is Some
            &&& is_unset_or_within(options.listen_port@, 1, 65_535)
            &&& is_unset_or_within(options.connect_timeout_ms@, 250, 60_000)
            &&& is_unset_or_within(options.keepalive_interval_ms@, 1_000, 60_000)
                || text::decimal_value(options.keepalive_interval_ms@) == Some(0nat)
            &&& is_unset_or_within(options.file_bandwidth_mbps@, 0, 10_000)
            &&& options.enable_ipv6@ == "N"@ && options.listen_address@.len() != 0
                ==> parsed->Some_0.address is V4
        },
{
    reveal_strlit("");
    assert(options.remote_transport@.len() == 0 <==> options.remote_transport@ =~= ""@);
}

/// What the options describe: each option that is set has its own value, the others their
/// defaults, and disabling UDP leaves only TCP.
pub proof fn lemma_configuration_follows_the_options<P>(
    options: NetworkOptions,
    parsed: Option<ParsedAddress>,
    trusted_peer_store: P,
)
    requires
        options.error(parsed) is None,
    ensures
        ({
            let config = options.configuration(parsed, trusted_peer_store);
            &&& config.mode is Tcp <==> options.disable_udp@ == "Y"@ || options.remote_transport@
                == "tcp"@
            &&& config.mode is QuicOnly <==> options.disable_udp@ != "Y"@
                && options.remote_transport@ == "quic-only"@
            &&& options.listen_address@.len() == 0 ==> config.listen_address
                == ListenAddress::V4([0u8, 0u8, 0u8, 0u8])
            &&& options.listen_address@.len() != 0 ==> config.listen_address
                == parsed->Some_0.address
            &&& config.listen_port == if options.listen_port@.len() == 0 {
                48_100
            } else {
                text::decimal_value(options.listen_port@)->Some_0
            }
            &&& config.connect_timeout.nanos == 1_000_000
                * if options.connect_timeout_ms@.len() == 0 {
                5_000
            } else {
                text::decimal_value(options.connect_timeout_ms@)->Some_0
            }
            &&& config.keepalive_interval.nanos == 1_000_000
                * if options.keepalive_interval_ms@.len() == 0 {
                5_000
            } else {
                text::decimal_value(options.keepalive_interval_ms@)->Some_0
            }
            &&& config.enable_ipv6 <==> options.enable_ipv6@ != "N"@
            &&& config.file_bandwidth_limit_mbps == if options.file_bandwidth_mbps@.len() == 0 {
                20
            } else {
                text::decimal_value(options.file_bandwidth_mbps@)->Some_0
            }
            &&& config.trusted_peer_store == trusted_peer_store
        }),
{
    reveal_strlit("");
    reveal_strlit("tcp");
    reveal_strlit("quic-only");
    reveal_strlit("quic-preferred");
    assert(""@.len() == 0 && "tcp"@.len() == 3 && "quic-only"@.len() == 9
        && "quic-preferred"@.len() == 14);
}

/// Of two options that are refused, the error is about the one that stands first: mode,
/// address, port, timeout, keep-alive interval, bandwidth.
pub proof fn lemma_first_refused_option_is_named(
    options: NetworkOptions,
    parsed: Option<ParsedAddress>,
)
    requires
        options.error(parsed) is Some,
    ensures
        ({
            let error = options.error(parsed)->Some_0;
            let mode = options.remote_transport@.len() == 0 || options.remote_transport@
                == "quic-preferred"@ || options.remote_transport@ == "quic-only"@
                || options.remote_transport@ == "tcp"@;
            let address = options.listen_address@.len() == 0 || parsed is Some;
            let port = is_unset_or_within(options.listen_port@, 1, 65_535);
            let timeout = is_unset_or_within(options.connect_timeout_ms@, 250, 60_000);
            let keepalive = is_unset_or_within(options.keepalive_interval_ms@, 1_000, 60_000)
                || text::decimal_value(options.keepalive_interval_ms@) == Some(0nat);
            let bandwidth = is_unset_or_within(options.file_bandwidth_mbps@, 0, 10_000);
            &&& error is InvalidMode <==> !mode
            &&& error is InvalidMode ==> error->InvalidMode_0 == options.remote_transport@
            &&& error is InvalidListenAddress <==> mode && (!address || port && timeout
                && keepalive && bandwidth)
            &&& error is InvalidListenAddress && parsed is None ==> error->InvalidListenAddress_0
                == options.listen_address@
            &&& error is InvalidPort <==> mode && address && !port
            &&& error is InvalidConnectTimeout <==> mode && address && port && !timeout
            &&& error is InvalidKeepalive <==> mode && address && port && timeout && !keepalive
            &&& error is InvalidFileBandwidth <==> mode && address && port && timeout
                && keepalive && !bandwidth
        }),
{
    reveal_strlit("");
    assert(options.remote_transport@.len() == 0 <==> options.remote_transport@ =~= ""@);
}

} // verus!
