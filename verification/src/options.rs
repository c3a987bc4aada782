//! What the program is asked to do.
use crate::addr::SocketAddr;
use vstd::prelude::*;

verus! {

/// The keep-alive interval, in seconds, of a client that is given none.
pub const DEFAULT_KEEPALIVE: u64 = 30;

/// How a client communicates with the local application.
#[derive(Clone, Copy, Debug)]
pub struct PlayloadCommunicationOptions {
    /// The address on which packets for the peer are taken in. Replies go to
    /// the address that was seen most recently.
    pub bind: Option<SocketAddr>,
    /// The address to which the peer's packets go, and from which alone
    /// packets for the peer are taken.
    pub sendto: Option<SocketAddr>,
}

/// The settings of a client.
#[derive(Clone, Copy, Debug)]
pub struct ClientSettings {
    /// The keep-alive interval, in seconds.
    pub keepalive_interval: u64,
    /// How many ports to open.
    pub num_ports: usize,
    /// The IPv4 address to use in place of the one that the server names.
    pub override_sendto_addr: Option<u32>,
    /// Whether to resolve each port's mapped number first.
    pub stun: bool,
}

/// The command line.
#[derive(Debug)]
pub struct Opt {
    /// Be a server on this address.
    pub server: Option<SocketAddr>,
    /// Be a client of the server at this address.
    pub client: Option<SocketAddr>,
    /// The name that this client shares with its peer.
    pub name: Option<String>,
    /// How the client communicates.
    pub pco: PlayloadCommunicationOptions,
    /// The settings of the client.
    pub cs: ClientSettings,
    /// Show the counters of the server at this address.
    pub stats: Option<SocketAddr>,
}

/// What to do.
#[derive(Debug)]
pub enum Command {
    /// Show the counters of a server.
    Stats(SocketAddr),
    /// Be a server. A keep-alive interval that is not the default one is
    /// meaningless there, which deserves a warning.
    Server { addr: SocketAddr, keepalive_ignored: bool },
    /// Be a client.
    Client {
        server: SocketAddr,
        name: String,
        pco: PlayloadCommunicationOptions,
        cs: ClientSettings,
    },
}

/// What is wrong with a command line.
#[derive(Clone, Copy, Debug, PartialEq, Eq, Structural)]
pub enum OptionError {
    /// It asks for no mode, or for several.
    NotOneMode,
    /// It asks a server to communicate as a client does.
    MeaninglessForServer,
    /// It asks for a client without a name.
    NameRequired,
    /// It asks for a client that communicates with nobody.
    BindOrSendtoRequired,
}

impl OptionError {
    /// The error in words.
    pub open spec fn text(self) -> Seq<char> {
        match self {
            OptionError::NotOneMode => "Specify exactly one of --server, --client or --stats"@,
            OptionError::MeaninglessForServer =>
                "--bind or --sendto are meaningless in server mode"@,
            OptionError::NameRequired => "--name is required in client mode"@,
            OptionError::BindOrSendtoRequired =>
                "Please specify --bind or --sendto in client mode"@,
        }
    }

    /// The error in words.
    pub fn message(&self) -> (r: &'static str)
        ensures
            r@ == self.text(),
            self is NotOneMode ==> r@ == "Specify exactly one of --server, --client or --stats"@,
            self is MeaninglessForServer ==> r@
                == "--bind or --sendto are meaningless in server mode"@,
            self is NameRequired ==> r@ == "--name is required in client mode"@,
            self is BindOrSendtoRequired ==> r@
                == "Please specify --bind or --sendto in client mode"@,
    {
        match self {
            OptionError::NotOneMode => "Specify exactly one of --server, --client or --stats",
            OptionError::MeaninglessForServer =>
                "--bind or --sendto are meaningless in server mode",
            OptionError::NameRequired => "--name is required in client mode",
            OptionError::BindOrSendtoRequired =>
                "Please specify --bind or --sendto in client mode",
        }
    }
}

impl PlayloadCommunicationOptions {
    /// Whether neither address is given.
    pub open spec fn nothing_given(self) -> bool {
        self.bind is None && self.sendto is None
    }
}

impl Opt {
    /// How many modes are asked for.
    pub open spec fn modes(self) -> int {
        (if self.server is Some { 1int } else { 0 }) + (if self.client is Some { 1int } else { 0 })
            + (if self.stats is Some { 1int } else { 0 })
    }
}

/// A command line asks for one mode exactly if one of the three addresses is
/// given and the other two are not.
pub proof fn law_one_mode_is_one_address(opt: Opt)
    ensures
        opt.modes() == 1 <==> {
            ||| opt.server is Some && opt.client is None && opt.stats is None
            ||| opt.server is None && opt.client is Some && opt.stats is None
            ||| opt.server is None && opt.client is None && opt.stats is Some
        },
{
}

/// Works out what a command line asks for.
pub fn command(opt: Opt) -> (r: Result<Command, OptionError>)
    ensures
        opt.server is None && opt.client is None && opt.stats is None ==> r == Err::<Command, _>(
            OptionError::NotOneMode,
        ),
        opt.server is Some && (opt.client is Some || opt.stats is Some) ==> r == Err::<Command, _>(
            OptionError::NotOneMode,
        ),
        opt.client is Some && opt.stats is Some ==> r == Err::<Command, _>(
            OptionError::NotOneMode,
        ),
        opt.server is None && opt.client is None && opt.stats is Some ==> r == Ok::<_, OptionError>(
            Command::Stats(opt.stats->0),
        ),
        opt.server is Some && opt.client is None && opt.stats is None ==> {
            if opt.pco.bind is None && opt.pco.sendto is None {
                r == Ok::<_, OptionError>(
                    Command::Server {
                        addr: opt.server->0,
                        keepalive_ignored: opt.cs.keepalive_interval != 30,
                    },
                )
            } else {
                r == Err::<Command, _>(OptionError::MeaninglessForServer)
            }
        },
        opt.server is None && opt.client is Some && opt.stats is None ==> {
            if opt.name is None {
                r == Err::<Command, _>(OptionError::NameRequired)
            } else if opt.pco.bind is None && opt.pco.sendto is None {
                r == Err::<Command, _>(OptionError::BindOrSendtoRequired)
            } else {
                r == Ok::<_, OptionError>(
                    Command::Client {
                        server: opt.client->0,
                        name: opt.name->0,
                        pco: opt.pco,
                        cs: opt.cs,
                    },
                )
            }
        },
        opt.modes() != 1 <==> r == Err::<Command, _>(OptionError::NotOneMode),
        opt.modes() == 1 && opt.stats is Some ==> r == Ok::<_, OptionError>(
            Command::Stats(opt.stats->0),
        ),
        opt.modes() == 1 && opt.server is Some ==> r == if opt.pco.nothing_given() {
            Ok(
                Command::Server {
                    addr: opt.server->0,
                    keepalive_ignored: opt.cs.keepalive_interval != DEFAULT_KEEPALIVE,
                },
            )
        } else {
            Err(OptionError::MeaninglessForServer)
        },
        opt.modes() == 1 && opt.client is Some ==> r == if opt.name is None {
            Err(OptionError::NameRequired)
        } else if opt.pco.nothing_given() {
            Err(OptionError::BindOrSendtoRequired)
        } else {
            Ok(
                Command::Client {
                    server: opt.client->0,
                    name: opt.name->0,
                    pco: opt.pco,
                    cs: opt.cs,
                },
            )
        },
{
    let mut modeopts: usize = 0;
    if opt.server.is_some() {
        modeopts = modeopts + 1;
    }
    if opt.client.is_some() {
        modeopts = modeopts + 1;
    }
    if opt.stats.is_some() {
        modeopts = modeopts + 1;
    }
    if modeopts != 1 {
        return Err(OptionError::NotOneMode);
    }
    if let Some(addr) = opt.stats {
        return Ok(Command::Stats(addr));
    }
    if let Some(addr) = opt.server {
        if opt.pco.bind.is_some() || opt.pco.sendto.is_some() {
            return Err(OptionError::MeaninglessForServer);
        }
        return Ok(
            Command::Server {
                addr,
                keepalive_ignored: opt.cs.keepalive_interval != DEFAULT_KEEPALIVE,
            },
        );
    }
    let name = match opt.name {
        Some(name) => name,
        None => {
            return Err(OptionError::NameRequired);
        },
    };
    if opt.pco.bind.is_none() && opt.pco.sendto.is_none() {
        return Err(OptionError::BindOrSendtoRequired);
    }
    Ok(Command::Client { server: opt.client.unwrap(), name, pco: opt.pco, cs: opt.cs })
}

/// Whether an IPv4 address is a loopback address.
pub open spec fn is_loopback(ip: u32) -> bool {
    ip / 0x1000000 == 127
}

/// The loopback addresses are those from 127.0.0.0 to 127.255.255.255.
pub proof fn law_loopback_addresses(ip: u32)
    ensures
        is_loopback(ip) <==> 0x7F000000 <= ip <= 0x7FFFFFFF,
{
}

/// The IPv4 address 127.0.0.1.
pub const LOCALHOST: u32 = 0x7F000001;

/// The IPv4 address 0.0.0.0.
pub const UNSPECIFIED: u32 = 0;

/// The address on which a client takes in the packets of the local
/// application: the one that it is given, or else any port, on the loopback
/// device alone if that is where the peer's packets go.
pub fn bind_address(pco: &PlayloadCommunicationOptions) -> (r: SocketAddr)
    ensures
        r == match pco.bind {
            Some(addr) => addr,
            None => SocketAddr::V4 {
                ip: if pco.sendto matches Some(SocketAddr::V4 { ip, port: _ }) && is_loopback(ip) {
                    LOCALHOST
                } else {
                    UNSPECIFIED
                },
                port: 0,
            },
        },
        pco.bind matches Some(addr) ==> r == addr,
        pco.bind is None && (pco.sendto matches Some(SocketAddr::V4 { ip, port: _ }) && 0x7F000000
            <= ip <= 0x7FFFFFFF) ==> r == (SocketAddr::V4 { ip: 0x7F000001, port: 0 }),
        pco.bind is None && !(pco.sendto matches Some(SocketAddr::V4 { ip, port: _ }) && 0x7F000000
            <= ip <= 0x7FFFFFFF) ==> r == (SocketAddr::V4 { ip: 0, port: 0 }),
{
    if let Some(addr) = pco.bind {
        return addr;
    }
    match pco.sendto {
        Some(SocketAddr::V4 { ip, port: _ }) if ip / 0x1000000 == 127 => SocketAddr::V4 {
            ip: LOCALHOST,
            port: 0,
        },
        _ => SocketAddr::V4 { ip: UNSPECIFIED, port: 0 },
    }
}

} // verus!
