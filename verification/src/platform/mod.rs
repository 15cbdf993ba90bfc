//! Platform facts the library reasons about: UWP applications and their loopback
//! exemption, TUN device names, system proxy bypass lists and the system proxy port.
use vstd::prelude::*;
use vstd::string::*;

pub mod linux;
pub mod macos;
pub mod windows;

verus! {

/// What the settings page shows of a UWP application.
#[derive(Debug, Clone, PartialEq, Eq)]
pub struct UwpApp {
    pub name: String,
    pub package_family_name: String,
    pub enabled: bool,
}

impl UwpApp {
    /// A field-by-field copy.
    pub fn duplicate(&self) -> (r: UwpApp)
        ensures
            r == *self,
    {
        UwpApp { name: self.name.clone(), package_family_name: self.package_family_name.clone(), enabled: self.enabled }
    }
}

/// The port the system proxy points to: the HTTP port, else the SOCKS port, else 0.
pub open spec fn proxy_port_of(http_port: Option<u16>, socks_port: Option<u16>) -> u16 {
    match http_port {
        Some(p) => p,
        None => match socks_port {
            Some(p) => p,
            None => 0,
        },
    }
}

/// The port for the system proxy; turning the proxy on needs one other than 0.
pub fn system_proxy_port(enabled: bool, http_port: Option<u16>, socks_port: Option<u16>) -> (r: Result<u16, String>)
    ensures
        enabled && proxy_port_of(http_port, socks_port) == 0 ==> r is Err && r->Err_0@ == "没有可用的 HTTP 或 SOCKS 代理端口"@,
        !(enabled && proxy_port_of(http_port, socks_port) == 0) ==> r == Ok::<u16, String>(proxy_port_of(http_port, socks_port)),
{
    let port = match http_port {
        Some(p) => p,
        None => match socks_port {
            Some(p) => p,
            None => 0,
        },
    };
    if enabled && port == 0 {
        return Err(String::from_str("没有可用的 HTTP 或 SOCKS 代理端口"));
    }
    Ok(port)
}

/// The state of a socket as the system lists it: listening, unknown, or another.
#[derive(Debug, Clone, Copy, PartialEq, Eq, Structural)]
pub enum SocketState {
    Listen,
    Unknown,
    Other,
}

/// A socket that takes its port: one bound to a port other than 0 that listens or whose
/// state is unknown.
pub open spec fn takes_port(socket: (u16, SocketState)) -> bool {
    socket.0 != 0 && (socket.1 == SocketState::Listen || socket.1 == SocketState::Unknown)
}

/// The ports taken by the sockets the system lists (each socket as its port and state),
/// each port once.
pub fn listening_ports(sockets: &Vec<(u16, SocketState)>) -> (r: Vec<u16>)
    ensures
        r@.no_duplicates(),
        forall|p: u16| r@.contains(p) <==> exists|i: int| 0 <= i < sockets@.len()
            && #[trigger] takes_port(sockets@[i]) && sockets@[i].0 == p,
{
    let mut ports: Vec<u16> = Vec::new();
    let mut i: usize = 0;
    while i < sockets.len()
        invariant
            i <= sockets@.len(),
            ports@.no_duplicates(),
            forall|p: u16| ports@.contains(p) <==> exists|k: int| 0 <= k < i
                && #[trigger] takes_port(sockets@[k]) && sockets@[k].0 == p,
        decreases sockets@.len() - i,
    {
        let (port, state) = sockets[i];
        let taken = port != 0 && (state == SocketState::Listen || state == SocketState::Unknown);
        if taken {
            let mut seen = false;
            let mut j: usize = 0;
            while j < ports.len()
                invariant
                    j <= ports@.len(),
                    seen == exists|t: int| 0 <= t < j && ports@[t] == port,
                decreases ports@.len() - j,
            {
                if ports[j] == port {
                    seen = true;
                }
                j = j + 1;
            }
            let ghost before = ports@;
            if !seen {
                ports.push(port);
                proof {
                    assert forall|a: int, b: int| 0 <= a < b < ports@.len() implies ports@[a] != ports@[b] by {
                        if b == ports@.len() - 1 {
                            assert(ports@[a] == before[a]);
                        }
                    }
                }
            }
            proof {
                assert(takes_port(sockets@[i as int]));
                assert forall|p: u16| ports@.contains(p) <==> exists|k: int| 0 <= k < i + 1
                    && #[trigger] takes_port(sockets@[k]) && sockets@[k].0 == p by {
                    if ports@.contains(p) {
                        if before.contains(p) {
                        } else {
                            assert(p == port);
                        }
                    } else {
                        if exists|k: int| 0 <= k < i + 1 && #[trigger] takes_port(sockets@[k]) && sockets@[k].0 == p {
                            let k = choose|k: int| 0 <= k < i + 1 && #[trigger] takes_port(sockets@[k]) && sockets@[k].0 == p;
                            if k == i {
                                if seen {
                                    let t = choose|t: int| 0 <= t < before.len() && before[t] == port;
                                    assert(before.contains(port));
                                    assert(ports@.contains(port));
                                } else {
                                    assert(ports@[ports@.len() - 1] == port);
                                }
                            } else {
                                assert(before.contains(p));
                                if !seen {
                                    let t = choose|t: int| 0 <= t < before.len() && before[t] == p;
                                    assert(ports@[t] == p);
                                }
                            }
                        }
                    }
                }
            }
        } else {
            proof {
                assert(!takes_port(sockets@[i as int]));
                assert forall|p: u16| ports@.contains(p) <==> exists|k: int| 0 <= k < i + 1
                    && #[trigger] takes_port(sockets@[k]) && sockets@[k].0 == p by {
                    if exists|k: int| 0 <= k < i + 1 && #[trigger] takes_port(sockets@[k]) && sockets@[k].0 == p {
                        let k = choose|k: int| 0 <= k < i + 1 && #[trigger] takes_port(sockets@[k]) && sockets@[k].0 == p;
                        assert(k != i);
                    }
                }
            }
        }
        i = i + 1;
    }
    ports
}

} // verus!
