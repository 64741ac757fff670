//! SSH tunnelling to a VNC server through a gateway host. No SSH transport
//! is built in, so tunnels are reported as unavailable.
use vstd::prelude::*;

verus! {

/// A local port forwarded through `gateway` to `remote_host:remote_port`.
pub struct SshTunnel {
    pub local_port: u16,
    pub gateway: String,
    pub remote_host: String,
    pub remote_port: u16,
}

impl SshTunnel {
    /// Whether tunnels can be opened: never, as no SSH transport is built in.
    pub fn is_available() -> (r: bool)
        ensures
            !r,
    {
        false
    }
}

} // verus!
