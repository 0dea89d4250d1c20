//! Process-wide configuration, built once at start-up and handed to the
//! parts that need it.
use vstd::prelude::*;
use vstd::string::*;
use crate::endpoint::Endpoint;
use crate::net::{IpAddress, Subnet};

verus! {

/// Where the reservation service listens, and the endpoint peers are told.
#[derive(Clone, Debug)]
pub struct Service {
    pub address: IpAddress,
    pub port: u16,
    pub endpoint: Endpoint,
}

/// The whole configuration.
#[derive(Clone, Debug)]
pub struct Config {
    pub service: Service,
    /// Path of the store file.
    pub storage: String,
    /// Name of the tunnel interface.
    pub interface: String,
    /// The internal subnet; its address is the interface's own.
    pub internal_address: Subnet,
    /// The tunnel's listen port.
    pub wgport: u16,
}

/// The service listens on every address unless told otherwise.
pub fn default_addr() -> (r: IpAddress)
    ensures
        r == IpAddress::V4(0),
{
    IpAddress::V4(0)
}

/// `10.11.0.1/16`.
pub fn default_internal_addr() -> (r: Subnet)
    ensures
        r == (Subnet { addr: IpAddress::V4(0x0A0B_0001), prefix_len: 16 }),
        r.wf(),
{
    Subnet { addr: IpAddress::V4(0x0A0B_0001), prefix_len: 16 }
}

pub fn default_port() -> (r: u16)
    ensures
        r == 5010,
{
    5010
}

pub fn default_wireguard_port() -> (r: u16)
    ensures
        r == 55000,
{
    55000
}

/// The message for a failure to create the output file: a hint to use
/// `--force` where the file exists, else the underlying error.
pub fn process_openning_error(already_exists: bool, detail: &str) -> (r: String)
    ensures
        already_exists ==> r@
            == "config file exists, you should run command with '--force' to override it"@,
        !already_exists ==> r@ == "error while openning config: "@ + detail@,
{
    if already_exists {
        String::from_str("config file exists, you should run command with '--force' to override it")
    } else {
        String::from_str("error while openning config: ").concat(detail)
    }
}

} // verus!
