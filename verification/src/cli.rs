//! Server configuration.
use vstd::prelude::*;
use vstd::string::StringExecFns;

verus! {

/// Web server configuration.
pub struct Config {
    /// Address to bind
    pub address: String,
    /// Port to bind
    pub port: String,
    /// Root directory to serve content from
    pub root: String,
}

impl Config {
    /// Builds a config from optional settings, filling in the default
    /// address, port and root for the ones that are absent.
    pub fn from_parts(
        address: Option<String>,
        port: Option<String>,
        root: Option<String>,
    ) -> (c: Config)
        ensures
            c.address@ == (match address {
                Some(a) => a@,
                None => "127.0.0.1"@,
            }),
            c.port@ == (match port {
                Some(p) => p@,
                None => "8080"@,
            }),
            c.root@ == (match root {
                Some(r) => r@,
                None => "."@,
            }),
    {
        let address = match address {
            Some(a) => a,
            None => String::from_str("127.0.0.1"),
        };
        let port = match port {
            Some(p) => p,
            None => String::from_str("8080"),
        };
        let root = match root {
            Some(r) => r,
            None => String::from_str("."),
        };
        Config { address, port, root }
    }

    /// The address and port joined into one bind target, as `address:port`.
    pub fn bind_target(&self) -> (r: String)
        ensures
            r@ == self.address@ + ":"@ + self.port@,
    {
        let mut r = String::from_str(self.address.as_str());
        r.append(":");
        r.append(self.port.as_str());
        r
    }
}

} // verus!
