use vstd::prelude::*;

verus! {

/// Configuration handed to the server before the core starts: the TCP port
/// to bind. It is loaded once (outside the library) and immutable for the
/// process lifetime.
#[derive(Debug)]
pub struct Settings {
    pub socket_server_port: u16,
    pub port: u16,
}

} // verus!
