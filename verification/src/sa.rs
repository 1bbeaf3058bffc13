//! The client of the scripting addition that runs inside the Dock.

use vstd::prelude::*;

verus! {

/// The status the bootstrap server answers a successful look-up with.
pub const BOOTSTRAP_SUCCESS: i32 = 0;

/// The name the scripting addition registers with the bootstrap server.
pub const SERVICE_NAME: &'static str = "io.mosaic.api";

/// A connection to the scripting addition, by its Mach port.
pub struct ScriptingAddition {
    port: u32,
}

impl ScriptingAddition {
    /// The Mach port the connection talks to.
    pub closed spec fn mach_port(&self) -> u32 {
        self.port
    }

    /// The client for a bootstrap look-up's answer: a connection on `port`
    /// when the look-up succeeded, none otherwise.
    pub fn from_lookup(status: i32, port: u32) -> (r: Option<Self>)
        ensures
            status == BOOTSTRAP_SUCCESS <==> r is Some,
            r matches Some(c) ==> c.mach_port() == port,
    {
        if status == BOOTSTRAP_SUCCESS {
            Some(ScriptingAddition { port })
        } else {
            None
        }
    }

    /// The Mach port of the connection.
    pub fn port(&self) -> (r: u32)
        ensures
            r == self.mach_port(),
    {
        self.port
    }

    /// The result of a move request from its status: 0 is success, anything
    /// else is returned as the error.
    pub fn move_result(status: i32) -> (r: Result<(), i32>)
        ensures
            status == 0 <==> r is Ok,
            status != 0 ==> r == Err::<(), i32>(status),
    {
        if status == 0 {
            Ok(())
        } else {
            Err(status)
        }
    }
}

} // verus!
