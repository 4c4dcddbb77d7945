use vstd::prelude::*;

verus! {

/// The client's commands, as they travel on the wire.  Amounts are whole
/// coins; a message is sent as the words the user typed.
#[derive(Clone, Debug)]
pub enum Command {
    T { rcp_id: u32, amt: u32 },
    M { rcp_id: u32, msg: Vec<Vec<u8>> },
    S { amt: u32 },
    V,
    B,
    H,
    Id,
    Time,
    Stats,
}

/// The parsed command line: just the command.
#[derive(Debug)]
pub struct Args {
    pub cmd: Command,
}

} // verus!
