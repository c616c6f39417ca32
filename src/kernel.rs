use vstd::prelude::*;
use crate::fail::Fail;

verus! {

/// Outcome of one poll of a connect on a kernel socket.
#[derive(Clone, Copy, Debug, PartialEq, Eq)]
pub enum ConnectPoll {
    Ready(Result<(), Fail>),
    Pending,
}

/// Decides a kernel connect from its return code and error number: zero
/// connects; `in_progress` or `already` (the platform's codes for a connect
/// under way) waits; any other error fails with its code.
pub fn connect_poll_outcome(ret: i32, errno: i32, in_progress: i32, already: i32) -> (r: ConnectPoll)
    ensures
        r == if ret == 0 {
            ConnectPoll::Ready(Ok(()))
        } else if errno == in_progress || errno == already {
            ConnectPoll::Pending
        } else {
            ConnectPoll::Ready(Err(Fail::Other(errno)))
        },
{
    if ret == 0 {
        ConnectPoll::Ready(Ok(()))
    } else if errno == in_progress || errno == already {
        ConnectPoll::Pending
    } else {
        ConnectPoll::Ready(Err(Fail::Other(errno)))
    }
}

} // verus!
