//! Contains what the server's middlewares decide.

use vstd::prelude::*;

verus! {

/// The server is shutting down and takes no more requests.
#[derive(Debug, Clone, Copy, PartialEq, Eq, Structural)]
pub struct Terminating;

/// Deals with graceful shutdown: counts the requests that are under way,
/// takes no new ones once termination is ordered, and says when the last
/// of them has ended.
#[derive(Debug)]
pub struct GracefulShutdownMiddleware {
    terminating: bool,
    in_process: u64,
}

impl GracefulShutdownMiddleware {
    /// Whether termination was ordered.
    pub closed spec fn terminating(&self) -> bool {
        self.terminating
    }

    /// Number of requests under way.
    pub closed spec fn in_process(&self) -> nat {
        self.in_process as nat
    }

    /// Constructs a new middleware: no request is under way and
    /// termination is not ordered.
    pub fn new() -> (middleware: GracefulShutdownMiddleware)
        ensures
            !middleware.terminating(),
            middleware.in_process() == 0,
    {
        GracefulShutdownMiddleware { terminating: false, in_process: 0 }
    }

    /// Takes a request in, unless termination is ordered or more requests
    /// are under way than can be counted.
    pub fn reserve(&mut self) -> (reserved: Result<(), Terminating>)
        ensures
            final(self).terminating() == old(self).terminating(),
            if old(self).terminating() || old(self).in_process() == u64::MAX {
                reserved.is_err() && final(self).in_process() == old(self).in_process()
            } else {
                reserved.is_ok() && final(self).in_process() == old(self).in_process() + 1
            },
    {
        if self.terminating || self.in_process == u64::MAX {
            return Err(Terminating);
        }
        self.in_process = self.in_process + 1;
        Ok(())
    }

    /// Notes that a request has ended; says whether the server is to exit:
    /// termination is ordered and this was the last request under way.
    pub fn release(&mut self) -> (exit: bool)
        ensures
            final(self).terminating() == old(self).terminating(),
            final(self).in_process() == if old(self).in_process() > 0 {
                (old(self).in_process() - 1) as nat
            } else {
                0
            },
            exit == (old(self).terminating() && old(self).in_process() == 1),
    {
        if self.in_process == 0 {
            return false;
        }
        self.in_process = self.in_process - 1;
        self.terminating && self.in_process == 0
    }

    /// Starts to terminate; says whether the server is to exit at once,
    /// which it is where no request is under way. An order that is given
    /// again changes nothing.
    pub fn terminate(&mut self) -> (exit: bool)
        ensures
            final(self).terminating(),
            final(self).in_process() == old(self).in_process(),
            exit == (!old(self).terminating() && old(self).in_process() == 0),
    {
        if self.terminating {
            return false;
        }
        self.terminating = true;
        self.in_process == 0
    }
}

} // verus!
