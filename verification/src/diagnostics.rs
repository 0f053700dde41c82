//! Records for exercising client connection behaviour.
//!
//! An embedding that drives real connections through their failure modes
//! collects one record per scenario; the coordinator here only accumulates
//! them.

use vstd::prelude::*;

verus! {

/// A connection scenario worth exercising.
#[derive(Debug, Clone, PartialEq)]
pub enum ConnectionScenario {
    /// A plain connection over newline-delimited framing.
    TcpNdjson,
    /// A connection over length-prefixed framing.
    TcpLsp,
    /// A connection over the process's standard streams.
    Stdio,
    /// A handshake that violates the protocol.
    InvalidHandshake,
    /// A connection attempt that never completes.
    ConnectionTimeout,
    /// A peer that sends text that is not JSON.
    MalformedJson,
    /// A request sent without an identifier.
    MissingRequestId,
    /// A peer that disconnects mid-session.
    ServerDisconnect,
    /// Several sessions held in one group.
    MultipleConnections,
}

/// What one exercised scenario observed.
#[derive(Debug, Clone, PartialEq)]
pub struct ConnectionDebugResult {
    pub scenario: ConnectionScenario,
    pub success: bool,
    pub error_message: Option<String>,
    pub duration_millis: u64,
    pub handshake_successful: bool,
    pub tools_listed: bool,
    pub tool_called: bool,
}

/// Accumulates the records of the exercised scenarios.
#[derive(Debug)]
pub struct ClientConnectionDebugger {
    pub results: Vec<ConnectionDebugResult>,
}

impl ClientConnectionDebugger {
    /// A coordinator with no results yet.
    pub fn new() -> (d: ClientConnectionDebugger)
        ensures
            d.results@.len() == 0,
    {
        ClientConnectionDebugger { results: Vec::new() }
    }

    /// Records one scenario's outcome.
    pub fn record(&mut self, result: ConnectionDebugResult)
        ensures
            final(self).results@ == old(self).results@.push(result),
    {
        self.results.push(result);
    }

    /// How many of the recorded scenarios succeeded.
    pub fn successes(&self) -> (n: usize)
        ensures
            n == self.results@.filter(|r: ConnectionDebugResult| r.success).len(),
    {
        let total = self.results.len();
        let mut n: usize = 0;
        let mut i: usize = 0;
        proof {
            reveal(Seq::filter);
            assert(self.results@.take(0).filter(|r: ConnectionDebugResult| r.success) =~= Seq::<
                ConnectionDebugResult,
            >::empty());
        }
        while i < total
            invariant
                total == self.results@.len(),
                i <= total,
                n == self.results@.take(i as int).filter(
                    |r: ConnectionDebugResult| r.success,
                ).len(),
                n <= i,
            decreases total - i,
        {
            if self.results[i].success {
                n = n + 1;
            }
            proof {
                reveal(Seq::filter);
                let f = |r: ConnectionDebugResult| r.success;
                let pre = self.results@.take(i as int);
                let cur = self.results@.take(i + 1);
                assert(cur.drop_last() =~= pre);
                assert(cur.last() == self.results@[i as int]);
                pre.lemma_filter_len(f);
            }
            i = i + 1;
        }
        proof {
            assert(self.results@.take(total as int) =~= self.results@);
        }
        n
    }
}

} // verus!
