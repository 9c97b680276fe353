//! The scheduler: which requests go out on each tick, and when it stops.

use crate::quotes::QuoteRequest;
use vstd::prelude::*;

verus! {

/// One request per symbol, in the order of the symbols, each for the period
/// from `from` to `now`.
pub open spec fn requests_at(symbols: Seq<String>, from: i64, now: i64) -> Seq<QuoteRequest> {
    Seq::new(symbols.len(), |i: int| QuoteRequest { symbol: symbols[i], from: from, to: now })
}

/// The state of the scheduler. It starts running; once publishing a request
/// has failed it has stopped, and stays so.
pub struct Scheduler {
    /// The symbols to request, in the order in which they are requested.
    pub symbols: Vec<String>,
    /// The start of every requested period, in seconds since the Unix epoch.
    pub from: i64,
    pub running: bool,
}

impl Scheduler {
    /// A running scheduler for `symbols` and periods that start at `from`.
    pub fn new(symbols: Vec<String>, from: i64) -> (r: Scheduler)
        ensures
            r.symbols == symbols,
            r.from == from,
            r.running,
    {
        Scheduler { symbols, from, running: true }
    }

    /// The requests to publish on a tick at time `now`: one per symbol while
    /// the scheduler runs, none once it has stopped.
    pub fn tick(&self, now: i64) -> (r: Vec<QuoteRequest>)
        ensures
            self.running ==> r@ == requests_at(self.symbols@, self.from, now),
            !self.running ==> r@.len() == 0,
    {
        let mut requests: Vec<QuoteRequest> = Vec::new();
        if !self.running {
            return requests;
        }
        let mut i: usize = 0;
        while i < self.symbols.len()
            invariant
                i <= self.symbols@.len(),
                requests@ == requests_at(self.symbols@.take(i as int), self.from, now),
            decreases self.symbols@.len() - i,
        {
            requests.push(QuoteRequest { symbol: self.symbols[i].clone(), from: self.from, to: now });
            assert(requests@ =~= requests_at(self.symbols@.take(i + 1), self.from, now));
            i += 1;
        }
        assert(self.symbols@.take(i as int) =~= self.symbols@);
        requests
    }

    /// Records that a request could not be published: the scheduler stops.
    pub fn publish_failed(&mut self)
        ensures
            !final(self).running,
            final(self).symbols == old(self).symbols,
            final(self).from == old(self).from,
    {
        self.running = false;
    }
}

} // verus!
