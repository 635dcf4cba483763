//! Ping-pong over the network: a pinger sends a ping for every pong it gets
//! until it has counted down to zero.

use crate::atomicregister::config::BenchmarkError;
use vstd::prelude::*;

verus! {

/// Name of the benchmark.
pub const LABEL: &'static str = "NetPingPong";

/// The benchmark's entry.
#[derive(Default)]
pub struct PingPong;

/// The client's side of the benchmark, which runs the ponger.
pub struct PingPongClient {
    ponger: Option<Ponger>,
}

/// What the pinger does next.
#[derive(Clone, Copy, Debug, PartialEq, Eq, Structural)]
pub enum PingerAction {
    /// Send a ping to the ponger.
    SendPing,
    /// The count is down: release the barrier of the iteration.
    Release,
    /// A pong came although the count was down: nothing is done.
    Ignore,
}

/// Counts pongs down.
pub struct Pinger {
    count_down: u64,
}

/// Answers every ping.
#[derive(Clone, Copy, Debug, PartialEq, Eq, Structural)]
pub struct Ponger;

/// What the ponger sends back.
#[derive(Clone, Copy, Debug, PartialEq, Eq, Structural)]
pub struct StaticPong;

impl PingPong {
    /// Name of the benchmark.
    pub fn label() -> (name: &'static str)
        ensures
            name@ == LABEL@,
    {
        LABEL
    }

    /// A client that was not set up yet.
    pub fn new_client() -> (client: PingPongClient)
        ensures
            !client.is_set_up(),
    {
        PingPongClient::new()
    }

    /// The client has no configuration: every string stands for it.
    pub fn str_to_client_conf(_str: &str) -> (res: Result<(), BenchmarkError>)
        ensures
            res is Ok,
    {
        Ok(())
    }

    /// The client has no configuration: it is written as the empty string.
    pub fn client_conf_to_str(_c: ()) -> (text: String)
        ensures
            text@ == Seq::<char>::empty(),
    {
        String::new()
    }
}

impl PingPongClient {
    /// Whether the ponger is running.
    pub closed spec fn is_set_up(&self) -> bool {
        self.ponger is Some
    }

    /// A client that was not set up yet.
    pub fn new() -> (client: PingPongClient)
        ensures
            !client.is_set_up(),
    {
        PingPongClient { ponger: None }
    }

    /// Sets the client up: from now on there is a ponger.
    pub fn setup(&mut self) -> (ponger: Ponger)
        ensures
            final(self).is_set_up(),
    {
        let ponger = Ponger::new();
        self.ponger = Some(ponger);
        ponger
    }

    /// Ends an iteration. Returns whether the ponger is to be stopped: it
    /// is after the last iteration, if it was running.
    pub fn cleanup_iteration(&mut self, last_iteration: bool) -> (stop: bool)
        ensures
            stop == (last_iteration && old(self).is_set_up()),
            final(self).is_set_up() == (old(self).is_set_up() && !last_iteration),
    {
        if last_iteration && self.ponger.is_some() {
            self.ponger = None;
            true
        } else {
            false
        }
    }
}

impl Pinger {
    /// Pongs that are still to come.
    pub closed spec fn remaining(&self) -> u64 {
        self.count_down
    }

    /// A pinger that waits for `count` pongs.
    pub fn with(count: u64) -> (pinger: Pinger)
        ensures
            pinger.remaining() == count,
    {
        Pinger { count_down: count }
    }

    /// Starts the exchange with the first ping.
    pub fn on_start(&self) -> (action: PingerAction)
        ensures
            action == PingerAction::SendPing,
    {
        PingerAction::SendPing
    }

    /// Counts a pong: the next ping goes out while pongs are still to come,
    /// and the barrier is released with the last.
    pub fn on_pong(&mut self) -> (action: PingerAction)
        ensures
            old(self).remaining() == 0 ==> action == PingerAction::Ignore && final(self).remaining() == 0,
            old(self).remaining() > 0 ==> final(self).remaining() == old(self).remaining() - 1,
            old(self).remaining() > 1 ==> action == PingerAction::SendPing,
            old(self).remaining() == 1 ==> action == PingerAction::Release,
    {
        if self.count_down == 0 {
            return PingerAction::Ignore;
        }
        self.count_down = self.count_down - 1;
        if self.count_down > 0 {
            PingerAction::SendPing
        } else {
            PingerAction::Release
        }
    }
}

impl Ponger {
    /// A ponger.
    pub fn new() -> (ponger: Ponger)
        ensures
            ponger == Ponger,
    {
        Ponger
    }

    /// Answers a ping with a pong.
    pub fn on_ping(&self) -> (pong: StaticPong)
        ensures
            pong == StaticPong,
    {
        StaticPong
    }
}

} // verus!
