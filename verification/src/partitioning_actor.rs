//! The coordinator of one iteration: it assigns ranks and key ranges, waits
//! until every node is set up, starts the run and waits until every node is
//! done.
//!
//! The two barriers that the coordinator releases are not held here: a
//! handler says when a barrier is to be released, and the caller releases it.

use vstd::prelude::*;

verus! {

/// Sets a node up for an iteration.
#[derive(Clone, Debug, PartialEq, Eq)]
pub struct Init {
    /// The iteration; nodes echo it as `run_id`.
    pub init_id: u32,
    /// Rank of the receiver: its position in `nodes`.
    pub rank: u32,
    pub min_key: u64,
    pub max_key: u64,
    /// Every node of the iteration, in the order of the ranks.
    pub nodes: Vec<String>,
}

/// Reports that a node is set up for the iteration it names.
#[derive(Clone, Copy, Debug, PartialEq, Eq, Structural)]
pub struct InitAck(pub u32);

/// Starts the operations of a node.
#[derive(Clone, Copy, Debug, PartialEq, Eq, Structural)]
pub struct Run;

/// Reports that a node has completed its operations.
#[derive(Clone, Copy, Debug, PartialEq, Eq, Structural)]
pub struct Done;

/// An `Init` with the node it goes to.
#[derive(Clone, Debug, PartialEq, Eq)]
pub struct Assignment {
    pub to: String,
    pub init: Init,
}

/// Number of keys of node `rank` when `num_keys` keys are dealt out evenly to
/// `n` nodes: the first `num_keys % n` nodes get one key more than the rest.
pub open spec fn share(num_keys: u64, n: nat, rank: nat) -> nat
    recommends
        0 < n,
{
    (num_keys as nat / n + if rank < num_keys as nat % n {
        1nat
    } else {
        0nat
    }) as nat
}

/// The least key of node `rank`: the keys of the ranks below it come first.
pub open spec fn first_key(num_keys: u64, n: nat, rank: nat) -> nat
    recommends
        0 < n,
{
    let extra = num_keys as nat % n;
    (rank * (num_keys as nat / n) + if rank < extra {
        rank
    } else {
        extra
    }) as nat
}

/// The key range `(min_key, max_key)` of node `rank`. A node without keys
/// gets the empty range `(1, 0)`.
pub open spec fn key_range(num_keys: u64, n: nat, rank: nat) -> (u64, u64)
    recommends
        0 < n,
{
    if share(num_keys, n, rank) == 0 {
        (1u64, 0u64)
    } else {
        (
            first_key(num_keys, n, rank) as u64,
            (first_key(num_keys, n, rank) + share(num_keys, n, rank) - 1) as u64,
        )
    }
}

/// The ranges of the nodes partition `[0, num_keys - 1]` evenly: they come in
/// the order of the ranks without a gap or an overlap, they end with the last
/// key, and no two differ in size by more than one.
pub proof fn lemma_partition(num_keys: u64, n: nat, rank: nat)
    requires
        0 < n,
        rank < n,
    ensures
        first_key(num_keys, n, 0) == 0,
        first_key(num_keys, n, rank + 1) == first_key(num_keys, n, rank) + share(
            num_keys,
            n,
            rank,
        ),
        first_key(num_keys, n, n) == num_keys,
        first_key(num_keys, n, rank + 1) <= num_keys,
        forall|other: nat|
            other < n ==> share(num_keys, n, rank) <= #[trigger] share(num_keys, n, other) + 1,
{
    let base = num_keys as nat / n;
    let extra = num_keys as nat % n;
    assert((rank + 1) * base == rank * base + base) by (nonlinear_arith);
    assert(n * base + extra == num_keys) by (nonlinear_arith)
        requires
            base == num_keys as nat / n,
            extra == num_keys as nat % n,
            0 < n,
    ;
    assert((rank + 1) * base <= n * base) by (nonlinear_arith)
        requires
            rank + 1 <= n,
    ;
    assert(0 * base == 0) by (nonlinear_arith);
}

/// The state of the coordinator.
pub struct CoordinatorModel {
    pub init_id: u32,
    pub nodes: Seq<String>,
    pub num_keys: u64,
    /// Acks of this iteration that were counted.
    pub init_acks: nat,
    /// Notices of completion that were counted.
    pub dones: nat,
    /// Whether the barrier of the set-up was released.
    pub prepared: bool,
    /// Whether the barrier of the run was released.
    pub finished: bool,
}

/// The coordinator after an `InitAck` reached it, and whether the barrier of
/// the set-up is to be released. An ack of another iteration, or one that
/// comes after the release, is dropped. A coordinator without nodes waits
/// for nothing and drops every ack.
pub open spec fn model_on_init_ack(m: CoordinatorModel, ack: InitAck) -> (CoordinatorModel, bool) {
    if ack.0 != m.init_id || m.prepared || m.nodes.len() == 0 {
        (m, false)
    } else if m.init_acks + 1 == m.nodes.len() {
        (CoordinatorModel { init_acks: m.init_acks + 1, prepared: true, ..m }, true)
    } else {
        (CoordinatorModel { init_acks: m.init_acks + 1, ..m }, false)
    }
}

/// The coordinator after a `Done` reached it, and whether the barrier of the
/// run is to be released. A notice that comes after the release is dropped.
/// A coordinator without nodes waits for nothing and drops every notice.
pub open spec fn model_on_done(m: CoordinatorModel) -> (CoordinatorModel, bool) {
    if m.finished || m.nodes.len() == 0 {
        (m, false)
    } else if m.dones + 1 == m.nodes.len() {
        (CoordinatorModel { dones: m.dones + 1, finished: true, ..m }, true)
    } else {
        (CoordinatorModel { dones: m.dones + 1, ..m }, false)
    }
}

/// What every reachable state of the coordinator satisfies: a barrier is
/// released exactly if every node was counted for it.
pub open spec fn coordinator_wf(m: CoordinatorModel) -> bool {
    &&& m.nodes.len() <= u32::MAX
    &&& m.init_acks <= m.nodes.len()
    &&& m.dones <= m.nodes.len()
    &&& m.prepared ==> m.init_acks == m.nodes.len()
    &&& m.finished ==> m.dones == m.nodes.len()
    &&& m.nodes.len() > 0 && m.init_acks == m.nodes.len() ==> m.prepared
    &&& m.nodes.len() > 0 && m.dones == m.nodes.len() ==> m.finished
}

/// The coordinator of one iteration.
pub struct PartitioningActor {
    init_id: u32,
    nodes: Vec<String>,
    num_keys: u64,
    init_ack_count: usize,
    done_count: usize,
    prepared: bool,
    finished: bool,
}

impl View for PartitioningActor {
    type V = CoordinatorModel;

    closed spec fn view(&self) -> CoordinatorModel {
        CoordinatorModel {
            init_id: self.init_id,
            nodes: self.nodes@,
            num_keys: self.num_keys,
            init_acks: self.init_ack_count as nat,
            dones: self.done_count as nat,
            prepared: self.prepared,
            finished: self.finished,
        }
    }
}

/// A copy of `paths`.
pub fn copy_paths(paths: &Vec<String>) -> (copy: Vec<String>)
    ensures
        copy@ == paths@,
{
    let mut copy: Vec<String> = Vec::new();
    let mut i: usize = 0;
    while i < paths.len()
        invariant
            i <= paths.len(),
            copy@ == paths@.subrange(0, i as int),
        decreases paths.len() - i,
    {
        copy.push(paths[i].clone());
        assert(copy@ =~= paths@.subrange(0, i + 1));
        i = i + 1;
    }
    assert(paths@.subrange(0, paths@.len() as int) =~= paths@);
    copy
}

impl PartitioningActor {
    /// The invariant of the coordinator.
    pub open spec fn wf(&self) -> bool {
        coordinator_wf(self@)
    }

    /// A coordinator for iteration `init_id` over `nodes`, whose positions
    /// are their ranks, with `num_keys` keys to deal out.
    pub fn with(init_id: u32, nodes: Vec<String>, num_keys: u64) -> (actor: PartitioningActor)
        requires
            nodes@.len() <= u32::MAX,
        ensures
            actor.wf(),
            actor@ == (CoordinatorModel {
                init_id,
                nodes: nodes@,
                num_keys,
                init_acks: 0,
                dones: 0,
                prepared: false,
                finished: false,
            }),
    {
        PartitioningActor {
            init_id,
            nodes,
            num_keys,
            init_ack_count: 0,
            done_count: 0,
            prepared: false,
            finished: false,
        }
    }

    /// The `Init` of every node, in the order of the ranks: node `i` gets
    /// rank `i`, its share of the keys, and the list of all nodes.
    pub fn start(&self) -> (out: Vec<Assignment>)
        requires
            self.wf(),
        ensures
            out@.len() == self@.nodes.len(),
            forall|i: int|
                0 <= i < out@.len() ==> {
                    &&& (#[trigger] out@[i]).to == self@.nodes[i]
                    &&& out@[i].init.init_id == self@.init_id
                    &&& out@[i].init.rank == i
                    &&& (out@[i].init.min_key, out@[i].init.max_key) == key_range(
                        self@.num_keys,
                        self@.nodes.len(),
                        i as nat,
                    )
                    &&& out@[i].init.nodes@ == self@.nodes
                },
    {
        let n: usize = self.nodes.len();
        let mut out: Vec<Assignment> = Vec::new();
        if n == 0 {
            return out;
        }
        let base: u64 = self.num_keys / (n as u64);
        let extra: u64 = self.num_keys % (n as u64);
        let mut next: u64 = 0;
        let mut i: usize = 0;
        proof {
            lemma_partition(self.num_keys, n as nat, 0);
        }
        while i < n
            invariant
                self.wf(),
                n == self.nodes@.len(),
                0 < n <= u32::MAX,
                i <= n,
                base == self.num_keys as nat / n as nat,
                extra == self.num_keys as nat % n as nat,
                next == first_key(self.num_keys, n as nat, i as nat),
                out@.len() == i,
                forall|j: int|
                    0 <= j < i ==> {
                        &&& (#[trigger] out@[j]).to == self.nodes@[j]
                        &&& out@[j].init.init_id == self.init_id
                        &&& out@[j].init.rank == j
                        &&& (out@[j].init.min_key, out@[j].init.max_key) == key_range(
                            self.num_keys,
                            n as nat,
                            j as nat,
                        )
                        &&& out@[j].init.nodes@ == self.nodes@
                    },
            decreases n - i,
        {
            proof {
                lemma_partition(self.num_keys, n as nat, i as nat);
            }
            let size: u64 = if (i as u64) < extra {
                base + 1
            } else {
                base
            };
            let min_key: u64 = if size == 0 {
                1
            } else {
                next
            };
            let max_key: u64 = if size == 0 {
                0
            } else {
                next + (size - 1)
            };
            out.push(
                Assignment {
                    to: self.nodes[i].clone(),
                    init: Init {
                        init_id: self.init_id,
                        rank: i as u32,
                        min_key,
                        max_key,
                        nodes: copy_paths(&self.nodes),
                    },
                },
            );
            next = next + size;
            i = i + 1;
        }
        out
    }

    /// Handles an `InitAck`. Returns whether the barrier of the set-up is to
    /// be released now: it is when the ack is the last that was waited for.
    pub fn on_init_ack(&mut self, ack: InitAck) -> (release: bool)
        requires
            old(self).wf(),
        ensures
            final(self).wf(),
            (final(self)@, release) == model_on_init_ack(old(self)@, ack),
    {
        if ack.0 != self.init_id || self.prepared || self.nodes.len() == 0 {
            return false;
        }
        self.init_ack_count = self.init_ack_count + 1;
        if self.init_ack_count == self.nodes.len() {
            self.prepared = true;
            true
        } else {
            false
        }
    }

    /// The nodes that `Run` is to be sent to: all of them, in the order of
    /// the ranks.
    pub fn run(&self) -> (to: Vec<String>)
        ensures
            to@ == self@.nodes,
    {
        copy_paths(&self.nodes)
    }

    /// Handles a `Done`. Returns whether the barrier of the run is to be
    /// released now: it is when the notice is the last that was waited for.
    pub fn on_done(&mut self, done: Done) -> (release: bool)
        requires
            old(self).wf(),
        ensures
            final(self).wf(),
            (final(self)@, release) == model_on_done(old(self)@),
    {
        if self.finished || self.nodes.len() == 0 {
            return false;
        }
        self.done_count = self.done_count + 1;
        if self.done_count == self.nodes.len() {
            self.finished = true;
            true
        } else {
            false
        }
    }

    /// Whether the barrier of the set-up was released.
    pub fn prepared(&self) -> (yes: bool)
        ensures
            yes == self@.prepared,
    {
        self.prepared
    }

    /// Whether the barrier of the run was released.
    pub fn finished(&self) -> (yes: bool)
        ensures
            yes == self@.finished,
    {
        self.finished
    }
}

/// The coordinator after `count` acks of its iteration reached it.
pub open spec fn after_init_acks(m: CoordinatorModel, count: nat) -> CoordinatorModel
    decreases count,
{
    if count == 0 {
        m
    } else {
        model_on_init_ack(after_init_acks(m, (count - 1) as nat), InitAck(m.init_id)).0
    }
}

/// The barrier of the set-up is released by the ack of the last node and by
/// no other: of the acks of one iteration, the one that makes as many as
/// there are nodes releases it, those before it do not, and those after it
/// are dropped.
pub proof fn lemma_prepare_released_once(m: CoordinatorModel, count: nat)
    requires
        coordinator_wf(m),
        m.init_acks == 0,
        !m.prepared,
        m.nodes.len() > 0,
    ensures
        after_init_acks(m, count).init_id == m.init_id,
        after_init_acks(m, count).nodes == m.nodes,
        after_init_acks(m, count).init_acks == (if count <= m.nodes.len() {
            count
        } else {
            m.nodes.len()
        }),
        after_init_acks(m, count).prepared == (count >= m.nodes.len()),
        model_on_init_ack(after_init_acks(m, count), InitAck(m.init_id)).1 == (count + 1
            == m.nodes.len()),
    decreases count,
{
    if count > 0 {
        lemma_prepare_released_once(m, (count - 1) as nat);
    }
}

/// The coordinator after `count` notices of completion reached it.
pub open spec fn after_dones(m: CoordinatorModel, count: nat) -> CoordinatorModel
    decreases count,
{
    if count == 0 {
        m
    } else {
        model_on_done(after_dones(m, (count - 1) as nat)).0
    }
}

/// The barrier of the run is released by the notice of the last node and by
/// no other: the notice that makes as many as there are nodes releases it,
/// those before it do not, and those after it are dropped.
pub proof fn lemma_finished_released_once(m: CoordinatorModel, count: nat)
    requires
        coordinator_wf(m),
        m.dones == 0,
        !m.finished,
        m.nodes.len() > 0,
    ensures
        after_dones(m, count).nodes == m.nodes,
        after_dones(m, count).dones == (if count <= m.nodes.len() {
            count
        } else {
            m.nodes.len()
        }),
        after_dones(m, count).finished == (count >= m.nodes.len()),
        model_on_done(after_dones(m, count)).1 == (count + 1 == m.nodes.len()),
    decreases count,
{
    if count > 0 {
        lemma_finished_released_once(m, (count - 1) as nat);
    }
}

} // verus!
