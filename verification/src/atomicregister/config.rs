//! The benchmark's configuration as it travels between the runner, the
//! master and the clients, and the master's part in an iteration.

use crate::partitioning_actor::{CoordinatorModel, PartitioningActor};
use vstd::prelude::*;
use vstd::string::*;

verus! {

/// Name of the benchmark.
pub const LABEL: &'static str = "AtomicRegister";

/// Why the benchmark refused what it was given.
#[derive(Clone, Debug, PartialEq, Eq)]
pub enum BenchmarkError {
    /// A message or a string does not say what it should.
    InvalidMessage(String),
    /// The test cannot be run as it was set up.
    InvalidTest(String),
}

impl BenchmarkError {
    /// The text carried by the error.
    pub open spec fn spec_text(self) -> Seq<char> {
        match self {
            BenchmarkError::InvalidMessage(s) => s@,
            BenchmarkError::InvalidTest(s) => s@,
        }
    }

    /// The text carried by the error.
    pub fn text(&self) -> (t: &String)
        ensures
            t@ == self.spec_text(),
    {
        match self {
            BenchmarkError::InvalidMessage(s) => s,
            BenchmarkError::InvalidTest(s) => s,
        }
    }
}

/// Number of commas in `s`.
pub open spec fn count_commas(s: Seq<char>) -> nat
    decreases s.len(),
{
    if s.len() == 0 {
        0
    } else {
        count_commas(s.drop_last()) + if s.last() == ',' {
            1nat
        } else {
            0nat
        }
    }
}

/// `at` is the index of the first comma of `s`.
pub open spec fn is_first_comma(s: Seq<char>, at: int) -> bool {
    &&& 0 <= at < s.len()
    &&& s[at] == ','
    &&& forall|j: int| 0 <= j < at ==> s[j] != ','
}

/// The two fields of a client configuration: what stands before and what
/// stands behind the comma of `s`, if `s` has exactly one comma.
pub open spec fn client_conf_fields(s: Seq<char>) -> Option<(Seq<char>, Seq<char>)> {
    if count_commas(s) == 1 {
        let at = choose|at: int| is_first_comma(s, at);
        Some((s.subrange(0, at), s.subrange(at + 1, s.len() as int)))
    } else {
        None
    }
}

/// The text of a client configuration with the fields `read` and `write`.
pub open spec fn client_conf_text(read: Seq<char>, write: Seq<char>) -> Seq<char> {
    read + seq![','] + write
}

/// The text of the error for a string that is no client configuration.
pub open spec fn no_client_conf_text(s: Seq<char>) -> Seq<char> {
    "String '"@ + s + "' does not represent a client conf!"@
}

/// A string without a comma before index `at` and with one at `at` has its
/// first comma there, and nowhere else.
pub proof fn lemma_first_comma_unique(s: Seq<char>, at: int, other: int)
    requires
        is_first_comma(s, at),
        is_first_comma(s, other),
    ensures
        at == other,
{
    if at < other {
        assert(s[at] != ',');
    } else if other < at {
        assert(s[other] != ',');
    }
}

/// The commas of a string are those of its two parts.
pub proof fn lemma_count_commas_concat(a: Seq<char>, b: Seq<char>)
    ensures
        count_commas(a + b) == count_commas(a) + count_commas(b),
    decreases b.len(),
{
    if b.len() == 0 {
        assert(a + b =~= a);
    } else {
        lemma_count_commas_concat(a, b.drop_last());
        assert((a + b).drop_last() =~= a + b.drop_last());
        assert((a + b).last() == b.last());
    }
}

/// A string has no comma exactly if none of its characters is one.
pub proof fn lemma_no_commas(s: Seq<char>)
    ensures
        count_commas(s) == 0 <==> forall|j: int| 0 <= j < s.len() ==> s[j] != ',',
    decreases s.len(),
{
    if s.len() > 0 {
        lemma_no_commas(s.drop_last());
        if count_commas(s) == 0 {
            assert forall|j: int| 0 <= j < s.len() implies s[j] != ',' by {
                if j < s.len() - 1 {
                    assert(s.drop_last()[j] == s[j]);
                }
            }
        } else if forall|j: int| 0 <= j < s.len() ==> s[j] != ',' {
            assert forall|j: int| 0 <= j < s.drop_last().len() implies s.drop_last()[j] != ',' by {
                assert(s.drop_last()[j] == s[j]);
            }
            assert(s.last() == s[s.len() - 1]);
        }
    }
}

/// Writing a configuration out and reading it back gives its fields, as long
/// as no field holds a comma.
pub proof fn lemma_client_conf_round_trip(read: Seq<char>, write: Seq<char>)
    requires
        count_commas(read) == 0,
        count_commas(write) == 0,
    ensures
        client_conf_fields(client_conf_text(read, write)) == Some((read, write)),
{
    let s = client_conf_text(read, write);
    let comma = seq![','];
    lemma_count_commas_concat(read, comma);
    lemma_count_commas_concat(read + comma, write);
    assert(comma.drop_last() =~= Seq::<char>::empty());
    assert(count_commas(comma) == 1) by {
        reveal_with_fuel(count_commas, 2);
    }
    lemma_no_commas(read);
    let at = read.len() as int;
    assert(s[at] == ',');
    assert forall|j: int| 0 <= j < at implies s[j] != ',' by {
        assert(s[j] == read[j]);
    }
    assert(is_first_comma(s, at));
    let chosen = choose|at: int| is_first_comma(s, at);
    lemma_first_comma_unique(s, at, chosen);
    assert(s.subrange(0, at) =~= read);
    assert(s.subrange(at + 1, s.len() as int) =~= write);
}

/// Whether `res` is what reading the client configuration `s` gives: its two
/// fields, or the error that says that `s` is none.
pub open spec fn conf_read(s: Seq<char>, res: Result<(String, String), BenchmarkError>) -> bool {
    match client_conf_fields(s) {
        Some((read, write)) => res is Ok && res->Ok_0.0@ == read && res->Ok_0.1@ == write,
        None => res matches Err(BenchmarkError::InvalidMessage(text)) && text@
            == no_client_conf_text(s),
    }
}

/// Splits a client configuration, which is written `read,write`, into its
/// two fields. A string with no comma or with more than one is no client
/// configuration.
pub fn split_client_conf(s: &str) -> (res: Result<(String, String), BenchmarkError>)
    ensures
        conf_read(s@, res),
{
    let len: usize = s.unicode_len();
    let mut commas: usize = 0;
    let mut at: usize = 0;
    let mut i: usize = 0;
    while i < len
        invariant
            len == s@.len(),
            i <= len,
            commas <= i,
            commas == count_commas(s@.subrange(0, i as int)),
            commas == 0 ==> forall|j: int| 0 <= j < i ==> s@[j] != ',',
            commas > 0 ==> at < i && is_first_comma(s@, at as int),
        decreases len - i,
    {
        let c: char = s.get_char(i);
        proof {
            let upto = s@.subrange(0, i + 1);
            assert(upto.drop_last() =~= s@.subrange(0, i as int));
            assert(upto.last() == s@[i as int]);
        }
        if c == ',' {
            if commas == 0 {
                at = i;
            }
            commas = commas + 1;
        }
        i = i + 1;
    }
    assert(s@.subrange(0, len as int) =~= s@);
    if commas == 1 {
        proof {
            let chosen = choose|at: int| is_first_comma(s@, at);
            lemma_first_comma_unique(s@, at as int, chosen);
        }
        let read: String = s.substring_char(0, at).to_owned();
        let write: String = s.substring_char(at + 1, len).to_owned();
        Ok((read, write))
    } else {
        let text: String = String::from_str("String '").concat(s).concat(
            "' does not represent a client conf!",
        );
        Err(BenchmarkError::InvalidMessage(text))
    }
}

/// Writes a client configuration out: the two fields with a comma between
/// them.
pub fn join_client_conf(read_workload: &str, write_workload: &str) -> (text: String)
    ensures
        text@ == client_conf_text(read_workload@, write_workload@),
{
    proof {
        reveal_strlit(",");
        assert(","@ =~= seq![',']);
    }
    String::from_str(read_workload).concat(",").concat(write_workload)
}

/// What the master knows between the calls of the runner.
pub struct MasterModel {
    /// Number of nodes of an iteration, once set up.
    pub partition_size: Option<u32>,
    /// Number of keys of an iteration, once set up.
    pub num_keys: Option<u64>,
    /// The identifier of the next iteration.
    pub init_id: u32,
}

/// The master of the benchmark: it keeps the configuration and numbers the
/// iterations.
pub struct AtomicRegisterMaster {
    partition_size: Option<u32>,
    num_keys: Option<u64>,
    init_id: u32,
}

impl View for AtomicRegisterMaster {
    type V = MasterModel;

    closed spec fn view(&self) -> MasterModel {
        MasterModel {
            partition_size: self.partition_size,
            num_keys: self.num_keys,
            init_id: self.init_id,
        }
    }
}

/// The nodes of an iteration: the master's own node first, then the first
/// `partition_size - 1` clients.
pub open spec fn iteration_nodes(self_path: String, clients: Seq<String>, partition_size: u32)
    -> Seq<String> {
    seq![self_path] + clients.subrange(0, partition_size - 1)
}

/// Whether an iteration can be prepared in state `m` with `clients` clients:
/// the master was set up, there are enough clients to fill the partition,
/// and identifiers are left.
pub open spec fn can_prepare(m: MasterModel, clients: nat) -> bool {
    &&& m.partition_size is Some
    &&& m.num_keys is Some
    &&& m.partition_size->Some_0 >= 1
    &&& clients >= m.partition_size->Some_0 - 1
    &&& m.init_id < u32::MAX
}

impl AtomicRegisterMaster {
    /// A master that was not set up yet.
    pub open spec fn spec_new() -> MasterModel {
        MasterModel { partition_size: None, num_keys: None, init_id: 0 }
    }

    /// A master that was not set up yet. Its first iteration is number 0.
    pub fn new() -> (master: AtomicRegisterMaster)
        ensures
            master@ == Self::spec_new(),
    {
        AtomicRegisterMaster { partition_size: None, num_keys: None, init_id: 0 }
    }

    /// Takes in the configuration of a test. A partition needs at least one
    /// node; a configuration without any is refused and nothing is kept.
    pub fn setup(&mut self, partition_size: u32, number_of_keys: u64) -> (res: Result<
        (),
        BenchmarkError,
    >)
        ensures
            partition_size >= 1 ==> res is Ok && final(self)@ == (MasterModel {
                partition_size: Some(partition_size),
                num_keys: Some(number_of_keys),
                init_id: old(self)@.init_id,
            }),
            partition_size == 0 ==> res is Err && res->Err_0 is InvalidTest && final(self)@ == old(self)@,
    {
        if partition_size == 0 {
            return Err(
                BenchmarkError::InvalidTest(String::from_str("A partition needs at least one node.")),
            );
        }
        self.partition_size = Some(partition_size);
        self.num_keys = Some(number_of_keys);
        Ok(())
    }

    /// Prepares an iteration: the coordinator of the iteration is made, over
    /// the master's own node at `self_path` and the first
    /// `partition_size - 1` of `clients`, and the next iteration gets the
    /// next identifier.
    ///
    /// Refused, with nothing changed, before `setup`, with fewer clients
    /// than the partition needs, and when the identifiers are used up.
    pub fn prepare_iteration(&mut self, self_path: String, clients: &Vec<String>) -> (res: Result<
        PartitioningActor,
        BenchmarkError,
    >)
        ensures
            can_prepare(old(self)@, clients@.len()) ==> {
                &&& res is Ok
                &&& res->Ok_0.wf()
                &&& res->Ok_0@ == (CoordinatorModel {
                    init_id: old(self)@.init_id,
                    nodes: iteration_nodes(
                        self_path,
                        clients@,
                        old(self)@.partition_size->Some_0,
                    ),
                    num_keys: old(self)@.num_keys->Some_0,
                    init_acks: 0,
                    dones: 0,
                    prepared: false,
                    finished: false,
                })
                &&& final(self)@ == (MasterModel {
                    init_id: (old(self)@.init_id + 1) as u32,
                    ..old(self)@
                })
            },
            !can_prepare(old(self)@, clients@.len()) ==> res is Err && res->Err_0 is InvalidTest
                && final(self)@ == old(self)@,
    {
        let partition_size: u32 = match self.partition_size {
            Some(size) => size,
            None => {
                return Err(BenchmarkError::InvalidTest(String::from_str("The master is not set up.")));
            },
        };
        let num_keys: u64 = match self.num_keys {
            Some(keys) => keys,
            None => {
                return Err(BenchmarkError::InvalidTest(String::from_str("The master is not set up.")));
            },
        };
        if partition_size == 0 || clients.len() < (partition_size - 1) as usize {
            return Err(
                BenchmarkError::InvalidTest(String::from_str("Too few clients for the partition.")),
            );
        }
        if self.init_id == u32::MAX {
            return Err(
                BenchmarkError::InvalidTest(String::from_str("No iteration identifier is left.")),
            );
        }
        let mut nodes: Vec<String> = Vec::new();
        nodes.push(self_path);
        let mut i: usize = 0;
        while i < (partition_size - 1) as usize
            invariant
                partition_size >= 1,
                i <= partition_size - 1 <= clients@.len(),
                nodes@ == seq![self_path] + clients@.subrange(0, i as int),
            decreases partition_size - 1 - i,
        {
            nodes.push(clients[i].clone());
            assert(nodes@ =~= seq![self_path] + clients@.subrange(0, i + 1));
            i = i + 1;
        }
        let coordinator = PartitioningActor::with(self.init_id, nodes, num_keys);
        self.init_id = self.init_id + 1;
        Ok(coordinator)
    }

    /// Ends an iteration. After the last one the configuration is dropped;
    /// the numbering of the iterations goes on.
    pub fn cleanup_iteration(&mut self, last_iteration: bool)
        ensures
            last_iteration ==> final(self)@ == (MasterModel {
                partition_size: None,
                num_keys: None,
                init_id: old(self)@.init_id,
            }),
            !last_iteration ==> final(self)@ == old(self)@,
    {
        if last_iteration {
            self.num_keys = None;
            self.partition_size = None;
        }
    }

    /// The identifier of the next iteration.
    pub fn init_id(&self) -> (id: u32)
        ensures
            id == self@.init_id,
    {
        self.init_id
    }
}

} // verus!
