//! Node configuration: constructed once at node creation, never
//! mutated afterwards.

use vstd::prelude::*;

verus! {

/// Tick counts and identity handed to the consensus core.
#[derive(Clone, Copy, PartialEq, Eq, Structural, Debug)]
pub struct RaftConfig {
    pub id: u64,
    pub election_tick: u64,
    pub heartbeat_tick: u64,
    /// Suppress persisting pure heartbeat entries.
    pub omit_heartbeat_log: bool,
}

impl Default for RaftConfig {
    fn default() -> (r: RaftConfig)
        ensures
            r == (RaftConfig { id: 0, election_tick: 10, heartbeat_tick: 3, omit_heartbeat_log: false }),
    {
        RaftConfig { id: 0, election_tick: 10, heartbeat_tick: 3, omit_heartbeat_log: false }
    }
}

/// Process-wide node configuration, read-only after start.
pub struct Config {
    pub log_dir: String,
    pub save_compacted_logs: bool,
    pub compacted_log_dir: String,
    pub compacted_log_size_threshold: u64,
    pub raft_config: RaftConfig,
}

impl Config {
    pub fn duplicate(&self) -> (r: Config)
        ensures
            r.log_dir@ == self.log_dir@,
            r.save_compacted_logs == self.save_compacted_logs,
            r.compacted_log_dir@ == self.compacted_log_dir@,
            r.compacted_log_size_threshold == self.compacted_log_size_threshold,
            r.raft_config == self.raft_config,
    {
        Config {
            log_dir: self.log_dir.clone(),
            save_compacted_logs: self.save_compacted_logs,
            compacted_log_dir: self.compacted_log_dir.clone(),
            compacted_log_size_threshold: self.compacted_log_size_threshold,
            raft_config: self.raft_config,
        }
    }
}

/// The decimal digit character for `d`.
pub open spec fn spec_digit(d: int) -> char {
    if d == 0 {
        '0'
    } else if d == 1 {
        '1'
    } else if d == 2 {
        '2'
    } else if d == 3 {
        '3'
    } else if d == 4 {
        '4'
    } else if d == 5 {
        '5'
    } else if d == 6 {
        '6'
    } else if d == 7 {
        '7'
    } else if d == 8 {
        '8'
    } else {
        '9'
    }
}

/// The decimal numeral of `n`, most significant digit first.
pub open spec fn spec_decimal(n: int) -> Seq<char>
    decreases n,
{
    if n < 10 {
        seq![spec_digit(n)]
    } else {
        spec_decimal(n / 10).push(spec_digit(n % 10))
    }
}

/// The single-character string for the digit `d`.
fn digit_str(d: u64) -> (r: &'static str)
    requires
        d < 10,
    ensures
        r@ =~= seq![spec_digit(d as int)],
{
    proof {
        reveal_strlit("0");
        reveal_strlit("1");
        reveal_strlit("2");
        reveal_strlit("3");
        reveal_strlit("4");
        reveal_strlit("5");
        reveal_strlit("6");
        reveal_strlit("7");
        reveal_strlit("8");
        reveal_strlit("9");
    }
    if d == 0 {
        "0"
    } else if d == 1 {
        "1"
    } else if d == 2 {
        "2"
    } else if d == 3 {
        "3"
    } else if d == 4 {
        "4"
    } else if d == 5 {
        "5"
    } else if d == 6 {
        "6"
    } else if d == 7 {
        "7"
    } else if d == 8 {
        "8"
    } else {
        "9"
    }
}

/// Writes `n` in decimal.
pub fn u64_to_decimal(n: u64) -> (s: String)
    ensures
        s@ == spec_decimal(n as int),
    decreases n,
{
    if n < 10 {
        let s = String::from_str(digit_str(n));
        proof {
            assert(s@ =~= spec_decimal(n as int));
        }
        s
    } else {
        let mut s = u64_to_decimal(n / 10);
        s.append(digit_str(n % 10));
        proof {
            assert(s@ =~= spec_decimal((n / 10) as int).push(spec_digit((n % 10) as int)));
        }
        s
    }
}

/// The per-node storage directory under `prefix`.
pub open spec fn spec_storage_path(prefix: Seq<char>, node_id: u64) -> Seq<char> {
    prefix + seq!['/'] + spec_decimal(node_id as int)
}

/// Builds the storage path `prefix/<node_id>`.
pub fn get_storage_path(prefix: &str, node_id: u64) -> (r: String)
    ensures
        r@ == spec_storage_path(prefix@, node_id),
{
    let mut s = prefix.to_owned();
    s.append("/");
    let d = u64_to_decimal(node_id);
    s.append(d.as_str());
    proof {
        reveal_strlit("/");
        assert(s@ =~= spec_storage_path(prefix@, node_id));
    }
    s
}

/// The standard node configuration: election timeout of 10 ticks,
/// heartbeats every 3 ticks, heartbeat entries left out of the log,
/// per-node storage directory under `./logs`, compacted logs archived
/// in place, and a compaction threshold of one gibibyte.
pub fn build_config(node_id: u64) -> (r: Config)
    ensures
        r.raft_config == (RaftConfig {
            id: node_id,
            election_tick: 10,
            heartbeat_tick: 3,
            omit_heartbeat_log: true,
        }),
        r.log_dir@ == spec_storage_path("./logs"@, node_id),
        r.compacted_log_dir@ == spec_storage_path("./logs"@, node_id),
        r.save_compacted_logs,
        r.compacted_log_size_threshold == 1024 * 1024 * 1024,
{
    let raft_config = RaftConfig {
        id: node_id,
        election_tick: 10,
        heartbeat_tick: 3,
        omit_heartbeat_log: true,
    };
    let storage_path = get_storage_path("./logs", node_id);
    Config {
        log_dir: storage_path.clone(),
        save_compacted_logs: true,
        compacted_log_dir: storage_path,
        compacted_log_size_threshold: 1024 * 1024 * 1024,
        raft_config,
    }
}

} // verus!
