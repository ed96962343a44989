//! The launcher: a fork tree that turns one process into `n`, each with a
//! distinct rank in `0..n`, and the `-n <count>` option that sets `n`.
//!
//! Every process keeps the range of ranks its subtree still has to cover: its
//! own rank and the `remaining` ranks from it upwards. While that range holds
//! more than its own rank, the process forks; the child takes the upper half
//! of the range and the parent keeps the lower part, its own rank included.
//! Forking itself is left to the caller, which hands back which side of the
//! fork it is on.

use vstd::arithmetic::power::lemma_pow0;
use vstd::arithmetic::power2::{lemma_pow2, lemma_pow2_unfold, pow2};
use vstd::prelude::*;

verus! {

/// Number of processes when the invocation names none.
pub const DEFAULT_N: usize = 8;

/// What a process learns from the launcher: how many processes there are,
/// and its own rank among them.
#[derive(Debug, Clone, Copy, PartialEq, Eq, Structural)]
pub struct MpiInformation {
    pub n_processes: usize,
    pub rank: usize,
}

impl MpiInformation {
    pub fn new(n_processes: usize, rank: usize) -> (r: MpiInformation)
        ensures
            r.n_processes == n_processes,
            r.rank == rank,
    {
        MpiInformation { n_processes, rank }
    }
}

/// Which of the two processes that leave a fork this one is.
#[derive(Debug, Clone, Copy, PartialEq, Eq, Structural)]
pub enum ForkSide {
    Parent,
    Child,
}

/// What a process of the fork tree does next.
#[derive(Debug, Clone, Copy, PartialEq, Eq, Structural)]
pub enum SpawnStep {
    /// Fork, then go on from `after_fork` with the side this process is on.
    Fork,
    /// The subtree is complete; this process has its rank.
    Finish(MpiInformation),
}

/// A process's place in the fork tree: its rank, and the number of ranks,
/// its own included, that its subtree still has to cover.
#[derive(Debug, Clone, Copy, PartialEq, Eq, Structural)]
pub struct SpawnState {
    pub n_processes: usize,
    pub rank: usize,
    pub remaining: usize,
}

impl SpawnState {
    /// The subtree covers at least its own rank, and no rank past `n_processes`.
    pub open spec fn wf(self) -> bool {
        1 <= self.remaining && self.rank + self.remaining <= self.n_processes
    }

    /// Number of ranks a fork hands to the child.
    pub open spec fn child_share(self) -> int {
        self.remaining as int / 2
    }

    /// The state on `side` of a fork made from `self`.
    pub open spec fn spec_after_fork(self, side: ForkSide) -> SpawnState {
        let keep = self.remaining - self.child_share();
        match side {
            ForkSide::Parent => SpawnState { remaining: keep as usize, ..self },
            ForkSide::Child => SpawnState {
                n_processes: self.n_processes,
                rank: (self.rank + keep) as usize,
                remaining: self.child_share() as usize,
            },
        }
    }

    /// The root of the tree for `n` processes: rank 0, covering all of them.
    pub open spec fn spec_start(n: usize) -> SpawnState {
        SpawnState { n_processes: n, rank: 0, remaining: n }
    }

    pub fn start(n: usize) -> (r: SpawnState)
        requires
            n >= 1,
        ensures
            r == SpawnState::spec_start(n),
            r.wf(),
    {
        SpawnState { n_processes: n, rank: 0, remaining: n }
    }

    /// Fork while the subtree has more than this process to cover.
    pub fn next_step(&self) -> (r: SpawnStep)
        ensures
            self.remaining <= 1 ==> r == SpawnStep::Finish(
                MpiInformation { n_processes: self.n_processes, rank: self.rank },
            ),
            self.remaining > 1 ==> r == SpawnStep::Fork,
    {
        if self.remaining <= 1 {
            SpawnStep::Finish(MpiInformation::new(self.n_processes, self.rank))
        } else {
            SpawnStep::Fork
        }
    }

    /// The state on `side` of the fork that `next_step` asked for.
    pub fn after_fork(&self, side: ForkSide) -> (r: SpawnState)
        requires
            self.wf(),
            self.remaining > 1,
        ensures
            r == self.spec_after_fork(side),
            r.wf(),
    {
        let half = self.remaining / 2;
        let keep = self.remaining - half;
        match side {
            ForkSide::Parent => SpawnState {
                n_processes: self.n_processes,
                rank: self.rank,
                remaining: keep,
            },
            ForkSide::Child => SpawnState {
                n_processes: self.n_processes,
                rank: self.rank + keep,
                remaining: half,
            },
        }
    }
}

/// The ranks that the processes of the subtree of `s` end with: those of the
/// parent's side of each fork, then those of the child's side.
pub open spec fn spawned_ranks(s: SpawnState) -> Seq<int>
    decreases s.remaining,
{
    if s.remaining <= 1 {
        seq![s.rank as int]
    } else {
        spawned_ranks(s.spec_after_fork(ForkSide::Parent)) + spawned_ranks(
            s.spec_after_fork(ForkSide::Child),
        )
    }
}

/// The number of forks on the longest path from `s` down its subtree.
pub open spec fn fork_depth(s: SpawnState) -> nat
    decreases s.remaining,
{
    if s.remaining <= 1 {
        0
    } else {
        let p = fork_depth(s.spec_after_fork(ForkSide::Parent));
        let c = fork_depth(s.spec_after_fork(ForkSide::Child));
        1 + if p >= c {
            p
        } else {
            c
        }
    }
}

proof fn lemma_subtree_ranks(s: SpawnState)
    requires
        s.wf(),
    ensures
        spawned_ranks(s) =~= Seq::new(s.remaining as nat, |i: int| s.rank + i),
    decreases s.remaining,
{
    if s.remaining > 1 {
        let p = s.spec_after_fork(ForkSide::Parent);
        let c = s.spec_after_fork(ForkSide::Child);
        lemma_subtree_ranks(p);
        lemma_subtree_ranks(c);
    }
}

/// Launching `n` processes gives exactly `n` of them, whose ranks are
/// `0, 1, ..., n - 1`, each once.
pub proof fn lemma_every_rank_once(n: usize)
    requires
        n >= 1,
    ensures
        spawned_ranks(SpawnState::spec_start(n)) =~= Seq::new(n as nat, |i: int| i),
        spawned_ranks(SpawnState::spec_start(n)).len() == n,
        spawned_ranks(SpawnState::spec_start(n)).no_duplicates(),
        forall|r: int| 0 <= r < n <==> spawned_ranks(SpawnState::spec_start(n)).contains(r),
{
    let s = SpawnState::spec_start(n);
    lemma_subtree_ranks(s);
    let ranks = spawned_ranks(s);
    assert forall|r: int| 0 <= r < n implies ranks.contains(r) by {
        assert(ranks[r] == r);
    }
}

/// A subtree that covers at most `2^k` ranks is at most `k` forks deep, so
/// launching `n` processes takes a tree of logarithmic depth.
pub proof fn lemma_fork_depth(s: SpawnState, k: nat)
    requires
        s.wf(),
        s.remaining <= pow2(k),
    ensures
        fork_depth(s) <= k,
    decreases k,
{
    if s.remaining > 1 {
        if k == 0 {
            lemma_pow2(0);
            lemma_pow0(2);
            assert(false);
        } else {
            lemma_pow2_unfold(k);
            lemma_fork_depth(s.spec_after_fork(ForkSide::Parent), (k - 1) as nat);
            lemma_fork_depth(s.spec_after_fork(ForkSide::Child), (k - 1) as nat);
        }
    }
}

/// Why the launcher cannot go on.
#[derive(Debug, Clone, Copy, PartialEq, Eq, Structural)]
pub enum LaunchError {
    /// `-n` is the last argument.
    MissingCount,
    /// The argument after `-n` is not a number of processes.
    InvalidCount,
    /// The number after `-n` is zero.
    NoProcesses,
}

/// The option that sets the number of processes.
pub open spec fn is_count_flag(a: Seq<char>) -> bool {
    a == seq!['-', 'n']
}

/// Position of the first `-n` among `args`, or `args.len()` if none is there.
pub open spec fn count_flag_index(args: Seq<Seq<char>>) -> int
    decreases args.len(),
{
    if args.len() == 0 {
        0
    } else if is_count_flag(args[0]) {
        0
    } else {
        1 + count_flag_index(args.drop_first())
    }
}

/// A nonempty run of ASCII digits.
pub open spec fn is_digits(s: Seq<char>) -> bool {
    s.len() > 0 && forall|i: int| 0 <= i < s.len() ==> '0' <= #[trigger] s[i] <= '9'
}

/// The value of a run of decimal digits.
pub open spec fn digits_value(s: Seq<char>) -> nat
    decreases s.len(),
{
    if s.len() == 0 {
        0
    } else {
        digits_value(s.drop_last()) * 10 + (s.last() as nat - '0' as nat) as nat
    }
}

/// The digits of an unsigned number written with an optional leading `+`.
pub open spec fn unsigned_digits(s: Seq<char>) -> Seq<char> {
    if s.len() > 0 && s[0] == '+' {
        s.drop_first()
    } else {
        s
    }
}

/// `s` is a `usize` in decimal, with an optional leading `+`.
pub open spec fn is_usize_text(s: Seq<char>) -> bool {
    is_digits(unsigned_digits(s)) && digits_value(unsigned_digits(s)) <= usize::MAX
}

/// Relies on `str::parse::<usize>`: it accepts exactly an optional `+`
/// followed by one or more ASCII digits whose value fits in `usize`, and
/// returns that value.
#[verifier::external_body]
fn parse_usize(s: &str) -> (r: Option<usize>)
    ensures
        r is Some <==> is_usize_text(s@),
        r matches Some(v) ==> v == digits_value(unsigned_digits(s@)),
{
    s.parse::<usize>().ok()
}

/// The number of processes that `args` asks for: the number after the first
/// `-n`, or `DEFAULT_N` where there is no `-n`.
pub open spec fn process_count(args: Seq<Seq<char>>) -> Result<usize, LaunchError> {
    let i = count_flag_index(args);
    if i >= args.len() {
        Ok(DEFAULT_N)
    } else if i + 1 >= args.len() {
        Err(LaunchError::MissingCount)
    } else if !is_usize_text(args[i + 1]) {
        Err(LaunchError::InvalidCount)
    } else if digits_value(unsigned_digits(args[i + 1])) == 0 {
        Err(LaunchError::NoProcesses)
    } else {
        Ok(digits_value(unsigned_digits(args[i + 1])) as usize)
    }
}

/// The text of each argument.
pub open spec fn arg_texts(args: Seq<String>) -> Seq<Seq<char>> {
    args.map_values(|a: String| a@)
}

proof fn lemma_count_flag_index(args: Seq<Seq<char>>, i: int)
    requires
        0 <= i <= args.len(),
        forall|j: int| 0 <= j < i ==> !is_count_flag(#[trigger] args[j]),
        i == args.len() || is_count_flag(args[i]),
    ensures
        count_flag_index(args) == i,
    decreases i,
{
    if i > 0 {
        let rest = args.drop_first();
        assert forall|j: int| 0 <= j < i - 1 implies !is_count_flag(#[trigger] rest[j]) by {
            assert(rest[j] == args[j + 1]);
        }
        if i < args.len() {
            assert(rest[i - 1] == args[i]);
        }
        lemma_count_flag_index(rest, i - 1);
    }
}

/// Reads the number of processes from the invocation's arguments.
pub fn parse_process_count(args: &Vec<String>) -> (r: Result<usize, LaunchError>)
    ensures
        r == process_count(arg_texts(args@)),
{
    let ghost texts = arg_texts(args@);
    let flag = "-n".to_owned();
    proof {
        reveal_strlit("-n");
    }
    let mut i: usize = 0;
    while i < args.len()
        invariant
            i <= args.len(),
            texts == arg_texts(args@),
            flag@ == seq!['-', 'n'],
            forall|j: int| 0 <= j < i ==> !is_count_flag(#[trigger] texts[j]),
        ensures
            i <= args.len(),
            forall|j: int| 0 <= j < i ==> !is_count_flag(#[trigger] texts[j]),
            i == args.len() || is_count_flag(texts[i as int]),
        decreases args.len() - i,
    {
        if args[i] == flag {
            break;
        }
        i = i + 1;
    }
    proof {
        lemma_count_flag_index(texts, i as int);
    }
    if i >= args.len() {
        return Ok(DEFAULT_N);
    }
    if i + 1 >= args.len() {
        return Err(LaunchError::MissingCount);
    }
    match parse_usize(args[i + 1].as_str()) {
        None => Err(LaunchError::InvalidCount),
        Some(0) => Err(LaunchError::NoProcesses),
        Some(n) => Ok(n),
    }
}

} // verus!
