use vstd::prelude::*;

verus! {

/// Iteration cap used when the caller gives none.
pub const DEFAULT_MAX_ITERATIONS: u32 = 100;

/// Why a solve request is turned down before any computation starts.
#[derive(Debug, Clone, Copy, PartialEq, Eq, Structural)]
pub enum InputError {
    /// A rating value is NaN or infinite.
    InvalidRatingValue,
    /// A battle names a player index outside the rating sequence.
    InvalidPlayerIndex,
    /// A battle win count is negative, NaN or infinite.
    InvalidBattleResult,
    /// The iteration cap is zero.
    ZeroMaxIterations,
    /// The convergence threshold is not a finite positive number.
    InvalidEpsilon,
}

/// The text shown to a caller for each refusal.
pub open spec fn message_of(e: InputError) -> Seq<char> {
    match e {
        InputError::InvalidRatingValue => "Invalid rating value"@,
        InputError::InvalidPlayerIndex => "Invalid player index"@,
        InputError::InvalidBattleResult => "Invalid battle result"@,
        InputError::ZeroMaxIterations => "Max iterations must be greater than 0"@,
        InputError::InvalidEpsilon => "Epsilon must be greater than 0"@,
    }
}

impl InputError {
    /// The text shown to a caller for this refusal.
    pub fn message(&self) -> (r: &'static str)
        ensures
            r@ == message_of(*self),
    {
        match self {
            InputError::InvalidRatingValue => "Invalid rating value",
            InputError::InvalidPlayerIndex => "Invalid player index",
            InputError::InvalidBattleResult => "Invalid battle result",
            InputError::ZeroMaxIterations => "Max iterations must be greater than 0",
            InputError::InvalidEpsilon => "Epsilon must be greater than 0",
        }
    }
}

/// What the checks read of one rating.
#[derive(Debug, Clone, Copy, PartialEq, Eq, Structural)]
pub struct RatingEntry {
    /// The rating value is a finite number.
    pub value_finite: bool,
    /// The rating is an anchor and never moves.
    pub fixed: bool,
}

/// What the checks read of one battle record.
#[derive(Debug, Clone, Copy, PartialEq, Eq, Structural)]
pub struct BattleEntry {
    /// Index of the first player.
    pub i: u32,
    /// Index of the second player.
    pub j: u32,
    /// Both win counts are finite and non-negative.
    pub counts_valid: bool,
    /// Both win counts are zero.
    pub counts_zero: bool,
}

/// What an accepted request calls for.
#[derive(Debug, Clone, Copy, PartialEq, Eq, Structural)]
pub enum SolvePlan {
    /// Nothing can move: the ratings come back as given, converged after zero iterations.
    Settled,
    /// Run the Newton iteration with this iteration cap.
    Iterate { max_iterations: u32 },
}

/// The fault of one battle record against `n` players, if it has one.
pub open spec fn battle_fault(b: BattleEntry, n: nat) -> Option<InputError> {
    if b.i >= n || b.j >= n {
        Some(InputError::InvalidPlayerIndex)
    } else if !b.counts_valid {
        Some(InputError::InvalidBattleResult)
    } else {
        None
    }
}

/// The fault of the first faulty record among the first `len` records of `bs`.
pub open spec fn first_battle_fault(bs: Seq<BattleEntry>, n: nat, len: int) -> Option<InputError>
    decreases len,
{
    if len <= 0 {
        None
    } else {
        match first_battle_fault(bs, n, len - 1) {
            Some(e) => Some(e),
            None => battle_fault(bs[len - 1], n),
        }
    }
}

/// Once a prefix holds a fault, every longer prefix reports that same fault.
proof fn lemma_first_fault_kept(bs: Seq<BattleEntry>, n: nat, t: int, len: int)
    requires
        0 <= t <= len,
        first_battle_fault(bs, n, t) is Some,
    ensures
        first_battle_fault(bs, n, len) == first_battle_fault(bs, n, t),
    decreases len - t,
{
    if len > t {
        lemma_first_fault_kept(bs, n, t, len - 1);
    }
}

/// Every rating value is finite.
pub open spec fn all_finite(rs: Seq<RatingEntry>) -> bool {
    forall|k: int| 0 <= k < rs.len() ==> #[trigger] rs[k].value_finite
}

/// Some rating is free to move.
pub open spec fn has_free(rs: Seq<RatingEntry>) -> bool {
    exists|k: int| 0 <= k < rs.len() && !#[trigger] rs[k].fixed
}

/// Some battle record carries a win.
pub open spec fn has_wins(bs: Seq<BattleEntry>) -> bool {
    exists|k: int| 0 <= k < bs.len() && !#[trigger] bs[k].counts_zero
}

/// The verdict on the options: the iteration cap to use, or why they are refused.
pub open spec fn options_verdict(max_iterations: Option<u32>, epsilon_valid: Option<bool>) -> Result<u32, InputError> {
    if max_iterations == Some(0u32) {
        Err(InputError::ZeroMaxIterations)
    } else if epsilon_valid == Some(false) {
        Err(InputError::InvalidEpsilon)
    } else {
        match max_iterations {
            Some(m) => Ok(m),
            None => Ok(DEFAULT_MAX_ITERATIONS),
        }
    }
}

/// The verdict on a whole request: ratings first, then the battles in order,
/// then the iteration cap, then the threshold.
pub open spec fn plan_of(
    rs: Seq<RatingEntry>,
    bs: Seq<BattleEntry>,
    max_iterations: Option<u32>,
    epsilon_valid: Option<bool>,
) -> Result<SolvePlan, InputError> {
    if !all_finite(rs) {
        Err(InputError::InvalidRatingValue)
    } else if first_battle_fault(bs, rs.len(), bs.len() as int) is Some {
        Err(first_battle_fault(bs, rs.len(), bs.len() as int)->0)
    } else {
        match options_verdict(max_iterations, epsilon_valid) {
            Err(e) => Err(e),
            Ok(m) => if has_free(rs) && has_wins(bs) {
                Ok(SolvePlan::Iterate { max_iterations: m })
            } else {
                Ok(SolvePlan::Settled)
            },
        }
    }
}

/// A faulty record anywhere among the first `len` makes the prefix report a fault.
proof fn lemma_fault_found(bs: Seq<BattleEntry>, n: nat, k: int, len: int)
    requires
        0 <= k < len,
        battle_fault(bs[k], n) is Some,
    ensures
        first_battle_fault(bs, n, len) is Some,
{
    assert(first_battle_fault(bs, n, k + 1) is Some);
    lemma_first_fault_kept(bs, n, k + 1, len);
}

/// A prefix without faulty records reports none.
proof fn lemma_no_fault(bs: Seq<BattleEntry>, n: nat, len: int)
    requires
        0 <= len <= bs.len(),
        forall|k: int| 0 <= k < len ==> battle_fault(#[trigger] bs[k], n) is None,
    ensures
        first_battle_fault(bs, n, len) is None,
    decreases len,
{
    if len > 0 {
        lemma_no_fault(bs, n, len - 1);
    }
}

/// A request is refused exactly when some rating value is not finite, some
/// battle names a player out of range or carries an invalid win count, the
/// iteration cap is zero, or the threshold is not finite and positive; a
/// refused request never yields a plan to iterate.
pub proof fn lemma_refused_iff_invalid(
    rs: Seq<RatingEntry>,
    bs: Seq<BattleEntry>,
    max_iterations: Option<u32>,
    epsilon_valid: Option<bool>,
)
    ensures
        plan_of(rs, bs, max_iterations, epsilon_valid) is Err <==> (
            !all_finite(rs)
            || (exists|k: int| 0 <= k < bs.len() && (#[trigger] battle_fault(bs[k], rs.len())) is Some)
            || max_iterations == Some(0u32)
            || epsilon_valid == Some(false)
        ),
        !all_finite(rs) ==> plan_of(rs, bs, max_iterations, epsilon_valid) == Err::<SolvePlan, InputError>(InputError::InvalidRatingValue),
{
    if exists|k: int| 0 <= k < bs.len() && (#[trigger] battle_fault(bs[k], rs.len())) is Some {
        let k = choose|k: int| 0 <= k < bs.len() && (#[trigger] battle_fault(bs[k], rs.len())) is Some;
        lemma_fault_found(bs, rs.len(), k, bs.len() as int);
    } else {
        lemma_no_fault(bs, rs.len(), bs.len() as int);
    }
}

/// When every rating is fixed there is nothing to solve for: an accepted
/// request is settled at once, with no iteration.
pub proof fn lemma_all_fixed_settles(
    rs: Seq<RatingEntry>,
    bs: Seq<BattleEntry>,
    max_iterations: Option<u32>,
    epsilon_valid: Option<bool>,
)
    requires
        forall|k: int| 0 <= k < rs.len() ==> (#[trigger] rs[k]).fixed,
        plan_of(rs, bs, max_iterations, epsilon_valid) is Ok,
    ensures
        plan_of(rs, bs, max_iterations, epsilon_valid) == Ok::<SolvePlan, InputError>(SolvePlan::Settled),
{
}

/// When no battle record carries a win there is no data to move any rating:
/// an accepted request is settled at once, with no iteration.
pub proof fn lemma_no_wins_settles(
    rs: Seq<RatingEntry>,
    bs: Seq<BattleEntry>,
    max_iterations: Option<u32>,
    epsilon_valid: Option<bool>,
)
    requires
        forall|k: int| 0 <= k < bs.len() ==> (#[trigger] bs[k]).counts_zero,
        plan_of(rs, bs, max_iterations, epsilon_valid) is Ok,
    ensures
        plan_of(rs, bs, max_iterations, epsilon_valid) == Ok::<SolvePlan, InputError>(SolvePlan::Settled),
{
}

/// Checks a solve request and decides what it calls for.
///
/// `max_iterations` is the caller's cap, if any; `epsilon_valid` tells
/// whether the caller's threshold, if any, is finite and positive.
pub fn plan_solve(
    ratings: &Vec<RatingEntry>,
    battles: &Vec<BattleEntry>,
    max_iterations: Option<u32>,
    epsilon_valid: Option<bool>,
) -> (r: Result<SolvePlan, InputError>)
    ensures
        r == plan_of(ratings@, battles@, max_iterations, epsilon_valid),
{
    let n = ratings.len();
    let mut free = false;
    let mut k: usize = 0;
    while k < n
        invariant
            n == ratings@.len(),
            k <= n,
            forall|m: int| 0 <= m < k ==> #[trigger] ratings@[m].value_finite,
            free == exists|m: int| 0 <= m < k && !#[trigger] ratings@[m].fixed,
        decreases n - k,
    {
        if !ratings[k].value_finite {
            return Err(InputError::InvalidRatingValue);
        }
        if !ratings[k].fixed {
            free = true;
        }
        k = k + 1;
    }
    let mut wins = false;
    let mut t: usize = 0;
    while t < battles.len()
        invariant
            n == ratings@.len(),
            all_finite(ratings@),
            free == has_free(ratings@),
            t <= battles@.len(),
            first_battle_fault(battles@, n as nat, t as int) is None,
            wins == exists|m: int| 0 <= m < t && !#[trigger] battles@[m].counts_zero,
        decreases battles@.len() - t,
    {
        let b = battles[t];
        if b.i as usize >= n || b.j as usize >= n {
            proof {
                lemma_first_fault_kept(battles@, n as nat, t + 1, battles@.len() as int);
            }
            return Err(InputError::InvalidPlayerIndex);
        }
        if !b.counts_valid {
            proof {
                lemma_first_fault_kept(battles@, n as nat, t + 1, battles@.len() as int);
            }
            return Err(InputError::InvalidBattleResult);
        }
        if !b.counts_zero {
            wins = true;
        }
        t = t + 1;
    }
    let cap = match max_iterations {
        Some(m) => {
            if m == 0 {
                return Err(InputError::ZeroMaxIterations);
            }
            m
        },
        None => DEFAULT_MAX_ITERATIONS,
    };
    if epsilon_valid == Some(false) {
        return Err(InputError::InvalidEpsilon);
    }
    if free && wins {
        Ok(SolvePlan::Iterate { max_iterations: cap })
    } else {
        Ok(SolvePlan::Settled)
    }
}

} // verus!
