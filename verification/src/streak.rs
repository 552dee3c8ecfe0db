use crate::cell::CellState;
use vstd::prelude::*;

verus! {

/// A run of `k` equal player marks occupies the positions `end - k + 1 ..= end`
/// of `line`.
pub open spec fn completes_at(line: Seq<CellState>, k: nat, end: int) -> bool {
    &&& 1 <= k <= end + 1 <= line.len()
    &&& line[end].is_player()
    &&& forall|i: int| end - k < i <= end ==> line[i] == line[end]
}

/// The least position below `n` at which a run of `k` marks is complete.
pub open spec fn first_completion(line: Seq<CellState>, k: nat, n: nat) -> Option<int>
    decreases n,
{
    if n == 0 {
        None
    } else {
        match first_completion(line, k, (n - 1) as nat) {
            Some(end) => Some(end),
            None => if completes_at(line, k, n - 1) {
                Some(n - 1)
            } else {
                None
            },
        }
    }
}

/// The mark whose run of `k` is the first to be completed when `line` is
/// walked from its first cell to its last.
pub open spec fn line_winner(line: Seq<CellState>, k: nat) -> Option<CellState> {
    match first_completion(line, k, line.len()) {
        Some(end) => Some(line[end]),
        None => None,
    }
}

/// `first_completion` finds nothing exactly when no run is complete below `n`.
pub proof fn lemma_no_completion(line: Seq<CellState>, k: nat, n: nat)
    ensures
        first_completion(line, k, n) is None <==> forall|end: int|
            0 <= end < n ==> !completes_at(line, k, end),
    decreases n,
{
    if n > 0 {
        lemma_no_completion(line, k, (n - 1) as nat);
    }
}

/// What `first_completion` finds is a completed run with none before it.
pub proof fn lemma_first_completion(line: Seq<CellState>, k: nat, n: nat)
    requires
        first_completion(line, k, n) is Some,
    ensures
        0 <= first_completion(line, k, n)->0 < n,
        completes_at(line, k, first_completion(line, k, n)->0),
        forall|end: int|
            0 <= end < first_completion(line, k, n)->0 ==> !completes_at(line, k, end),
    decreases n,
{
    if first_completion(line, k, (n - 1) as nat) is Some {
        lemma_first_completion(line, k, (n - 1) as nat);
    } else {
        lemma_no_completion(line, k, (n - 1) as nat);
    }
}

/// Once found, a first completion stays the same however far the walk goes on.
pub proof fn lemma_completion_stable(line: Seq<CellState>, k: nat, n: nat, m: nat)
    requires
        n <= m,
        first_completion(line, k, n) is Some,
    ensures
        first_completion(line, k, m) == first_completion(line, k, n),
    decreases m,
{
    if n < m {
        lemma_completion_stable(line, k, n, (m - 1) as nat);
    }
}

/// A line has a winner exactly when some run of `k` is complete on it, and the
/// winner is then a player.
pub proof fn lemma_line_winner(line: Seq<CellState>, k: nat)
    ensures
        line_winner(line, k) is Some <==> exists|end: int| completes_at(line, k, end),
        line_winner(line, k) is Some ==> line_winner(line, k)->0.is_player(),
{
    lemma_no_completion(line, k, line.len());
    if first_completion(line, k, line.len()) is Some {
        lemma_first_completion(line, k, line.len());
    }
}

} // verus!
