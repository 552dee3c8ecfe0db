use vstd::prelude::*;

verus! {

/// Where a point of a schedule falls among its checkpoints: between the
/// checkpoints `index` and `index + 1`, with the share
/// `numerator / denominator` of the way from the first to the second behind
/// it.
#[derive(Clone, Copy, Debug, PartialEq, Eq, Structural)]
pub struct Bracket {
    /// The checkpoint at or before the point.
    pub index: usize,
    /// How far past that checkpoint the point lies, in units of
    /// `1 / denominator` of the gap to the next one.
    pub numerator: usize,
    /// The number of epochs of the run.
    pub denominator: usize,
}

/// A schedule can be read at `epoch` of `n_epoch`: there is a pair of
/// checkpoints to read between, and the epoch is not past the end of the run.
pub open spec fn locatable(epoch: nat, n_epoch: nat, checkpoints: nat) -> bool {
    checkpoints >= 2 && n_epoch >= 1 && epoch <= n_epoch
}

/// The bracket of epoch `epoch` of `n_epoch` in a schedule of `checkpoints`
/// equally spaced checkpoints. With progress `epoch / n_epoch`, the point
/// lies at `(checkpoints - 1) * progress`; its whole part is the index, kept
/// at most `checkpoints - 2` so that the upper checkpoint of the pair exists,
/// and the rest is the share.
pub open spec fn spec_locate(epoch: nat, n_epoch: nat, checkpoints: nat) -> Bracket {
    let position = (checkpoints - 1) * epoch;
    let whole = position / (n_epoch as int);
    let index = if whole > checkpoints - 2 {
        checkpoints - 2
    } else {
        whole
    };
    Bracket {
        index: index as usize,
        numerator: (position - index * n_epoch) as usize,
        denominator: n_epoch as usize,
    }
}

/// Finds the pair of checkpoints between which epoch `epoch` of `n_epoch`
/// falls, and how far between them. Nothing is found for a schedule of fewer
/// than two checkpoints, for a run of no epochs, and for an epoch past the
/// end of the run.
pub fn locate(epoch: usize, n_epoch: usize, checkpoints: usize) -> (found: Option<Bracket>)
    ensures
        found is Some <==> locatable(epoch as nat, n_epoch as nat, checkpoints as nat),
        found is Some ==> found->0 == spec_locate(
            epoch as nat,
            n_epoch as nat,
            checkpoints as nat,
        ),
        found is Some ==> {
            &&& found->0.index + 1 < checkpoints
            &&& found->0.numerator <= found->0.denominator == n_epoch
            &&& found->0.index * n_epoch + found->0.numerator == (checkpoints - 1) * epoch
        },
{
    if checkpoints < 2 || n_epoch == 0 || epoch > n_epoch {
        return None;
    }
    let last: u128 = (checkpoints - 1) as u128;
    let total: u128 = n_epoch as u128;
    assert(0 <= last * (epoch as u128) <= last * total <= 0xffff_ffff_ffff_ffff
        * 0xffff_ffff_ffff_ffff) by (nonlinear_arith)
        requires
            epoch as u128 <= total,
            total <= 0xffff_ffff_ffff_ffff,
            last <= 0xffff_ffff_ffff_ffff,
    ;
    let position: u128 = last * (epoch as u128);
    let whole: u128 = position / total;
    let index: u128 = if whole > last - 1 {
        last - 1
    } else {
        whole
    };
    proof {
        lemma_bracket_bounds(position as int, total as int, last as int, index as int);
    }
    let numerator: u128 = position - index * total;
    Some(Bracket { index: index as usize, numerator: numerator as usize, denominator: n_epoch })
}

/// The arithmetic behind a bracket: the rest that is left after the index
/// lies between nothing and a whole gap.
proof fn lemma_bracket_bounds(position: int, total: int, last: int, index: int)
    requires
        total >= 1,
        last >= 1,
        0 <= position <= last * total,
        index == if position / total > last - 1 {
            last - 1
        } else {
            position / total
        },
    ensures
        0 <= index <= last - 1,
        0 <= index * total <= position,
        position - index * total <= total,
{
    let whole = position / total;
    assert(whole * total <= position < (whole + 1) * total && 0 <= whole) by (nonlinear_arith)
        requires
            whole == position / total,
            total >= 1,
            position >= 0,
    ;
    if whole > last - 1 {
        assert(whole == last) by (nonlinear_arith)
            requires
                whole * total <= position,
                position <= last * total,
                whole > last - 1,
                total >= 1,
        ;
        assert((last - 1) * total == last * total - total) by (nonlinear_arith);
        assert(0 <= (last - 1) * total) by (nonlinear_arith)
            requires
                last >= 1,
                total >= 1,
        ;
    } else {
        assert((whole + 1) * total == whole * total + total) by (nonlinear_arith);
        assert(0 <= whole * total) by (nonlinear_arith)
            requires
                whole >= 0,
                total >= 1,
        ;
    }
}

/// At the start of a run the bracket is the first checkpoint itself, with no
/// share of the second.
pub proof fn lemma_start_is_first_checkpoint(n_epoch: nat, checkpoints: nat)
    requires
        locatable(0, n_epoch, checkpoints),
        n_epoch <= usize::MAX,
    ensures
        spec_locate(0, n_epoch, checkpoints).index == 0,
        spec_locate(0, n_epoch, checkpoints).numerator == 0,
{
    assert((checkpoints - 1) * 0 == 0) by (nonlinear_arith);
    assert(0int / (n_epoch as int) == 0) by (nonlinear_arith)
        requires
            n_epoch >= 1,
    ;
    assert(0 * n_epoch == 0) by (nonlinear_arith);
}

/// At the end of a run the bracket is the last pair of checkpoints with the
/// whole share on the last: the lookup stays inside the schedule.
pub proof fn lemma_end_is_last_checkpoint(n_epoch: nat, checkpoints: nat)
    requires
        locatable(n_epoch, n_epoch, checkpoints),
        n_epoch <= usize::MAX,
        checkpoints <= usize::MAX,
    ensures
        spec_locate(n_epoch, n_epoch, checkpoints).index == checkpoints - 2,
        spec_locate(n_epoch, n_epoch, checkpoints).numerator == n_epoch,
{
    let last = checkpoints - 1;
    assert((last * n_epoch) / (n_epoch as int) == last) by (nonlinear_arith)
        requires
            n_epoch >= 1,
            last >= 0,
    ;
    assert(last * n_epoch - (last - 1) * n_epoch == n_epoch) by (nonlinear_arith);
}

/// Half-way between the checkpoints `index` and `index + 1` the share is one
/// half, so that the two are weighed alike.
pub proof fn lemma_midpoint_is_half(epoch: nat, n_epoch: nat, checkpoints: nat, index: nat)
    requires
        locatable(epoch, n_epoch, checkpoints),
        n_epoch <= usize::MAX,
        checkpoints <= usize::MAX,
        index + 1 < checkpoints,
        2 * ((checkpoints - 1) * epoch) == (2 * index + 1) * n_epoch,
    ensures
        spec_locate(epoch, n_epoch, checkpoints).index == index,
        2 * spec_locate(epoch, n_epoch, checkpoints).numerator == spec_locate(
            epoch,
            n_epoch,
            checkpoints,
        ).denominator,
{
    let position = (checkpoints - 1) * epoch;
    let total = n_epoch as int;
    assert(position / total == index && 2 * (position - index * total) == total)
        by (nonlinear_arith)
        requires
            2 * position == (2 * index + 1) * total,
            total >= 1,
            index >= 0,
    ;
    assert(0 <= position - index * n_epoch <= usize::MAX);
}

/// A number given as a fraction of whole numbers.
#[derive(Clone, Copy, Debug, PartialEq, Eq, Structural)]
pub struct Ratio {
    pub numerator: u128,
    pub denominator: u128,
}

/// The value of a schedule at epoch `epoch` of `n_epoch`, where checkpoint
/// `i` stands for `checkpoints[i] / unit`: the two checkpoints of the bracket,
/// each weighed by the share of the gap that lies on the other's side.
pub open spec fn spec_interpolate(checkpoints: Seq<u32>, unit: u32, epoch: nat, n_epoch: nat)
    -> Ratio {
    let bracket = spec_locate(epoch, n_epoch, checkpoints.len());
    let lower = checkpoints[bracket.index as int];
    let upper = checkpoints[bracket.index + 1];
    Ratio {
        numerator: (lower * (n_epoch - bracket.numerator) + upper * bracket.numerator) as u128,
        denominator: (unit * n_epoch) as u128,
    }
}

/// Reads a schedule at epoch `epoch` of `n_epoch` by linear interpolation
/// between the two checkpoints that bracket it. Checkpoint `i` stands for
/// `checkpoints[i] / unit`. Nothing is returned where the epoch cannot be
/// located in the schedule or `unit` is zero.
pub fn interpolate(checkpoints: &Vec<u32>, unit: u32, epoch: usize, n_epoch: usize) -> (value:
    Option<Ratio>)
    ensures
        value is Some <==> unit >= 1 && locatable(
            epoch as nat,
            n_epoch as nat,
            checkpoints.len() as nat,
        ),
        value is Some ==> value->0 == spec_interpolate(
            checkpoints@,
            unit,
            epoch as nat,
            n_epoch as nat,
        ),
        value is Some ==> value->0.denominator == unit * n_epoch > 0,
{
    if unit == 0 {
        return None;
    }
    match locate(epoch, n_epoch, checkpoints.len()) {
        None => None,
        Some(bracket) => {
            let lower: u128 = checkpoints[bracket.index] as u128;
            let upper: u128 = checkpoints[bracket.index + 1] as u128;
            let share: u128 = bracket.numerator as u128;
            let rest: u128 = (n_epoch - bracket.numerator) as u128;
            proof {
                lemma_weighted_bounds(
                    lower as int,
                    upper as int,
                    rest as int,
                    share as int,
                    0xffff_ffff,
                );
                assert(0 < unit * n_epoch <= 0xffff_ffff * 0xffff_ffff_ffff_ffff)
                    by (nonlinear_arith)
                    requires
                        1 <= unit <= 0xffff_ffff,
                        1 <= n_epoch <= 0xffff_ffff_ffff_ffff,
                ;
                assert(0xffff_ffff * (rest + share) <= 0xffff_ffff * 0xffff_ffff_ffff_ffff)
                    by (nonlinear_arith)
                    requires
                        rest + share <= 0xffff_ffff_ffff_ffff,
                ;
            }
            Some(
                Ratio {
                    numerator: lower * rest + upper * share,
                    denominator: (unit as u128) * (n_epoch as u128),
                },
            )
        },
    }
}

/// A weighted sum of two values that are at most `top` is at most `top`
/// times the sum of the weights.
proof fn lemma_weighted_bounds(lower: int, upper: int, rest: int, share: int, top: int)
    requires
        0 <= lower <= top,
        0 <= upper <= top,
        0 <= rest,
        0 <= share,
    ensures
        0 <= lower * rest <= top * rest,
        0 <= upper * share <= top * share,
        lower * rest + upper * share <= top * (rest + share),
{
    assert(0 <= lower * rest <= top * rest) by (nonlinear_arith)
        requires
            0 <= lower <= top,
            0 <= rest,
    ;
    assert(0 <= upper * share <= top * share) by (nonlinear_arith)
        requires
            0 <= upper <= top,
            0 <= share,
    ;
    assert(top * (rest + share) == top * rest + top * share) by (nonlinear_arith);
}

impl Ratio {
    /// The fraction is a number from 0 to 1.
    pub open spec fn within_unit(self) -> bool {
        0 <= self.numerator <= self.denominator && self.denominator > 0
    }

    /// The fraction has the value `numerator / denominator`.
    pub open spec fn equals(self, numerator: int, denominator: int) -> bool {
        self.denominator > 0 && denominator > 0 && self.numerator * denominator == numerator
            * self.denominator
    }
}

/// The interpolated value as numbers without machine limits: the weighted
/// sum of the bracket's checkpoints over `unit * n_epoch`, and between the
/// least and the greatest weight that a checkpoint of at most `unit` can
/// bring.
pub proof fn lemma_interpolate_value(checkpoints: Seq<u32>, unit: u32, epoch: nat, n_epoch: nat)
    requires
        unit >= 1,
        locatable(epoch, n_epoch, checkpoints.len()),
        n_epoch <= usize::MAX,
        checkpoints.len() <= usize::MAX,
    ensures
        ({
            let bracket = spec_locate(epoch, n_epoch, checkpoints.len());
            let value = spec_interpolate(checkpoints, unit, epoch, n_epoch);
            &&& 0 <= bracket.index < checkpoints.len() - 1
            &&& 0 <= bracket.numerator <= n_epoch
            &&& bracket.index * n_epoch + bracket.numerator == (checkpoints.len() - 1) * epoch
            &&& value.numerator == checkpoints[bracket.index as int] * (n_epoch
                - bracket.numerator) + checkpoints[bracket.index + 1] * bracket.numerator
            &&& value.denominator == unit * n_epoch
            &&& value.denominator > 0
            &&& (forall|i: int| 0 <= i < checkpoints.len() ==> checkpoints[i] <= unit)
                ==> value.within_unit()
        }),
{
    let last = checkpoints.len() - 1;
    let position = last * epoch;
    let total = n_epoch as int;
    assert(0 <= position <= last * total) by (nonlinear_arith)
        requires
            position == last * epoch,
            0 <= epoch <= total,
            last >= 1,
    ;
    let whole = position / total;
    let index = if whole > last - 1 {
        last - 1
    } else {
        whole
    };
    lemma_bracket_bounds(position, total, last, index);
    let share = position - index * total;
    let rest = total - share;
    let lower = checkpoints[index] as int;
    let upper = checkpoints[index + 1int] as int;
    lemma_weighted_bounds(lower, upper, rest, share, 0xffff_ffff);
    assert(0xffff_ffff * (rest + share) <= 0xffff_ffff * 0xffff_ffff_ffff_ffff)
        by (nonlinear_arith)
        requires
            rest + share <= 0xffff_ffff_ffff_ffff,
    ;
    assert(0 < unit * n_epoch <= 0xffff_ffff * 0xffff_ffff_ffff_ffff) by (nonlinear_arith)
        requires
            1 <= unit <= 0xffff_ffff,
            1 <= n_epoch <= 0xffff_ffff_ffff_ffff,
    ;
    if forall|i: int| 0 <= i < checkpoints.len() ==> checkpoints[i] <= unit {
        lemma_weighted_bounds(lower, upper, rest, share, unit as int);
    }
}

/// At progress 0 the schedule gives its first checkpoint exactly.
pub proof fn lemma_interpolate_at_start(checkpoints: Seq<u32>, unit: u32, n_epoch: nat)
    requires
        unit >= 1,
        locatable(0, n_epoch, checkpoints.len()),
        n_epoch <= usize::MAX,
        checkpoints.len() <= usize::MAX,
    ensures
        spec_interpolate(checkpoints, unit, 0, n_epoch).equals(
            checkpoints[0] as int,
            unit as int,
        ),
{
    lemma_interpolate_value(checkpoints, unit, 0, n_epoch);
    lemma_start_is_first_checkpoint(n_epoch, checkpoints.len());
    let first = checkpoints[0] as int;
    let second = checkpoints[1] as int;
    assert((first * (n_epoch - 0) + second * 0) * unit == first * (unit * n_epoch))
        by (nonlinear_arith);
}

/// At progress 1 the schedule gives its last checkpoint exactly.
pub proof fn lemma_interpolate_at_end(checkpoints: Seq<u32>, unit: u32, n_epoch: nat)
    requires
        unit >= 1,
        locatable(n_epoch, n_epoch, checkpoints.len()),
        n_epoch <= usize::MAX,
        checkpoints.len() <= usize::MAX,
    ensures
        spec_interpolate(checkpoints, unit, n_epoch, n_epoch).equals(
            checkpoints[checkpoints.len() - 1] as int,
            unit as int,
        ),
{
    lemma_interpolate_value(checkpoints, unit, n_epoch, n_epoch);
    lemma_end_is_last_checkpoint(n_epoch, checkpoints.len());
    let before = checkpoints[checkpoints.len() - 2] as int;
    let last = checkpoints[checkpoints.len() - 1] as int;
    assert((before * (n_epoch - n_epoch) + last * n_epoch) * unit == last * (unit * n_epoch))
        by (nonlinear_arith);
}

/// Half-way between two neighbouring checkpoints the schedule gives their
/// arithmetic mean.
pub proof fn lemma_interpolate_at_midpoint(
    checkpoints: Seq<u32>,
    unit: u32,
    epoch: nat,
    n_epoch: nat,
    index: nat,
)
    requires
        unit >= 1,
        locatable(epoch, n_epoch, checkpoints.len()),
        n_epoch <= usize::MAX,
        checkpoints.len() <= usize::MAX,
        index + 1 < checkpoints.len(),
        2 * ((checkpoints.len() - 1) * epoch) == (2 * index + 1) * n_epoch,
    ensures
        spec_interpolate(checkpoints, unit, epoch, n_epoch).equals(
            checkpoints[index as int] + checkpoints[index + 1int],
            2 * unit,
        ),
{
    lemma_interpolate_value(checkpoints, unit, epoch, n_epoch);
    lemma_midpoint_is_half(epoch, n_epoch, checkpoints.len(), index);
    let lower = checkpoints[index as int] as int;
    let upper = checkpoints[index + 1int] as int;
    let share = spec_locate(epoch, n_epoch, checkpoints.len()).numerator as int;
    assert((lower * (n_epoch - share) + upper * share) * (2 * unit) == (lower + upper) * (unit
        * n_epoch)) by (nonlinear_arith)
        requires
            2 * share == n_epoch,
    ;
}

/// The learning rate, the discount and the exploration rate of one epoch.
#[derive(Clone, Copy, Debug, PartialEq, Eq, Structural)]
pub struct Hyperparameters {
    pub alpha: Ratio,
    pub gamma: Ratio,
    pub epsilon: Ratio,
}

/// What one unit of a checkpoint is worth: checkpoints are thousandths.
pub const CHECKPOINT_UNIT: u32 = 1000;

/// The checkpoints of the learning rate, in thousandths.
pub open spec fn alpha_checkpoints() -> Seq<u32> {
    seq![900, 600, 300, 200, 100]
}

/// The checkpoints of the exploration rate, in thousandths.
pub open spec fn epsilon_checkpoints() -> Seq<u32> {
    seq![500, 300, 100, 10]
}

/// The checkpoints of the discount, in thousandths.
pub open spec fn gamma_checkpoints() -> Seq<u32> {
    seq![900, 950, 990]
}

/// The hyperparameters of epoch `epoch` of `n_epoch`, each read off its own
/// schedule. There are none for a run of no epochs and for an epoch past the
/// end of the run.
pub fn get_hyperparameters(epoch: usize, n_epoch: usize) -> (found: Option<Hyperparameters>)
    ensures
        found is Some <==> n_epoch >= 1 && epoch <= n_epoch,
        found is Some ==> found->0 == (Hyperparameters {
            alpha: spec_interpolate(
                alpha_checkpoints(),
                CHECKPOINT_UNIT,
                epoch as nat,
                n_epoch as nat,
            ),
            gamma: spec_interpolate(
                gamma_checkpoints(),
                CHECKPOINT_UNIT,
                epoch as nat,
                n_epoch as nat,
            ),
            epsilon: spec_interpolate(
                epsilon_checkpoints(),
                CHECKPOINT_UNIT,
                epoch as nat,
                n_epoch as nat,
            ),
        }),
        found is Some ==> found->0.alpha.within_unit() && found->0.gamma.within_unit()
            && found->0.epsilon.within_unit(),
{
    let mut grid_alpha: Vec<u32> = Vec::new();
    grid_alpha.push(900);
    grid_alpha.push(600);
    grid_alpha.push(300);
    grid_alpha.push(200);
    grid_alpha.push(100);
    let mut grid_epsilon: Vec<u32> = Vec::new();
    grid_epsilon.push(500);
    grid_epsilon.push(300);
    grid_epsilon.push(100);
    grid_epsilon.push(10);
    let mut grid_gamma: Vec<u32> = Vec::new();
    grid_gamma.push(900);
    grid_gamma.push(950);
    grid_gamma.push(990);
    assert(grid_alpha@ =~= alpha_checkpoints());
    assert(grid_epsilon@ =~= epsilon_checkpoints());
    assert(grid_gamma@ =~= gamma_checkpoints());
    let alpha = interpolate(&grid_alpha, CHECKPOINT_UNIT, epoch, n_epoch);
    let epsilon = interpolate(&grid_epsilon, CHECKPOINT_UNIT, epoch, n_epoch);
    let gamma = interpolate(&grid_gamma, CHECKPOINT_UNIT, epoch, n_epoch);
    proof {
        if n_epoch >= 1 && epoch <= n_epoch {
            lemma_interpolate_value(grid_alpha@, CHECKPOINT_UNIT, epoch as nat, n_epoch as nat);
            lemma_interpolate_value(grid_epsilon@, CHECKPOINT_UNIT, epoch as nat, n_epoch as nat);
            lemma_interpolate_value(grid_gamma@, CHECKPOINT_UNIT, epoch as nat, n_epoch as nat);
        }
    }
    match (alpha, gamma, epsilon) {
        (Some(alpha), Some(gamma), Some(epsilon)) => Some(Hyperparameters { alpha, gamma, epsilon }),
        _ => None,
    }
}

} // verus!
