use crate::environment::Reward;
use vstd::prelude::*;

verus! {

/// How the episodes of one epoch ended.
#[derive(Clone, Copy, Debug, PartialEq, Eq, Structural)]
pub struct EpochReport {
    /// The epoch, counted from zero.
    pub epoch: usize,
    /// The number of episodes played.
    pub games: usize,
    /// The episodes that the learning player won.
    pub wins: usize,
    /// The episodes that filled the board without a winner.
    pub draws: usize,
    /// The episodes that the learning player lost.
    pub losses: usize,
}

/// What the training loop does after a step.
#[derive(Clone, Copy, Debug, PartialEq, Eq, Structural)]
pub enum Directive {
    /// The episode goes on: take the next step.
    Continue,
    /// The episode is over: start another one in the same epoch.
    NextEpisode,
    /// The episode is over and the epoch with it: report, then move on to the
    /// next epoch, if one is left.
    EpochDone(EpochReport),
    /// The run was over before this step; nothing was counted.
    Finished,
}

/// The mathematical content of a trainer's progress.
pub struct TrainerView {
    /// The number of episodes in an epoch.
    pub n_games: nat,
    /// The number of epochs in the run.
    pub n_epoch: nat,
    /// The epochs that are complete.
    pub epoch: nat,
    /// The episodes of the running epoch that are complete.
    pub game: nat,
    /// The wins among them.
    pub wins: nat,
    /// The draws among them.
    pub draws: nat,
}

impl TrainerView {
    /// A run at its start.
    pub open spec fn initial(n_games: nat, n_epoch: nat) -> TrainerView {
        TrainerView { n_games, n_epoch, epoch: 0, game: 0, wins: 0, draws: 0 }
    }

    /// No episode is left to play.
    pub open spec fn finished(self) -> bool {
        self.epoch >= self.n_epoch || self.n_games == 0
    }

    /// The wins of the running epoch once a step has paid `reward`.
    pub open spec fn wins_with(self, reward: int) -> nat {
        if reward == Reward::WIN {
            self.wins + 1
        } else {
            self.wins
        }
    }

    /// The draws of the running epoch once a step has paid `reward`.
    pub open spec fn draws_with(self, reward: int) -> nat {
        if reward == Reward::DRAW {
            self.draws + 1
        } else {
            self.draws
        }
    }

    /// The progress after a step that paid `reward`. A reward of zero changes
    /// nothing, and neither does any reward once the run is over. Any other
    /// reward ends an episode, and the last episode of an epoch ends the
    /// epoch and clears the counts.
    pub open spec fn record(self, reward: int) -> TrainerView {
        if self.finished() || reward == Reward::INTERMEDIATE {
            self
        } else if self.game + 1 < self.n_games {
            TrainerView {
                game: self.game + 1,
                wins: self.wins_with(reward),
                draws: self.draws_with(reward),
                ..self
            }
        } else {
            TrainerView { epoch: self.epoch + 1, game: 0, wins: 0, draws: 0, ..self }
        }
    }

    /// What the loop is told after a step that paid `reward`.
    pub open spec fn directive(self, reward: int) -> Directive {
        if self.finished() {
            Directive::Finished
        } else if reward == Reward::INTERMEDIATE {
            Directive::Continue
        } else if self.game + 1 < self.n_games {
            Directive::NextEpisode
        } else {
            Directive::EpochDone(
                EpochReport {
                    epoch: self.epoch as usize,
                    games: self.n_games as usize,
                    wins: self.wins_with(reward) as usize,
                    draws: self.draws_with(reward) as usize,
                    losses: (self.n_games - self.wins_with(reward) - self.draws_with(
                        reward,
                    )) as usize,
                },
            )
        }
    }
}

/// The bookkeeping of a training run: which epoch and episode is being
/// played, and how the episodes of the running epoch have ended.
#[derive(Debug)]
pub struct Trainer {
    n_games: usize,
    n_epoch: usize,
    epoch: usize,
    game: usize,
    wins: usize,
    draws: usize,
}

impl View for Trainer {
    type V = TrainerView;

    closed spec fn view(&self) -> TrainerView {
        TrainerView {
            n_games: self.n_games as nat,
            n_epoch: self.n_epoch as nat,
            epoch: self.epoch as nat,
            game: self.game as nat,
            wins: self.wins as nat,
            draws: self.draws as nat,
        }
    }
}

impl Trainer {
    /// The counts stay within the run: no more epochs than the run has, fewer
    /// complete episodes than an epoch has, and no more wins and draws than
    /// episodes.
    #[verifier::type_invariant]
    closed spec fn inv(&self) -> bool {
        &&& self.epoch <= self.n_epoch
        &&& self.n_games == 0 || self.game < self.n_games
        &&& self.wins + self.draws <= self.game
    }

    /// Starts the bookkeeping of a run of `n_epoch` epochs of `n_games`
    /// episodes each.
    pub fn new(n_games: usize, n_epoch: usize) -> (trainer: Trainer)
        ensures
            trainer@ == TrainerView::initial(n_games as nat, n_epoch as nat),
    {
        Trainer { n_games, n_epoch, epoch: 0, game: 0, wins: 0, draws: 0 }
    }

    /// Returns whether the run is over.
    pub fn is_finished(&self) -> (finished: bool)
        ensures
            finished == self@.finished(),
    {
        self.epoch >= self.n_epoch || self.n_games == 0
    }

    /// Returns the number of the running epoch, counted from zero.
    pub fn get_epoch(&self) -> (epoch: usize)
        ensures
            epoch == self@.epoch,
            epoch <= self@.n_epoch,
    {
        proof {
            use_type_invariant(self);
        }
        self.epoch
    }

    /// Counts the reward of a step and tells the loop how to go on.
    pub fn record(&mut self, reward: i32) -> (directive: Directive)
        ensures
            final(self)@ == old(self)@.record(reward as int),
            directive == old(self)@.directive(reward as int),
            directive matches Directive::EpochDone(report) ==> report.wins + report.draws
                + report.losses == report.games,
    {
        proof {
            use_type_invariant(&*self);
        }
        if self.is_finished() {
            return Directive::Finished;
        }
        if reward == Reward::INTERMEDIATE {
            return Directive::Continue;
        }
        let wins = if reward == Reward::WIN {
            self.wins + 1
        } else {
            self.wins
        };
        let draws = if reward == Reward::DRAW {
            self.draws + 1
        } else {
            self.draws
        };
        if self.game + 1 < self.n_games {
            self.game = self.game + 1;
            self.wins = wins;
            self.draws = draws;
            Directive::NextEpisode
        } else {
            let report = EpochReport {
                epoch: self.epoch,
                games: self.n_games,
                wins,
                draws,
                losses: self.n_games - wins - draws,
            };
            self.epoch = self.epoch + 1;
            self.wins = 0;
            self.draws = 0;
            self.game = 0;
            Directive::EpochDone(report)
        }
    }
}

} // verus!
