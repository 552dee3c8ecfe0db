use tictactoe::environment::Reward;
use tictactoe::trainer::Directive;
use tictactoe::trainer::EpochReport;
use tictactoe::trainer::Trainer;

#[test]
fn intermediate_reward_continues_the_episode() {
    let mut trainer = Trainer::new(2, 1);
    assert!(!trainer.is_finished());
    assert_eq!(trainer.record(Reward::INTERMEDIATE), Directive::Continue);
    assert_eq!(trainer.get_epoch(), 0);
    assert!(!trainer.is_finished());
}

#[test]
fn epoch_ends_with_its_last_episode() {
    let mut trainer = Trainer::new(3, 2);
    assert_eq!(trainer.record(Reward::WIN), Directive::NextEpisode);
    assert_eq!(trainer.record(Reward::INTERMEDIATE), Directive::Continue);
    assert_eq!(trainer.record(Reward::LOSS), Directive::NextEpisode);
    assert_eq!(
        trainer.record(Reward::DRAW),
        Directive::EpochDone(EpochReport { epoch: 0, games: 3, wins: 1, draws: 1, losses: 1 })
    );
    assert_eq!(trainer.get_epoch(), 1);
    assert!(!trainer.is_finished());
}

#[test]
fn counts_start_again_with_each_epoch() {
    let mut trainer = Trainer::new(2, 2);
    assert_eq!(trainer.record(Reward::WIN), Directive::NextEpisode);
    assert_eq!(
        trainer.record(Reward::WIN),
        Directive::EpochDone(EpochReport { epoch: 0, games: 2, wins: 2, draws: 0, losses: 0 })
    );
    assert_eq!(trainer.record(Reward::LOSS), Directive::NextEpisode);
    assert_eq!(
        trainer.record(Reward::DRAW),
        Directive::EpochDone(EpochReport { epoch: 1, games: 2, wins: 0, draws: 1, losses: 1 })
    );
    assert!(trainer.is_finished());
    assert_eq!(trainer.get_epoch(), 2);
}

#[test]
fn nothing_is_counted_once_the_run_is_over() {
    let mut trainer = Trainer::new(1, 1);
    assert_eq!(
        trainer.record(Reward::LOSS),
        Directive::EpochDone(EpochReport { epoch: 0, games: 1, wins: 0, draws: 0, losses: 1 })
    );
    assert!(trainer.is_finished());
    assert_eq!(trainer.record(Reward::WIN), Directive::Finished);
    assert_eq!(trainer.record(Reward::INTERMEDIATE), Directive::Finished);
    assert_eq!(trainer.get_epoch(), 1);
}

#[test]
fn run_without_episodes_or_epochs_is_over_at_once() {
    assert!(Trainer::new(0, 5).is_finished());
    assert!(Trainer::new(5, 0).is_finished());
    let mut trainer = Trainer::new(0, 5);
    assert_eq!(trainer.record(Reward::WIN), Directive::Finished);
    assert_eq!(trainer.get_epoch(), 0);
}

#[test]
fn any_other_reward_counts_as_a_loss() {
    let mut trainer = Trainer::new(1, 1);
    assert_eq!(
        trainer.record(-7),
        Directive::EpochDone(EpochReport { epoch: 0, games: 1, wins: 0, draws: 0, losses: 1 })
    );
}
