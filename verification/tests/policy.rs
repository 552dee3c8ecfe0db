use tictactoe::environment::Action;
use tictactoe::policy::decide;
use tictactoe::policy::decide_with;
use tictactoe::policy::Decision;
use tictactoe::schedule::Ratio;

fn actions() -> Vec<Action> {
    vec![
        Action { x_axis: 0, y_axis: 1 },
        Action { x_axis: 1, y_axis: 0 },
        Action { x_axis: 2, y_axis: 2 },
    ]
}

fn ratio(numerator: u128, denominator: u128) -> Ratio {
    Ratio { numerator, denominator }
}

#[test]
fn coin_below_epsilon_explores_the_drawn_action() {
    let all = actions();
    assert_eq!(
        decide_with(ratio(3, 10), &all, 2, 1),
        Decision::Explore(Action { x_axis: 1, y_axis: 0 })
    );
    assert_eq!(
        decide_with(ratio(3, 10), &all, 0, 2),
        Decision::Explore(Action { x_axis: 2, y_axis: 2 })
    );
}

#[test]
fn coin_at_or_above_epsilon_exploits() {
    let all = actions();
    assert_eq!(decide_with(ratio(3, 10), &all, 3, 1), Decision::Exploit);
    assert_eq!(decide_with(ratio(3, 10), &all, 9, 0), Decision::Exploit);
    assert_eq!(decide_with(ratio(0, 10), &all, 0, 0), Decision::Exploit);
}

#[test]
fn slot_outside_the_actions_exploits() {
    let all = actions();
    assert_eq!(decide_with(ratio(3, 10), &all, 0, 3), Decision::Exploit);
    assert_eq!(decide_with(ratio(3, 10), &vec![], 0, 0), Decision::Exploit);
}

#[test]
fn epsilon_zero_never_explores() {
    let all = actions();
    for _ in 0..200 {
        assert_eq!(decide(ratio(0, 1000), &all), Decision::Exploit);
    }
}

#[test]
fn epsilon_one_always_explores_an_action_of_the_list() {
    let all = actions();
    let mut seen = [0usize; 3];
    for _ in 0..600 {
        match decide(ratio(1000, 1000), &all) {
            Decision::Explore(action) => {
                let slot = all.iter().position(|a| *a == action);
                seen[slot.expect("an action of the list")] += 1;
            }
            Decision::Exploit => panic!("an epsilon of one exploits"),
        }
    }
    // Each of three actions is expected 200 times; none may be starved.
    assert!(seen.iter().all(|count| *count > 100));
}

#[test]
fn nothing_to_explore_without_actions_or_with_a_broken_ratio() {
    assert_eq!(decide(ratio(1, 1), &vec![]), Decision::Exploit);
    assert_eq!(decide(ratio(1, 0), &actions()), Decision::Exploit);
}
