use postflop_solver::finalize::{
    equities, expected_values, from_bits, root_equities, root_expected_values,
    store_ev_and_equity, to_bits,
};
use postflop_solver::game::{Game, GameNode, NodeKind};

fn leaf() -> GameNode {
    GameNode {
        kind: NodeKind::Terminal,
        player: 0,
        parallel: false,
        strategy: Vec::new(),
        cum_regret: Vec::new(),
        children: Vec::new(),
    }
}

fn decision(player: usize, strategy: Vec<u16>, cum_regret: Vec<i16>, actions: usize) -> GameNode {
    let mut children = Vec::new();
    for _ in 0..actions {
        children.push(leaf());
    }
    GameNode { kind: NodeKind::Player, player, parallel: false, strategy, cum_regret, children }
}

#[test]
fn bits_of_signed_values() {
    assert_eq!(to_bits(0), 0);
    assert_eq!(to_bits(1), 1);
    assert_eq!(to_bits(32767), 32767);
    assert_eq!(to_bits(-1), 65535);
    assert_eq!(to_bits(-32768), 32768);
    assert_eq!(from_bits(0), 0);
    assert_eq!(from_bits(32767), 32767);
    assert_eq!(from_bits(32768), -32768);
    assert_eq!(from_bits(65535), -1);
}

#[test]
fn bits_round_trip() {
    for x in [-32768i16, -12345, -1, 0, 1, 777, 32767] {
        assert_eq!(from_bits(to_bits(x)), x);
        assert_eq!(to_bits(x), x as u16);
    }
    for bits in [0u16, 1, 32767, 32768, 40000, 65535] {
        assert_eq!(to_bits(from_bits(bits)), bits);
        assert_eq!(from_bits(bits), bits as i16);
    }
}

#[test]
fn values_go_to_the_first_two_rows() {
    let mut node = decision(0, vec![1, 2, 3, 4, 5, 6], vec![10, 11, 20, 21, 30, 31], 3);
    store_ev_and_equity(&mut node, &vec![-5, 32767], &vec![100, -200]);
    assert_eq!(node.cum_regret, vec![-5, 32767, 100, -200, 30, 31]);
    assert_eq!(node.strategy, vec![1, 2, 3, 4, 5, 6]);
    assert_eq!(expected_values(&node, 2), vec![-5, 32767]);
    assert_eq!(equities(&node, 2), vec![100, -200]);
}

#[test]
fn two_actions_fill_the_whole_buffer() {
    let mut node = decision(1, vec![9, 9, 9, 9], vec![1, 2, 3, 4], 2);
    store_ev_and_equity(&mut node, &vec![7, 8], &vec![-7, -8]);
    assert_eq!(node.cum_regret, vec![7, 8, -7, -8]);
    assert_eq!(node.strategy, vec![9, 9, 9, 9]);
}

#[test]
fn single_action_keeps_equity_in_the_strategy() {
    let mut node = decision(0, vec![65535, 65535, 65535], vec![0, 0, 0], 1);
    store_ev_and_equity(&mut node, &vec![1, -2, 3], &vec![-1, 0, 16000]);
    assert_eq!(node.cum_regret, vec![1, -2, 3]);
    assert_eq!(node.strategy, vec![65535, 0, 16000]);
    assert_eq!(expected_values(&node, 3), vec![1, -2, 3]);
    assert_eq!(equities(&node, 3), vec![-1, 0, 16000]);
}

#[test]
fn storing_nothing_changes_nothing() {
    let mut node = decision(0, Vec::new(), Vec::new(), 2);
    store_ev_and_equity(&mut node, &Vec::new(), &Vec::new());
    assert!(node.cum_regret.is_empty());
    assert!(node.strategy.is_empty());
    assert!(expected_values(&node, 0).is_empty());
    assert!(equities(&node, 0).is_empty());
}

#[test]
fn root_values_are_read_for_the_acting_player() {
    let mut root = decision(1, vec![0; 4], vec![0; 4], 2);
    store_ev_and_equity(&mut root, &vec![300, -300], &vec![20000, 12767]);
    let game = Game { root, num_private_hands: [5, 2] };
    assert!(game.is_ready());
    assert_eq!(root_expected_values(&game), vec![300, -300]);
    assert_eq!(root_equities(&game), vec![20000, 12767]);
}
