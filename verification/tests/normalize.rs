use postflop_solver::game::{Game, GameNode, NodeKind};
use postflop_solver::normalize::{column_sums, normalize_rows, normalize_strategy, FULL_WEIGHT};

fn terminal() -> GameNode {
    GameNode {
        kind: NodeKind::Terminal,
        player: 0,
        parallel: false,
        strategy: Vec::new(),
        cum_regret: Vec::new(),
        children: Vec::new(),
    }
}

fn player(player: usize, parallel: bool, strategy: Vec<u16>, children: Vec<GameNode>) -> GameNode {
    let cum_regret = vec![0i16; strategy.len()];
    GameNode { kind: NodeKind::Player, player, parallel, strategy, cum_regret, children }
}

#[test]
fn column_sums_add_each_column() {
    let strategy: Vec<u16> = vec![1, 2, 3, 10, 20, 30];
    assert_eq!(column_sums(&strategy, 2), vec![11u64, 22, 33]);
}

#[test]
fn normalize_rows_divides_by_column_sum() {
    // columns: (1, 3), (0, 0), (65535, 65535)
    let mut strategy: Vec<u16> = vec![1, 0, 65535, 3, 0, 65535];
    normalize_rows(&mut strategy, 2);
    // 65535 / 4 = 16383.75 -> 16384; 3 * 65535 / 4 = 49151.25 -> 49151
    // zero column: (65535 + 1) / 2 = 32768
    // equal halves: 65535 / 2 = 32767.5 -> 32768
    assert_eq!(strategy, vec![16384, 32768, 32768, 49151, 32768, 32768]);
}

#[test]
fn normalize_rows_single_action_is_full_weight() {
    let mut strategy: Vec<u16> = vec![7, 0, 65535];
    normalize_rows(&mut strategy, 1);
    assert_eq!(FULL_WEIGHT, 65535);
    assert_eq!(strategy, vec![FULL_WEIGHT, FULL_WEIGHT, FULL_WEIGHT]);
}

#[test]
fn normalize_strategy_walks_the_tree() {
    let inner = player(1, false, vec![2, 2, 6, 0], vec![terminal(), terminal()]);
    let root = player(0, true, vec![10, 0, 0, 30, 0, 0], vec![inner, terminal()]);
    let mut game = Game { root, num_private_hands: [3, 2] };
    assert!(game.is_ready());
    normalize_strategy(&mut game);
    assert_eq!(game.root.strategy, vec![16384, 32768, 32768, 49151, 32768, 32768]);
    assert_eq!(game.root.children[0].strategy, vec![16384, 65535, 49151, 0]);
    assert_eq!(game.root.children[0].kind, NodeKind::Player);
    assert_eq!(game.root.children[1].kind, NodeKind::Terminal);
    assert_eq!(game.num_private_hands, [3, 2]);
}

fn chance(children: Vec<GameNode>) -> GameNode {
    GameNode {
        kind: NodeKind::Chance,
        player: 0,
        parallel: true,
        strategy: Vec::new(),
        cum_regret: Vec::new(),
        children,
    }
}

#[test]
fn normalize_rows_rounds_to_nearest() {
    // one column of three entries summing to 3: each becomes 65535 / 3 = 21845
    let mut strategy: Vec<u16> = vec![1, 1, 1];
    normalize_rows(&mut strategy, 3);
    assert_eq!(strategy, vec![21845, 21845, 21845]);
    // 65535 * 1 / 7 = 9362.14 -> 9362; 65535 * 6 / 7 = 56172.86 -> 56173
    let mut strategy: Vec<u16> = vec![1, 6];
    normalize_rows(&mut strategy, 2);
    assert_eq!(strategy, vec![9362, 56173]);
}

#[test]
fn normalize_rows_zero_column_is_uniform() {
    let mut strategy: Vec<u16> = vec![0, 0, 0];
    normalize_rows(&mut strategy, 3);
    assert_eq!(strategy, vec![21845, 21845, 21845]);
    let mut strategy: Vec<u16> = vec![0; 4];
    normalize_rows(&mut strategy, 4);
    // (65535 + 2) / 4 = 16384
    assert_eq!(strategy, vec![16384; 4]);
}

#[test]
fn normalize_rows_of_an_empty_buffer() {
    let mut strategy: Vec<u16> = Vec::new();
    normalize_rows(&mut strategy, 3);
    assert!(strategy.is_empty());
}

#[test]
fn normalize_rows_of_full_entries_does_not_overflow() {
    let mut strategy: Vec<u16> = vec![65535; 6];
    normalize_rows(&mut strategy, 3);
    assert_eq!(strategy, vec![21845; 6]);
}

#[test]
fn normalized_columns_sum_to_full_weight() {
    let actions: usize = 5;
    let hands: usize = 7;
    let mut strategy: Vec<u16> = Vec::new();
    for k in 0..actions * hands {
        strategy.push(((k * 7919 + 13) % 65536) as u16);
    }
    normalize_rows(&mut strategy, actions);
    let totals = column_sums(&strategy, actions);
    for total in totals {
        let off = if total > 65535 { total - 65535 } else { 65535 - total };
        assert!(2 * off <= actions as u64);
        assert!(1000 * off <= 2 * 65535);
    }
}

#[test]
fn normalize_strategy_leaves_other_nodes_alone() {
    let mut below = player(0, false, vec![5, 15], vec![terminal(), terminal()]);
    below.cum_regret = vec![-4, 9];
    let mut dealt = chance(vec![below, terminal()]);
    dealt.strategy = vec![3, 4, 5];
    dealt.cum_regret = vec![-1];
    let mut root = player(1, false, vec![0, 8], vec![dealt]);
    root.parallel = true;
    let mut game = Game { root, num_private_hands: [1, 2] };
    assert!(game.is_ready());
    normalize_strategy(&mut game);
    assert!(game.is_ready());
    assert_eq!(game.root.strategy, vec![65535, 65535]);
    assert!(game.root.parallel);
    assert_eq!(game.root.player, 1);
    let dealt = &game.root.children[0];
    assert_eq!(dealt.kind, NodeKind::Chance);
    assert_eq!(dealt.strategy, vec![3, 4, 5]);
    assert_eq!(dealt.cum_regret, vec![-1]);
    assert_eq!(dealt.children.len(), 2);
    let below = &dealt.children[0];
    assert_eq!(below.strategy, vec![16384, 49151]);
    assert_eq!(below.cum_regret, vec![-4, 9]);
    assert_eq!(below.children.len(), 2);
}

#[test]
fn normalize_strategy_in_parallel_matches_in_turn() {
    let build = |parallel: bool| {
        let mut children = Vec::new();
        for a in 0..40u16 {
            let child = player(1, parallel, vec![a, 40 - a, a + 1, 3], vec![terminal(), terminal()]);
            children.push(child);
        }
        let strategy: Vec<u16> = (0..120u16).collect();
        let root = player(0, parallel, strategy, children);
        Game { root, num_private_hands: [3, 2] }
    };
    let mut in_turn = build(false);
    let mut in_parallel = build(true);
    normalize_strategy(&mut in_turn);
    normalize_strategy(&mut in_parallel);
    assert_eq!(in_turn.root.strategy, in_parallel.root.strategy);
    for a in 0..40 {
        assert_eq!(in_turn.root.children[a].strategy, in_parallel.root.children[a].strategy);
    }
    // child 10 holds the columns (10, 11) and (30, 3)
    assert_eq!(in_parallel.root.children[10].strategy, vec![31207, 59577, 34328, 5958]);
}

#[test]
fn rounding_adds_up_over_many_actions() {
    // (65535 + 500) / 1000 = 66 for each of a thousand actions
    let mut strategy: Vec<u16> = vec![0; 1000];
    normalize_rows(&mut strategy, 1000);
    assert_eq!(strategy, vec![66; 1000]);
    let total = column_sums(&strategy, 1000)[0];
    assert_eq!(total, 66000);
    assert!(2 * (total - 65535) <= 1000);
}
