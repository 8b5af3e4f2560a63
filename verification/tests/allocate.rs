use postflop_solver::allocate::allocate_memory;
use postflop_solver::game::{Game, GameNode, NodeKind};
use postflop_solver::normalize::normalize_strategy;

fn bare(kind: NodeKind, player: usize, children: Vec<GameNode>) -> GameNode {
    GameNode {
        kind,
        player,
        parallel: false,
        strategy: Vec::new(),
        cum_regret: Vec::new(),
        children,
    }
}

fn leaf() -> GameNode {
    bare(NodeKind::Terminal, 0, Vec::new())
}

#[test]
fn allocation_gives_every_player_node_its_buffers() {
    let river = bare(NodeKind::Player, 1, vec![leaf(), leaf(), leaf()]);
    let dealt = bare(NodeKind::Chance, 0, vec![river, leaf()]);
    let mut root = bare(NodeKind::Player, 0, vec![dealt, leaf()]);
    root.parallel = true;
    let mut game = Game { root, num_private_hands: [4, 5] };
    assert!(!game.is_ready());
    assert!(allocate_memory(&mut game));
    assert!(game.is_ready());
    assert_eq!(game.num_private_hands, [4, 5]);
    assert!(game.root.parallel);
    assert_eq!(game.root.strategy, vec![0u16; 8]);
    assert_eq!(game.root.cum_regret, vec![0i16; 8]);
    let dealt = &game.root.children[0];
    assert_eq!(dealt.kind, NodeKind::Chance);
    assert!(dealt.strategy.is_empty());
    assert!(dealt.cum_regret.is_empty());
    let river = &dealt.children[0];
    assert_eq!(river.player, 1);
    assert_eq!(river.strategy, vec![0u16; 15]);
    assert_eq!(river.cum_regret, vec![0i16; 15]);
    assert_eq!(river.children.len(), 3);
    assert!(game.root.children[1].is_terminal());
}

#[test]
fn allocation_replaces_old_storage() {
    let mut root = bare(NodeKind::Player, 1, vec![leaf()]);
    root.strategy = vec![7, 7, 7, 7, 7];
    root.cum_regret = vec![-1];
    let mut game = Game { root, num_private_hands: [9, 2] };
    assert!(allocate_memory(&mut game));
    assert_eq!(game.root.strategy, vec![0, 0]);
    assert_eq!(game.root.cum_regret, vec![0, 0]);
}

#[test]
fn allocation_refuses_a_malformed_tree_and_leaves_it() {
    let no_action = bare(NodeKind::Player, 0, Vec::new());
    let mut root = bare(NodeKind::Player, 0, vec![no_action, leaf()]);
    root.strategy = vec![1, 2, 3];
    let mut game = Game { root, num_private_hands: [2, 2] };
    assert!(!allocate_memory(&mut game));
    assert_eq!(game.root.strategy, vec![1, 2, 3]);
    assert_eq!(game.root.children.len(), 2);

    let mut game = Game {
        root: bare(NodeKind::Player, 2, vec![leaf()]),
        num_private_hands: [2, 2],
    };
    assert!(!allocate_memory(&mut game));

    let mut game = Game {
        root: bare(NodeKind::Terminal, 0, vec![leaf()]),
        num_private_hands: [2, 2],
    };
    assert!(!allocate_memory(&mut game));
}

#[test]
fn allocation_refuses_buffers_beyond_the_address_space() {
    let root = bare(NodeKind::Player, 0, vec![leaf(), leaf()]);
    let mut game = Game { root, num_private_hands: [usize::MAX, 1] };
    assert!(!allocate_memory(&mut game));
    assert!(game.root.strategy.is_empty());
}

#[test]
fn fresh_storage_normalizes_to_the_uniform_strategy() {
    let root = bare(NodeKind::Player, 0, vec![leaf(), leaf(), leaf()]);
    let mut game = Game { root, num_private_hands: [2, 0] };
    assert!(allocate_memory(&mut game));
    normalize_strategy(&mut game);
    assert_eq!(game.root.strategy, vec![21845; 6]);
    assert!(game.is_ready());
}
