use postflop_solver::card::{
    hand_conflicts, is_on_board, possible_cards, private_hands, NOT_DEALT, NUM_CARDS,
};

#[test]
fn deck_constants() {
    assert_eq!(NUM_CARDS, 52);
    assert_eq!(NOT_DEALT, 64);
}

#[test]
fn card_on_board_is_found() {
    let board = vec![5u8, 21, 18];
    assert!(is_on_board(5, &board));
    assert!(is_on_board(18, &board));
    assert!(!is_on_board(40, &board));
    assert!(!is_on_board(0, &Vec::new()));
}

#[test]
fn hand_conflicts_when_either_card_is_on_the_board() {
    let board = vec![5u8, 21, 18, 40];
    assert!(hand_conflicts((5, 6), &board));
    assert!(hand_conflicts((6, 40), &board));
    assert!(hand_conflicts((18, 21), &board));
    assert!(!hand_conflicts((6, 7), &board));
    assert!(!hand_conflicts((50, 51), &board));
}

#[test]
fn private_hands_drop_the_hands_that_the_board_blocks() {
    let board = vec![0u8, 1, 2];
    let candidates = vec![(48u8, 49u8), (0, 48), (50, 51), (2, 3), (49, 50), (1, 2)];
    let hands = private_hands(&candidates, &board);
    assert_eq!(hands, vec![(48, 49), (50, 51), (49, 50)]);
}

#[test]
fn private_hands_never_share_a_card_with_the_board() {
    let board = vec![5u8, 21, 18, 40, 51];
    let mut candidates = Vec::new();
    for c1 in 0..52u8 {
        for c2 in (c1 + 1)..52u8 {
            candidates.push((c1, c2));
        }
    }
    assert_eq!(candidates.len(), 1326);
    let hands = private_hands(&candidates, &board);
    // 47 cards are left: 47 * 46 / 2 hands
    assert_eq!(hands.len(), 1081);
    for &(c1, c2) in &hands {
        assert!(!board.contains(&c1));
        assert!(!board.contains(&c2));
    }
}

#[test]
fn private_hands_on_an_empty_board_are_the_candidates() {
    let candidates = vec![(3u8, 4u8), (10, 20)];
    assert_eq!(private_hands(&candidates, &Vec::new()), candidates);
    assert!(private_hands(&Vec::new(), &vec![1, 2, 3]).is_empty());
}

#[test]
fn possible_cards_of_an_empty_board_is_the_deck() {
    assert_eq!(possible_cards(&Vec::new()), (1u64 << 52) - 1);
}

#[test]
fn possible_cards_on_the_turn_are_the_48_unseen_cards() {
    // 3d 7d 6h Qc, with a card numbered four times its rank plus its suit
    let board = vec![5u8, 21, 18, 40];
    let mask = possible_cards(&board);
    assert_eq!(mask.count_ones(), 48);
    for card in 0..64u8 {
        let expected = card < 52 && !board.contains(&card);
        assert_eq!(mask & (1u64 << card) != 0, expected);
    }
    // 7s
    assert!(mask & (1u64 << 23) != 0);
}

#[test]
fn possible_cards_skips_what_is_not_dealt() {
    let board = vec![0u8, 1, 2, NOT_DEALT, NOT_DEALT];
    assert_eq!(possible_cards(&board), ((1u64 << 52) - 1) & !0b111);
    let board = vec![51u8, 51, 200];
    assert_eq!(possible_cards(&board), (1u64 << 51) - 1);
}
