//! Cards, private hands and the board.
//!
//! A card is a number below 52. A private hand is a pair of cards, and the
//! board is the list of community cards dealt so far.

use vstd::prelude::*;

verus! {

/// The number of cards in the deck.
pub const NUM_CARDS: u8 = 52;

/// Marks a turn or river that is not dealt yet.
pub const NOT_DEALT: u8 = 64;

/// Whether a private hand shares a card with the board.
pub open spec fn conflicts(hand: (u8, u8), board: Seq<u8>) -> bool {
    board.contains(hand.0) || board.contains(hand.1)
}

/// The hands of `candidates` that share no card with the board, in their
/// order.
pub open spec fn compatible_hands(candidates: Seq<(u8, u8)>, board: Seq<u8>) -> Seq<(u8, u8)> {
    candidates.filter(|hand: (u8, u8)| !conflicts(hand, board))
}

/// Whether the bit of `card` is set in a mask of cards.
pub open spec fn has_card(mask: u64, card: u8) -> bool {
    (mask >> (card as u64)) & 1 == 1
}

/// Whether `card` is one of the cards of the board.
pub fn is_on_board(card: u8, board: &Vec<u8>) -> (r: bool)
    ensures
        r == board@.contains(card),
{
    let mut i: usize = 0;
    while i < board.len()
        invariant
            i <= board@.len(),
            forall|k: int| 0 <= k < i ==> board@[k] != card,
        decreases board@.len() - i,
    {
        if board[i] == card {
            return true;
        }
        i += 1;
    }
    false
}

/// Whether a private hand shares a card with the board.
pub fn hand_conflicts(hand: (u8, u8), board: &Vec<u8>) -> (r: bool)
    ensures
        r == conflicts(hand, board@),
{
    is_on_board(hand.0, board) || is_on_board(hand.1, board)
}

/// The private hands that a player can hold on a board: those of
/// `candidates` that share no card with it, in their order.
pub fn private_hands(candidates: &Vec<(u8, u8)>, board: &Vec<u8>) -> (hands: Vec<(u8, u8)>)
    ensures
        hands@ == compatible_hands(candidates@, board@),
        forall|i: int| 0 <= i < hands@.len() ==> !conflicts(#[trigger] hands@[i], board@),
{
    let ghost keep = |hand: (u8, u8)| !conflicts(hand, board@);
    let mut hands: Vec<(u8, u8)> = Vec::new();
    let mut i: usize = 0;
    proof {
        reveal(Seq::filter);
        assert(candidates@.subrange(0, 0) =~= Seq::<(u8, u8)>::empty());
    }
    while i < candidates.len()
        invariant
            i <= candidates@.len(),
            keep == (|hand: (u8, u8)| !conflicts(hand, board@)),
            hands@ == candidates@.subrange(0, i as int).filter(keep),
            forall|k: int| 0 <= k < hands@.len() ==> !conflicts(#[trigger] hands@[k], board@),
        decreases candidates@.len() - i,
    {
        let hand = candidates[i];
        proof {
            reveal(Seq::filter);
            let next = candidates@.subrange(0, i + 1);
            assert(next.drop_last() =~= candidates@.subrange(0, i as int));
            assert(next.last() == hand);
        }
        if !hand_conflicts(hand, board) {
            hands.push(hand);
        }
        i += 1;
    }
    assert(candidates@.subrange(0, i as int) =~= candidates@);
    hands
}

/// The cards that can still be dealt on a board, as a mask: the bit of a
/// card is set exactly where the card is in the deck and not on the board.
pub fn possible_cards(board: &Vec<u8>) -> (mask: u64)
    ensures
        forall|card: u8|
            card < 64 ==> (#[trigger] has_card(mask, card) <==> card < NUM_CARDS
                && !board@.contains(card)),
{
    let mut mask: u64 = 0x000f_ffff_ffff_ffff;
    assert forall|card: u8| card < 64 implies (#[trigger] has_card(mask, card) <==> card < 52) by {
        assert(card < 64 ==> (((0x000f_ffff_ffff_ffffu64 >> (card as u64)) & 1 == 1) <==> card < 52))
            by (bit_vector);
    }
    let mut i: usize = 0;
    while i < board.len()
        invariant
            i <= board@.len(),
            forall|card: u8|
                card < 64 ==> (#[trigger] has_card(mask, card) <==> card < 52 && !board@.subrange(
                    0,
                    i as int,
                ).contains(card)),
        decreases board@.len() - i,
    {
        let dealt: u8 = board[i];
        let ghost before = mask;
        if dealt < NUM_CARDS {
            mask = mask & !(1u64 << (dealt as u64));
        }
        proof {
            let seen = board@.subrange(0, i as int);
            let next = board@.subrange(0, i + 1);
            assert(next =~= seen.push(dealt));
            assert forall|card: u8| card < 64 implies (#[trigger] has_card(mask, card) <==> card
                < 52 && !next.contains(card)) by {
                assert(has_card(before, card) <==> card < 52 && !seen.contains(card));
                assert(next.contains(card) <==> seen.contains(card) || card == dealt) by {
                    if next.contains(card) {
                        let k = choose|k: int| 0 <= k < next.len() && next[k] == card;
                        if k < i {
                            assert(seen[k] == card);
                        }
                    }
                    if seen.contains(card) {
                        let k = choose|k: int| 0 <= k < seen.len() && seen[k] == card;
                        assert(next[k] == card);
                    }
                    if card == dealt {
                        assert(next[i as int] == card);
                    }
                }
                if dealt < 52 {
                    assert(card < 64 && dealt < 52 ==> ((((before & !(1u64 << (dealt as u64))) >> (
                    card as u64)) & 1 == 1) <==> ((before >> (card as u64)) & 1 == 1) && card
                        != dealt)) by (bit_vector);
                    assert(has_card(mask, card) <==> has_card(before, card) && card != dealt);
                }
            }
        }
        i += 1;
    }
    assert(board@.subrange(0, i as int) =~= board@);
    mask
}

} // verus!
