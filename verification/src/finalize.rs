//! Storage of the expected values and equities of a solved game.
//!
//! Once solving is over, a player node's regrets are no longer needed and
//! their buffer is reused: its first row takes the expected values and its
//! second row the equities. A node with a single action has only one row,
//! so there the equities go to the strategy buffer, which holds nothing to
//! read when there is no choice. All values are 16-bit fixed point.

use crate::game::allocated;
use crate::game::Game;
use crate::game::GameNode;
use crate::game::NodeKind;
use crate::game::NodeModel;
use vstd::prelude::*;

verus! {

/// The 16 bits of a signed value, read as an unsigned one.
pub open spec fn bits_of(x: i16) -> u16 {
    if x >= 0 {
        x as u16
    } else {
        (x + 65536) as u16
    }
}

/// The signed value that 16 bits stand for.
pub open spec fn signed_of(bits: u16) -> i16 {
    if bits < 32768 {
        bits as i16
    } else {
        (bits - 65536) as i16
    }
}

/// Reading back the bits of a signed value gives the value.
pub proof fn lemma_signed_of_bits(x: i16)
    ensures
        signed_of(bits_of(x)) == x,
{
}

/// Storing the signed reading of 16 bits gives the bits.
pub proof fn lemma_bits_of_signed(bits: u16)
    ensures
        bits_of(signed_of(bits)) == bits,
{
}

/// The 16 bits of a signed value, as an unsigned one.
pub fn to_bits(x: i16) -> (bits: u16)
    ensures
        bits == bits_of(x),
{
    if x >= 0 {
        x as u16
    } else {
        (x as i32 + 65536) as u16
    }
}

/// The signed value that 16 bits stand for.
pub fn from_bits(bits: u16) -> (x: i16)
    ensures
        x == signed_of(bits),
{
    if bits < 32768 {
        bits as i16
    } else {
        (bits as i32 - 65536) as i16
    }
}

/// Whether `node` is a player node whose two buffers hold one row of
/// `columns` entries for each action.
pub open spec fn holds_rows(node: NodeModel, columns: int) -> bool {
    &&& node.kind == NodeKind::Player
    &&& node.children.len() > 0
    &&& node.strategy.len() == node.children.len() * columns
    &&& node.cum_regret.len() == node.children.len() * columns
}

/// Whether `node` is a player node whose two buffers hold one row of
/// `columns` entries for each action, so that values can be stored in it.
pub fn has_rows(node: &GameNode, columns: usize) -> (r: bool)
    ensures
        r == holds_rows(node@, columns as int),
{
    proof {
        node.lemma_view_children();
    }
    let n: usize = node.children.len();
    if node.kind != NodeKind::Player || n == 0 {
        return false;
    }
    assert(n * columns <= 0xffff_ffff_ffff_ffff * 0xffff_ffff_ffff_ffff) by (nonlinear_arith)
        requires
            n <= 0xffff_ffff_ffff_ffff,
            columns <= 0xffff_ffff_ffff_ffff,
    ;
    let cells: u128 = (n as u128) * (columns as u128);
    node.strategy.len() as u128 == cells && node.cum_regret.len() as u128 == cells
}

/// The node after its expected values `ev` and equities `eq` are stored:
/// `ev` replaces the first row of the regrets; `eq` replaces their second
/// row, or the strategy where the node has a single action.
pub open spec fn with_values(node: NodeModel, ev: Seq<i16>, eq: Seq<i16>) -> NodeModel {
    let columns = ev.len() as int;
    NodeModel {
        kind: node.kind,
        player: node.player,
        parallel: node.parallel,
        strategy: if node.children.len() == 1 {
            eq.map_values(|x: i16| bits_of(x))
        } else {
            node.strategy
        },
        cum_regret: if node.children.len() == 1 {
            ev
        } else {
            ev + eq + node.cum_regret.subrange(2 * columns, node.cum_regret.len() as int)
        },
        children: node.children,
    }
}

/// The expected values stored at a node of `columns` hands.
pub open spec fn stored_expected_values(node: NodeModel, columns: int) -> Seq<i16> {
    node.cum_regret.subrange(0, columns)
}

/// The equities stored at a node of `columns` hands.
pub open spec fn stored_equities(node: NodeModel, columns: int) -> Seq<i16> {
    if node.children.len() == 1 {
        node.strategy.map_values(|bits: u16| signed_of(bits))
    } else {
        node.cum_regret.subrange(columns, 2 * columns)
    }
}

/// What is stored at a node is what is read back from it.
pub proof fn lemma_stored_values_read_back(node: NodeModel, ev: Seq<i16>, eq: Seq<i16>)
    requires
        holds_rows(node, ev.len() as int),
        eq.len() == ev.len(),
    ensures
        holds_rows(with_values(node, ev, eq), ev.len() as int),
        stored_expected_values(with_values(node, ev, eq), ev.len() as int) == ev,
        stored_equities(with_values(node, ev, eq), ev.len() as int) == eq,
{
    let columns = ev.len() as int;
    let n = node.children.len() as int;
    let after = with_values(node, ev, eq);
    assert(n * columns >= 2 * columns || n == 1) by (nonlinear_arith)
        requires
            n >= 1,
            columns >= 0,
    ;
    assert(1 * columns == columns);
    assert(stored_expected_values(after, columns) =~= ev);
    assert(stored_equities(after, columns) =~= eq);
}

/// Storing values leaves the strategy of a node with more than one action
/// as it is, and with it the sums of its columns.
pub proof fn lemma_stored_values_keep_strategy(node: NodeModel, ev: Seq<i16>, eq: Seq<i16>)
    requires
        node.children.len() != 1,
    ensures
        with_values(node, ev, eq).strategy == node.strategy,
{
}

/// Stores the expected values `ev` and the equities `eq` of a player node in
/// the node's buffers.
pub fn store_ev_and_equity(node: &mut GameNode, ev: &Vec<i16>, eq: &Vec<i16>)
    requires
        holds_rows(old(node)@, ev@.len() as int),
        eq@.len() == ev@.len(),
    ensures
        final(node)@ == with_values(old(node)@, ev@, eq@),
{
    let ghost before = *node;
    let columns: usize = ev.len();
    let single: bool = node.children.len() == 1;
    proof {
        node.lemma_view_children();
        let n = node.children@.len() as int;
        assert(n * columns >= 2 * columns || n == 1) by (nonlinear_arith)
            requires
                n >= 1,
                columns >= 0,
        ;
        assert(1 * columns == columns);
    }
    let total: usize = node.cum_regret.len();
    let mut h: usize = 0;
    while h < columns
        invariant
            h <= columns,
            total == before.cum_regret@.len(),
            columns == ev@.len(),
            eq@.len() == ev@.len(),
            node.kind == before.kind,
            node.player == before.player,
            node.parallel == before.parallel,
            node.children == before.children,
            node.strategy@.len() == before.strategy@.len(),
            node.cum_regret@.len() == before.cum_regret@.len(),
            single == (before.children@.len() == 1),
            single ==> before.strategy@.len() == columns,
            single ==> before.cum_regret@.len() == columns,
            !single ==> before.cum_regret@.len() >= 2 * columns,
            !single ==> node.strategy@ == before.strategy@,
            forall|k: int| 0 <= k < h ==> node.cum_regret@[k] == ev@[k],
            forall|k: int| single && 0 <= k < h ==> node.strategy@[k] == bits_of(eq@[k]),
            forall|k: int| !single && 0 <= k < h ==> node.cum_regret@[columns + k] == eq@[k],
            forall|k: int|
                !single && 2 * columns <= k < node.cum_regret@.len() ==> node.cum_regret@[k]
                    == before.cum_regret@[k],
        decreases columns - h,
    {
        node.cum_regret.set(h, ev[h]);
        if single {
            node.strategy.set(h, to_bits(eq[h]));
        } else {
            node.cum_regret.set(columns + h, eq[h]);
        }
        h += 1;
    }
    proof {
        node.lemma_view_children();
        let after = with_values(before@, ev@, eq@);
        assert(node@.children =~= after.children);
        assert(node@.strategy =~= after.strategy);
        assert(node@.cum_regret =~= after.cum_regret);
    }
}

/// The expected values stored at a player node, one for each of `columns`
/// hands.
pub fn expected_values(node: &GameNode, columns: usize) -> (ev: Vec<i16>)
    requires
        holds_rows(node@, columns as int),
    ensures
        ev@ == stored_expected_values(node@, columns as int),
{
    proof {
        let n = node@.children.len() as int;
        assert(n * columns >= columns) by (nonlinear_arith)
            requires
                n >= 1,
                columns >= 0,
        ;
    }
    let mut ev: Vec<i16> = Vec::new();
    let mut h: usize = 0;
    while h < columns
        invariant
            h <= columns <= node.cum_regret@.len(),
            ev@ == node.cum_regret@.subrange(0, h as int),
        decreases columns - h,
    {
        ev.push(node.cum_regret[h]);
        assert(ev@ =~= node.cum_regret@.subrange(0, h + 1));
        h += 1;
    }
    ev
}

/// The equities stored at a player node, one for each of `columns` hands.
pub fn equities(node: &GameNode, columns: usize) -> (eq: Vec<i16>)
    requires
        holds_rows(node@, columns as int),
    ensures
        eq@ == stored_equities(node@, columns as int),
{
    let single: bool = node.children.len() == 1;
    proof {
        node.lemma_view_children();
        let n = node@.children.len() as int;
        assert(n * columns >= 2 * columns || n == 1) by (nonlinear_arith)
            requires
                n >= 1,
                columns >= 0,
        ;
        assert(1 * columns == columns);
    }
    let total: usize = node.cum_regret.len();
    let mut eq: Vec<i16> = Vec::new();
    let mut h: usize = 0;
    while h < columns
        invariant
            h <= columns,
            total == node.cum_regret@.len(),
            single == (node@.children.len() == 1),
            single ==> node.strategy@.len() == columns,
            !single ==> node.cum_regret@.len() >= 2 * columns,
            eq@.len() == h,
            forall|k: int| 0 <= k < h ==> eq@[k] == stored_equities(node@, columns as int)[k],
        decreases columns - h,
    {
        let x: i16 = if single {
            from_bits(node.strategy[h])
        } else {
            node.cum_regret[columns + h]
        };
        eq.push(x);
        h += 1;
    }
    assert(eq@ =~= stored_equities(node@, columns as int));
    eq
}

/// The expected values stored at the root of a game whose root is a player
/// node, one for each private hand of the player who acts there.
pub fn root_expected_values(game: &Game) -> (ev: Vec<i16>)
    requires
        allocated(game@.root, game@.num_private_hands),
        game@.root.kind == NodeKind::Player,
    ensures
        ev@ == stored_expected_values(
            game@.root,
            game@.num_private_hands[game@.root.player as int] as int,
        ),
{
    let columns = game.num_private_hands(game.root.player);
    expected_values(&game.root, columns)
}

/// The equities stored at the root of a game whose root is a player node,
/// one for each private hand of the player who acts there.
pub fn root_equities(game: &Game) -> (eq: Vec<i16>)
    requires
        allocated(game@.root, game@.num_private_hands),
        game@.root.kind == NodeKind::Player,
    ensures
        eq@ == stored_equities(
            game@.root,
            game@.num_private_hands[game@.root.player as int] as int,
        ),
{
    let columns = game.num_private_hands(game.root.player);
    equities(&game.root, columns)
}

} // verus!
