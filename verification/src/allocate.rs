//! Allocation of the 16-bit storage of a game tree.

use crate::game::allocated;
use crate::game::Game;
use crate::game::GameNode;
use crate::game::NodeKind;
use crate::game::NodeModel;
use crate::game::MAX_ACTIONS;
use vstd::prelude::*;

verus! {

/// Whether storage can be allocated for the tree: a terminal node has no
/// children, a player node has a player, at least one action and no more
/// than [`MAX_ACTIONS`], and the size of its buffers is a `usize`.
pub open spec fn allocatable(node: NodeModel, hands: Seq<usize>) -> bool
    decreases node,
{
    match node.kind {
        NodeKind::Terminal => node.children.len() == 0,
        NodeKind::Chance => forall|i: int|
            0 <= i < node.children.len() ==> allocatable(#[trigger] node.children[i], hands),
        NodeKind::Player => {
            &&& node.player < 2
            &&& 0 < node.children.len() <= MAX_ACTIONS
            &&& node.children.len() * hands[node.player as int] <= usize::MAX
            &&& forall|i: int|
                0 <= i < node.children.len() ==> allocatable(#[trigger] node.children[i], hands)
        },
    }
}

/// The number of entries of each buffer of a node: one for each action and
/// private hand at a player node, none elsewhere.
pub open spec fn num_cells(node: NodeModel, hands: Seq<usize>) -> nat {
    if node.kind == NodeKind::Player {
        node.children.len() * hands[node.player as int] as nat
    } else {
        0
    }
}

/// The tree with fresh storage at every node: buffers of zeros.
pub open spec fn with_fresh_storage(node: NodeModel, hands: Seq<usize>) -> NodeModel
    decreases node,
{
    NodeModel {
        kind: node.kind,
        player: node.player,
        parallel: node.parallel,
        strategy: Seq::new(num_cells(node, hands), |k: int| 0u16),
        cum_regret: Seq::new(num_cells(node, hands), |k: int| 0i16),
        children: Seq::new(
            node.children.len(),
            |i: int|
                if 0 <= i < node.children.len() {
                    with_fresh_storage(node.children[i], hands)
                } else {
                    node
                },
        ),
    }
}

/// Fresh storage has the shape that the tree asks for.
pub proof fn lemma_fresh_storage_allocated(node: NodeModel, hands: Seq<usize>)
    requires
        allocatable(node, hands),
    ensures
        allocated(with_fresh_storage(node, hands), hands),
    decreases node,
{
    let fresh = with_fresh_storage(node, hands);
    assert forall|i: int| 0 <= i < fresh.children.len() implies allocated(
        #[trigger] fresh.children[i],
        hands,
    ) by {
        lemma_fresh_storage_allocated(node.children[i], hands);
    }
}

/// A vector of `len` copies of `value`.
fn filled<T: Copy>(value: T, len: usize) -> (r: Vec<T>)
    ensures
        r@ == Seq::new(len as nat, |k: int| value),
{
    let mut r: Vec<T> = Vec::new();
    let mut k: usize = 0;
    while k < len
        invariant
            k <= len,
            r@.len() == k,
            forall|j: int| 0 <= j < k ==> r@[j] == value,
        decreases len - k,
    {
        r.push(value);
        k += 1;
    }
    assert(r@ =~= Seq::new(len as nat, |k: int| value));
    r
}

impl GameNode {
    /// The tree below the node with fresh storage, where storage can be
    /// allocated for it.
    pub fn with_memory(&self, hands: &[usize; 2]) -> (r: Option<GameNode>)
        ensures
            r.is_some() == allocatable(self@, hands@),
            r.is_some() ==> r.unwrap()@ == with_fresh_storage(self@, hands@),
        decreases self,
    {
        proof {
            self.lemma_view_children();
        }
        let n: usize = self.children.len();
        let mut cells: usize = 0;
        match self.kind {
            NodeKind::Terminal => {
                if n != 0 {
                    return None;
                }
            },
            NodeKind::Chance => {},
            NodeKind::Player => {
                if self.player >= 2 || n == 0 || n > MAX_ACTIONS {
                    return None;
                }
                let columns: usize = hands[self.player];
                assert(n * columns <= 0xffff_ffff * 0xffff_ffff_ffff_ffff) by (nonlinear_arith)
                    requires
                        n <= 0xffff_ffff,
                        columns <= 0xffff_ffff_ffff_ffff,
                ;
                let wide: u128 = (n as u128) * (columns as u128);
                if wide > usize::MAX as u128 {
                    return None;
                }
                cells = wide as usize;
            },
        }
        let mut children: Vec<GameNode> = Vec::new();
        let mut a: usize = 0;
        while a < n
            invariant
                a <= n,
                n == self.children@.len(),
                self@.children.len() == self.children@.len(),
                forall|i: int|
                    0 <= i < n ==> #[trigger] self@.children[i] == self.children@[i]@,
                children@.len() == a,
                forall|i: int| 0 <= i < a ==> allocatable(#[trigger] self@.children[i], hands@),
                forall|i: int|
                    0 <= i < a ==> (#[trigger] children@[i])@ == with_fresh_storage(
                        self@.children[i],
                        hands@,
                    ),
            decreases n - a,
        {
            match self.children[a].with_memory(hands) {
                None => {
                    assert(!allocatable(self@.children[a as int], hands@));
                    return None;
                },
                Some(child) => {
                    children.push(child);
                },
            }
            a += 1;
        }
        let r = GameNode {
            kind: self.kind,
            player: self.player,
            parallel: self.parallel,
            strategy: filled(0u16, cells),
            cum_regret: filled(0i16, cells),
            children,
        };
        proof {
            r.lemma_view_children();
            let fresh = with_fresh_storage(self@, hands@);
            assert(cells == num_cells(self@, hands@));
            assert(r@.strategy =~= fresh.strategy);
            assert(r@.cum_regret =~= fresh.cum_regret);
            assert(r@.children =~= fresh.children);
        }
        Some(r)
    }
}

/// Allocates the storage of a game: every player node gets a strategy and
/// a regret buffer of zeros, with one row per action and one column per
/// private hand of the player who acts. Returns whether storage can be
/// allocated for the tree; where it cannot, the game is left as it is.
pub fn allocate_memory(game: &mut Game) -> (done: bool)
    ensures
        done == allocatable(old(game)@.root, old(game)@.num_private_hands),
        done ==> final(game)@.root == with_fresh_storage(
            old(game)@.root,
            old(game)@.num_private_hands,
        ),
        done ==> allocated(final(game)@.root, final(game)@.num_private_hands),
        !done ==> final(game)@.root == old(game)@.root,
        final(game)@.num_private_hands == old(game)@.num_private_hands,
{
    match game.root.with_memory(&game.num_private_hands) {
        None => false,
        Some(root) => {
            proof {
                lemma_fresh_storage_allocated(game@.root, game@.num_private_hands);
            }
            game.root = root;
            true
        },
    }
}

} // verus!
