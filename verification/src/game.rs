//! The compiled game tree and its per-node storage in 16-bit fixed point.

use vstd::prelude::*;

verus! {

/// What happens at a node of the game tree.
#[derive(Clone, Copy, PartialEq, Eq, Structural, Debug)]
pub enum NodeKind {
    /// One of the two players chooses an action.
    Player,
    /// A community card is dealt.
    Chance,
    /// The hand is over: a fold or a showdown.
    Terminal,
}

/// The largest number of actions at a player node: with no more than these,
/// the sums over a node's actions are formed in 64 bits without overflow.
pub const MAX_ACTIONS: usize = 0xffff_ffff;

/// A node of the compiled game tree together with the subtree below it.
///
/// The two buffers are row-major matrices with one row per action and one
/// column per private hand of the player who acts.
#[derive(Debug)]
pub struct GameNode {
    /// The kind of the node.
    pub kind: NodeKind,
    /// The player who acts, 0 or 1; read at player nodes only.
    pub player: usize,
    /// Whether the children are worth visiting in parallel.
    pub parallel: bool,
    /// The strategy, an entry `v` standing for the probability `v / 65535`.
    pub strategy: Vec<u16>,
    /// The cumulative regrets while solving; afterwards its first row holds
    /// the expected values and its second row the equities.
    pub cum_regret: Vec<i16>,
    /// The node reached by each action, in the order of the actions.
    pub children: Vec<GameNode>,
}

/// The mathematical value of a [`GameNode`].
pub struct NodeModel {
    pub kind: NodeKind,
    pub player: usize,
    pub parallel: bool,
    pub strategy: Seq<u16>,
    pub cum_regret: Seq<i16>,
    pub children: Seq<NodeModel>,
}

impl View for GameNode {
    type V = NodeModel;

    open spec fn view(&self) -> NodeModel {
        node_model(*self)
    }
}

/// The model of a node: its fields, and the models of its children in order.
pub open spec fn node_model(node: GameNode) -> NodeModel
    decreases node,
{
    NodeModel {
        kind: node.kind,
        player: node.player,
        parallel: node.parallel,
        strategy: node.strategy@,
        cum_regret: node.cum_regret@,
        children: Seq::new(
            node.children@.len(),
            |i: int|
                if 0 <= i < node.children@.len() {
                    node_model(node.children@[i])
                } else {
                    arbitrary()
                },
        ),
    }
}

/// A compiled game: the tree and the number of private hands of each player.
#[derive(Debug)]
pub struct Game {
    /// The node at which play starts.
    pub root: GameNode,
    /// The number of private hands of player 0 and of player 1.
    pub num_private_hands: [usize; 2],
}

/// The mathematical value of a [`Game`].
pub struct GameModel {
    pub root: NodeModel,
    pub num_private_hands: Seq<usize>,
}

impl View for Game {
    type V = GameModel;

    open spec fn view(&self) -> GameModel {
        GameModel { root: self.root@, num_private_hands: self.num_private_hands@ }
    }
}

/// Whether the storage of every node of the tree has the shape that its
/// place in the tree asks for: at a player node both buffers hold one row
/// per action and one column per private hand of the acting player, and a
/// terminal node has no children.
pub open spec fn allocated(node: NodeModel, hands: Seq<usize>) -> bool
    decreases node,
{
    match node.kind {
        NodeKind::Terminal => node.children.len() == 0,
        NodeKind::Chance => forall|i: int|
            0 <= i < node.children.len() ==> allocated(#[trigger] node.children[i], hands),
        NodeKind::Player => {
            &&& node.player < 2
            &&& 0 < node.children.len() <= MAX_ACTIONS
            &&& node.strategy.len() == node.children.len() * hands[node.player as int]
            &&& node.cum_regret.len() == node.children.len() * hands[node.player as int]
            &&& forall|i: int|
                0 <= i < node.children.len() ==> allocated(#[trigger] node.children[i], hands)
        },
    }
}

/// How a traversal on behalf of one player treats a node.
#[derive(Clone, Copy, PartialEq, Eq, Structural, Debug)]
pub enum Visit {
    /// The hand is over: the node is evaluated.
    Terminal,
    /// A card is dealt: the values of the cards are summed.
    Chance,
    /// The traversing player acts.
    Own,
    /// The other player acts and has a single action, so that the node's
    /// strategy is not read: once values are stored it may hold equities.
    Forced,
    /// The other player acts and chooses by the node's strategy.
    Opponent,
}

/// How a traversal on behalf of `player` treats `node`.
pub open spec fn visit_of(node: NodeModel, player: usize) -> Visit {
    match node.kind {
        NodeKind::Terminal => Visit::Terminal,
        NodeKind::Chance => Visit::Chance,
        NodeKind::Player => if node.player == player {
            Visit::Own
        } else if node.children.len() == 1 {
            Visit::Forced
        } else {
            Visit::Opponent
        },
    }
}

impl GameNode {
    /// The model of a node holds the models of its children, in order.
    pub proof fn lemma_view_children(&self)
        ensures
            self@.children.len() == self.children@.len(),
            forall|i: int|
                0 <= i < self.children@.len() ==> #[trigger] self@.children[i] == self.children@[i]@,
    {
    }

    /// The number of actions at the node.
    pub fn num_actions(&self) -> (n: usize)
        ensures
            n == self@.children.len(),
    {
        self.children.len()
    }

    /// Whether the hand is over at the node.
    pub fn is_terminal(&self) -> (r: bool)
        ensures
            r == (self@.kind == NodeKind::Terminal),
    {
        self.kind == NodeKind::Terminal
    }

    /// Whether a card is dealt at the node.
    pub fn is_chance(&self) -> (r: bool)
        ensures
            r == (self@.kind == NodeKind::Chance),
    {
        self.kind == NodeKind::Chance
    }

    /// How a traversal on behalf of `player` treats the node.
    pub fn visit(&self, player: usize) -> (v: Visit)
        ensures
            v == visit_of(self@, player),
    {
        proof {
            self.lemma_view_children();
        }
        match self.kind {
            NodeKind::Terminal => Visit::Terminal,
            NodeKind::Chance => Visit::Chance,
            NodeKind::Player => if self.player == player {
                Visit::Own
            } else if self.children.len() == 1 {
                Visit::Forced
            } else {
                Visit::Opponent
            },
        }
    }

    /// Whether the storage of the subtree is allocated in the shape that
    /// `hands`, the number of private hands of each player, asks for.
    pub fn is_allocated(&self, hands: &[usize; 2]) -> (r: bool)
        ensures
            r == allocated(self@, hands@),
        decreases self,
    {
        proof {
            self.lemma_view_children();
        }
        match self.kind {
            NodeKind::Terminal => self.children.len() == 0,
            NodeKind::Chance => self.children_allocated(hands),
            NodeKind::Player => {
                if self.player >= 2 {
                    return false;
                }
                let n: usize = self.children.len();
                if n == 0 || n > MAX_ACTIONS {
                    return false;
                }
                let columns: usize = hands[self.player];
                assert(n * columns <= 0xffff_ffff * 0xffff_ffff_ffff_ffff) by (nonlinear_arith)
                    requires
                        n <= 0xffff_ffff,
                        columns <= 0xffff_ffff_ffff_ffff,
                ;
                let cells: u128 = (n as u128) * (columns as u128);
                if self.strategy.len() as u128 != cells || self.cum_regret.len() as u128 != cells {
                    return false;
                }
                self.children_allocated(hands)
            },
        }
    }

    /// Whether the storage of every child's subtree is allocated.
    fn children_allocated(&self, hands: &[usize; 2]) -> (r: bool)
        ensures
            r == (forall|i: int|
                0 <= i < self@.children.len() ==> allocated(#[trigger] self@.children[i], hands@)),
        decreases self, 0nat,
    {
        proof {
            self.lemma_view_children();
        }
        let mut a: usize = 0;
        while a < self.children.len()
            invariant
                a <= self.children@.len(),
                self@.children.len() == self.children@.len(),
                forall|i: int|
                    0 <= i < self.children@.len() ==> #[trigger] self@.children[i]
                        == self.children@[i]@,
                forall|i: int| 0 <= i < a ==> allocated(#[trigger] self@.children[i], hands@),
            decreases self.children@.len() - a,
        {
            if !self.children[a].is_allocated(hands) {
                assert(!allocated(self@.children[a as int], hands@));
                return false;
            }
            a += 1;
        }
        true
    }
}

impl Game {
    /// The number of private hands of `player`.
    pub fn num_private_hands(&self, player: usize) -> (n: usize)
        requires
            player < 2,
        ensures
            n == self@.num_private_hands[player as int],
    {
        self.num_private_hands[player]
    }

    /// Whether the game's storage is allocated, so that it can be solved and
    /// read.
    pub fn is_ready(&self) -> (r: bool)
        ensures
            r == allocated(self@.root, self@.num_private_hands),
    {
        self.root.is_allocated(&self.num_private_hands)
    }
}

} // verus!
