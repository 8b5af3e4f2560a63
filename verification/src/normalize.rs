//! Normalisation of a cumulative strategy held in 16-bit fixed point.
//!
//! A strategy buffer is a row-major matrix with one row per action and one
//! column per private hand. An entry `v` stands for the probability
//! `v / 65535`.

use crate::game::allocated;
use crate::game::Game;
use crate::game::GameNode;
use crate::game::NodeKind;
use crate::game::NodeModel;
use crate::game::MAX_ACTIONS;
use crate::parallel::for_each_child;
use vstd::arithmetic::div_mod::lemma_fundamental_div_mod;
use vstd::arithmetic::div_mod::lemma_fundamental_div_mod_converse;
use vstd::prelude::*;

verus! {

/// The fixed-point value that stands for probability one.
pub const FULL_WEIGHT: u16 = 65535;

/// Sum of column `hand` over the first `rows` rows of the matrix `s`.
pub open spec fn column_sum(s: Seq<u16>, row_size: int, rows: int, hand: int) -> int
    decreases rows,
{
    if rows <= 0 {
        0
    } else {
        column_sum(s, row_size, rows - 1, hand) + s[(rows - 1) * row_size + hand] as int
    }
}

/// The share that every action gets where a column sums to zero:
/// `65535 / num_actions`, rounded to nearest.
pub open spec fn uniform_share(num_actions: int) -> int {
    (65535 + num_actions / 2) / num_actions
}

/// The normalised value of an entry `v` of a column that sums to `denom`:
/// `65535 * v / denom`, rounded to nearest, and the uniform share where the
/// column is zero.
pub open spec fn normalized_entry(v: int, denom: int, num_actions: int) -> int {
    if denom == 0 {
        uniform_share(num_actions)
    } else {
        (65535 * v + denom / 2) / denom
    }
}

/// The matrix `s` of `num_actions` rows with every column normalised.
pub open spec fn normalized_rows(s: Seq<u16>, num_actions: int) -> Seq<u16> {
    let row_size = s.len() as int / num_actions;
    Seq::new(
        s.len(),
        |k: int|
            normalized_entry(
                s[k] as int,
                column_sum(s, row_size, num_actions, k % row_size),
                num_actions,
            ) as u16,
    )
}

/// A column sum is bounded by the number of rows times the largest entry.
pub proof fn lemma_column_sum_bounds(s: Seq<u16>, row_size: int, rows: int, hand: int)
    requires
        0 <= rows,
    ensures
        0 <= column_sum(s, row_size, rows, hand) <= rows * 65535,
    decreases rows,
{
    if rows > 0 {
        lemma_column_sum_bounds(s, row_size, rows - 1, hand);
        assert((rows - 1) * 65535 + 65535 == rows * 65535) by (nonlinear_arith);
    }
}

/// Every entry of a column is at most the column's sum.
pub proof fn lemma_entry_at_most_column_sum(
    s: Seq<u16>,
    row_size: int,
    rows: int,
    hand: int,
    a: int,
)
    requires
        0 <= a < rows,
    ensures
        s[a * row_size + hand] as int <= column_sum(s, row_size, rows, hand),
    decreases rows,
{
    lemma_column_sum_bounds(s, row_size, rows - 1, hand);
    if a < rows - 1 {
        lemma_entry_at_most_column_sum(s, row_size, rows - 1, hand, a);
    }
}

/// A normalised entry of a non-zero column fits in 16 bits and is the
/// rounded quotient: `denom * r <= 65535 * v + denom / 2 < denom * r + denom`.
pub proof fn lemma_normalized_entry_bounds(v: int, denom: int, num_actions: int)
    requires
        0 <= v <= denom,
        0 < denom,
    ensures
        0 <= normalized_entry(v, denom, num_actions) <= 65535,
        denom * normalized_entry(v, denom, num_actions) <= 65535 * v + denom / 2,
        65535 * v + denom / 2 <= denom * normalized_entry(v, denom, num_actions) + denom - 1,
{
    let x = 65535 * v + denom / 2;
    let r = x / denom;
    lemma_fundamental_div_mod(x, denom);
    assert(0 <= x % denom < denom);
    assert(x == denom * r + x % denom);
    assert(x <= 65535 * denom + denom / 2) by (nonlinear_arith)
        requires
            x == 65535 * v + denom / 2,
            v <= denom,
    ;
    assert(r <= 65535) by (nonlinear_arith)
        requires
            denom * r <= x,
            x < 65536 * denom,
            denom > 0,
    ;
    assert(r >= 0) by (nonlinear_arith)
        requires
            x < denom * r + denom,
            x >= 0,
            denom > 0,
    ;
}

/// The uniform share fits in 16 bits and is the rounded quotient of 65535 by
/// the number of actions.
pub proof fn lemma_uniform_share_bounds(num_actions: int)
    requires
        0 < num_actions,
    ensures
        0 <= uniform_share(num_actions) <= 65535,
        num_actions * uniform_share(num_actions) <= 65535 + num_actions / 2,
        65535 + num_actions / 2 <= num_actions * uniform_share(num_actions) + num_actions - 1,
{
    let x = 65535 + num_actions / 2;
    let u = x / num_actions;
    lemma_fundamental_div_mod(x, num_actions);
    assert(0 <= x % num_actions < num_actions);
    assert(u <= 65535) by (nonlinear_arith)
        requires
            num_actions * u <= x,
            x <= 65535 + num_actions / 2,
            num_actions >= 1,
    ;
    assert(u >= 0) by (nonlinear_arith)
        requires
            x < num_actions * u + num_actions,
            x >= 0,
            num_actions > 0,
    ;
}

/// The partial sums of a normalised column, against those of the column it
/// came from: each entry adds a rounding error of at most one half.
proof fn lemma_normalized_partial_sums(
    s: Seq<u16>,
    num_actions: int,
    row_size: int,
    hand: int,
    rows: int,
)
    requires
        0 <= rows <= num_actions,
        0 <= hand < row_size,
        s.len() == num_actions * row_size,
    ensures
        ({
            let d = column_sum(s, row_size, num_actions, hand);
            let before = column_sum(s, row_size, rows, hand);
            let after = column_sum(normalized_rows(s, num_actions), row_size, rows, hand);
            &&& d == 0 ==> after == rows * uniform_share(num_actions)
            &&& d > 0 ==> d * after <= 65535 * before + rows * (d / 2)
            &&& d > 0 ==> 65535 * before + rows * (d / 2) <= d * after + rows * (d - 1)
        }),
    decreases rows,
{
    let d = column_sum(s, row_size, num_actions, hand);
    let t = normalized_rows(s, num_actions);
    lemma_column_sum_bounds(s, row_size, num_actions, hand);
    if rows > 0 {
        lemma_normalized_partial_sums(s, num_actions, row_size, hand, rows - 1);
        let a = rows - 1;
        let k = a * row_size + hand;
        assert(0 <= k < s.len()) by (nonlinear_arith)
            requires
                k == a * row_size + hand,
                0 <= a < num_actions,
                0 <= hand < row_size,
                s.len() == num_actions * row_size,
        ;
        lemma_fundamental_div_mod_converse(k, row_size, a, hand);
        assert(num_actions * row_size == row_size * num_actions) by (nonlinear_arith);
        lemma_fundamental_div_mod_converse(s.len() as int, num_actions, row_size, 0);
        let v = s[k] as int;
        let r = normalized_entry(v, d, num_actions);
        lemma_entry_at_most_column_sum(s, row_size, num_actions, hand, a);
        lemma_uniform_share_bounds(num_actions);
        if d > 0 {
            lemma_normalized_entry_bounds(v, d, num_actions);
        }
        assert(t[k] as int == r);
        let before0 = column_sum(s, row_size, a, hand);
        let after0 = column_sum(t, row_size, a, hand);
        assert(column_sum(s, row_size, rows, hand) == before0 + v);
        assert(column_sum(t, row_size, rows, hand) == after0 + r);
        if d == 0 {
            assert(after0 + r == rows * uniform_share(num_actions)) by (nonlinear_arith)
                requires
                    after0 == (rows - 1) * uniform_share(num_actions),
                    r == uniform_share(num_actions),
            ;
        } else {
            assert(d * (after0 + r) <= 65535 * (before0 + v) + rows * (d / 2)) by (nonlinear_arith)
                requires
                    d * after0 <= 65535 * before0 + (rows - 1) * (d / 2),
                    d * r <= 65535 * v + d / 2,
            ;
            assert(65535 * (before0 + v) + rows * (d / 2) <= d * (after0 + r) + rows * (d - 1))
                by (nonlinear_arith)
                requires
                    65535 * before0 + (rows - 1) * (d / 2) <= d * after0 + (rows - 1) * (d - 1),
                    65535 * v + d / 2 <= d * r + d - 1,
            ;
        }
    } else {
        assert(rows * uniform_share(num_actions) == 0) by (nonlinear_arith)
            requires
                rows == 0,
        ;
        assert(rows * (d / 2) == 0 && rows * (d - 1) == 0 && d * 0 == 0) by (nonlinear_arith)
            requires
                rows == 0,
        ;
    }
}

/// After normalisation the entries of every column sum to 65535, up to the
/// rounding of each entry: the sum differs from 65535 by at most half the
/// number of actions.
pub proof fn lemma_normalized_column_total(s: Seq<u16>, num_actions: int, hand: int)
    requires
        0 < num_actions,
        s.len() as int % num_actions == 0,
        0 <= hand < s.len() as int / num_actions,
    ensures
        ({
            let total = column_sum(
                normalized_rows(s, num_actions),
                s.len() as int / num_actions,
                num_actions,
                hand,
            );
            &&& 2 * (total - 65535) <= num_actions
            &&& 2 * (65535 - total) <= num_actions
        }),
{
    let row_size = s.len() as int / num_actions;
    lemma_fundamental_div_mod(s.len() as int, num_actions);
    assert(s.len() == num_actions * row_size);
    lemma_normalized_partial_sums(s, num_actions, row_size, hand, num_actions);
    lemma_uniform_share_bounds(num_actions);
    let d = column_sum(s, row_size, num_actions, hand);
    let total = column_sum(normalized_rows(s, num_actions), row_size, num_actions, hand);
    let u = uniform_share(num_actions);
    let n = num_actions;
    lemma_column_sum_bounds(s, row_size, num_actions, hand);
    if d == 0 {
        assert(total == n * u);
        assert(2 * (n / 2) <= n && n - 1 <= 2 * (n / 2));
    } else {
        let half = d / 2;
        assert(2 * half <= d && d - 1 <= 2 * half);
        assert(2 * (total - 65535) <= n) by (nonlinear_arith)
            requires
                d * total <= 65535 * d + n * half,
                2 * half <= d,
                d > 0,
                n > 0,
        ;
        assert(2 * (65535 - total) <= n) by (nonlinear_arith)
            requires
                65535 * d + n * half <= d * total + n * (d - 1),
                d - 1 <= 2 * half,
                d > 0,
                n > 0,
        ;
    }
}

/// With at most 262 actions, every column of a normalised strategy sums to
/// one within two thousandths.
pub proof fn lemma_normalized_column_tolerance(s: Seq<u16>, num_actions: int, hand: int)
    requires
        0 < num_actions <= 262,
        s.len() as int % num_actions == 0,
        0 <= hand < s.len() as int / num_actions,
    ensures
        ({
            let total = column_sum(
                normalized_rows(s, num_actions),
                s.len() as int / num_actions,
                num_actions,
                hand,
            );
            &&& 1000 * (total - 65535) <= 2 * 65535
            &&& 1000 * (65535 - total) <= 2 * 65535
        }),
{
    lemma_normalized_column_total(s, num_actions, hand);
}

/// Sums the columns of a matrix of `num_actions` rows.
pub fn column_sums(strategy: &Vec<u16>, num_actions: usize) -> (denom: Vec<u64>)
    requires
        0 < num_actions <= MAX_ACTIONS,
        strategy@.len() as int % (num_actions as int) == 0,
    ensures
        denom@.len() as int == strategy@.len() as int / (num_actions as int),
        forall|h: int|
            0 <= h < denom@.len() ==> #[trigger] denom@[h] as int == column_sum(
                strategy@,
                denom@.len() as int,
                num_actions as int,
                h,
            ),
{
    let row_size: usize = strategy.len() / num_actions;
    proof {
        lemma_fundamental_div_mod(strategy@.len() as int, num_actions as int);
        assert(strategy@.len() == num_actions * row_size);
    }
    let mut denom: Vec<u64> = Vec::new();
    let mut h: usize = 0;
    while h < row_size
        invariant
            h <= row_size,
            denom@.len() == h,
            forall|j: int| 0 <= j < h ==> denom@[j] == 0,
        decreases row_size - h,
    {
        denom.push(0);
        h += 1;
    }
    let mut a: usize = 0;
    let mut base: usize = 0;
    while a < num_actions
        invariant
            0 < num_actions <= MAX_ACTIONS,
            strategy@.len() == num_actions * row_size,
            strategy@.len() <= usize::MAX,
            a <= num_actions,
            base == a * row_size,
            denom@.len() == row_size,
            forall|j: int|
                0 <= j < row_size ==> #[trigger] denom@[j] as int == column_sum(
                    strategy@,
                    row_size as int,
                    a as int,
                    j,
                ),
        decreases num_actions - a,
    {
        proof {
            assert((a + 1) * row_size == a * row_size + row_size) by (nonlinear_arith);
            assert((a + 1) * row_size <= num_actions * row_size) by (nonlinear_arith)
                requires
                    a + 1 <= num_actions,
            ;
        }
        let mut h: usize = 0;
        while h < row_size
            invariant
                0 < num_actions <= MAX_ACTIONS,
                a < num_actions,
                h <= row_size,
                base == a * row_size,
                base + row_size <= strategy@.len() <= usize::MAX,
                denom@.len() == row_size,
                forall|j: int|
                    0 <= j < h ==> #[trigger] denom@[j] as int == column_sum(
                        strategy@,
                        row_size as int,
                        a + 1,
                        j,
                    ),
                forall|j: int|
                    h <= j < row_size ==> #[trigger] denom@[j] as int == column_sum(
                        strategy@,
                        row_size as int,
                        a as int,
                        j,
                    ),
            decreases row_size - h,
        {
            proof {
                lemma_column_sum_bounds(strategy@, row_size as int, a as int, h as int);
                assert(a * 65535 <= 0xffff_ffff * 65535) by (nonlinear_arith)
                    requires
                        a <= 0xffff_ffff,
                ;
            }
            let v: u64 = strategy[base + h] as u64;
            let d: u64 = denom[h];
            denom.set(h, d + v);
            h += 1;
        }
        base += row_size;
        a += 1;
    }
    denom
}

/// Normalises a cumulative strategy in place: every entry is divided by the
/// sum of its column, so that each hand's probabilities over the actions sum
/// to one; a column of zeros becomes uniform.
pub fn normalize_rows(strategy: &mut Vec<u16>, num_actions: usize)
    requires
        0 < num_actions <= MAX_ACTIONS,
        old(strategy)@.len() as int % (num_actions as int) == 0,
    ensures
        final(strategy)@ == normalized_rows(old(strategy)@, num_actions as int),
{
    let ghost before = strategy@;
    let row_size: usize = strategy.len() / num_actions;
    let denom = column_sums(strategy, num_actions);
    proof {
        lemma_fundamental_div_mod(strategy@.len() as int, num_actions as int);
        assert(strategy@.len() == num_actions * row_size);
        lemma_uniform_share_bounds(num_actions as int);
    }
    let n: u64 = num_actions as u64;
    let share: u16 = ((65535 + n / 2) / n) as u16;
    let mut a: usize = 0;
    let mut base: usize = 0;
    while a < num_actions
        invariant
            0 < num_actions <= MAX_ACTIONS,
            before.len() == num_actions * row_size,
            before.len() as int / (num_actions as int) == row_size as int,
            strategy@.len() == before.len() <= usize::MAX,
            a <= num_actions,
            base == a * row_size,
            denom@.len() == row_size,
            share as int == uniform_share(num_actions as int),
            forall|j: int|
                0 <= j < row_size ==> #[trigger] denom@[j] as int == column_sum(
                    before,
                    row_size as int,
                    num_actions as int,
                    j,
                ),
            forall|k: int| 0 <= k < base ==> strategy@[k] == normalized_rows(before, num_actions as int)[k],
            forall|k: int| base <= k < strategy@.len() ==> strategy@[k] == before[k],
        decreases num_actions - a,
    {
        proof {
            assert((a + 1) * row_size == a * row_size + row_size) by (nonlinear_arith);
            assert((a + 1) * row_size <= num_actions * row_size) by (nonlinear_arith)
                requires
                    a + 1 <= num_actions,
            ;
        }
        let mut h: usize = 0;
        while h < row_size
            invariant
                0 < num_actions <= MAX_ACTIONS,
                before.len() == num_actions * row_size,
                before.len() as int / (num_actions as int) == row_size as int,
                strategy@.len() == before.len() <= usize::MAX,
                a < num_actions,
                h <= row_size,
                base == a * row_size,
                base + row_size <= strategy@.len(),
                denom@.len() == row_size,
                share as int == uniform_share(num_actions as int),
                forall|j: int|
                    0 <= j < row_size ==> #[trigger] denom@[j] as int == column_sum(
                        before,
                        row_size as int,
                        num_actions as int,
                        j,
                    ),
                forall|k: int|
                    0 <= k < base + h ==> strategy@[k] == normalized_rows(
                        before,
                        num_actions as int,
                    )[k],
                forall|k: int| base + h <= k < strategy@.len() ==> strategy@[k] == before[k],
            decreases row_size - h,
        {
            let k: usize = base + h;
            let v: u64 = strategy[k] as u64;
            let d: u64 = denom[h];
            proof {
                lemma_fundamental_div_mod_converse(k as int, row_size as int, a as int, h as int);
                assert(d as int == column_sum(before, row_size as int, num_actions as int, h as int));
                lemma_entry_at_most_column_sum(
                    before,
                    row_size as int,
                    num_actions as int,
                    h as int,
                    a as int,
                );
                lemma_column_sum_bounds(before, row_size as int, num_actions as int, h as int);
                if d > 0 {
                    lemma_normalized_entry_bounds(v as int, d as int, num_actions as int);
                }
            }
            let r: u16 = if d == 0 {
                share
            } else {
                ((65535 * v + d / 2) / d) as u16
            };
            assert(r == normalized_rows(before, num_actions as int)[k as int]);
            strategy.set(k, r);
            h += 1;
        }
        base += row_size;
        a += 1;
    }
    assert(strategy@ =~= normalized_rows(before, num_actions as int));
}

/// The tree below `node` with the strategy of every player node normalised.
/// Nothing else changes, and nothing below a terminal node is read.
pub open spec fn normalized_tree(node: NodeModel) -> NodeModel
    decreases node,
{
    match node.kind {
        NodeKind::Terminal => node,
        _ => NodeModel {
            kind: node.kind,
            player: node.player,
            parallel: node.parallel,
            strategy: if node.kind == NodeKind::Player {
                normalized_rows(node.strategy, node.children.len() as int)
            } else {
                node.strategy
            },
            cum_regret: node.cum_regret,
            children: Seq::new(
                node.children.len(),
                |i: int|
                    if 0 <= i < node.children.len() {
                        normalized_tree(node.children[i])
                    } else {
                        node
                    },
            ),
        },
    }
}

/// Whether, at every player node of the tree, the probabilities that each
/// hand gives to the actions sum to one: the column's entries sum to 65535,
/// up to half a unit of rounding for each action.
pub open spec fn columns_sum_to_one(node: NodeModel) -> bool
    decreases node,
{
    let n = node.children.len() as int;
    match node.kind {
        NodeKind::Terminal => true,
        NodeKind::Chance => forall|i: int|
            0 <= i < node.children.len() ==> columns_sum_to_one(#[trigger] node.children[i]),
        NodeKind::Player => {
            &&& forall|hand: int|
                0 <= hand < node.strategy.len() as int / n ==> {
                    let total = #[trigger] column_sum(
                        node.strategy,
                        node.strategy.len() as int / n,
                        n,
                        hand,
                    );
                    2 * (total - 65535) <= n && 2 * (65535 - total) <= n
                }
            &&& forall|i: int|
                0 <= i < node.children.len() ==> columns_sum_to_one(#[trigger] node.children[i])
        },
    }
}

/// After normalisation, at every player node of an allocated tree and for
/// every hand, the strategy's probabilities over the actions sum to one, up
/// to the rounding of the entries.
pub proof fn lemma_normalized_tree_sums_to_one(node: NodeModel, hands: Seq<usize>)
    requires
        allocated(node, hands),
    ensures
        columns_sum_to_one(normalized_tree(node)),
    decreases node,
{
    let after = normalized_tree(node);
    let n = node.children.len() as int;
    if node.kind != NodeKind::Terminal {
        assert forall|i: int| 0 <= i < after.children.len() implies columns_sum_to_one(
            #[trigger] after.children[i],
        ) by {
            lemma_normalized_tree_sums_to_one(node.children[i], hands);
        }
        if node.kind == NodeKind::Player {
            let columns = hands[node.player as int] as int;
            lemma_shape_divides(node.strategy.len() as int, n, columns);
            assert forall|hand: int| 0 <= hand < after.strategy.len() as int / n implies {
                let total = #[trigger] column_sum(
                    after.strategy,
                    after.strategy.len() as int / n,
                    n,
                    hand,
                );
                2 * (total - 65535) <= n && 2 * (65535 - total) <= n
            } by {
                lemma_normalized_column_total(node.strategy, n, hand);
            }
        }
    }
}

/// Whether no player node of the tree has more than `limit` actions.
pub open spec fn actions_at_most(node: NodeModel, limit: int) -> bool
    decreases node,
{
    match node.kind {
        NodeKind::Terminal => true,
        NodeKind::Chance => forall|i: int|
            0 <= i < node.children.len() ==> actions_at_most(#[trigger] node.children[i], limit),
        NodeKind::Player => {
            &&& node.children.len() <= limit
            &&& forall|i: int|
                0 <= i < node.children.len() ==> actions_at_most(
                    #[trigger] node.children[i],
                    limit,
                )
        },
    }
}

/// Whether, at every player node of the tree, the probabilities that each
/// hand gives to the actions sum to one within two thousandths.
pub open spec fn columns_within_tolerance(node: NodeModel) -> bool
    decreases node,
{
    let n = node.children.len() as int;
    match node.kind {
        NodeKind::Terminal => true,
        NodeKind::Chance => forall|i: int|
            0 <= i < node.children.len() ==> columns_within_tolerance(
                #[trigger] node.children[i],
            ),
        NodeKind::Player => {
            &&& forall|hand: int|
                0 <= hand < node.strategy.len() as int / n ==> {
                    let total = #[trigger] column_sum(
                        node.strategy,
                        node.strategy.len() as int / n,
                        n,
                        hand,
                    );
                    1000 * (total - 65535) <= 2 * 65535 && 1000 * (65535 - total) <= 2 * 65535
                }
            &&& forall|i: int|
                0 <= i < node.children.len() ==> columns_within_tolerance(
                    #[trigger] node.children[i],
                )
        },
    }
}

/// In a tree whose player nodes have at most 262 actions, columns that sum
/// to one up to the rounding of their entries do so within two thousandths.
pub proof fn lemma_columns_within_tolerance(node: NodeModel)
    requires
        columns_sum_to_one(node),
        actions_at_most(node, 262),
    ensures
        columns_within_tolerance(node),
    decreases node,
{
    let n = node.children.len() as int;
    if node.kind != NodeKind::Terminal {
        assert forall|i: int| 0 <= i < node.children.len() implies columns_within_tolerance(
            #[trigger] node.children[i],
        ) by {
            lemma_columns_within_tolerance(node.children[i]);
        }
        if node.kind == NodeKind::Player {
            assert forall|hand: int| 0 <= hand < node.strategy.len() as int / n implies {
                let total = #[trigger] column_sum(
                    node.strategy,
                    node.strategy.len() as int / n,
                    n,
                    hand,
                );
                1000 * (total - 65535) <= 2 * 65535 && 1000 * (65535 - total) <= 2 * 65535
            } by {
                let total = column_sum(node.strategy, node.strategy.len() as int / n, n, hand);
                assert(2 * (total - 65535) <= n && 2 * (65535 - total) <= n);
            }
        }
    }
}

/// Normalisation keeps the shape of the storage.
pub proof fn lemma_normalized_tree_allocated(node: NodeModel, hands: Seq<usize>)
    requires
        allocated(node, hands),
    ensures
        allocated(normalized_tree(node), hands),
    decreases node,
{
    let after = normalized_tree(node);
    if node.kind != NodeKind::Terminal {
        assert forall|i: int| 0 <= i < after.children.len() implies allocated(
            #[trigger] after.children[i],
            hands,
        ) by {
            lemma_normalized_tree_allocated(node.children[i], hands);
        }
    }
}

/// A buffer of `rows` rows of `columns` entries divides evenly into its rows.
pub proof fn lemma_shape_divides(len: int, rows: int, columns: int)
    requires
        0 < rows,
        0 <= columns,
        len == rows * columns,
    ensures
        len % rows == 0,
        len / rows == columns,
{
    assert(rows * columns == columns * rows) by (nonlinear_arith);
    lemma_fundamental_div_mod_converse(len, rows, columns, 0);
}

/// The tree below `node` with the cumulative strategy of every player node
/// normalised. The children of a node are visited in parallel where the
/// node is flagged for it.
pub fn normalized_node(node: GameNode, hands: &[usize; 2]) -> (r: GameNode)
    requires
        allocated(node@, hands@),
    ensures
        r@ == normalized_tree(node@),
    decreases node,
{
    proof {
        node.lemma_view_children();
    }
    if node.is_terminal() {
        return node;
    }
    let ghost before = node;
    let GameNode { kind, player, parallel, strategy, cum_regret, children } = node;
    let mut strategy = strategy;
    if kind == NodeKind::Player {
        proof {
            lemma_shape_divides(
                before@.strategy.len() as int,
                before@.children.len() as int,
                hands@[player as int] as int,
            );
        }
        normalize_rows(&mut strategy, children.len());
    }
    let family: Ghost<Seq<GameNode>> = Ghost(children@);
    let visit = |child: GameNode| -> (after: GameNode)
        requires
            family@.contains(child),
        ensures
            after@ == normalized_tree(child@),
        {
            proof {
                let a = choose|a: int| 0 <= a < family@.len() && family@[a] == child;
                assert(allocated(before@.children[a], hands@));
            }
            normalized_node(child, hands)
        };
    let children = for_each_child(children, parallel, visit);
    let r = GameNode { kind, player, parallel, strategy, cum_regret, children };
    proof {
        r.lemma_view_children();
        assert forall|i: int| 0 <= i < r@.children.len() implies #[trigger] r@.children[i]
            == normalized_tree(before@).children[i] by {
            assert(call_ensures(visit, (family@[i],), children@[i]));
            assert(r@.children[i] == children@[i]@);
            assert(before@.children[i] == family@[i]@);
        }
        assert(r@.children =~= normalized_tree(before@).children);
    }
    r
}

/// Normalizes the cumulative strategy: at every player node of the game,
/// each entry is divided by the sum of its column, so that the node holds
/// the average strategy as probabilities.
pub fn normalize_strategy(game: &mut Game)
    requires
        allocated(old(game)@.root, old(game)@.num_private_hands),
    ensures
        final(game)@.root == normalized_tree(old(game)@.root),
        final(game)@.num_private_hands == old(game)@.num_private_hands,
        allocated(final(game)@.root, final(game)@.num_private_hands),
        columns_sum_to_one(final(game)@.root),
{
    proof {
        lemma_normalized_tree_sums_to_one(game@.root, game@.num_private_hands);
        lemma_normalized_tree_allocated(game@.root, game@.num_private_hands);
    }
    let mut root = GameNode {
        kind: NodeKind::Terminal,
        player: 0,
        parallel: false,
        strategy: Vec::new(),
        cum_regret: Vec::new(),
        children: Vec::new(),
    };
    core::mem::swap(&mut game.root, &mut root);
    let root = normalized_node(root, &game.num_private_hands);
    game.root = root;
}

} // verus!
