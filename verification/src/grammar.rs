//! The grammar model: named rules of weighted branches, and the stochastic
//! derivation engine that expands a rule into a fully resolved expression
//! tree by weighted branch sampling with bounded retries and bounded
//! rule-reference depth.

use crate::node::{spec_unary_name, ArithmeticOp, CompareOp, FnNode, UnaryOp};
use crate::scalar::{spec_scalar_text, Scalar, SCALE};
use vstd::prelude::*;

verus! {

/// One alternative production: an expression template and its weight.
#[derive(Debug)]
pub struct Branch {
    pub node: FnNode,
    pub weight: usize,
}

/// An ordered, non-empty list of branches with the cached weight sum.
#[derive(Debug)]
pub struct Rule {
    pub branches: Vec<Branch>,
    pub weight_sum: usize,
}

/// Named rules in definition order; a rule is referenced by its index.
#[derive(Debug)]
pub struct Grammar {
    pub symbols: Vec<String>,
    pub map: Vec<(String, Rule)>,
}

pub struct GrammarError {
    pub message: String,
    pub range: std::ops::Range<usize>,
}

pub struct RuleError {
    pub message: String,
    pub range: std::ops::Range<usize>,
}

/// A ghost branch: the template and its weight.
pub type BranchS = (FnNode, nat);

/// A ghost rule: its branches.
pub type RuleS = Seq<BranchS>;

/// A ghost grammar: symbol text and rule per index.
pub type GrammarS = Seq<(Seq<char>, RuleS)>;

impl View for Branch {
    type V = BranchS;

    open spec fn view(&self) -> BranchS {
        (self.node, self.weight as nat)
    }
}

impl View for Rule {
    type V = RuleS;

    open spec fn view(&self) -> RuleS {
        self.branches@.map(|i: int, b: Branch| b@)
    }
}

impl View for Grammar {
    type V = GrammarS;

    open spec fn view(&self) -> GrammarS {
        self.map@.map(|i: int, p: (String, Rule)| (p.0@, p.1@))
    }
}

/// The sum of the branch weights.
pub open spec fn sum_weights(bs: RuleS) -> nat
    decreases bs.len(),
{
    if bs.len() == 0 {
        0
    } else {
        sum_weights(bs.drop_last()) + bs.last().1
    }
}

/// The sum of the weights of the first `k` branches.
pub open spec fn cum_weight(bs: RuleS, k: int) -> nat
    decreases k,
{
    if k <= 0 || k > bs.len() {
        0
    } else {
        cum_weight(bs, k - 1) + bs[k - 1].1
    }
}

impl Rule {
    /// The cached sum is correct and every template's scalars are in range.
    pub open spec fn wf(self) -> bool {
        self.weight_sum as nat == sum_weights(self@) && (forall|i: int|
            0 <= i < self@.len() ==> (#[trigger] self@[i]).0.wf())
    }
}

impl Grammar {
    /// Symbols and rules correspond index for index, and every rule is
    /// well-formed.
    pub open spec fn wf(self) -> bool {
        self.symbols@.len() == self.map@.len() && (forall|i: int|
            0 <= i < self.map@.len() ==> (#[trigger] self.symbols@[i])@ == self.map@[i].0@)
            && (forall|i: int| 0 <= i < self.map@.len() ==> (#[trigger] self.map@[i]).1.wf())
    }
}

impl Branch {
    pub fn new(node: FnNode, weight: usize) -> (r: Branch)
        ensures
            r@ == (node, weight as nat),
    {
        Branch { node, weight }
    }
}

/// Add the weights, reporting overflow.
fn sum_weights_exec(branches: &Vec<Branch>) -> (r: Option<usize>)
    ensures
        match r {
            Some(s) => s as nat == sum_weights(branches@.map(|i: int, b: Branch| b@)),
            None => sum_weights(branches@.map(|i: int, b: Branch| b@)) > usize::MAX,
        },
{
    let ghost bs = branches@.map(|i: int, b: Branch| b@);
    let mut acc: usize = 0;
    let mut i: usize = 0;
    while i < branches.len()
        invariant
            i <= branches@.len(),
            bs == branches@.map(|k: int, b: Branch| b@),
            acc as nat == sum_weights(bs.take(i as int)),
        decreases branches@.len() - i,
    {
        let w = branches[i].weight;
        proof {
            assert(bs.take(i as int + 1).drop_last() =~= bs.take(i as int));
            assert(bs.take(i as int + 1).last() == bs[i as int]);
        }
        if w > usize::MAX - acc {
            proof {
                lemma_cum_monotone(bs, i as int + 1, bs.len() as int);
                assert(bs.take(i as int + 1) =~= bs.subrange(0, i as int + 1));
                assert(bs.take(bs.len() as int) =~= bs);
            }
            return None;
        }
        acc = acc + w;
        i = i + 1;
    }
    proof {
        assert(bs.take(bs.len() as int) =~= bs);
    }
    Some(acc)
}

/// Prefix sums only grow: the sum of a longer prefix is at least the sum of
/// a shorter one.
pub proof fn lemma_cum_monotone(bs: RuleS, j: int, k: int)
    requires
        0 <= j <= k <= bs.len(),
    ensures
        sum_weights(bs.subrange(0, j)) <= sum_weights(bs.subrange(0, k)),
    decreases k - j,
{
    if j < k {
        lemma_cum_monotone(bs, j, k - 1);
        assert(bs.subrange(0, k).drop_last() =~= bs.subrange(0, k - 1));
    }
}

/// The cumulative weight of a full prefix is the whole sum.
pub proof fn lemma_cum_all(bs: RuleS, k: int)
    requires
        0 <= k <= bs.len(),
    ensures
        cum_weight(bs, k) == sum_weights(bs.subrange(0, k)),
    decreases k,
{
    if k > 0 {
        lemma_cum_all(bs, k - 1);
        assert(bs.subrange(0, k).drop_last() =~= bs.subrange(0, k - 1));
        assert(bs.subrange(0, k).last() == bs[k - 1]);
    }
}

impl Rule {
    pub fn new(branches: Vec<Branch>) -> (r: Option<Rule>)
        ensures
            r matches Some(rule) ==> rule@ == branches@.map(|i: int, b: Branch| b@)
                && rule.weight_sum as nat == sum_weights(rule@),
            r is None <==> sum_weights(branches@.map(|i: int, b: Branch| b@)) > usize::MAX,
    {
        let sum = sum_weights_exec(&branches);
        match sum {
            Some(weight_sum) => Some(Rule { branches, weight_sum }),
            None => None,
        }
    }
}

impl Grammar {
    pub fn new() -> (r: Grammar)
        ensures
            r@ == Seq::<(Seq<char>, RuleS)>::empty(),
            r.wf(),
            r.symbols@.len() == 0,
    {
        let r = Grammar { symbols: Vec::new(), map: Vec::new() };
        proof {
            assert(r@ =~= Seq::<(Seq<char>, RuleS)>::empty());
        }
        r
    }

    /// Append a named rule. Rejected when the branch list is empty, as the
    /// grammar invariant demands, or when the weights do not sum within the
    /// machine's range.
    pub fn add_rule(&mut self, branches: Vec<Branch>, symbol: String) -> (r: Result<
        (),
        &'static str,
    >)
        requires
            old(self).wf(),
            forall|i: int| 0 <= i < branches@.len() ==> (#[trigger] branches@[i]).node.wf(),
        ensures
            final(self).wf(),
            r is Ok <==> branches@.len() > 0 && sum_weights(
                branches@.map(|i: int, b: Branch| b@),
            ) <= usize::MAX,
            r is Ok ==> final(self)@ == old(self)@.push(
                (symbol@, branches@.map(|i: int, b: Branch| b@)),
            ),
            r is Err ==> *final(self) == *old(self),
    {
        if branches.len() == 0 {
            proof {
                assert(branches@.map(|i: int, b: Branch| b@) =~= Seq::<BranchS>::empty());
            }
            return Err("Empty rule branches");
        }
        let ghost bs = branches@.map(|i: int, b: Branch| b@);
        match Rule::new(branches) {
            Some(rule) => {
                let ghost old_view = self@;
                self.symbols.push(symbol.clone());
                self.map.push((symbol, rule));
                proof {
                    assert(self@ =~= old_view.push((self.map@.last().0@, bs)));
                }
                Ok(())
            },
            None => Err("Rule weights overflow"),
        }
    }
}

/// Relies on `rand::random` with the `StandardUniform` distribution: one
/// uniformly distributed `u32`. Nothing is promised of any single draw.
#[verifier::external_body]
fn random_u32() -> u32 {
    rand::random::<u32>()
}

/// A fresh `Random` resolution: a scalar in `[-1, 1)`, from one uniform
/// draw remapped linearly onto that interval.
fn random_scalar() -> (r: Scalar)
    ensures
        r matches Scalar::Num(v) && -SCALE <= v < SCALE,
        r.wf(),
{
    let u = random_u32();
    let scaled: u64 = ((u as u64) * 2_000_000) / 4_294_967_296;
    proof {
        assert(scaled < 2_000_000) by (nonlinear_arith)
            requires
                scaled as int == (u as int) * 2_000_000 / 4_294_967_296,
                u <= 0xffff_ffffu32,
        ;
    }
    Scalar::Num((scaled as i64) - SCALE)
}

/// The index the inverse-CDF selection picks for draw `r`: the first branch
/// whose cumulative weight, scaled by `2^32`, reaches `r` times the weight
/// sum; the last branch if none earlier does.
pub open spec fn spec_pick_from(bs: RuleS, total: nat, r: nat, i: int) -> int
    decreases bs.len() - i,
{
    if i < 0 || i >= bs.len() - 1 {
        bs.len() - 1
    } else if cum_weight(bs, i + 1) * 0x1_0000_0000 >= r * total {
        i
    } else {
        spec_pick_from(bs, total, r, i + 1)
    }
}

pub open spec fn spec_pick(bs: RuleS, total: nat, r: nat) -> int {
    spec_pick_from(bs, total, r, 0)
}

/// The selected branch's probability window covers the draw: the draw value
/// scaled by the weight sum lies above the cumulative weight before the
/// branch and at or below the cumulative weight through it. Together with
/// `lemma_pick_unique` this says a branch is selected exactly when the draw
/// falls into its window of `[0, 1)`, whose width is its weight's share.
pub proof fn lemma_pick_in_window(bs: RuleS, total: nat, r: nat)
    requires
        bs.len() > 0,
        total == sum_weights(bs),
        r < 0x1_0000_0000,
    ensures
        0 <= spec_pick(bs, total, r) < bs.len(),
        spec_pick(bs, total, r) > 0 ==> cum_weight(bs, spec_pick(bs, total, r)) * 0x1_0000_0000
            < r * total,
        cum_weight(bs, spec_pick(bs, total, r) + 1) * 0x1_0000_0000 >= r * total,
{
    lemma_pick_in_window_from(bs, total, r, 0);
}

proof fn lemma_pick_in_window_from(bs: RuleS, total: nat, r: nat, i: int)
    requires
        bs.len() > 0,
        total == sum_weights(bs),
        r < 0x1_0000_0000,
        0 <= i < bs.len(),
        i > 0 ==> cum_weight(bs, i) * 0x1_0000_0000 < r * total,
    ensures
        i <= spec_pick_from(bs, total, r, i) < bs.len(),
        spec_pick_from(bs, total, r, i) > 0 ==> cum_weight(bs, spec_pick_from(bs, total, r, i))
            * 0x1_0000_0000 < r * total,
        cum_weight(bs, spec_pick_from(bs, total, r, i) + 1) * 0x1_0000_0000 >= r * total,
    decreases bs.len() - i,
{
    if i >= bs.len() - 1 {
        lemma_cum_all(bs, bs.len() as int);
        assert(bs.subrange(0, bs.len() as int) =~= bs);
        assert(cum_weight(bs, bs.len() as int) * 0x1_0000_0000 >= r * total) by (nonlinear_arith)
            requires
                cum_weight(bs, bs.len() as int) == total,
                r < 0x1_0000_0000,
        ;
    } else if cum_weight(bs, i + 1) * 0x1_0000_0000 >= r * total {
    } else {
        lemma_pick_in_window_from(bs, total, r, i + 1);
    }
}

/// Only one branch's window covers a draw: any index whose window covers
/// the draw is the selected one.
pub proof fn lemma_pick_unique(bs: RuleS, total: nat, r: nat, q: int)
    requires
        bs.len() > 0,
        total == sum_weights(bs),
        r < 0x1_0000_0000,
        0 <= q < bs.len(),
        q > 0 ==> cum_weight(bs, q) * 0x1_0000_0000 < r * total,
        cum_weight(bs, q + 1) * 0x1_0000_0000 >= r * total,
    ensures
        spec_pick(bs, total, r) == q,
{
    lemma_pick_unique_from(bs, total, r, q, 0);
}

proof fn lemma_pick_unique_from(bs: RuleS, total: nat, r: nat, q: int, i: int)
    requires
        bs.len() > 0,
        total == sum_weights(bs),
        r < 0x1_0000_0000,
        0 <= i <= q < bs.len(),
        q > 0 ==> cum_weight(bs, q) * 0x1_0000_0000 < r * total,
        cum_weight(bs, q + 1) * 0x1_0000_0000 >= r * total,
    ensures
        spec_pick_from(bs, total, r, i) == q,
    decreases bs.len() - i,
{
    if i < q {
        lemma_cum_monotone_windows(bs, i + 1, q);
        lemma_pick_unique_from(bs, total, r, q, i + 1);
        assert(cum_weight(bs, i + 1) * 0x1_0000_0000 < r * total) by (nonlinear_arith)
            requires
                cum_weight(bs, i + 1) <= cum_weight(bs, q),
                cum_weight(bs, q) * 0x1_0000_0000 < r * total,
        ;
    }
}

/// Cumulative weights grow with the prefix length.
pub proof fn lemma_cum_monotone_windows(bs: RuleS, j: int, k: int)
    requires
        0 <= j <= k <= bs.len(),
    ensures
        cum_weight(bs, j) <= cum_weight(bs, k),
    decreases k - j,
{
    if j < k {
        lemma_cum_monotone_windows(bs, j, k - 1);
    }
}

/// The first branch whose cumulative weight window, scaled by `2^32`,
/// reaches `r * weight_sum`: inverse-CDF selection over the partition of
/// `[0, 1)` in proportion to the branch weights.
pub fn pick_branch(rule: &Rule, r: u32) -> (idx: usize)
    requires
        rule.wf(),
        rule.branches@.len() > 0,
    ensures
        idx < rule@.len(),
        (cum_weight(rule@, idx as int + 1) as int) * 0x1_0000_0000 >= (r as int) * (
        rule.weight_sum as int),
        forall|j: int|
            0 <= j < idx ==> (#[trigger] cum_weight(rule@, j + 1) as int) * 0x1_0000_0000 < (
            r as int) * (rule.weight_sum as int),
        idx as int == spec_pick(rule@, rule.weight_sum as nat, r as nat),
{
    let ghost bs = rule@;
    let total = rule.weight_sum;
    proof {
        assert((r as int) * (total as int) <= 0xffff_ffff * 0xffff_ffff_ffff_ffff)
            by (nonlinear_arith)
            requires
                r <= 0xffff_ffffu32,
                total as int <= 0xffff_ffff_ffff_ffff,
        ;
    }
    let target: u128 = (r as u128) * (total as u128);
    let mut acc: usize = 0;
    let mut i: usize = 0;
    let n = rule.branches.len();
    while i < n - 1
        invariant
            rule.wf(),
            bs == rule@,
            n == rule.branches@.len(),
            n >= 1,
            i <= n - 1,
            total == rule.weight_sum,
            target == (r as int) * (total as int),
            acc as nat == cum_weight(bs, i as int),
            acc <= usize::MAX,
            forall|j: int|
                0 <= j < i ==> (#[trigger] cum_weight(bs, j + 1) as int) * 0x1_0000_0000 < (
                r as int) * (total as int),
        decreases n - i,
    {
        let w = rule.branches[i].weight;
        proof {
            lemma_cum_all(bs, i as int + 1);
            lemma_cum_all(bs, bs.len() as int);
            lemma_cum_monotone(bs, i as int + 1, bs.len() as int);
            assert(bs.subrange(0, bs.len() as int) =~= bs);
            assert(bs[i as int].1 == w as nat);
        }
        let next: usize = acc + w;
        if (next as u128) * 0x1_0000_0000 >= target {
            proof {
                if i > 0 {
                    assert((cum_weight(bs, (i - 1) as int + 1) as int) * 0x1_0000_0000 < (
                    r as int) * (total as int));
                }
                lemma_pick_unique(bs, total as nat, r as nat, i as int);
            }
            return i;
        }
        acc = next;
        i = i + 1;
    }
    proof {
        lemma_cum_all(bs, bs.len() as int);
        lemma_cum_monotone(bs, i as int + 1, bs.len() as int);
        assert(bs.subrange(0, bs.len() as int) =~= bs);
        // The final window always covers the draw: the full cumulative sum
        // times 2^32 is at least r * total because r < 2^32.
        assert((cum_weight(bs, bs.len() as int) as int) * 0x1_0000_0000 >= (r as int) * (
        rule.weight_sum as int)) by (nonlinear_arith)
            requires
                cum_weight(bs, bs.len() as int) == rule.weight_sum as nat,
                r < 0x1_0000_0000,
        ;
        if n >= 2 {
            assert((cum_weight(bs, (n - 2) as int + 1) as int) * 0x1_0000_0000 < (r as int) * (
            total as int));
        }
        lemma_pick_unique(bs, total as nat, r as nat, n - 1 as int);
    }
    n - 1
}


/// The derivation relation: `out` is one resolution of the template `t`
/// within grammar `g` under the given depth budget. Terminals resolve to
/// themselves, `Random` to some scalar in `[-1, 1)`, operators resolve their
/// children, and a rule reference resolves to a resolution of one of the
/// referenced rule's own branch templates, one depth level down.
pub open spec fn resolves_node(g: GrammarS, t: FnNode, out: FnNode, depth: nat) -> bool
    decreases depth, 0nat, height(t),
{
    match t {
        FnNode::X => out == FnNode::X,
        FnNode::Y => out == FnNode::Y,
        FnNode::T => out == FnNode::T,
        FnNode::Number(v) => out == FnNode::Number(v),
        FnNode::Boolean(b) => out == FnNode::Boolean(b),
        FnNode::Random => out matches FnNode::Number(s) && s matches Scalar::Num(v) && -SCALE <= v
            < SCALE,
        FnNode::Unary(op, e) => out matches FnNode::Unary(op2, e2) && op2 == op && resolves_node(
            g,
            *e,
            *e2,
            depth,
        ),
        FnNode::Arithmetic(a, op, b) => out matches FnNode::Arithmetic(a2, op2, b2) && op2 == op
            && resolves_node(g, *a, *a2, depth) && resolves_node(g, *b, *b2, depth),
        FnNode::Compare(a, op, b) => out matches FnNode::Compare(a2, op2, b2) && op2 == op
            && resolves_node(g, *a, *a2, depth) && resolves_node(g, *b, *b2, depth),
        FnNode::If(a, b, c) => out matches FnNode::If(a2, b2, c2) && resolves_node(g, *a, *a2, depth)
            && resolves_node(g, *b, *b2, depth) && resolves_node(g, *c, *c2, depth),
        FnNode::Triple(a, b, c) => out matches FnNode::Triple(a2, b2, c2) && resolves_node(
            g,
            *a,
            *a2,
            depth,
        ) && resolves_node(g, *b, *b2, depth) && resolves_node(g, *c, *c2, depth),
        FnNode::Rule(idx) => depth >= 1 && resolves_rule(g, idx as int, out, (depth - 1) as nat),
    }
}

/// `out` is a resolution of one of rule `idx`'s branch templates.
pub open spec fn resolves_rule(g: GrammarS, idx: int, out: FnNode, depth: nat) -> bool
    decreases depth, 1nat, 0nat,
{
    depth >= 1 && 0 <= idx < g.len() && exists|b: int|
        0 <= b < g[idx].1.len() && resolves_node(g, (#[trigger] g[idx].1[b]).0, out, depth)
}

/// The template `t` resolves under every draw within the depth budget:
/// terminals and `Random` always resolve, operators resolve when all their
/// children do, and a rule reference resolves when the budget allows and the
/// referenced rule always resolves one level down. Where this holds, no
/// retry is ever needed and derivation cannot fail.
pub open spec fn always_resolves_node(g: GrammarS, t: FnNode, depth: nat) -> bool
    decreases depth, 0nat, height(t),
{
    match t {
        FnNode::X | FnNode::Y | FnNode::T | FnNode::Number(_) | FnNode::Boolean(_)
            | FnNode::Random => true,
        FnNode::Unary(_, e) => always_resolves_node(g, *e, depth),
        FnNode::Arithmetic(a, _, b) => always_resolves_node(g, *a, depth) && always_resolves_node(
            g,
            *b,
            depth,
        ),
        FnNode::Compare(a, _, b) => always_resolves_node(g, *a, depth) && always_resolves_node(
            g,
            *b,
            depth,
        ),
        FnNode::If(a, b, c) => always_resolves_node(g, *a, depth) && always_resolves_node(
            g,
            *b,
            depth,
        ) && always_resolves_node(g, *c, depth),
        FnNode::Triple(a, b, c) => always_resolves_node(g, *a, depth) && always_resolves_node(
            g,
            *b,
            depth,
        ) && always_resolves_node(g, *c, depth),
        FnNode::Rule(idx) => depth >= 1 && always_resolves_rule(g, idx as int, (depth - 1) as nat),
    }
}

/// Every branch template of rule `idx` resolves under every draw within the
/// depth budget, so whichever branch the draw selects, the trial succeeds.
pub open spec fn always_resolves_rule(g: GrammarS, idx: int, depth: nat) -> bool
    decreases depth, 1nat, 0nat,
{
    depth >= 1 && 0 <= idx < g.len() && g[idx].1.len() > 0 && (forall|b: int|
        0 <= b < g[idx].1.len() ==> always_resolves_node(g, (#[trigger] g[idx].1[b]).0, depth))
}

/// The height of an expression tree, for the derivation termination measure.
pub open spec fn height(n: FnNode) -> nat
    decreases n,
{
    match n {
        FnNode::Unary(_, e) => 1 + height(*e),
        FnNode::Arithmetic(a, _, b) => (1 + vstd::math::max(
            height(*a) as int,
            height(*b) as int,
        )) as nat,
        FnNode::Compare(a, _, b) => (1 + vstd::math::max(
            height(*a) as int,
            height(*b) as int,
        )) as nat,
        FnNode::If(a, b, c) => (1 + vstd::math::max(
            height(*a) as int,
            vstd::math::max(height(*b) as int, height(*c) as int),
        )) as nat,
        FnNode::Triple(a, b, c) => (1 + vstd::math::max(
            height(*a) as int,
            vstd::math::max(height(*b) as int, height(*c) as int),
        )) as nat,
        _ => 0,
    }
}

impl Grammar {
    /// Derive one concrete expression from the rule at `rule_idx`: up to 100
    /// independent trials each draw a branch by weight and try to resolve it.
    /// Fails on a zero depth budget, an out-of-range index, or when every
    /// trial fails; any success is a fully resolved, well-formed derivation
    /// of the rule. On a rule whose every branch resolves under every draw
    /// within the budget, the very first trial succeeds, so derivation
    /// cannot fail.
    pub fn gen_from_rule(&self, rule_idx: usize, depth: usize) -> (r: Option<FnNode>)
        requires
            self.wf(),
        ensures
            depth == 0 ==> r is None,
            rule_idx >= self@.len() ==> r is None,
            r matches Some(n) ==> n.is_resolved() && n.wf() && resolves_rule(
                self@,
                rule_idx as int,
                n,
                depth as nat,
            ),
            always_resolves_rule(self@, rule_idx as int, depth as nat) ==> r is Some,
        decreases depth, 1nat, 0nat,
    {
        if depth == 0 || rule_idx >= self.map.len() {
            return None;
        }
        let rule = &self.map[rule_idx].1;
        if rule.branches.len() == 0 {
            return None;
        }
        let mut attempts: i32 = 100;
        while attempts > 0
            invariant
                self.wf(),
                rule == self.map@[rule_idx as int].1,
                rule.branches@.len() > 0,
                rule_idx < self.map@.len(),
                depth >= 1,
                attempts < 100 ==> !always_resolves_rule(self@, rule_idx as int, depth as nat),
            decreases attempts,
        {
            let p = random_u32();
            let chosen = pick_branch(rule, p);
            let node = self.gen_node(&rule.branches[chosen].node, depth);
            match node {
                Some(n) => {
                    proof {
                        assert(self@[rule_idx as int].1[chosen as int].0
                            == rule.branches@[chosen as int].node);
                        assert(resolves_node(
                            self@,
                            self@[rule_idx as int].1[chosen as int].0,
                            n,
                            depth as nat,
                        ));
                    }
                    return Some(n);
                },
                None => {
                    proof {
                        // A failed trial refutes draw-independent success: the
                        // selected branch template did not always resolve.
                        assert(self@[rule_idx as int].1[chosen as int].0
                            == rule.branches@[chosen as int].node);
                        if always_resolves_rule(self@, rule_idx as int, depth as nat) {
                            assert(always_resolves_node(
                                self@,
                                self@[rule_idx as int].1[chosen as int].0,
                                depth as nat,
                            ));
                        }
                    }
                },
            }
            attempts = attempts - 1;
        }
        None
    }

    /// Resolve a branch template: terminals stay, `Random` becomes a fresh
    /// scalar in `[-1, 1)`, operators resolve their children, and a rule
    /// reference recurses with one less level of depth budget. A template
    /// that resolves under every draw within the budget always succeeds; in
    /// particular, a template without rule references always succeeds.
    pub fn gen_node(&self, node: &FnNode, depth: usize) -> (r: Option<FnNode>)
        requires
            self.wf(),
            node.wf(),
            depth >= 1,
        ensures
            r matches Some(n) ==> n.is_resolved() && n.wf() && resolves_node(
                self@,
                *node,
                n,
                depth as nat,
            ),
            always_resolves_node(self@, *node, depth as nat) ==> r is Some,
        decreases depth, 0nat, height(*node),
    {
        match node {
            FnNode::X => Some(FnNode::X),
            FnNode::Y => Some(FnNode::Y),
            FnNode::T => Some(FnNode::T),
            FnNode::Number(v) => Some(FnNode::Number(*v)),
            FnNode::Boolean(b) => Some(FnNode::Boolean(*b)),
            FnNode::Random => Some(FnNode::Number(random_scalar())),
            FnNode::Unary(op, expr) => {
                let e = self.gen_node(expr, depth)?;
                Some(FnNode::Unary(*op, Box::new(e)))
            },
            FnNode::Arithmetic(lhs, op, rhs) => {
                let l = self.gen_node(lhs, depth)?;
                let rr = self.gen_node(rhs, depth)?;
                Some(FnNode::Arithmetic(Box::new(l), *op, Box::new(rr)))
            },
            FnNode::Compare(lhs, op, rhs) => {
                let l = self.gen_node(lhs, depth)?;
                let rr = self.gen_node(rhs, depth)?;
                Some(FnNode::Compare(Box::new(l), *op, Box::new(rr)))
            },
            FnNode::Triple(first, second, third) => {
                let f = self.gen_node(first, depth)?;
                let s = self.gen_node(second, depth)?;
                let t = self.gen_node(third, depth)?;
                Some(FnNode::Triple(Box::new(f), Box::new(s), Box::new(t)))
            },
            FnNode::If(first, second, third) => {
                let f = self.gen_node(first, depth)?;
                let s = self.gen_node(second, depth)?;
                let t = self.gen_node(third, depth)?;
                Some(FnNode::If(Box::new(f), Box::new(s), Box::new(t)))
            },
            FnNode::Rule(rule_idx) => self.gen_from_rule(*rule_idx, depth - 1),
        }
    }
}

/// The built-in default grammar: an entry rule of two `vec3` triples over
/// the terminal rule and the expression rule, the terminal rule of
/// coordinates, time, a random constant and a distance expression, and the
/// weighted expression rule.
pub open spec fn spec_default_grammar() -> GrammarS {
    seq![
        (
            "E"@,
            seq![
                (
                    FnNode::Triple(
                        Box::new(FnNode::Rule(2)),
                        Box::new(FnNode::Rule(2)),
                        Box::new(FnNode::Rule(2)),
                    ),
                    1nat,
                ),
                (
                    FnNode::Triple(
                        Box::new(FnNode::Rule(1)),
                        Box::new(FnNode::Rule(2)),
                        Box::new(FnNode::Rule(1)),
                    ),
                    1nat,
                ),
            ],
        ),
        (
            "A"@,
            seq![
                (FnNode::Random, 1nat),
                (FnNode::X, 1nat),
                (FnNode::Y, 1nat),
                (FnNode::T, 1nat),
                (
                    FnNode::Unary(
                        UnaryOp::Sqrt,
                        Box::new(
                            FnNode::Arithmetic(
                                Box::new(
                                    FnNode::Arithmetic(
                                        Box::new(FnNode::X),
                                        ArithmeticOp::Mul,
                                        Box::new(FnNode::X),
                                    ),
                                ),
                                ArithmeticOp::Add,
                                Box::new(
                                    FnNode::Arithmetic(
                                        Box::new(FnNode::Y),
                                        ArithmeticOp::Mul,
                                        Box::new(FnNode::Y),
                                    ),
                                ),
                            ),
                        ),
                    ),
                    2nat,
                ),
            ],
        ),
        (
            "C"@,
            seq![
                (FnNode::Rule(1), 2nat),
                (
                    FnNode::Arithmetic(
                        Box::new(FnNode::Rule(2)),
                        ArithmeticOp::Add,
                        Box::new(FnNode::Rule(2)),
                    ),
                    3nat,
                ),
                (
                    FnNode::Arithmetic(
                        Box::new(FnNode::Rule(2)),
                        ArithmeticOp::Mul,
                        Box::new(FnNode::Rule(2)),
                    ),
                    3nat,
                ),
                (
                    FnNode::Unary(
                        UnaryOp::Sqrt,
                        Box::new(FnNode::Unary(UnaryOp::Abs, Box::new(FnNode::Rule(2)))),
                    ),
                    3nat,
                ),
            ],
        ),
    ]
}

/// Appending one branch adds its weight to the sum.
pub proof fn lemma_sum_push(s: RuleS, b: BranchS)
    ensures
        sum_weights(s.push(b)) == sum_weights(s) + b.1,
{
    assert(s.push(b).drop_last() =~= s);
    assert(s.push(b).last() == b);
}

impl Default for Grammar {
    /// The default grammar, used when no grammar text is given.
    fn default() -> (r: Grammar)
        ensures
            r.wf(),
            r@ == spec_default_grammar(),
    {
        let mut grammar = Grammar::new();

        let mut bs_e: Vec<Branch> = Vec::new();
        bs_e.push(
            Branch::new(
                FnNode::triple(FnNode::Rule(2), FnNode::Rule(2), FnNode::Rule(2)),
                1,
            ),
        );
        bs_e.push(
            Branch::new(
                FnNode::triple(FnNode::Rule(1), FnNode::Rule(2), FnNode::Rule(1)),
                1,
            ),
        );
        let ghost ve = bs_e@.map(|i: int, b: Branch| b@);
        proof {
            assert(FnNode::Rule(1).wf() && FnNode::Rule(2).wf());
            assert(ve[0].0.wf() && ve[1].0.wf());
            assert(forall|i: int| 0 <= i < bs_e@.len() ==> (#[trigger] bs_e@[i]).node.wf());
            assert(ve =~= spec_default_grammar()[0].1);
            assert(ve =~= ve.take(1).push(ve[1]));
            assert(ve.take(1) =~= Seq::<BranchS>::empty().push(ve[0]));
            lemma_sum_push(Seq::<BranchS>::empty(), ve[0]);
            lemma_sum_push(ve.take(1), ve[1]);
            assert(sum_weights(ve) == 2);
        }
        let res_e = grammar.add_rule(bs_e, String::from_str("E"));

        let mut bs_a: Vec<Branch> = Vec::new();
        bs_a.push(Branch::new(FnNode::Random, 1));
        bs_a.push(Branch::new(FnNode::X, 1));
        bs_a.push(Branch::new(FnNode::Y, 1));
        bs_a.push(Branch::new(FnNode::T, 1));
        bs_a.push(
            Branch::new(
                FnNode::unary(
                    UnaryOp::Sqrt,
                    FnNode::arithmetic(
                        FnNode::arithmetic(FnNode::X, ArithmeticOp::Mul, FnNode::X),
                        ArithmeticOp::Add,
                        FnNode::arithmetic(FnNode::Y, ArithmeticOp::Mul, FnNode::Y),
                    ),
                ),
                2,
            ),
        );
        let ghost va = bs_a@.map(|i: int, b: Branch| b@);
        proof {
            assert(FnNode::X.wf() && FnNode::Y.wf() && FnNode::T.wf() && FnNode::Random.wf());
            let ghost xx = FnNode::Arithmetic(
                Box::new(FnNode::X),
                ArithmeticOp::Mul,
                Box::new(FnNode::X),
            );
            let ghost yy = FnNode::Arithmetic(
                Box::new(FnNode::Y),
                ArithmeticOp::Mul,
                Box::new(FnNode::Y),
            );
            assert(xx.wf() && yy.wf());
            let ghost dist = FnNode::Arithmetic(Box::new(xx), ArithmeticOp::Add, Box::new(yy));
            assert(dist.wf());
            assert(va[4].0.wf());
            assert(forall|i: int| 0 <= i < bs_a@.len() ==> (#[trigger] bs_a@[i]).node.wf());
            assert(va =~= spec_default_grammar()[1].1);
            assert(va.take(1) =~= Seq::<BranchS>::empty().push(va[0]));
            assert(va.take(2) =~= va.take(1).push(va[1]));
            assert(va.take(3) =~= va.take(2).push(va[2]));
            assert(va.take(4) =~= va.take(3).push(va[3]));
            assert(va =~= va.take(4).push(va[4]));
            lemma_sum_push(Seq::<BranchS>::empty(), va[0]);
            lemma_sum_push(va.take(1), va[1]);
            lemma_sum_push(va.take(2), va[2]);
            lemma_sum_push(va.take(3), va[3]);
            lemma_sum_push(va.take(4), va[4]);
            assert(sum_weights(va) == 6);
        }
        let res_a = grammar.add_rule(bs_a, String::from_str("A"));

        let mut bs_c: Vec<Branch> = Vec::new();
        bs_c.push(Branch::new(FnNode::Rule(1), 2));
        bs_c.push(
            Branch::new(
                FnNode::arithmetic(FnNode::Rule(2), ArithmeticOp::Add, FnNode::Rule(2)),
                3,
            ),
        );
        bs_c.push(
            Branch::new(
                FnNode::arithmetic(FnNode::Rule(2), ArithmeticOp::Mul, FnNode::Rule(2)),
                3,
            ),
        );
        bs_c.push(
            Branch::new(
                FnNode::unary(UnaryOp::Sqrt, FnNode::unary(UnaryOp::Abs, FnNode::Rule(2))),
                3,
            ),
        );
        let ghost vc = bs_c@.map(|i: int, b: Branch| b@);
        proof {
            assert(FnNode::Rule(1).wf() && FnNode::Rule(2).wf());
            assert(vc[1].0.wf() && vc[2].0.wf());
            let ghost absn = FnNode::Unary(UnaryOp::Abs, Box::new(FnNode::Rule(2)));
            assert(absn.wf());
            assert(vc[3].0.wf());
            assert(forall|i: int| 0 <= i < bs_c@.len() ==> (#[trigger] bs_c@[i]).node.wf());
            assert(vc =~= spec_default_grammar()[2].1);
            assert(vc.take(1) =~= Seq::<BranchS>::empty().push(vc[0]));
            assert(vc.take(2) =~= vc.take(1).push(vc[1]));
            assert(vc.take(3) =~= vc.take(2).push(vc[2]));
            assert(vc =~= vc.take(3).push(vc[3]));
            lemma_sum_push(Seq::<BranchS>::empty(), vc[0]);
            lemma_sum_push(vc.take(1), vc[1]);
            lemma_sum_push(vc.take(2), vc[2]);
            lemma_sum_push(vc.take(3), vc[3]);
            assert(sum_weights(vc) == 11);
        }
        let res_c = grammar.add_rule(bs_c, String::from_str("C"));

        proof {
            assert(grammar@ =~= spec_default_grammar());
        }
        grammar
    }
}


/// The serialized name of an arithmetic operator, with the opening
/// parenthesis of its call form.
pub open spec fn spec_arith_fn_name(op: ArithmeticOp) -> Seq<char> {
    match op {
        ArithmeticOp::Add => "add("@,
        ArithmeticOp::Sub => "sub("@,
        ArithmeticOp::Mul => "mult("@,
        ArithmeticOp::Div => "div("@,
        ArithmeticOp::Mod => "mod("@,
    }
}

/// The serialized word of a comparison operator.
pub open spec fn spec_compare_word(op: CompareOp) -> Seq<char> {
    match op {
        CompareOp::GreaterThan => " gt "@,
        CompareOp::LessThan => " lt "@,
        CompareOp::GreaterThanEqual => " gte "@,
        CompareOp::LessThanEqual => " lte "@,
        CompareOp::Equal => " eq "@,
        CompareOp::NotEqual => " neq "@,
    }
}

/// The grammar-text form of one expression template. A rule reference is
/// written as the referenced rule's own symbol, so that re-parsing the text
/// resolves it back to the same index; an out-of-range reference falls back
/// to the bare word `rule`.
pub open spec fn spec_node_text(n: FnNode, syms: Seq<Seq<char>>) -> Seq<char>
    decreases n,
{
    match n {
        FnNode::X => "x"@,
        FnNode::Y => "y"@,
        FnNode::T => "t"@,
        FnNode::Random => "random"@,
        FnNode::Boolean(b) => if b {
            "true"@
        } else {
            "false"@
        },
        FnNode::Number(v) => spec_scalar_text(v),
        FnNode::Rule(i) => if i < syms.len() {
            syms[i as int]
        } else {
            "rule"@
        },
        FnNode::Arithmetic(a, op, b) => spec_arith_fn_name(op) + spec_node_text(*a, syms) + ", "@
            + spec_node_text(*b, syms) + ")"@,
        FnNode::Compare(a, op, b) => "("@ + spec_node_text(*a, syms) + spec_compare_word(op)
            + spec_node_text(*b, syms) + ")"@,
        FnNode::Unary(op, e) => spec_unary_name(op) + spec_node_text(*e, syms) + ")"@,
        FnNode::If(c, t, e) => "if("@ + spec_node_text(*c, syms) + ", "@ + spec_node_text(*t, syms)
            + ", "@ + spec_node_text(*e, syms) + ")"@,
        FnNode::Triple(a, b, c) => "vec3("@ + spec_node_text(*a, syms) + ", "@ + spec_node_text(
            *b,
            syms,
        ) + ", "@ + spec_node_text(*c, syms) + ")"@,
    }
}

/// A run of `w` weight-marker pipes.
pub open spec fn spec_pipes_text(w: nat) -> Seq<char>
    decreases w,
{
    if w == 0 {
        Seq::<char>::empty()
    } else {
        spec_pipes_text((w - 1) as nat) + "|"@
    }
}

/// One branch line: the weight pipes, then the template. A bare `vec3`
/// branch is written immediately after its pipes; any other template gets a
/// separating space and a line break.
pub open spec fn spec_branch_text(b: BranchS, syms: Seq<Seq<char>>) -> Seq<char> {
    spec_pipes_text(b.1) + (if b.0 is Triple {
        spec_node_text(b.0, syms)
    } else {
        " "@ + spec_node_text(b.0, syms) + "\n"@
    })
}

pub open spec fn spec_branches_text(bs: RuleS, i: int, syms: Seq<Seq<char>>) -> Seq<char>
    decreases bs.len() - i,
{
    if i < 0 || i >= bs.len() {
        Seq::<char>::empty()
    } else {
        spec_branch_text(bs[i], syms) + spec_branches_text(bs, i + 1, syms)
    }
}

/// One rule: its head symbol on a line of its own, its branches, and the
/// terminator.
pub open spec fn spec_rule_text(name: Seq<char>, bs: RuleS, syms: Seq<Seq<char>>) -> Seq<char> {
    name + "\n"@ + spec_branches_text(bs, 0, syms) + ";\n"@
}

/// The symbols of a grammar, in definition order.
pub open spec fn grammar_names(g: GrammarS) -> Seq<Seq<char>> {
    g.map(|i: int, p: (Seq<char>, RuleS)| p.0)
}

pub open spec fn spec_grammar_text_from(g: GrammarS, i: int, syms: Seq<Seq<char>>) -> Seq<char>
    decreases g.len() - i,
{
    if i < 0 || i >= g.len() {
        Seq::<char>::empty()
    } else {
        spec_rule_text(g[i].0, g[i].1, syms) + spec_grammar_text_from(g, i + 1, syms)
    }
}

/// The textual form of a whole grammar.
pub open spec fn spec_grammar_text(g: GrammarS) -> Seq<char> {
    spec_grammar_text_from(g, 0, grammar_names(g))
}

fn arith_fn_name(op: ArithmeticOp) -> (r: &'static str)
    ensures
        r@ == spec_arith_fn_name(op),
{
    match op {
        ArithmeticOp::Add => "add(",
        ArithmeticOp::Sub => "sub(",
        ArithmeticOp::Mul => "mult(",
        ArithmeticOp::Div => "div(",
        ArithmeticOp::Mod => "mod(",
    }
}

fn compare_word(op: CompareOp) -> (r: &'static str)
    ensures
        r@ == spec_compare_word(op),
{
    match op {
        CompareOp::GreaterThan => " gt ",
        CompareOp::LessThan => " lt ",
        CompareOp::GreaterThanEqual => " gte ",
        CompareOp::LessThanEqual => " lte ",
        CompareOp::Equal => " eq ",
        CompareOp::NotEqual => " neq ",
    }
}

fn unary_fn_name(op: UnaryOp) -> (r: &'static str)
    ensures
        r@ == spec_unary_name(op),
{
    match op {
        UnaryOp::Sqrt => "sqrt(",
        UnaryOp::Abs => "abs(",
        UnaryOp::Sin => "sin(",
        UnaryOp::Cos => "cos(",
        UnaryOp::Tan => "tan(",
    }
}

#[verifier::rlimit(100)]
fn push_node_text(out: &mut String, n: &FnNode, symbols: &Vec<String>)
    requires
        n.wf(),
    ensures
        final(out)@ == old(out)@ + spec_node_text(*n, symbols.deep_view()),
    decreases *n,
{
    match n {
        FnNode::X => out.append("x"),
        FnNode::Y => out.append("y"),
        FnNode::T => out.append("t"),
        FnNode::Random => out.append("random"),
        FnNode::Boolean(b) => {
            if *b {
                out.append("true");
            } else {
                out.append("false");
            }
        },
        FnNode::Number(v) => {
            let text = v.to_text();
            out.append(text.as_str());
        },
        FnNode::Rule(i) => {
            if *i < symbols.len() {
                let sym = &symbols[*i];
                proof {
                    assert(symbols.deep_view()[*i as int] == symbols@[*i as int]@);
                }
                out.append(sym.as_str());
            } else {
                out.append("rule");
            }
        },
        FnNode::Arithmetic(a, op, b) => {
            out.append(arith_fn_name(*op));
            push_node_text(out, a, symbols);
            out.append(", ");
            push_node_text(out, b, symbols);
            out.append(")");
        },
        FnNode::Compare(a, op, b) => {
            out.append("(");
            push_node_text(out, a, symbols);
            out.append(compare_word(*op));
            push_node_text(out, b, symbols);
            out.append(")");
        },
        FnNode::Unary(op, e) => {
            out.append(unary_fn_name(*op));
            push_node_text(out, e, symbols);
            out.append(")");
        },
        FnNode::If(c, t, e) => {
            out.append("if(");
            push_node_text(out, c, symbols);
            out.append(", ");
            push_node_text(out, t, symbols);
            out.append(", ");
            push_node_text(out, e, symbols);
            out.append(")");
        },
        FnNode::Triple(a, b, c) => {
            out.append("vec3(");
            push_node_text(out, a, symbols);
            out.append(", ");
            push_node_text(out, b, symbols);
            out.append(", ");
            push_node_text(out, c, symbols);
            out.append(")");
        },
    }
}

fn push_pipes(out: &mut String, w: usize)
    ensures
        final(out)@ == old(out)@ + spec_pipes_text(w as nat),
    decreases w,
{
    if w > 0 {
        push_pipes(out, w - 1);
        out.append("|");
    }
}

fn node_is_triple(n: &FnNode) -> (r: bool)
    ensures
        r == (*n is Triple),
{
    match n {
        FnNode::Triple(_, _, _) => true,
        _ => false,
    }
}

impl Grammar {
    /// Serialize this grammar in its own textual format; rule references are
    /// written as the referenced rule's symbol, so a well-formed grammar's
    /// text re-parses to the same structure.
    pub fn to_text(&self) -> (r: String)
        requires
            self.wf(),
        ensures
            r@ == spec_grammar_text(self@),
    {
        let ghost g = self@;
        let ghost syms = grammar_names(g);
        proof {
            assert forall|i: int| 0 <= i < self.symbols@.len() implies self.symbols.deep_view()[i]
                == syms[i] by {
                assert(self.symbols@[i]@ == self.map@[i].0@);
            }
            assert(self.symbols.deep_view() =~= syms);
        }
        let mut out = String::new();
        let n = self.map.len();
        let mut i: usize = 0;
        while i < n
            invariant
                self.wf(),
                g == self@,
                syms == grammar_names(g),
                self.symbols.deep_view() == syms,
                n == self.map@.len(),
                i <= n,
                out@ + spec_grammar_text_from(g, i as int, syms) == spec_grammar_text(g),
            decreases n - i,
        {
            let pair = &self.map[i];
            proof {
                assert(g[i as int] == (pair.0@, pair.1@));
            }
            out.append(pair.0.as_str());
            out.append("\n");
            let rule = &pair.1;
            let m = rule.branches.len();
            let ghost bs = rule@;
            let mut j: usize = 0;
            while j < m
                invariant
                    self.wf(),
                    g == self@,
                    syms == grammar_names(g),
                    self.symbols.deep_view() == syms,
                    n == self.map@.len(),
                    i < n,
                    rule == self.map@[i as int].1,
                    bs == rule@,
                    m == rule.branches@.len(),
                    j <= m,
                    out@ + spec_branches_text(bs, j as int, syms) + ";\n"@
                        + spec_grammar_text_from(g, i as int + 1, syms) == spec_grammar_text(g),
                decreases m - j,
            {
                let b = &rule.branches[j];
                proof {
                    assert(bs[j as int] == (b.node, b.weight as nat));
                    assert(b.node.wf());
                }
                push_pipes(&mut out, b.weight);
                if node_is_triple(&b.node) {
                    push_node_text(&mut out, &b.node, &self.symbols);
                } else {
                    out.append(" ");
                    push_node_text(&mut out, &b.node, &self.symbols);
                    out.append("\n");
                }
                j = j + 1;
            }
            out.append(";\n");
            i = i + 1;
        }
        out
    }
}

} // verus!
