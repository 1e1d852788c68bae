use vstd::prelude::*;
use std::collections::HashMap;
use crate::types::{GroupChargeOptions, low_ph_charge, high_ph_charge};

verus! {

broadcast use vstd::std_specs::hash::group_hash_axioms;

/// Probabilities are fixed-point numbers: `PREVALENCE_SCALE` stands for 1.
pub const PREVALENCE_SCALE: u64 = 1_000_000_000_000_000_000;

/// A joint charge assignment, one charge per group in input order, with the
/// fraction of the population that holds it (in units of `PREVALENCE_SCALE`).
#[derive(Clone, Debug)]
pub struct MicroState {
    pub prevalence: u64,
    pub charge_pattern: Vec<i32>,
}

/// The mathematical value of a microstate.
pub struct MicroStateModel {
    pub prevalence: nat,
    pub charge_pattern: Seq<i32>,
}

impl View for MicroState {
    type V = MicroStateModel;

    open spec fn view(&self) -> MicroStateModel {
        MicroStateModel { prevalence: self.prevalence as nat, charge_pattern: self.charge_pattern@ }
    }
}

/// The models of a sequence of microstates.
pub open spec fn models(v: Seq<MicroState>) -> Seq<MicroStateModel> {
    v.map_values(|s: MicroState| s@)
}

/// The share of prevalence `p` that goes to the low-pH branch of a group whose
/// low-pH fraction is `c` (rounded down).
pub open spec fn low_share(p: nat, c: nat) -> nat {
    (p * c / (PREVALENCE_SCALE as nat)) as nat
}

/// The low-pH branch of `s`: the group takes its low-pH charge.
pub open spec fn low_branch(s: MicroStateModel, gco: GroupChargeOptions, c: nat) -> MicroStateModel {
    MicroStateModel {
        prevalence: low_share(s.prevalence, c),
        charge_pattern: s.charge_pattern.push(low_ph_charge(gco)),
    }
}

/// The high-pH branch of `s`: the group takes its high-pH charge, and the rest
/// of the prevalence.
pub open spec fn high_branch(s: MicroStateModel, gco: GroupChargeOptions, c: nat) -> MicroStateModel {
    MicroStateModel {
        prevalence: (s.prevalence - low_share(s.prevalence, c)) as nat,
        charge_pattern: s.charge_pattern.push(high_ph_charge(gco)),
    }
}

/// The low-pH branches of `states` whose prevalence exceeds `tol`, in order.
pub open spec fn low_branches(
    states: Seq<MicroStateModel>,
    gco: GroupChargeOptions,
    c: nat,
    tol: nat,
) -> Seq<MicroStateModel>
    decreases states.len(),
{
    if states.len() == 0 {
        Seq::empty()
    } else {
        let rest = low_branches(states.drop_last(), gco, c, tol);
        let b = low_branch(states.last(), gco, c);
        if b.prevalence > tol {
            rest.push(b)
        } else {
            rest
        }
    }
}

/// The high-pH branches of `states` whose prevalence exceeds `tol`, in order.
pub open spec fn high_branches(
    states: Seq<MicroStateModel>,
    gco: GroupChargeOptions,
    c: nat,
    tol: nat,
) -> Seq<MicroStateModel>
    decreases states.len(),
{
    if states.len() == 0 {
        Seq::empty()
    } else {
        let rest = high_branches(states.drop_last(), gco, c, tol);
        let b = high_branch(states.last(), gco, c);
        if b.prevalence > tol {
            rest.push(b)
        } else {
            rest
        }
    }
}

/// One enumeration step: the surviving low-pH branches, then the surviving
/// high-pH branches.
pub open spec fn expand(
    states: Seq<MicroStateModel>,
    gco: GroupChargeOptions,
    c: nat,
    tol: nat,
) -> Seq<MicroStateModel> {
    low_branches(states, gco, c, tol) + high_branches(states, gco, c, tol)
}

/// The single microstate before any group is placed.
pub open spec fn root_state() -> MicroStateModel {
    MicroStateModel { prevalence: PREVALENCE_SCALE as nat, charge_pattern: Seq::empty() }
}

/// The surviving microstates after the first `k` groups.
pub open spec fn microstates_upto(
    groups: Seq<GroupChargeOptions>,
    coeffs: Seq<u64>,
    tol: nat,
    k: nat,
) -> Seq<MicroStateModel>
    decreases k,
{
    if k == 0 {
        seq![root_state()]
    } else {
        expand(
            microstates_upto(groups, coeffs, tol, (k - 1) as nat),
            groups[k - 1],
            coeffs[k - 1] as nat,
            tol,
        )
    }
}

/// The surviving microstates after all groups.
pub open spec fn microstates(
    groups: Seq<GroupChargeOptions>,
    coeffs: Seq<u64>,
    tol: nat,
) -> Seq<MicroStateModel> {
    microstates_upto(groups, coeffs, tol, groups.len())
}

/// The low-pH fractions are valid: one per group, each at most 1.
pub open spec fn valid_coeffs(groups: Seq<GroupChargeOptions>, coeffs: Seq<u64>) -> bool {
    &&& coeffs.len() == groups.len()
    &&& forall|i: int| 0 <= i < coeffs.len() ==> coeffs[i] <= PREVALENCE_SCALE
}

/// The sum of the prevalences of `states`.
pub open spec fn total(states: Seq<MicroStateModel>) -> nat
    decreases states.len(),
{
    if states.len() == 0 {
        0
    } else {
        total(states.drop_last()) + states.last().prevalence
    }
}

/// The net charge of a charge pattern.
pub open spec fn net_charge(pattern: Seq<i32>) -> int
    decreases pattern.len(),
{
    if pattern.len() == 0 {
        0
    } else {
        net_charge(pattern.drop_last()) + pattern.last()
    }
}

/// Every charge of `pattern` is one of the two charges of the group at its
/// place.
pub open spec fn pattern_fits(pattern: Seq<i32>, groups: Seq<GroupChargeOptions>) -> bool {
    &&& pattern.len() == groups.len()
    &&& forall|i: int|
        0 <= i < pattern.len() ==> #[trigger] pattern[i] == low_ph_charge(groups[i]) || pattern[i]
            == high_ph_charge(groups[i])
}

/// The macrostate distribution of `states`: for each net charge, the summed
/// prevalence of the microstates that carry it.
pub open spec fn macrostates(states: Seq<MicroStateModel>) -> Map<i32, u64>
    decreases states.len(),
{
    if states.len() == 0 {
        Map::empty()
    } else {
        let m = macrostates(states.drop_last());
        let s = states.last();
        let q = net_charge(s.charge_pattern) as i32;
        if m.contains_key(q) {
            m.insert(q, (m[q] + s.prevalence) as u64)
        } else {
            m.insert(q, s.prevalence as u64)
        }
    }
}

/// Every state has a prevalence of at most 1 and a pattern that fits `groups`.
pub open spec fn all_fit(states: Seq<MicroStateModel>, groups: Seq<GroupChargeOptions>) -> bool {
    forall|i: int|
        0 <= i < states.len() ==> (#[trigger] states[i]).prevalence <= PREVALENCE_SCALE
            && pattern_fits(states[i].charge_pattern, groups)
}

proof fn lemma_low_share_bound(p: nat, c: nat)
    requires
        c <= PREVALENCE_SCALE,
    ensures
        low_share(p, c) <= p,
{
    let s = PREVALENCE_SCALE as nat;
    assert(p * c <= p * s) by (nonlinear_arith)
        requires
            c <= s,
    ;
    assert(p * c / s <= p * s / s) by (nonlinear_arith)
        requires
            p * c <= p * s,
            s > 0,
    ;
    assert(p * s / s == p) by (nonlinear_arith)
        requires
            s > 0,
    ;
}

proof fn lemma_pattern_push(
    pattern: Seq<i32>,
    groups: Seq<GroupChargeOptions>,
    gco: GroupChargeOptions,
    q: i32,
)
    requires
        pattern_fits(pattern, groups),
        q == low_ph_charge(gco) || q == high_ph_charge(gco),
    ensures
        pattern_fits(pattern.push(q), groups.push(gco)),
{
    let ext_pattern = pattern.push(q);
    let ext_groups = groups.push(gco);
    assert forall|i: int| 0 <= i < ext_pattern.len() implies #[trigger] ext_pattern[i] == low_ph_charge(ext_groups[i])
        || ext_pattern[i] == high_ph_charge(ext_groups[i]) by {
        if i < pattern.len() {
            assert(ext_pattern[i] == pattern[i]);
            assert(ext_groups[i] == groups[i]);
        }
    }
}

proof fn lemma_branches_fit(
    states: Seq<MicroStateModel>,
    groups: Seq<GroupChargeOptions>,
    gco: GroupChargeOptions,
    c: nat,
    tol: nat,
)
    requires
        all_fit(states, groups),
        c <= PREVALENCE_SCALE,
    ensures
        all_fit(low_branches(states, gco, c, tol), groups.push(gco)),
        all_fit(high_branches(states, gco, c, tol), groups.push(gco)),
    decreases states.len(),
{
    if states.len() > 0 {
        let init = states.drop_last();
        assert(all_fit(init, groups)) by {
            assert forall|i: int| 0 <= i < init.len() implies (#[trigger] init[i]).prevalence
                <= PREVALENCE_SCALE && pattern_fits(init[i].charge_pattern, groups) by {
                assert(init[i] == states[i]);
            }
        }
        lemma_branches_fit(init, groups, gco, c, tol);
        let s = states.last();
        assert(s == states[states.len() - 1]);
        lemma_low_share_bound(s.prevalence, c);
        lemma_pattern_push(s.charge_pattern, groups, gco, low_ph_charge(gco));
        lemma_pattern_push(s.charge_pattern, groups, gco, high_ph_charge(gco));
        let lb = low_branches(init, gco, c, tol);
        let hb = high_branches(init, gco, c, tol);
        let l = low_branch(s, gco, c);
        let h = high_branch(s, gco, c);
        assert(all_fit(lb.push(l), groups.push(gco))) by {
            assert forall|i: int| 0 <= i < lb.push(l).len() implies (#[trigger] lb.push(
                l,
            )[i]).prevalence <= PREVALENCE_SCALE && pattern_fits(
                lb.push(l)[i].charge_pattern,
                groups.push(gco),
            ) by {
                if i < lb.len() {
                    assert(lb.push(l)[i] == lb[i]);
                }
            }
        }
        assert(all_fit(hb.push(h), groups.push(gco))) by {
            assert forall|i: int| 0 <= i < hb.push(h).len() implies (#[trigger] hb.push(
                h,
            )[i]).prevalence <= PREVALENCE_SCALE && pattern_fits(
                hb.push(h)[i].charge_pattern,
                groups.push(gco),
            ) by {
                if i < hb.len() {
                    assert(hb.push(h)[i] == hb[i]);
                }
            }
        }
    }
}

proof fn lemma_all_fit_concat(
    a: Seq<MicroStateModel>,
    b: Seq<MicroStateModel>,
    groups: Seq<GroupChargeOptions>,
)
    requires
        all_fit(a, groups),
        all_fit(b, groups),
    ensures
        all_fit(a + b, groups),
{
    assert forall|i: int| 0 <= i < (a + b).len() implies (#[trigger] (a + b)[i]).prevalence
        <= PREVALENCE_SCALE && pattern_fits((a + b)[i].charge_pattern, groups) by {
        if i < a.len() {
            assert((a + b)[i] == a[i]);
        } else {
            assert((a + b)[i] == b[i - a.len()]);
        }
    }
}

/// Every surviving microstate after the first `k` groups has a prevalence of
/// at most 1, and its pattern holds one of the two charges of each of those
/// groups, in order.
pub proof fn lemma_microstates_upto_fit(
    groups: Seq<GroupChargeOptions>,
    coeffs: Seq<u64>,
    tol: nat,
    k: nat,
)
    requires
        valid_coeffs(groups, coeffs),
        k <= groups.len(),
    ensures
        all_fit(microstates_upto(groups, coeffs, tol, k), groups.take(k as int)),
    decreases k,
{
    if k == 0 {
        let r = microstates_upto(groups, coeffs, tol, k);
        assert(r[0] == root_state());
        assert(groups.take(0).len() == 0);
    } else {
        let km = (k - 1) as nat;
        lemma_microstates_upto_fit(groups, coeffs, tol, km);
        let prev = microstates_upto(groups, coeffs, tol, km);
        lemma_branches_fit(prev, groups.take(km as int), groups[km as int], coeffs[km as int] as nat, tol);
        assert(groups.take(km as int).push(groups[km as int]) =~= groups.take(k as int));
        lemma_all_fit_concat(
            low_branches(prev, groups[km as int], coeffs[km as int] as nat, tol),
            high_branches(prev, groups[km as int], coeffs[km as int] as nat, tol),
            groups.take(k as int),
        );
    }
}

/// Every returned microstate has a prevalence of at most 1 and a pattern of
/// one charge per group, each one of the two charges that the group's
/// behaviour allows, whatever the group's low-pH fraction.
pub proof fn lemma_microstates_fit(groups: Seq<GroupChargeOptions>, coeffs: Seq<u64>, tol: nat)
    requires
        valid_coeffs(groups, coeffs),
    ensures
        all_fit(microstates(groups, coeffs, tol), groups),
{
    lemma_microstates_upto_fit(groups, coeffs, tol, groups.len());
    assert(groups.take(groups.len() as int) =~= groups);
}

proof fn lemma_total_concat(a: Seq<MicroStateModel>, b: Seq<MicroStateModel>)
    ensures
        total(a + b) == total(a) + total(b),
    decreases b.len(),
{
    if b.len() > 0 {
        lemma_total_concat(a, b.drop_last());
        assert((a + b).drop_last() =~= a + b.drop_last());
    }
}

proof fn lemma_expand_total(states: Seq<MicroStateModel>, gco: GroupChargeOptions, c: nat, tol: nat)
    requires
        c <= PREVALENCE_SCALE,
    ensures
        total(expand(states, gco, c, tol)) <= total(states),
        tol == 0 ==> total(expand(states, gco, c, tol)) == total(states),
    decreases states.len(),
{
    lemma_total_concat(low_branches(states, gco, c, tol), high_branches(states, gco, c, tol));
    if states.len() > 0 {
        let init = states.drop_last();
        lemma_expand_total(init, gco, c, tol);
        lemma_total_concat(low_branches(init, gco, c, tol), high_branches(init, gco, c, tol));
        lemma_low_share_bound(states.last().prevalence, c);
        let lb = low_branches(init, gco, c, tol);
        let hb = high_branches(init, gco, c, tol);
        let l = low_branch(states.last(), gco, c);
        let h = high_branch(states.last(), gco, c);
        assert(lb.push(l).drop_last() =~= lb);
        assert(hb.push(h).drop_last() =~= hb);
    }
}

/// The prevalences after the first `k` groups sum to at most 1, and to
/// exactly 1 where nothing is pruned.
pub proof fn lemma_microstates_upto_total(
    groups: Seq<GroupChargeOptions>,
    coeffs: Seq<u64>,
    tol: nat,
    k: nat,
)
    requires
        valid_coeffs(groups, coeffs),
        k <= groups.len(),
    ensures
        total(microstates_upto(groups, coeffs, tol, k)) <= PREVALENCE_SCALE,
        tol == 0 ==> total(microstates_upto(groups, coeffs, tol, k)) == PREVALENCE_SCALE,
    decreases k,
{
    if k == 0 {
        let r = microstates_upto(groups, coeffs, tol, k);
        assert(r.drop_last() =~= Seq::<MicroStateModel>::empty());
        assert(total(r.drop_last()) == 0);
        assert(r.last() == root_state());
    } else {
        let km = (k - 1) as nat;
        lemma_microstates_upto_total(groups, coeffs, tol, km);
        lemma_expand_total(
            microstates_upto(groups, coeffs, tol, km),
            groups[km as int],
            coeffs[km as int] as nat,
            tol,
        );
    }
}

/// With a tolerance of zero, the prevalences of the returned microstates sum
/// to exactly 1: the enumeration loses no probability.
pub proof fn lemma_no_pruning_keeps_total(groups: Seq<GroupChargeOptions>, coeffs: Seq<u64>)
    requires
        valid_coeffs(groups, coeffs),
    ensures
        total(microstates(groups, coeffs, 0)) == PREVALENCE_SCALE,
{
    lemma_microstates_upto_total(groups, coeffs, 0, groups.len());
}

/// Whatever the tolerance, the prevalences of the returned microstates sum to
/// at most 1: pruning only discards probability.
pub proof fn lemma_total_at_most_one(groups: Seq<GroupChargeOptions>, coeffs: Seq<u64>, tol: nat)
    requires
        valid_coeffs(groups, coeffs),
    ensures
        total(microstates(groups, coeffs, tol)) <= PREVALENCE_SCALE,
{
    lemma_microstates_upto_total(groups, coeffs, tol, groups.len());
}

fn copy_pattern(v: &Vec<i32>) -> (r: Vec<i32>)
    ensures
        r@ == v@,
{
    let mut r: Vec<i32> = Vec::new();
    let mut i: usize = 0;
    while i < v.len()
        invariant
            i <= v@.len(),
            r@ == v@.take(i as int),
        decreases v@.len() - i,
    {
        r.push(v[i]);
        i += 1;
        assert(r@ =~= v@.take(i as int));
    }
    assert(v@.take(i as int) =~= v@);
    r
}

fn low_share_of(p: u64, c: u64) -> (r: u64)
    requires
        c <= PREVALENCE_SCALE,
    ensures
        r as nat == low_share(p as nat, c as nat),
        r <= p,
{
    proof {
        lemma_low_share_bound(p as nat, c as nat);
        assert((p as nat) * (c as nat) <= u128::MAX) by (nonlinear_arith)
            requires
                p <= u64::MAX,
                c <= u64::MAX,
        ;
    }
    let prod: u128 = (p as u128) * (c as u128);
    (prod / (PREVALENCE_SCALE as u128)) as u64
}

fn branch(s: &MicroState, charge: i32, prevalence: u64) -> (r: MicroState)
    ensures
        r@ == (MicroStateModel {
            prevalence: prevalence as nat,
            charge_pattern: s.charge_pattern@.push(charge),
        }),
{
    let mut pattern = copy_pattern(&s.charge_pattern);
    pattern.push(charge);
    MicroState { prevalence, charge_pattern: pattern }
}

/// Enumerates the microstates of `sequence` at one pH point, where
/// `coeffs[i]` is the fraction of group `i` in its low-pH form (in units of
/// `PREVALENCE_SCALE`). Each group splits every surviving microstate into a
/// low-pH and a high-pH branch; a branch survives only if its prevalence
/// exceeds `tol`. The contract fixes the order of the result (the low-pH
/// branches of the last group, then its high-pH branches, each in the order of
/// the states they came from) only to describe the result exactly: callers
/// must treat it as a set and not rely on that order.
pub fn solve_point(sequence: &[GroupChargeOptions], coeffs: &[u64], tol: u64) -> (r: Vec<
    MicroState,
>)
    requires
        valid_coeffs(sequence@, coeffs@),
    ensures
        models(r@) == microstates(sequence@, coeffs@, tol as nat),
{
    let mut output: Vec<MicroState> = vec![MicroState { prevalence: PREVALENCE_SCALE, charge_pattern: Vec::new() }];
    assert(models(output@) =~= microstates_upto(sequence@, coeffs@, tol as nat, 0));
    let n: usize = sequence.len();
    let mut k: usize = 0;
    while k < n
        invariant
            n == sequence@.len(),
            k <= n,
            valid_coeffs(sequence@, coeffs@),
            models(output@) == microstates_upto(sequence@, coeffs@, tol as nat, k as nat),
        decreases n - k,
    {
        proof {
            lemma_microstates_upto_fit(sequence@, coeffs@, tol as nat, k as nat);
        }
        let ghost states = models(output@);
        let gco = sequence[k];
        let c = coeffs[k];
        let (low_charge, high_charge) = gco.to_tuple();
        let mut low: Vec<MicroState> = Vec::new();
        let mut high: Vec<MicroState> = Vec::new();
        let mut j: usize = 0;
        while j < output.len()
            invariant
                states == models(output@),
                j <= output@.len(),
                c <= PREVALENCE_SCALE,
                low_charge == low_ph_charge(gco),
                high_charge == high_ph_charge(gco),
                models(low@) == low_branches(states.take(j as int), gco, c as nat, tol as nat),
                models(high@) == high_branches(states.take(j as int), gco, c as nat, tol as nat),
            decreases output@.len() - j,
        {
            let s = &output[j];
            assert(s@ == states[j as int]);
            assert(states.take(j + 1).drop_last() =~= states.take(j as int));
            assert(states.take(j + 1).last() == states[j as int]);
            let lp = low_share_of(s.prevalence, c);
            let hp = s.prevalence - lp;
            if lp > tol {
                let b = branch(s, low_charge, lp);
                proof {
                    assert(models(low@.push(b)) =~= models(low@).push(b@));
                }
                low.push(b);
            }
            if hp > tol {
                let b = branch(s, high_charge, hp);
                proof {
                    assert(models(high@.push(b)) =~= models(high@).push(b@));
                }
                high.push(b);
            }
            j += 1;
        }
        assert(states.take(j as int) =~= states);
        let ghost lows = low@;
        let ghost highs = high@;
        low.append(&mut high);
        assert(models(low@) =~= models(lows) + models(highs));
        output = low;
        k += 1;
    }
    output
}

proof fn lemma_total_prefix(states: Seq<MicroStateModel>, j: int)
    requires
        0 <= j <= states.len(),
    ensures
        total(states.take(j)) <= total(states),
{
    lemma_total_concat(states.take(j), states.skip(j));
    assert(states.take(j) + states.skip(j) =~= states);
}

proof fn lemma_macrostates_bound(states: Seq<MicroStateModel>)
    requires
        total(states) <= PREVALENCE_SCALE,
    ensures
        forall|q: i32| #[trigger]
            macrostates(states).contains_key(q) ==> macrostates(states)[q] as nat <= total(
                states,
            ),
    decreases states.len(),
{
    if states.len() > 0 {
        let init = states.drop_last();
        lemma_macrostates_bound(init);
        let m = macrostates(init);
        let st = states.last();
        let key = net_charge(st.charge_pattern) as i32;
        assert(total(states) == total(init) + st.prevalence);
        assert forall|q: i32| #[trigger]
            macrostates(states).contains_key(q) implies macrostates(states)[q] as nat <= total(
                states,
            ) by {
            if q == key {
                if m.contains_key(key) {
                    assert(m[key] + st.prevalence <= total(states));
                    assert(macrostates(states)[q] == (m[key] + st.prevalence) as u64);
                } else {
                    assert(macrostates(states)[q] == st.prevalence as u64);
                }
            } else {
                assert(macrostates(states)[q] == m[q]);
            }
        }
    }
}

fn pattern_net_charge(pattern: &Vec<i32>, Ghost(groups): Ghost<Seq<GroupChargeOptions>>) -> (r: i32)
    requires
        pattern_fits(pattern@, groups),
        pattern@.len() <= i32::MAX,
    ensures
        r as int == net_charge(pattern@),
{
    let mut acc: i32 = 0;
    let mut i: usize = 0;
    while i < pattern.len()
        invariant
            pattern_fits(pattern@, groups),
            pattern@.len() <= i32::MAX,
            i <= pattern@.len(),
            -(i as int) <= acc <= i as int,
            acc as int == net_charge(pattern@.take(i as int)),
        decreases pattern@.len() - i,
    {
        assert(pattern@[i as int] == low_ph_charge(groups[i as int]) || pattern@[i as int]
            == high_ph_charge(groups[i as int]));
        assert(pattern@.take(i + 1).drop_last() =~= pattern@.take(i as int));
        acc = acc + pattern[i];
        i += 1;
    }
    assert(pattern@.take(i as int) =~= pattern@);
    acc
}

fn aggregate(states: &Vec<MicroState>, Ghost(groups): Ghost<Seq<GroupChargeOptions>>) -> (r: HashMap<
    i32,
    u64,
>)
    requires
        all_fit(models(states@), groups),
        groups.len() <= i32::MAX,
        total(models(states@)) <= PREVALENCE_SCALE,
    ensures
        r@ == macrostates(models(states@)),
{
    let ghost ms = models(states@);
    let mut m: HashMap<i32, u64> = HashMap::new();
    assert(ms.take(0) =~= Seq::<MicroStateModel>::empty());
    let mut j: usize = 0;
    while j < states.len()
        invariant
            ms == models(states@),
            all_fit(ms, groups),
            groups.len() <= i32::MAX,
            total(ms) <= PREVALENCE_SCALE,
            j <= states@.len(),
            m@ == macrostates(ms.take(j as int)),
        decreases states@.len() - j,
    {
        let s = &states[j];
        assert(s@ == ms[j as int]);
        let ghost pre = ms.take(j as int);
        let ghost next = ms.take(j + 1);
        assert(next.drop_last() =~= pre);
        assert(next.last() == ms[j as int]);
        proof {
            lemma_total_prefix(ms, j + 1);
            lemma_macrostates_bound(pre);
        }
        let q = pattern_net_charge(&s.charge_pattern, Ghost(groups));
        match m.get(&q) {
            Some(v) => {
                let sum = *v + s.prevalence;
                m.insert(q, sum);
            },
            None => {
                m.insert(q, s.prevalence);
            },
        }
        j += 1;
    }
    assert(ms.take(j as int) =~= ms);
    m
}

/// For each pH point, the net charges of the microstates and the summed
/// prevalence of each charge.
pub type MacroStateDistro = Vec<HashMap<i32, u64>>;

/// Scans the pH points: `coeff_table[i]` holds the low-pH fraction of each
/// group at the `i`-th point. The result has one macrostate distribution per
/// point, in the same order, each built from the microstates that
/// `solve_point` returns for that point.
pub fn solve_range(sequence: &[GroupChargeOptions], coeff_table: &[Vec<u64>], tol: u64) -> (r:
    MacroStateDistro)
    requires
        sequence@.len() <= i32::MAX,
        forall|i: int| 0 <= i < coeff_table@.len() ==> valid_coeffs(sequence@, #[trigger] coeff_table@[i]@),
    ensures
        r@.len() == coeff_table@.len(),
        forall|i: int|
            0 <= i < r@.len() ==> (#[trigger] r@[i])@ == macrostates(
                microstates(sequence@, coeff_table@[i]@, tol as nat),
            ),
{
    let mut output: MacroStateDistro = Vec::new();
    let mut i: usize = 0;
    while i < coeff_table.len()
        invariant
            sequence@.len() <= i32::MAX,
            forall|i: int| 0 <= i < coeff_table@.len() ==> valid_coeffs(sequence@, #[trigger] coeff_table@[i]@),
            i <= coeff_table@.len(),
            output@.len() == i,
            forall|t: int|
                0 <= t < i ==> (#[trigger] output@[t])@ == macrostates(
                    microstates(sequence@, coeff_table@[t]@, tol as nat),
                ),
        decreases coeff_table@.len() - i,
    {
        let coeffs = &coeff_table[i];
        assert(valid_coeffs(sequence@, coeff_table@[i as int]@));
        let states = solve_point(sequence, coeffs.as_slice(), tol);
        proof {
            lemma_microstates_fit(sequence@, coeffs@, tol as nat);
            lemma_total_at_most_one(sequence@, coeffs@, tol as nat);
        }
        let distro = aggregate(&states, Ghost(sequence@));
        output.push(distro);
        i += 1;
    }
    output
}

/// `a` is obtained from `b` by deleting elements.
pub open spec fn is_subsequence(a: Seq<MicroStateModel>, b: Seq<MicroStateModel>) -> bool
    decreases b.len(),
{
    if b.len() == 0 {
        a.len() == 0
    } else {
        (a.len() > 0 && a.last() == b.last() && is_subsequence(a.drop_last(), b.drop_last()))
            || is_subsequence(a, b.drop_last())
    }
}

proof fn lemma_subsequence_refl(a: Seq<MicroStateModel>)
    ensures
        is_subsequence(a, a),
    decreases a.len(),
{
    if a.len() > 0 {
        lemma_subsequence_refl(a.drop_last());
    }
}

proof fn lemma_subsequence_len(a: Seq<MicroStateModel>, b: Seq<MicroStateModel>)
    requires
        is_subsequence(a, b),
    ensures
        a.len() <= b.len(),
    decreases b.len(),
{
    if b.len() > 0 {
        if a.len() > 0 && a.last() == b.last() && is_subsequence(a.drop_last(), b.drop_last()) {
            lemma_subsequence_len(a.drop_last(), b.drop_last());
        } else {
            lemma_subsequence_len(a, b.drop_last());
        }
    }
}

proof fn lemma_subsequence_concat(
    a: Seq<MicroStateModel>,
    b: Seq<MicroStateModel>,
    c: Seq<MicroStateModel>,
    d: Seq<MicroStateModel>,
)
    requires
        is_subsequence(a, b),
        is_subsequence(c, d),
    ensures
        is_subsequence(a + c, b + d),
    decreases d.len(),
{
    if d.len() == 0 {
        assert(a + c =~= a);
        assert(b + d =~= b);
    } else {
        assert((b + d).drop_last() =~= b + d.drop_last());
        if c.len() > 0 && c.last() == d.last() && is_subsequence(c.drop_last(), d.drop_last()) {
            lemma_subsequence_concat(a, b, c.drop_last(), d.drop_last());
            assert((a + c).drop_last() =~= a + c.drop_last());
        } else {
            lemma_subsequence_concat(a, b, c, d.drop_last());
        }
    }
}

proof fn lemma_branches_subsequence(
    a: Seq<MicroStateModel>,
    b: Seq<MicroStateModel>,
    gco: GroupChargeOptions,
    c: nat,
    tol1: nat,
    tol2: nat,
)
    requires
        is_subsequence(a, b),
        tol1 <= tol2,
    ensures
        is_subsequence(low_branches(a, gco, c, tol2), low_branches(b, gco, c, tol1)),
        is_subsequence(high_branches(a, gco, c, tol2), high_branches(b, gco, c, tol1)),
    decreases b.len(),
{
    if b.len() == 0 {
        assert(a.len() == 0);
    } else {
        let lb = low_branches(b.drop_last(), gco, c, tol1);
        let hb = high_branches(b.drop_last(), gco, c, tol1);
        if a.len() > 0 && a.last() == b.last() && is_subsequence(a.drop_last(), b.drop_last()) {
            lemma_branches_subsequence(a.drop_last(), b.drop_last(), gco, c, tol1, tol2);
            let la = low_branches(a.drop_last(), gco, c, tol2);
            let ha = high_branches(a.drop_last(), gco, c, tol2);
            let l = low_branch(b.last(), gco, c);
            let h = high_branch(b.last(), gco, c);
            if l.prevalence > tol1 {
                assert(lb.push(l).drop_last() =~= lb);
                if l.prevalence > tol2 {
                    assert(la.push(l).drop_last() =~= la);
                }
            }
            if h.prevalence > tol1 {
                assert(hb.push(h).drop_last() =~= hb);
                if h.prevalence > tol2 {
                    assert(ha.push(h).drop_last() =~= ha);
                }
            }
        } else {
            lemma_branches_subsequence(a, b.drop_last(), gco, c, tol1, tol2);
            let l = low_branch(b.last(), gco, c);
            let h = high_branch(b.last(), gco, c);
            if l.prevalence > tol1 {
                assert(lb.push(l).drop_last() =~= lb);
            }
            if h.prevalence > tol1 {
                assert(hb.push(h).drop_last() =~= hb);
            }
        }
    }
}

proof fn lemma_microstates_upto_subsequence(
    groups: Seq<GroupChargeOptions>,
    coeffs: Seq<u64>,
    tol1: nat,
    tol2: nat,
    k: nat,
)
    requires
        tol1 <= tol2,
        k <= groups.len(),
        coeffs.len() == groups.len(),
    ensures
        is_subsequence(
            microstates_upto(groups, coeffs, tol2, k),
            microstates_upto(groups, coeffs, tol1, k),
        ),
    decreases k,
{
    if k == 0 {
        lemma_subsequence_refl(seq![root_state()]);
    } else {
        let km = (k - 1) as nat;
        lemma_microstates_upto_subsequence(groups, coeffs, tol1, tol2, km);
        let a = microstates_upto(groups, coeffs, tol2, km);
        let b = microstates_upto(groups, coeffs, tol1, km);
        let gco = groups[km as int];
        let c = coeffs[km as int] as nat;
        lemma_branches_subsequence(a, b, gco, c, tol1, tol2);
        lemma_subsequence_concat(
            low_branches(a, gco, c, tol2),
            low_branches(b, gco, c, tol1),
            high_branches(a, gco, c, tol2),
            high_branches(b, gco, c, tol1),
        );
    }
}

/// Raising the tolerance only removes microstates: the result for the larger
/// tolerance is a subsequence of the result for the smaller one, so it is
/// never longer.
pub proof fn lemma_pruning_monotone(
    groups: Seq<GroupChargeOptions>,
    coeffs: Seq<u64>,
    tol1: nat,
    tol2: nat,
)
    requires
        valid_coeffs(groups, coeffs),
        tol1 <= tol2,
    ensures
        is_subsequence(microstates(groups, coeffs, tol2), microstates(groups, coeffs, tol1)),
        microstates(groups, coeffs, tol2).len() <= microstates(groups, coeffs, tol1).len(),
{
    lemma_microstates_upto_subsequence(groups, coeffs, tol1, tol2, groups.len());
    lemma_subsequence_len(microstates(groups, coeffs, tol2), microstates(groups, coeffs, tol1));
}

/// The summed prevalence of the states of net charge `q`.
pub open spec fn charge_total(states: Seq<MicroStateModel>, q: int) -> nat
    decreases states.len(),
{
    if states.len() == 0 {
        0
    } else if net_charge(states.last().charge_pattern) == q {
        charge_total(states.drop_last(), q) + states.last().prevalence
    } else {
        charge_total(states.drop_last(), q)
    }
}

/// Some state of `states` has net charge `q`.
pub open spec fn carries_charge(states: Seq<MicroStateModel>, q: int) -> bool {
    exists|i: int| 0 <= i < states.len() && net_charge((#[trigger] states[i]).charge_pattern) == q
}

/// Every net charge of `states` fits in an `i32`.
pub open spec fn charges_fit_i32(states: Seq<MicroStateModel>) -> bool {
    forall|i: int|
        0 <= i < states.len() ==> i32::MIN <= net_charge((#[trigger] states[i]).charge_pattern)
            <= i32::MAX
}

proof fn lemma_charge_total_bound(states: Seq<MicroStateModel>, q: int)
    ensures
        charge_total(states, q) <= total(states),
    decreases states.len(),
{
    if states.len() > 0 {
        lemma_charge_total_bound(states.drop_last(), q);
    }
}

proof fn lemma_macrostates_sums(states: Seq<MicroStateModel>)
    requires
        total(states) <= PREVALENCE_SCALE,
        charges_fit_i32(states),
    ensures
        forall|q: i32| #[trigger]
            macrostates(states).contains_key(q) <==> carries_charge(states, q as int),
        forall|q: i32| #[trigger]
            macrostates(states).contains_key(q) ==> macrostates(states)[q] as nat == charge_total(
                states,
                q as int,
            ),
    decreases states.len(),
{
    if states.len() > 0 {
        let init = states.drop_last();
        let st = states.last();
        let key = net_charge(st.charge_pattern) as i32;
        assert(states[states.len() - 1] == st);
        assert(net_charge(st.charge_pattern) == key as int);
        assert(charges_fit_i32(init)) by {
            assert forall|i: int| 0 <= i < init.len() implies i32::MIN <= net_charge(
                (#[trigger] init[i]).charge_pattern,
            ) <= i32::MAX by {
                assert(init[i] == states[i]);
            }
        }
        lemma_macrostates_sums(init);
        lemma_charge_total_bound(states, key as int);
        let m = macrostates(init);
        assert forall|q: i32| #[trigger]
            macrostates(states).contains_key(q) <==> carries_charge(states, q as int) by {
            if carries_charge(states, q as int) && q != key {
                let i = choose|i: int|
                    0 <= i < states.len() && net_charge((#[trigger] states[i]).charge_pattern)
                        == q as int;
                assert(i < init.len());
                assert(init[i] == states[i]);
            }
            if carries_charge(init, q as int) {
                let i = choose|i: int|
                    0 <= i < init.len() && net_charge((#[trigger] init[i]).charge_pattern) == q as int;
                assert(init[i] == states[i]);
            }
        }
        assert forall|q: i32| #[trigger]
            macrostates(states).contains_key(q) implies macrostates(states)[q] as nat
            == charge_total(states, q as int) by {
            if q == key {
                if m.contains_key(key) {
                    assert(macrostates(states)[q] == (m[key] + st.prevalence) as u64);
                } else {
                    assert(!carries_charge(init, key as int));
                    assert(charge_total(init, key as int) == 0) by {
                        lemma_charge_total_absent(init, key as int);
                    }
                }
            }
        }
    }
}

proof fn lemma_charge_total_absent(states: Seq<MicroStateModel>, q: int)
    requires
        !carries_charge(states, q),
    ensures
        charge_total(states, q) == 0,
    decreases states.len(),
{
    if states.len() > 0 {
        let init = states.drop_last();
        assert(states[states.len() - 1] == states.last());
        assert(!carries_charge(init, q)) by {
            if carries_charge(init, q) {
                let i = choose|i: int|
                    0 <= i < init.len() && net_charge((#[trigger] init[i]).charge_pattern) == q;
                assert(init[i] == states[i]);
            }
        }
        lemma_charge_total_absent(init, q);
    }
}

proof fn lemma_net_charge_bound(pattern: Seq<i32>, groups: Seq<GroupChargeOptions>)
    requires
        pattern_fits(pattern, groups),
    ensures
        -(pattern.len() as int) <= net_charge(pattern) <= pattern.len(),
    decreases pattern.len(),
{
    if pattern.len() > 0 {
        let init = pattern.drop_last();
        let g = groups.drop_last();
        assert(pattern_fits(init, g)) by {
            assert forall|i: int| 0 <= i < init.len() implies #[trigger] init[i] == low_ph_charge(
                g[i],
            ) || init[i] == high_ph_charge(g[i]) by {
                assert(init[i] == pattern[i]);
                assert(g[i] == groups[i]);
            }
        }
        lemma_net_charge_bound(init, g);
        assert(pattern[pattern.len() - 1] == pattern.last());
    }
}

/// The distribution of a scanned point sums the returned microstates by net
/// charge: its keys are exactly the net charges that some microstate carries,
/// and each key's value is the summed prevalence of the microstates that carry
/// it.
pub proof fn lemma_macrostates_are_charge_sums(
    groups: Seq<GroupChargeOptions>,
    coeffs: Seq<u64>,
    tol: nat,
)
    requires
        valid_coeffs(groups, coeffs),
        groups.len() <= i32::MAX,
    ensures
        ({
            let ms = microstates(groups, coeffs, tol);
            &&& forall|q: i32| #[trigger]
                macrostates(ms).contains_key(q) <==> carries_charge(ms, q as int)
            &&& forall|q: i32| #[trigger]
                macrostates(ms).contains_key(q) ==> macrostates(ms)[q] as nat == charge_total(
                    ms,
                    q as int,
                )
        }),
{
    let ms = microstates(groups, coeffs, tol);
    lemma_microstates_fit(groups, coeffs, tol);
    lemma_total_at_most_one(groups, coeffs, tol);
    assert forall|i: int| 0 <= i < ms.len() implies i32::MIN <= net_charge(
        (#[trigger] ms[i]).charge_pattern,
    ) <= i32::MAX by {
        lemma_net_charge_bound(ms[i].charge_pattern, groups);
    }
    lemma_macrostates_sums(ms);
}

} // verus!
