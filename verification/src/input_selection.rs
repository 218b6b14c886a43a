//! The input selection engine: picks which spendable outputs fund a transfer,
//! preferring an exact-sum subset found by branch and bound and falling back
//! to a single random draw.

use vstd::prelude::*;

use rand::seq::SliceRandom;

use crate::WalletError;
use crate::address::AddressValue;

verus! {

use vstd::arithmetic::power2::pow2;
use vstd::multiset::Multiset;

/// The mathematical value of one spendable output.
#[verifier::ext_equal]
pub ghost struct InputView {
    /// The chain address bytes the output lives on.
    pub address: Seq<u8>,
    /// The contribution amount of the output.
    pub balance: u64,
}

/// One spendable output: the address it lives on and its contribution amount.
#[derive(Debug)]
pub struct Input {
    /// The address holding the output.
    pub address: AddressValue,
    /// The contribution amount in base units.
    pub balance: u64,
}

impl View for Input {
    type V = InputView;

    open spec fn view(&self) -> InputView {
        InputView { address: self.address@, balance: self.balance }
    }
}

impl DeepView for Input {
    type V = InputView;

    open spec fn deep_view(&self) -> InputView {
        self.view()
    }
}

impl Clone for Input {
    fn clone(&self) -> (res: Self)
        ensures
            res@ == self@,
    {
        Input { address: self.address.clone(), balance: self.balance }
    }
}

/// The sum of the balances of a sequence of inputs.
pub open spec fn spec_sum(s: Seq<InputView>) -> int
    decreases s.len(),
{
    if s.len() == 0 {
        0
    } else {
        spec_sum(s.drop_last()) + s.last().balance
    }
}

/// Whether some sub-multiset of the inputs sums exactly to the target.
pub open spec fn exact_subset_exists(s: Seq<InputView>, target: int) -> bool
    decreases s.len(),
{
    if s.len() == 0 {
        target == 0
    } else {
        exact_subset_exists(s.drop_first(), target) || exact_subset_exists(
            s.drop_first(),
            target - s[0].balance,
        )
    }
}

/// The inputs are ordered by descending balance.
pub open spec fn sorted_desc(s: Seq<InputView>) -> bool {
    forall|i: int, j: int| 0 <= i < j < s.len() ==> #[trigger] s[i].balance >= #[trigger] s[j].balance
}

/// Sums of inputs are never negative.
pub proof fn lemma_sum_nonneg(s: Seq<InputView>)
    ensures
        spec_sum(s) >= 0,
    decreases s.len(),
{
    if s.len() > 0 {
        lemma_sum_nonneg(s.drop_last());
    }
}

/// The sum of a prefix never exceeds the sum of the whole sequence.
pub proof fn lemma_sum_prefix(s: Seq<InputView>, i: int)
    requires
        0 <= i <= s.len(),
    ensures
        spec_sum(s.take(i)) <= spec_sum(s),
    decreases s.len() - i,
{
    if i == s.len() {
        assert(s.take(i) =~= s);
    } else {
        assert(s.take(i + 1).drop_last() =~= s.take(i));
        lemma_sum_prefix(s, i + 1);
    }
}

/// Sums add over concatenation.
pub proof fn lemma_sum_concat(a: Seq<InputView>, b: Seq<InputView>)
    ensures
        spec_sum(a + b) == spec_sum(a) + spec_sum(b),
    decreases b.len(),
{
    if b.len() == 0 {
        assert(a + b =~= a);
    } else {
        assert((a + b).drop_last() =~= a + b.drop_last());
        assert((a + b).last() == b.last());
        lemma_sum_concat(a, b.drop_last());
    }
}

/// Removing one element takes exactly its balance out of the sum.
pub proof fn lemma_sum_remove(s: Seq<InputView>, i: int)
    requires
        0 <= i < s.len(),
    ensures
        spec_sum(s) == spec_sum(s.remove(i)) + s[i].balance,
{
    let single = seq![s[i]];
    assert(s =~= s.take(i) + single + s.skip(i + 1));
    assert(s.remove(i) =~= s.take(i) + s.skip(i + 1));
    lemma_sum_concat(s.take(i) + single, s.skip(i + 1));
    lemma_sum_concat(s.take(i), single);
    lemma_sum_concat(s.take(i), s.skip(i + 1));
    assert(single.drop_last() =~= Seq::<InputView>::empty());
    assert(single.len() == 1 && single.last() == s[i]);
    assert(spec_sum(Seq::<InputView>::empty()) == 0);
    assert(spec_sum(single) == s[i].balance);
}

/// Two sequences with one multiset of inputs have one sum.
pub proof fn lemma_sum_permutation(s1: Seq<InputView>, s2: Seq<InputView>)
    requires
        s1.to_multiset() == s2.to_multiset(),
    ensures
        spec_sum(s1) == spec_sum(s2),
    decreases s1.len(),
{
    broadcast use vstd::seq_lib::group_to_multiset_ensures;

    if s1.len() == 0 {
        assert(s2.to_multiset().len() == 0);
        assert(s2.len() == 0);
    } else {
        let x = s1.last();
        assert(s1.drop_last().push(x) =~= s1);
        assert(s1.to_multiset().count(x) > 0);
        assert(s2.to_multiset().count(x) > 0);
        assert(s2.contains(x));
        let i = s2.index_of(x);
        assert(0 <= i < s2.len() && s2[i] == x);
        assert(s1.drop_last().to_multiset() =~= s1.to_multiset().remove(x)) by {
            assert(s1.drop_last().push(x).to_multiset() =~= s1.drop_last().to_multiset().insert(
                x,
            ));
        }
        assert(s2.remove(i).to_multiset() =~= s2.to_multiset().remove(x));
        lemma_sum_permutation(s1.drop_last(), s2.remove(i));
        lemma_sum_remove(s2, i);
    }
}

/// A sum of inputs is bounded by the length times the largest balance.
pub proof fn lemma_sum_len_bound(s: Seq<InputView>)
    ensures
        spec_sum(s) <= s.len() * u64::MAX,
    decreases s.len(),
{
    if s.len() == 0 {
    } else {
        lemma_sum_len_bound(s.drop_last());
        assert((s.len() - 1) * u64::MAX + u64::MAX == s.len() * u64::MAX) by (nonlinear_arith);
    }
}

/// An exact subset sums to its target, so the target is at most the whole
/// sum and never negative.
pub proof fn lemma_exact_le_sum(s: Seq<InputView>, target: int)
    requires
        exact_subset_exists(s, target),
    ensures
        0 <= target <= spec_sum(s),
    decreases s.len(),
{
    if s.len() == 0 {
    } else {
        lemma_sum_remove(s, 0);
        assert(s.remove(0) =~= s.drop_first());
        if exact_subset_exists(s.drop_first(), target) {
            lemma_exact_le_sum(s.drop_first(), target);
        } else {
            lemma_exact_le_sum(s.drop_first(), target - s[0].balance);
        }
    }
}

/// No sub-multiset sums to a negative target.
pub proof fn lemma_exact_nonneg(s: Seq<InputView>, target: int)
    requires
        target < 0,
    ensures
        !exact_subset_exists(s, target),
    decreases s.len(),
{
    if s.len() > 0 {
        lemma_exact_nonneg(s.drop_first(), target);
        lemma_exact_nonneg(s.drop_first(), target - s[0].balance);
    }
}

/// An exact subset can be looked for around any one position: either it
/// leaves the element at that position out, or it takes it.
pub proof fn lemma_exact_extract(s: Seq<InputView>, i: int, target: int)
    requires
        0 <= i < s.len(),
    ensures
        exact_subset_exists(s, target) == (exact_subset_exists(s.remove(i), target)
            || exact_subset_exists(s.remove(i), target - s[i].balance)),
    decreases s.len(),
{
    if i == 0 {
        assert(s.remove(0) =~= s.drop_first());
    } else {
        let df = s.drop_first();
        assert(df.remove(i - 1) =~= s.remove(i).drop_first());
        assert(s.remove(i)[0] == s[0]);
        assert(df[i - 1] == s[i]);
        lemma_exact_extract(df, i - 1, target);
        lemma_exact_extract(df, i - 1, target - s[0].balance);
        assert(s.remove(i).len() > 0);
    }
}

/// Two sequences with one multiset of inputs hold the same exact subsets.
pub proof fn lemma_exact_permutation(s1: Seq<InputView>, s2: Seq<InputView>, target: int)
    requires
        s1.to_multiset() == s2.to_multiset(),
    ensures
        exact_subset_exists(s1, target) == exact_subset_exists(s2, target),
    decreases s1.len(),
{
    broadcast use vstd::seq_lib::group_to_multiset_ensures;

    if s1.len() == 0 {
        assert(s2.to_multiset().len() == 0);
        assert(s2.len() == 0);
    } else {
        let x = s1[0];
        assert(s1.drop_first() =~= s1.remove(0));
        assert(s1.remove(0).to_multiset() =~= s1.to_multiset().remove(x));
        assert(s1.to_multiset().count(x) > 0);
        assert(s2.to_multiset().count(x) > 0);
        assert(s2.contains(x));
        let i = s2.index_of(x);
        assert(0 <= i < s2.len() && s2[i] == x);
        assert(s2.remove(i).to_multiset() =~= s2.to_multiset().remove(x));
        lemma_exact_permutation(s1.drop_first(), s2.remove(i), target);
        lemma_exact_permutation(s1.drop_first(), s2.remove(i), target - x.balance);
        lemma_exact_extract(s2, i, target);
    }
}

/// Relies on rand::thread_rng for the generator behind the random draw.
#[verifier::external_type_specification]
#[verifier::external_body]
pub struct ExThreadRng(rand::rngs::ThreadRng);

/// Relies on rand::thread_rng: a lazily seeded process-local generator.
#[verifier::external_body]
fn new_rng() -> rand::rngs::ThreadRng {
    rand::thread_rng()
}

/// Relies on rand's SliceRandom::shuffle: an unbiased in-place permutation,
/// so the multiset of inputs is unchanged whatever order comes out.
#[verifier::external_body]
fn shuffle_inputs(v: &mut Vec<Input>, rng: &mut rand::rngs::ThreadRng)
    ensures
        final(v).deep_view().to_multiset() == old(v).deep_view().to_multiset(),
{
    v.as_mut_slice().shuffle(rng);
}

/// Sorts the inputs by descending balance, by repeatedly extracting a
/// maximal remaining input. Only the order changes: the multiset of inputs
/// is preserved.
fn sort_inputs_desc(v: &mut Vec<Input>)
    ensures
        final(v).deep_view().to_multiset() == old(v).deep_view().to_multiset(),
        sorted_desc(final(v).deep_view()),
{
    broadcast use vstd::seq_lib::group_to_multiset_ensures;

    let ghost orig = v.deep_view();
    let mut out: Vec<Input> = Vec::new();
    proof {
        assert(out.deep_view() =~= Seq::<InputView>::empty());
        assert(out.deep_view().to_multiset().add(v.deep_view().to_multiset())
            =~= orig.to_multiset());
    }
    while v.len() > 0
        invariant
            out.deep_view().to_multiset().add(v.deep_view().to_multiset()) == orig.to_multiset(),
            sorted_desc(out.deep_view()),
            forall|i: int, j: int|
                0 <= i < out.deep_view().len() && 0 <= j < v.deep_view().len()
                    ==> #[trigger] out.deep_view()[i].balance
                    >= #[trigger] v.deep_view()[j].balance,
        decreases v.len(),
    {
        let ghost out_prev = out.deep_view();
        let ghost rest_prev = v.deep_view();
        let mut m: usize = 0;
        let mut k: usize = 1;
        while k < v.len()
            invariant
                0 <= m < k,
                k <= rest_prev.len(),
                v.deep_view() == rest_prev,
                forall|j: int|
                    0 <= j < k ==> rest_prev[m as int].balance >= #[trigger] rest_prev[j].balance,
            decreases rest_prev.len() - k,
        {
            if v[k].balance > v[m].balance {
                m = k;
            }
            k = k + 1;
        }
        let picked = v.remove(m);
        proof {
            assert(v.deep_view() =~= rest_prev.remove(m as int)) by {
                assert forall|j: int| 0 <= j < v.deep_view().len() implies v.deep_view()[j]
                    == rest_prev.remove(m as int)[j] by {
                    assert(v.deep_view()[j] == v@[j].deep_view());
                }
            }
            assert(picked@ == rest_prev[m as int]);
            rest_prev.to_multiset_ensures();
            assert(rest_prev.remove(m as int).to_multiset() =~= rest_prev.to_multiset().remove(
                picked@,
            ));
        }
        out.push(picked);
        proof {
            assert(out.deep_view() =~= out_prev.push(rest_prev[m as int])) by {
                assert forall|j: int| 0 <= j < out_prev.len() implies out.deep_view()[j]
                    == out_prev[j] by {
                    assert(out.deep_view()[j] == out@[j].deep_view());
                }
            }
            out_prev.to_multiset_ensures();
            assert(out.deep_view().to_multiset() =~= out_prev.to_multiset().insert(
                rest_prev[m as int],
            ));
            assert(out.deep_view().to_multiset().add(v.deep_view().to_multiset())
                =~= orig.to_multiset());
            assert(sorted_desc(out.deep_view())) by {
                assert forall|i: int, j: int|
                    0 <= i < j < out.deep_view().len() implies #[trigger] out.deep_view()[i].balance
                    >= #[trigger] out.deep_view()[j].balance by {
                    if j == out.deep_view().len() - 1 {
                        assert(out.deep_view()[i] == out_prev[i]);
                    }
                }
            }
            assert forall|i: int, j: int|
                0 <= i < out.deep_view().len() && 0 <= j < v.deep_view().len()
                    implies #[trigger] out.deep_view()[i].balance
                >= #[trigger] v.deep_view()[j].balance by {
                assert(v.deep_view()[j] == rest_prev.remove(m as int)[j]);
                if j < m as int {
                    assert(rest_prev.remove(m as int)[j] == rest_prev[j]);
                } else {
                    assert(rest_prev.remove(m as int)[j] == rest_prev[j + 1]);
                }
                if i < out_prev.len() {
                    assert(out.deep_view()[i] == out_prev[i]);
                } else {
                    assert(out.deep_view()[i] == rest_prev[m as int]);
                }
            }
        }
    }
    proof {
        broadcast use vstd::multiset::group_multiset_axioms;
        let vms = v.deep_view().to_multiset();
        assert(v.deep_view() =~= Seq::<InputView>::empty());
        assert forall|x: InputView| vms.count(x) == 0 by {
            assert(!v.deep_view().contains(x));
        }
        assert(out.deep_view().to_multiset() =~= orig.to_multiset()) by {
            assert forall|x: InputView|
                out.deep_view().to_multiset().count(x) == orig.to_multiset().count(x) by {
                assert(out.deep_view().to_multiset().add(vms).count(x)
                    == out.deep_view().to_multiset().count(x) + vms.count(x));
            }
        }
    }
    *v = out;
}

/// The sum of a one-element sequence is that element's balance.
pub proof fn lemma_sum_singleton(x: InputView)
    ensures
        spec_sum(seq![x]) == x.balance,
{
    let single = seq![x];
    assert(single.drop_last() =~= Seq::<InputView>::empty());
    assert(single.len() == 1 && single.last() == x);
    assert(spec_sum(Seq::<InputView>::empty()) == 0);
}

/// A suffix of a sequence splits off its first element, as sequences and as
/// multisets.
pub proof fn lemma_skip_split_first(s: Seq<InputView>, d: int)
    requires
        0 <= d < s.len(),
    ensures
        s.skip(d) == seq![s[d]] + s.skip(d + 1),
        s.skip(d).to_multiset() == s.skip(d + 1).to_multiset().insert(s[d]),
    decreases s.len(),
{
    broadcast use vstd::seq_lib::group_to_multiset_ensures;

    assert(s.skip(d) =~= seq![s[d]] + s.skip(d + 1));
    vstd::seq_lib::lemma_multiset_commutative(seq![s[d]], s.skip(d + 1));
    assert(seq![s[d]] =~= Seq::<InputView>::empty().push(s[d]));
    Seq::<InputView>::empty().to_multiset_ensures();
    assert(seq![s[d]].to_multiset() =~= Multiset::<InputView>::empty().insert(s[d]));
    assert(seq![s[d]].to_multiset().add(s.skip(d + 1).to_multiset()) =~= s.skip(
        d + 1,
    ).to_multiset().insert(s[d])) by {
        broadcast use vstd::multiset::group_multiset_axioms;

    }
}

/// The sum of the inputs from position `depth` on.
fn suffix_sum(available_utxos: &Vec<Input>, depth: usize) -> (r: u128)
    requires
        depth <= available_utxos.deep_view().len(),
    ensures
        r == spec_sum(available_utxos.deep_view().skip(depth as int)),
{
    let ghost uv = available_utxos.deep_view();
    let ghost suffix = uv.skip(depth as int);
    let mut acc: u128 = 0;
    let mut i: usize = depth;
    let n = available_utxos.len();
    proof {
        lemma_sum_len_bound(suffix);
        assert(suffix.len() * (u64::MAX as int) <= 0xffff_ffff_ffff_ffff * (u64::MAX as int))
            by (nonlinear_arith)
            requires
                0 <= suffix.len() <= 0xffff_ffff_ffff_ffff,
        ;
        assert(suffix.take(0) =~= Seq::<InputView>::empty());
    }
    while i < n
        invariant
            depth <= i <= n,
            n == uv.len(),
            uv == available_utxos.deep_view(),
            suffix == uv.skip(depth as int),
            acc == spec_sum(suffix.take(i - depth)),
            spec_sum(suffix) <= suffix.len() * (u64::MAX as int),
            suffix.len() * (u64::MAX as int) < u128::MAX,
        decreases n - i,
    {
        proof {
            assert(suffix.take(i - depth + 1).drop_last() =~= suffix.take(i - depth));
            assert(suffix.take(i - depth + 1).last() == uv[i as int]);
            lemma_sum_prefix(suffix, i - depth + 1);
            lemma_sum_nonneg(suffix.take(i - depth));
        }
        acc = acc + available_utxos[i].balance as u128;
        i = i + 1;
    }
    proof {
        assert(suffix.take(n - depth) =~= suffix);
    }
    acc
}

/// The branch and bound search for an exact-sum subset of the inputs from
/// position `depth` on: it explores inclusion and exclusion of each input in
/// turn, prunes branches that overshoot the target or can no longer reach
/// it, and spends one unit of the trial budget per explored node. When it
/// succeeds, the inputs it appended to the selection sum exactly to what the
/// target still needed; when it fails with a budget of at least two to the
/// number of remaining inputs, no exact subset exists among them.
pub fn branch_and_bound(
    target: u64,
    available_utxos: &Vec<Input>,
    depth: usize,
    current_selection: &mut Vec<Input>,
    effective_value: u128,
    tries: i128,
) -> (r: bool)
    requires
        depth <= available_utxos.deep_view().len(),
    ensures
        ({
            let uv = available_utxos.deep_view();
            let before = old(current_selection).deep_view();
            let after = final(current_selection).deep_view();
            &&& r ==> {
                &&& after.len() >= before.len()
                &&& after.take(before.len() as int) == before
                &&& spec_sum(after.skip(before.len() as int)) == target - effective_value
                &&& after.skip(before.len() as int).to_multiset().subset_of(
                    uv.skip(depth as int).to_multiset(),
                )
            }
            &&& !r ==> {
                &&& after == before
                &&& tries >= pow2((uv.len() - depth) as nat) ==> !exact_subset_exists(
                    uv.skip(depth as int),
                    target - effective_value,
                )
            }
        }),
    decreases available_utxos.deep_view().len() - depth,
{
    broadcast use vstd::seq_lib::group_to_multiset_ensures;
    broadcast use vstd::multiset::group_multiset_axioms;

    let ghost uv = available_utxos.deep_view();
    let ghost before = current_selection.deep_view();
    let ghost remaining = (uv.len() - depth) as nat;

    if effective_value > target as u128 {
        proof {
            lemma_exact_nonneg(uv.skip(depth as int), target - effective_value);
        }
        return false;
    }
    if effective_value == target as u128 {
        proof {
            let after = current_selection.deep_view();
            assert(after.take(before.len() as int) =~= before);
            assert(after.skip(before.len() as int) =~= Seq::<InputView>::empty());
            assert(spec_sum(Seq::<InputView>::empty()) == 0);
            assert forall|x: InputView|
                after.skip(before.len() as int).to_multiset().count(x) <= uv.skip(
                    depth as int,
                ).to_multiset().count(x) by {
                assert(!after.skip(before.len() as int).contains(x));
            }
        }
        return true;
    }
    let n = available_utxos.len();
    let suffix_total = suffix_sum(available_utxos, depth);
    proof {
        lemma_sum_len_bound(uv.skip(depth as int));
        assert(uv.skip(depth as int).len() == n - depth);
        assert(uv.skip(depth as int).len() * (u64::MAX as int) <= 0xffff_ffff_ffff_ffff * (
        u64::MAX as int)) by (nonlinear_arith)
            requires
                0 <= uv.skip(depth as int).len() <= 0xffff_ffff_ffff_ffff,
        ;
    }
    if effective_value + suffix_total < target as u128 {
        proof {
            if exact_subset_exists(uv.skip(depth as int), target - effective_value) {
                lemma_exact_le_sum(uv.skip(depth as int), target - effective_value);
            }
        }
        return false;
    }
    if tries <= 0 || depth >= available_utxos.len() {
        proof {
            if depth as int == uv.len() {
                assert(uv.skip(depth as int) =~= Seq::<InputView>::empty());
                assert(target - effective_value > 0);
            } else {
                vstd::arithmetic::power2::lemma_pow2_pos(remaining);
            }
        }
        return false;
    }
    let tries = tries - 1;
    proof {
        if tries + 1 >= pow2(remaining) {
            vstd::arithmetic::power2::lemma_pow2_unfold(remaining);
            vstd::arithmetic::power2::lemma_pow2_pos((remaining - 1) as nat);
            assert(tries >= pow2((remaining - 1) as nat));
        }
    }
    let current_utxo_value = available_utxos[depth].balance;
    let ghost presel = current_selection@;
    current_selection.push(available_utxos[depth].clone());
    let ghost mid = current_selection.deep_view();
    proof {
        assert(mid =~= before.push(uv[depth as int])) by {
            assert forall|j: int| 0 <= j < before.len() implies mid[j] == before[j] by {
                assert(current_selection@[j] == presel[j]);
                assert(mid[j] == current_selection@[j].deep_view());
                assert(before[j] == presel[j].deep_view());
            }
            assert(mid[before.len() as int] == current_selection@[before.len() as int].deep_view());
        }
    }
    if branch_and_bound(
        target,
        available_utxos,
        depth + 1,
        current_selection,
        effective_value + current_utxo_value as u128,
        tries,
    ) {
        proof {
            let after = current_selection.deep_view();
            let added1 = after.skip(mid.len() as int);
            assert(after.take(mid.len() as int) == mid);
            assert(after.take(before.len() as int) =~= before) by {
                assert forall|j: int| 0 <= j < before.len() implies after.take(
                    before.len() as int,
                )[j] == before[j] by {
                    assert(after[j] == after.take(mid.len() as int)[j]);
                }
            }
            assert(after[before.len() as int] == after.take(mid.len() as int)[before.len() as int]);
            assert(after.skip(before.len() as int) =~= seq![uv[depth as int]] + added1);
            lemma_sum_concat(seq![uv[depth as int]], added1);
            lemma_sum_singleton(uv[depth as int]);
            lemma_skip_split_first(uv, depth as int);
            assert(seq![uv[depth as int]] =~= Seq::<InputView>::empty().push(uv[depth as int]));
            Seq::<InputView>::empty().to_multiset_ensures();
            vstd::seq_lib::lemma_multiset_commutative(seq![uv[depth as int]], added1);
            assert forall|x: InputView|
                after.skip(before.len() as int).to_multiset().count(x) <= uv.skip(
                    depth as int,
                ).to_multiset().count(x) by {
                assert(after.skip(before.len() as int).to_multiset().count(x) == seq![
                    uv[depth as int],
                ].to_multiset().count(x) + added1.to_multiset().count(x));
                assert(added1.to_multiset().count(x) <= uv.skip(depth as int + 1).to_multiset().count(x));
                assert(uv.skip(depth as int).to_multiset().count(x) == uv.skip(
                    depth as int + 1,
                ).to_multiset().insert(uv[depth as int]).count(x));
            }
        }
        return true;
    }
    let ghost postsel = current_selection@;
    let _ = current_selection.pop();
    proof {
        let after = current_selection.deep_view();
        assert(after =~= before) by {
            assert forall|j: int| 0 <= j < before.len() implies after[j] == before[j] by {
                assert(current_selection@[j] == postsel[j]);
                assert(after[j] == current_selection@[j].deep_view());
                assert(mid[j] == postsel[j].deep_view());
            }
        }
    }
    let r = branch_and_bound(target, available_utxos, depth + 1, current_selection, effective_value, tries);
    proof {
        let after = current_selection.deep_view();
        if r {
            assert forall|x: InputView|
                after.skip(before.len() as int).to_multiset().count(x) <= uv.skip(
                    depth as int,
                ).to_multiset().count(x) by {
                assert(after.skip(before.len() as int).to_multiset().count(x) <= uv.skip(
                    depth as int + 1,
                ).to_multiset().count(x));
                lemma_skip_split_first(uv, depth as int);
                assert(uv.skip(depth as int).to_multiset().count(x) == uv.skip(
                    depth as int + 1,
                ).to_multiset().insert(uv[depth as int]).count(x));
            }
        } else {
            if tries + 1 >= pow2(remaining) {
                assert(!exact_subset_exists(uv.skip(depth as int + 1), target - effective_value));
                assert(!exact_subset_exists(
                    uv.skip(depth as int + 1),
                    target - (effective_value + current_utxo_value),
                ));
                assert(uv.skip(depth as int).drop_first() =~= uv.skip(depth as int + 1));
                assert(uv.skip(depth as int)[0] == uv[depth as int]);
                assert(uv.skip(depth as int).len() > 0);
                assert(!exact_subset_exists(uv.skip(depth as int), target - effective_value));
            }
        }
    }
    r
}

/// Selects inputs funding a transfer of `target`: fails with
/// `InsufficientFunds` exactly when the target exceeds the total candidate
/// balance; otherwise returns candidates summing to at least the target,
/// summing to it exactly whenever an exact-sum subset exists and the trial
/// budget covers the whole search (it does up to 126 candidates). The
/// candidate list itself is only reordered.
pub fn select_input(target: u64, available_utxos: &mut Vec<Input>) -> (r: Result<
    Vec<Input>,
    WalletError,
>)
    ensures
        final(available_utxos).deep_view().to_multiset() == old(available_utxos).deep_view().to_multiset(),
        match r {
            Ok(sel) => {
                &&& target <= spec_sum(old(available_utxos).deep_view())
                &&& spec_sum(sel.deep_view()) >= target
                &&& sel.deep_view().to_multiset().subset_of(
                    old(available_utxos).deep_view().to_multiset(),
                )
                &&& (spec_sum(sel.deep_view()) == target || {
                    // the random fallback: the shortest prefix of the
                    // reordered candidates whose sum reaches the target
                    &&& sel.deep_view() == final(available_utxos).deep_view().take(
                        sel.deep_view().len() as int,
                    )
                    &&& sel.deep_view().len() > 0 ==> spec_sum(sel.deep_view().drop_last())
                        < target
                })
            },
            Err(e) => {
                &&& e == WalletError::InsufficientFunds
                &&& target > spec_sum(old(available_utxos).deep_view())
            },
        },
        old(available_utxos).deep_view().len() <= 126 && exact_subset_exists(
            old(available_utxos).deep_view(),
            target as int,
        ) ==> match r {
            Ok(sel) => spec_sum(sel.deep_view()) == target,
            Err(_) => false,
        },
{
    broadcast use vstd::seq_lib::group_to_multiset_ensures;
    broadcast use vstd::multiset::group_multiset_axioms;

    let ghost orig = available_utxos.deep_view();
    let n = available_utxos.len();
    let mut total: u128 = 0;
    let mut i: usize = 0;
    proof {
        lemma_sum_len_bound(orig);
        assert(n * (u64::MAX as int) <= 0xffff_ffff_ffff_ffff * (u64::MAX as int))
            by (nonlinear_arith)
            requires
                0 <= n <= 0xffff_ffff_ffff_ffff,
        ;
    }
    while i < n
        invariant
            0 <= i <= n,
            n == orig.len(),
            orig == available_utxos.deep_view(),
            total == spec_sum(orig.take(i as int)),
            spec_sum(orig) <= n * (u64::MAX as int),
            n * (u64::MAX as int) < u128::MAX,
        decreases n - i,
    {
        proof {
            assert(orig.take(i + 1).drop_last() =~= orig.take(i as int));
            lemma_sum_prefix(orig, i + 1);
            lemma_sum_nonneg(orig.take(i as int));
        }
        total = total + available_utxos[i].balance as u128;
        i = i + 1;
    }
    proof {
        assert(orig.take(n as int) =~= orig);
    }
    if (target as u128) > total {
        proof {
            if exact_subset_exists(orig, target as int) {
                lemma_exact_le_sum(orig, target as int);
            }
        }
        return Err(WalletError::InsufficientFunds);
    }

    sort_inputs_desc(available_utxos);
    let ghost sorted = available_utxos.deep_view();
    proof {
        lemma_sum_permutation(sorted, orig);
        sorted.to_multiset_ensures();
        orig.to_multiset_ensures();
        assert(sorted.len() == orig.len());
    }

    let mut tries: i128 = i128::MAX;
    if n <= 126 {
        tries = 1;
        let mut j: usize = 0;
        proof {
            vstd::arithmetic::power2::lemma_pow2_adds(64, 62);
            vstd::arithmetic::power2::lemma2_to64();
            vstd::arithmetic::power2::lemma2_to64_rest();
            assert(pow2(126) == 0x4000_0000_0000_0000_0000_0000_0000_0000);
        }
        while j < n
            invariant
                0 <= j <= n <= 126,
                tries == pow2(j as nat),
                pow2(126) == 0x4000_0000_0000_0000_0000_0000_0000_0000,
            decreases n - j,
        {
            proof {
                vstd::arithmetic::power2::lemma_pow2_unfold((j + 1) as nat);
                if ((j + 1) as nat) < 126 {
                    vstd::arithmetic::power2::lemma_pow2_strictly_increases((j + 1) as nat, 126);
                }
            }
            tries = tries * 2;
            j = j + 1;
        }
    }

    let mut selected: Vec<Input> = Vec::new();
    let ghost empty_sel = selected.deep_view();
    proof {
        assert(empty_sel =~= Seq::<InputView>::empty());
        assert(sorted.skip(0) =~= sorted);
    }
    let result = branch_and_bound(target, available_utxos, 0, &mut selected, 0, tries);
    if result {
        proof {
            assert(selected.deep_view().skip(0) =~= selected.deep_view());
            assert(spec_sum(selected.deep_view()) == target);
        }
        return Ok(selected);
    }
    proof {
        if orig.len() <= 126 && exact_subset_exists(orig, target as int) {
            assert(tries == pow2((sorted.len() - 0) as nat));
            assert(!exact_subset_exists(sorted.skip(0), target as int - 0));
            lemma_exact_permutation(sorted, orig, target as int);
            assert(false);
        }
    }
    let drawn = single_random_draw(target, available_utxos);
    Ok(drawn)
}

/// The single random draw fallback: shuffles the inputs uniformly, then
/// takes them in shuffled order until the running sum reaches the target.
fn single_random_draw(target: u64, available_utxos: &mut Vec<Input>) -> (r: Vec<Input>)
    requires
        spec_sum(old(available_utxos).deep_view()) >= target,
    ensures
        final(available_utxos).deep_view().to_multiset() == old(available_utxos).deep_view().to_multiset(),
        spec_sum(r.deep_view()) >= target,
        r.deep_view().to_multiset().subset_of(old(available_utxos).deep_view().to_multiset()),
        r.deep_view() == final(available_utxos).deep_view().take(r.deep_view().len() as int),
        r.deep_view().len() > 0 ==> spec_sum(r.deep_view().drop_last()) < target,
{
    broadcast use vstd::seq_lib::group_to_multiset_ensures;

    let mut rng = new_rng();
    shuffle_inputs(available_utxos, &mut rng);
    let ghost shuffled = available_utxos.deep_view();
    proof {
        lemma_sum_permutation(shuffled, old(available_utxos).deep_view());
    }
    let mut selected: Vec<Input> = Vec::new();
    let mut sum: u128 = 0;
    let mut i: usize = 0;
    let n = available_utxos.len();
    proof {
        assert(selected.deep_view() =~= shuffled.take(0));
        lemma_sum_len_bound(shuffled);
        assert(n * (u64::MAX as int) <= 0xffff_ffff_ffff_ffff * (u64::MAX as int))
            by (nonlinear_arith)
            requires
                0 <= n <= 0xffff_ffff_ffff_ffff,
        ;
    }
    while i < n && sum < target as u128
        invariant
            0 <= i <= n,
            n == shuffled.len(),
            shuffled == available_utxos.deep_view(),
            selected.deep_view() == shuffled.take(i as int),
            sum == spec_sum(shuffled.take(i as int)),
            sum <= n * (u64::MAX as int),
            spec_sum(shuffled) >= target,
            spec_sum(shuffled) <= n * (u64::MAX as int),
            n * (u64::MAX as int) < u128::MAX,
            i > 0 ==> spec_sum(shuffled.take(i - 1)) < target,
        decreases n - i,
    {
        let ghost prev = selected.deep_view();
        let ghost prevseq = selected@;
        selected.push(available_utxos[i].clone());
        proof {
            assert(prev.len() == i as int);
            assert(selected@[i as int]@ == shuffled[i as int]);
            assert(selected.deep_view()[i as int] == selected@[i as int].deep_view());
            assert forall|j: int| 0 <= j < prev.len() implies selected.deep_view()[j] == prev[j] by {
                assert(selected@[j] == prevseq[j]);
                assert(selected.deep_view()[j] == selected@[j].deep_view());
                assert(prev[j] == prevseq[j].deep_view());
            }
            assert(selected.deep_view() =~= shuffled.take(i + 1));
            assert(shuffled.take(i + 1).drop_last() =~= shuffled.take(i as int));
            lemma_sum_prefix(shuffled, i + 1);
            lemma_sum_nonneg(shuffled.take(i as int));
        }
        sum = sum + available_utxos[i].balance as u128;
        i = i + 1;
    }
    proof {
        if sum < target as u128 {
            assert(i == n);
            assert(shuffled.take(n as int) =~= shuffled);
        }
        assert(spec_sum(selected.deep_view()) >= target);
        assert(shuffled =~= shuffled.take(i as int) + shuffled.skip(i as int));
        vstd::seq_lib::lemma_multiset_commutative(
            shuffled.take(i as int),
            shuffled.skip(i as int),
        );
        assert forall|x: InputView|
            selected.deep_view().to_multiset().count(x) <= old(available_utxos).deep_view().to_multiset().count(x) by {
            assert(shuffled.to_multiset().count(x) == shuffled.take(i as int).to_multiset().count(
                x,
            ) + shuffled.skip(i as int).to_multiset().count(x));
        }
        if selected.deep_view().len() > 0 {
            assert(shuffled.take(i as int).drop_last() =~= shuffled.take(i - 1));
        }
    }
    selected
}

} // verus!
