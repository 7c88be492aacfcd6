//! The parameter grid: which value of each axis every slot runs with.
//!
//! Axes are handed over by their number of values, in the order in which the grid
//! lists them (sorted by axis name); a combination picks one value index per axis.

use vstd::prelude::*;
use vstd::string::StringExecFns;

verus! {

/// Most parameter combinations (slots) that one grid may run.
pub const MAX_COMBINATIONS: usize = 500;

/// Product of the axis lengths.
pub open spec fn product(lens: Seq<usize>) -> nat
    decreases lens.len(),
{
    if lens.len() == 0 {
        1
    } else {
        product(lens.drop_last()) * (lens.last() as nat)
    }
}

/// Every combination of `prev` extended by each index below `n`, the new index
/// varying fastest.
pub open spec fn expand(prev: Seq<Seq<usize>>, n: usize) -> Seq<Seq<usize>> {
    Seq::new(prev.len() * (n as nat), |i: int| prev[i / n as int].push((i % n as int) as usize))
}

/// All combinations of one index per axis, in lexicographic order (the first axis
/// varies slowest).
pub open spec fn combinations(lens: Seq<usize>) -> Seq<Seq<usize>>
    decreases lens.len(),
{
    if lens.len() == 0 {
        seq![Seq::empty()]
    } else {
        expand(combinations(lens.drop_last()), lens.last())
    }
}

/// `c` picks one valid index for each axis.
pub open spec fn is_combination(lens: Seq<usize>, c: Seq<usize>) -> bool {
    &&& c.len() == lens.len()
    &&& forall|j: int| 0 <= j < c.len() ==> #[trigger] c[j] < lens[j]
}

/// Every prefix of the axes has a product that fits in `usize`.
pub open spec fn products_fit(lens: Seq<usize>) -> bool {
    forall|k: int| 0 <= k <= lens.len() ==> #[trigger] product(lens.take(k)) <= usize::MAX
}

proof fn lemma_expand_len(prev: Seq<Seq<usize>>, n: usize)
    ensures
        expand(prev, n).len() == prev.len() * n,
{
    assert(prev.len() * n >= 0) by (nonlinear_arith);
}

/// Number of combinations, the product of the axis lengths.
pub proof fn lemma_combinations_len(lens: Seq<usize>)
    ensures
        combinations(lens).len() == product(lens),
    decreases lens.len(),
{
    if lens.len() > 0 {
        lemma_combinations_len(lens.drop_last());
        lemma_expand_len(combinations(lens.drop_last()), lens.last());
    }
}

proof fn lemma_div_mod(i: int, n: int, p: int)
    requires
        0 <= i < p * n,
        n > 0,
    ensures
        0 <= i / n < p,
        0 <= i % n < n,
{
    assert(0 <= i / n < p) by (nonlinear_arith)
        requires
            0 <= i < p * n,
            n > 0,
    ;
}

/// The grid holds exactly the combinations of one index per axis: each listed
/// combination is one, and each one is listed.
pub proof fn lemma_combinations_complete(lens: Seq<usize>)
    ensures
        forall|i: int|
            0 <= i < combinations(lens).len() ==> is_combination(lens, #[trigger] combinations(lens)[i]),
        forall|c: Seq<usize>| is_combination(lens, c) ==> combinations(lens).contains(c),
    decreases lens.len(),
{
    if lens.len() == 0 {
        assert forall|c: Seq<usize>| is_combination(lens, c) implies combinations(lens).contains(c) by {
            assert(c =~= Seq::<usize>::empty());
            assert(combinations(lens)[0] == c);
        }
    } else {
        let init = lens.drop_last();
        let n = lens.last();
        let prev = combinations(init);
        lemma_combinations_complete(init);
        lemma_expand_len(prev, n);
        assert forall|i: int| 0 <= i < combinations(lens).len() implies is_combination(
            lens,
            #[trigger] combinations(lens)[i],
        ) by {
            lemma_div_mod(i, n as int, prev.len() as int);
            let c = prev[i / n as int];
            assert(is_combination(init, c));
            assert(combinations(lens)[i] == c.push((i % n as int) as usize));
            assert forall|j: int| 0 <= j < lens.len() implies #[trigger] c.push(
                (i % n as int) as usize,
            )[j] < lens[j] by {
                if j < init.len() {
                    assert(c[j] < init[j]);
                }
            }
        }
        assert forall|c: Seq<usize>| is_combination(lens, c) implies combinations(lens).contains(
            c,
        ) by {
            let d = c.drop_last();
            assert forall|j: int| 0 <= j < d.len() implies #[trigger] d[j] < init[j] by {
                assert(c[j] < lens[j]);
            }
            assert(is_combination(init, d));
            assert(prev.contains(d));
            let p = choose|p: int| 0 <= p < prev.len() && prev[p] == d;
            let v = c.last();
            assert(v < n) by {
                assert(c[c.len() - 1] < lens[lens.len() - 1]);
            }
            let i = p * n + v;
            assert(0 <= i < prev.len() * n && i / n as int == p && i % n as int == v) by (
            nonlinear_arith)
                requires
                    0 <= p < prev.len(),
                    0 <= v < n,
                    i == p * n + v,
            ;
            assert(combinations(lens)[i] =~= c);
        }
    }
}

/// `combo` followed by `v`.
fn extended(combo: &Vec<usize>, v: usize) -> (res: Vec<usize>)
    ensures
        res@ == combo@.push(v),
{
    let mut res: Vec<usize> = Vec::new();
    let mut i: usize = 0;
    while i < combo.len()
        invariant
            i <= combo@.len(),
            res@ == combo@.take(i as int),
        decreases combo@.len() - i,
    {
        res.push(combo[i]);
        i = i + 1;
        assert(res@ =~= combo@.take(i as int));
    }
    res.push(v);
    assert(res@ =~= combo@.push(v));
    res
}

/// Builds every combination of one value index per axis (the Cartesian product),
/// first axis slowest.
pub fn parameter_combinations(axis_lens: &Vec<usize>) -> (res: Vec<Vec<usize>>)
    requires
        products_fit(axis_lens@),
    ensures
        res@.len() == combinations(axis_lens@).len(),
        forall|i: int| 0 <= i < res@.len() ==> #[trigger] res@[i]@ == combinations(axis_lens@)[i],
{
    let ghost lens = axis_lens@;
    let mut combos: Vec<Vec<usize>> = Vec::new();
    combos.push(Vec::new());
    let mut k: usize = 0;
    proof {
        assert(lens.take(0) =~= Seq::<usize>::empty());
    }
    while k < axis_lens.len()
        invariant
            lens == axis_lens@,
            products_fit(lens),
            k <= lens.len(),
            combos@.len() == combinations(lens.take(k as int)).len(),
            forall|i: int|
                0 <= i < combos@.len() ==> #[trigger] combos@[i]@ == combinations(lens.take(k as int))[i],
        decreases lens.len() - k,
    {
        let n = axis_lens[k];
        let ghost prev = combinations(lens.take(k as int));
        proof {
            assert(lens.take(k + 1).drop_last() =~= lens.take(k as int));
            assert(lens.take(k + 1).last() == n);
            lemma_combinations_len(lens.take(k as int));
            lemma_combinations_len(lens.take(k + 1));
            lemma_expand_len(prev, n);
            assert(product(lens.take(k + 1)) <= usize::MAX);
        }
        let mut next: Vec<Vec<usize>> = Vec::new();
        let mut c: usize = 0;
        while c < combos.len()
            invariant
                lens == axis_lens@,
                n == lens[k as int],
                k < lens.len(),
                c <= combos@.len(),
                prev == combinations(lens.take(k as int)),
                combos@.len() == prev.len(),
                prev.len() * n <= usize::MAX,
                forall|i: int| 0 <= i < combos@.len() ==> #[trigger] combos@[i]@ == prev[i],
                next@.len() == c * n,
                forall|i: int| 0 <= i < next@.len() ==> #[trigger] next@[i]@ == expand(prev, n)[i],
            decreases combos@.len() - c,
        {
            let mut v: usize = 0;
            proof {
                assert(c * n + n <= prev.len() * n) by (nonlinear_arith)
                    requires
                        c < prev.len(),
                ;
            }
            while v < n
                invariant
                    n == lens[k as int],
                    c < combos@.len(),
                    combos@.len() == prev.len(),
                    forall|i: int| 0 <= i < combos@.len() ==> #[trigger] combos@[i]@ == prev[i],
                    v <= n,
                    c * n + n <= prev.len() * n,
                    prev.len() * n <= usize::MAX,
                    next@.len() == c * n + v,
                    forall|i: int| 0 <= i < next@.len() ==> #[trigger] next@[i]@ == expand(prev, n)[i],
                decreases n - v,
            {
                let e = extended(&combos[c], v);
                proof {
                    let i = c * n + v;
                    assert(i / n as int == c && i % n as int == v) by (nonlinear_arith)
                        requires
                            i == c * n + v,
                            0 <= v < n,
                            0 <= c,
                    ;
                    assert(i < prev.len() * n);
                    assert(expand(prev, n)[i] == prev[c as int].push(v));
                }
                next.push(e);
                v = v + 1;
            }
            c = c + 1;
            assert(next@.len() == c * n) by (nonlinear_arith)
                requires
                    next@.len() == (c - 1) * n + n,
            ;
        }
        combos = next;
        k = k + 1;
    }
    assert(lens.take(lens.len() as int) =~= lens);
    combos
}

/// Why a grid of parameter axes is refused.
#[derive(PartialEq, Eq, Structural, Clone, Copy, Debug)]
pub enum GridShapeError {
    /// There is no axis at all.
    NoAxes,
    /// The axis at this position has no value.
    EmptyAxis(usize),
    /// The axes combine to this many slots, more than `MAX_COMBINATIONS`.
    TooManyCombinations(usize),
}

/// Checks the axes of a grid and answers its number of slots: refused when there is
/// no axis, when an axis (the first such) has no value, or when the product of the
/// axis lengths exceeds `MAX_COMBINATIONS`.
pub fn check_axes(axis_lens: &Vec<usize>) -> (res: Result<usize, GridShapeError>)
    requires
        (forall|j: int| 0 <= j < axis_lens@.len() ==> #[trigger] axis_lens@[j] > 0) ==> product(
            axis_lens@,
        ) <= usize::MAX,
    ensures
        axis_lens@.len() == 0 ==> res == Err::<usize, GridShapeError>(GridShapeError::NoAxes),
        axis_lens@.len() > 0 ==> match res {
            Err(GridShapeError::NoAxes) => false,
            Err(GridShapeError::EmptyAxis(j)) => {
                &&& j < axis_lens@.len()
                &&& axis_lens@[j as int] == 0
                &&& forall|a: int| 0 <= a < j ==> #[trigger] axis_lens@[a] > 0
            },
            Err(GridShapeError::TooManyCombinations(total)) => {
                &&& forall|a: int| 0 <= a < axis_lens@.len() ==> #[trigger] axis_lens@[a] > 0
                &&& total == product(axis_lens@)
                &&& total > MAX_COMBINATIONS
            },
            Ok(total) => {
                &&& forall|a: int| 0 <= a < axis_lens@.len() ==> #[trigger] axis_lens@[a] > 0
                &&& total == product(axis_lens@)
                &&& total <= MAX_COMBINATIONS
            },
        },
{
    let ghost lens = axis_lens@;
    if axis_lens.len() == 0 {
        return Err(GridShapeError::NoAxes);
    }
    let mut j: usize = 0;
    while j < axis_lens.len()
        invariant
            lens == axis_lens@,
            j <= lens.len(),
            forall|a: int| 0 <= a < j ==> #[trigger] lens[a] > 0,
        decreases lens.len() - j,
    {
        if axis_lens[j] == 0 {
            return Err(GridShapeError::EmptyAxis(j));
        }
        j = j + 1;
    }
    let mut total: usize = 1;
    let mut k: usize = 0;
    proof {
        assert(lens.take(0) =~= Seq::<usize>::empty());
    }
    while k < axis_lens.len()
        invariant
            lens == axis_lens@,
            k <= lens.len(),
            forall|a: int| 0 <= a < lens.len() ==> #[trigger] lens[a] > 0,
            product(lens) <= usize::MAX,
            total == product(lens.take(k as int)),
        decreases lens.len() - k,
    {
        proof {
            assert(lens.take(k + 1).drop_last() =~= lens.take(k as int));
            lemma_product_prefix_le(lens, k + 1);
            assert(lens[k as int] > 0);
        }
        total = total * axis_lens[k];
        k = k + 1;
    }
    assert(lens.take(lens.len() as int) =~= lens);
    if total > MAX_COMBINATIONS {
        Err(GridShapeError::TooManyCombinations(total))
    } else {
        Ok(total)
    }
}

proof fn lemma_product_prefix_le(lens: Seq<usize>, k: int)
    requires
        0 <= k <= lens.len(),
        forall|a: int| 0 <= a < lens.len() ==> #[trigger] lens[a] > 0,
    ensures
        product(lens.take(k)) <= product(lens),
    decreases lens.len() - k,
{
    if k < lens.len() {
        lemma_product_prefix_le(lens, k + 1);
        assert(lens.take(k + 1).drop_last() =~= lens.take(k));
        let p = product(lens.take(k));
        let x = lens[k];
        assert(p <= p * x) by (nonlinear_arith)
            requires
                x > 0,
        ;
    } else {
        assert(lens.take(k) =~= lens);
    }
}

/// The slot parameters that a grid axis may set.
#[derive(PartialEq, Eq, Structural, Clone, Copy, Debug)]
pub enum ParamAxis {
    VolToHalfSpread,
    MinHalfSpreadBps,
    Skew,
    SpreadFactorLevel1,
    NumLevels,
    C1Ticks,
}

/// The parameter that an axis of this name sets; other names set nothing.
pub open spec fn axis_named(name: Seq<char>) -> Option<ParamAxis> {
    if name == "vol_to_half_spread"@ {
        Some(ParamAxis::VolToHalfSpread)
    } else if name == "min_half_spread_bps"@ {
        Some(ParamAxis::MinHalfSpreadBps)
    } else if name == "skew"@ {
        Some(ParamAxis::Skew)
    } else if name == "spread_factor_level1"@ {
        Some(ParamAxis::SpreadFactorLevel1)
    } else if name == "num_levels"@ {
        Some(ParamAxis::NumLevels)
    } else if name == "c1_ticks"@ {
        Some(ParamAxis::C1Ticks)
    } else {
        None
    }
}

/// Which slot parameter the axis `name` sets (`None` for names the grid ignores).
pub fn param_axis(name: &String) -> (res: Option<ParamAxis>)
    ensures
        res == axis_named(name@),
{
    if *name == String::from_str("vol_to_half_spread") {
        Some(ParamAxis::VolToHalfSpread)
    } else if *name == String::from_str("min_half_spread_bps") {
        Some(ParamAxis::MinHalfSpreadBps)
    } else if *name == String::from_str("skew") {
        Some(ParamAxis::Skew)
    } else if *name == String::from_str("spread_factor_level1") {
        Some(ParamAxis::SpreadFactorLevel1)
    } else if *name == String::from_str("num_levels") {
        Some(ParamAxis::NumLevels)
    } else if *name == String::from_str("c1_ticks") {
        Some(ParamAxis::C1Ticks)
    } else {
        None
    }
}

} // verus!
