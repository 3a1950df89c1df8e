use vstd::prelude::*;
use crate::moves::Move;
use crate::rng::rng_below;

verus! {

/// The largest score among the first `n` options.
pub open spec fn max_pref(s: Seq<(Move, i32)>, n: int) -> int
    decreases n,
{
    if n <= 1 {
        s[0].1 as int
    } else {
        crate::negamax::max_i(max_pref(s, n - 1), s[n - 1].1 as int)
    }
}

pub proof fn lemma_max_pref(s: Seq<(Move, i32)>, n: int)
    requires
        1 <= n <= s.len(),
    ensures
        forall|k: int| 0 <= k < n ==> (#[trigger] s[k].1) <= max_pref(s, n),
        exists|k: int| 0 <= k < n && (#[trigger] s[k].1) == max_pref(s, n),
    decreases n,
{
    if n > 1 {
        lemma_max_pref(s, n - 1);
    } else {
        assert(s[0].1 == max_pref(s, 1));
    }
}

/// The `k`-th scored pair's move is one of the first `n` of the move list.
pub open spec fn drawn_at(pre: Seq<(Move, i32)>, moves: Seq<Move>, n: int, k: int) -> bool {
    exists|n2: int| 0 <= n2 < n && pre[k].0 == moves[n2]
}

/// Every scored pair's move comes from the first `n` of the move list.
pub open spec fn drawn_from(pre: Seq<(Move, i32)>, moves: Seq<Move>, n: int) -> bool {
    forall|k: int| 0 <= k < pre.len() ==> #[trigger] drawn_at(pre, moves, n, k)
}

/// Moves drawn from the first `n` are drawn from any longer prefix.
pub proof fn lemma_drawn_from_widen(pre: Seq<(Move, i32)>, moves: Seq<Move>, n: int, n3: int)
    requires
        drawn_from(pre, moves, n),
        n <= n3,
    ensures
        drawn_from(pre, moves, n3),
{
    assert forall|k: int| 0 <= k < pre.len() implies #[trigger] drawn_at(
        pre,
        moves,
        n3,
        k,
    ) by {
        assert(drawn_at(pre, moves, n, k));
        let n2 = choose|n2: int| 0 <= n2 < n && pre[k].0 == moves[n2];
        assert(0 <= n2 < n3 && pre[k].0 == moves[n2]);
    }
}

/// Appending a pair for the `n`-th of a duplicate-free move list keeps a
/// scored list's first components distinct and drawn from the moves seen
/// so far.
pub proof fn lemma_scored_push(pre: Seq<(Move, i32)>, pr: (Move, i32), moves: Seq<Move>, n: int)
    requires
        0 <= n < moves.len(),
        pr.0 == moves[n],
        forall|k1: int, k2: int| 0 <= k1 < k2 < moves.len() ==> moves[k1] != moves[k2],
        drawn_from(pre, moves, n),
        forall|k1: int, k2: int| 0 <= k1 < k2 < pre.len() ==> pre[k1].0 != pre[k2].0,
    ensures
        drawn_from(pre.push(pr), moves, n + 1),
        forall|k1: int, k2: int|
            0 <= k1 < k2 < pre.push(pr).len() ==> pre.push(pr)[k1].0 != pre.push(pr)[k2].0,
{
    let post = pre.push(pr);
    assert forall|k: int| 0 <= k < post.len() implies #[trigger] drawn_at(
        post,
        moves,
        n + 1,
        k,
    ) by {
        if k < pre.len() {
            assert(drawn_at(pre, moves, n, k));
            let n2 = choose|n2: int| 0 <= n2 < n && pre[k].0 == moves[n2];
            assert(0 <= n2 < n + 1 && post[k].0 == moves[n2]);
        } else {
            assert(post[k].0 == moves[n]);
            assert(0 <= n < n + 1 && post[k].0 == moves[n]);
        }
    }
    assert forall|k1: int, k2: int| 0 <= k1 < k2 < post.len() implies post[k1].0 != post[
        k2].0 by {
        if k2 == post.len() - 1 {
            assert(drawn_at(pre, moves, n, k1));
            let n2 = choose|n2: int| 0 <= n2 < n && pre[k1].0 == moves[n2];
            assert(moves[n2] != moves[n]);
        }
    }
}

/// The options whose score equals `v`, in input order, multiplicities
/// kept.
pub open spec fn best_subseq(s: Seq<(Move, i32)>, n: int, v: int) -> Seq<(Move, i32)>
    decreases n,
{
    if n <= 0 {
        Seq::empty()
    } else if s[n - 1].1 == v {
        best_subseq(s, n - 1, v).push(s[n - 1])
    } else {
        best_subseq(s, n - 1, v)
    }
}

/// Every kept option scores `v` and comes from the input.
pub proof fn lemma_best_subseq_elems(s: Seq<(Move, i32)>, n: int, v: int)
    requires
        0 <= n <= s.len(),
    ensures
        forall|k: int|
            0 <= k < best_subseq(s, n, v).len() ==> (#[trigger] best_subseq(s, n, v)[k]).1 == v
                && exists|k2: int| 0 <= k2 < n && s[k2] == best_subseq(s, n, v)[k],
    decreases n,
{
    if n > 0 {
        lemma_best_subseq_elems(s, n - 1, v);
        assert forall|k: int| 0 <= k < best_subseq(s, n, v).len() implies (
        #[trigger] best_subseq(s, n, v)[k]).1 == v && exists|k2: int|
            0 <= k2 < n && s[k2] == best_subseq(s, n, v)[k] by {
            if k < best_subseq(s, n - 1, v).len() {
                assert(best_subseq(s, n, v)[k] == best_subseq(s, n - 1, v)[k]);
            }
        }
    }
}

/// An option scoring `v` keeps the subsequence non-empty.
proof fn lemma_best_subseq_nonempty(s: Seq<(Move, i32)>, n: int, v: int, kw: int)
    requires
        0 <= kw < n <= s.len(),
        s[kw].1 == v,
    ensures
        best_subseq(s, n, v).len() > 0,
    decreases n,
{
    if kw < n - 1 {
        lemma_best_subseq_nonempty(s, n - 1, v, kw);
    }
}

/// The options whose score lies within `d` of `v`, in input order.
pub open spec fn near_subseq(s: Seq<(Move, i32)>, n: int, v: int, d: int) -> Seq<(Move, i32)>
    decreases n,
{
    if n <= 0 {
        Seq::empty()
    } else if crate::pos::abs_diff(s[n - 1].1 as int, v) < d {
        near_subseq(s, n - 1, v, d).push(s[n - 1])
    } else {
        near_subseq(s, n - 1, v, d)
    }
}

/// Every kept option scores within `d` of `v` and comes from the input.
pub proof fn lemma_near_subseq_elems(s: Seq<(Move, i32)>, n: int, v: int, d: int)
    requires
        0 <= n <= s.len(),
    ensures
        forall|k: int|
            0 <= k < near_subseq(s, n, v, d).len() ==> crate::pos::abs_diff(
                (#[trigger] near_subseq(s, n, v, d)[k]).1 as int,
                v,
            ) < d && exists|k2: int| 0 <= k2 < n && s[k2] == near_subseq(s, n, v, d)[k],
    decreases n,
{
    if n > 0 {
        lemma_near_subseq_elems(s, n - 1, v, d);
        assert forall|k: int| 0 <= k < near_subseq(s, n, v, d).len() implies crate::pos::abs_diff(
            (#[trigger] near_subseq(s, n, v, d)[k]).1 as int,
            v,
        ) < d && exists|k2: int| 0 <= k2 < n && s[k2] == near_subseq(s, n, v, d)[k] by {
            if k < near_subseq(s, n - 1, v, d).len() {
                assert(near_subseq(s, n, v, d)[k] == near_subseq(s, n - 1, v, d)[k]);
            }
        }
    }
}

/// An option within `d` of `v` keeps the subsequence non-empty.
proof fn lemma_near_subseq_nonempty(s: Seq<(Move, i32)>, n: int, v: int, d: int, kw: int)
    requires
        0 <= kw < n <= s.len(),
        crate::pos::abs_diff(s[kw].1 as int, v) < d,
    ensures
        near_subseq(s, n, v, d).len() > 0,
    decreases n,
{
    if kw < n - 1 {
        lemma_near_subseq_nonempty(s, n - 1, v, d, kw);
    }
}

/// The highest score among the options, if any.
pub fn best_value(options: &Vec<(Move, i32)>) -> (r: Option<i32>)
    ensures
        r is None <==> options@.len() == 0,
        r matches Some(v) ==> v == max_pref(options@, options@.len() as int),
{
    if options.len() == 0 {
        return None;
    }
    let mut best: i32 = options[0].1;
    let mut k: usize = 1;
    while k < options.len()
        invariant
            1 <= k <= options@.len(),
            best == max_pref(options@, k as int),
        decreases options@.len() - k,
    {
        if options[k].1 > best {
            best = options[k].1;
        }
        k += 1;
    }
    Some(best)
}

/// All options whose score equals the best one, in input order with
/// multiplicities kept; empty input gives an empty result.
pub fn equally_best_options(options: &Vec<(Move, i32)>) -> (r: Vec<(Move, i32)>)
    ensures
        r@ == best_subseq(
            options@,
            options@.len() as int,
            max_pref(options@, options@.len() as int),
        ),
        options@.len() == 0 ==> r@.len() == 0,
        options@.len() > 0 ==> r@.len() > 0,
        forall|k: int|
            0 <= k < r@.len() ==> options@.contains(#[trigger] r@[k]) && r@[k].1 == max_pref(
                options@,
                options@.len() as int,
            ),
{
    let best = match best_value(options) {
        None => {
            proof {
                assert(best_subseq(options@, 0, max_pref(options@, 0)) =~= Seq::<(
                    Move,
                    i32,
                )>::empty());
            }
            return Vec::new();
        },
        Some(v) => v,
    };
    proof {
        lemma_max_pref(options@, options@.len() as int);
    }
    let mut r: Vec<(Move, i32)> = Vec::new();
    let mut k: usize = 0;
    while k < options.len()
        invariant
            k <= options@.len(),
            options@.len() > 0,
            best == max_pref(options@, options@.len() as int),
            r@ == best_subseq(options@, k as int, best as int),
        decreases options@.len() - k,
    {
        if options[k].1 == best {
            r.push(options[k]);
        }
        k += 1;
    }
    proof {
        let n = options@.len() as int;
        lemma_best_subseq_elems(options@, n, best as int);
        assert forall|k2: int| 0 <= k2 < r@.len() implies options@.contains(#[trigger] r@[k2])
            && r@[k2].1 == best by {
            let k3 = choose|k3: int| 0 <= k3 < n && options@[k3] == best_subseq(
                options@,
                n,
                best as int,
            )[k2];
        }
        let kw = choose|kw: int|
            0 <= kw < options@.len() && (#[trigger] options@[kw].1) == max_pref(
                options@,
                options@.len() as int,
            );
        lemma_best_subseq_nonempty(options@, n, best as int, kw);
    }
    r
}

/// Pick one of the best-scored options, uniformly at random.
pub fn pick_best_with_tiebreak(rng: &mut rand::rngs::StdRng, options: &Vec<(Move, i32)>) -> (r:
    Option<Move>)
    requires
        options@.len() > 0,
    ensures
        r matches Some(m) && exists|k: int|
            0 <= k < options@.len() && options@[k] == (m, max_pref(
                options@,
                options@.len() as int,
            ) as i32),
        r matches Some(m) && exists|k: int|
            0 <= k < best_subseq(
                options@,
                options@.len() as int,
                max_pref(options@, options@.len() as int),
            ).len() && (#[trigger] best_subseq(
                options@,
                options@.len() as int,
                max_pref(options@, options@.len() as int),
            )[k]).0 == m,
{
    let equal = equally_best_options(options);
    let pick = rng_below(rng, equal.len());
    let chosen = equal[pick];
    proof {
        let k = choose|k: int| 0 <= k < options@.len() && options@[k] == chosen;
        assert(options@[k] == (chosen.0, max_pref(options@, options@.len() as int) as i32));
    }
    Some(chosen.0)
}

/// Pick at random one of the first up-to-`num` options whose score lies
/// within `max_diff` of the best; `None` exactly on empty input.
pub fn pick_randomized_within(
    rng: &mut rand::rngs::StdRng,
    options: &Vec<(Move, i32)>,
    num: usize,
    max_diff: u32,
) -> (r: Option<Move>)
    requires
        num < 10,
        options@.len() > 0 ==> 1 <= num && 1 <= max_diff,
    ensures
        r is None <==> options@.len() == 0,
        r matches Some(m) ==> exists|k: int|
            0 <= k < options@.len() && (#[trigger] options@[k]).0 == m && crate::pos::abs_diff(
                options@[k].1 as int,
                max_pref(options@, options@.len() as int),
            ) < max_diff,
        r matches Some(m) ==> ({
            let near = near_subseq(
                options@,
                options@.len() as int,
                max_pref(options@, options@.len() as int),
                max_diff as int,
            );
            exists|k: int| 0 <= k < near.len() && k < num && (#[trigger] near[k]).0 == m
        }),
{
    let best = match best_value(options) {
        None => {
            return None;
        },
        Some(v) => v,
    };
    proof {
        lemma_max_pref(options@, options@.len() as int);
    }
    let mut top: Vec<(Move, i32)> = Vec::new();
    let mut k: usize = 0;
    while k < options.len()
        invariant
            k <= options@.len(),
            options@.len() > 0,
            1 <= num,
            max_diff >= 1,
            best == max_pref(options@, options@.len() as int),
            top@ == near_subseq(options@, k as int, best as int, max_diff as int),
        decreases options@.len() - k,
    {
        let v = options[k].1;
        let diff = if v >= best {
            (v as i64) - (best as i64)
        } else {
            (best as i64) - (v as i64)
        };
        if diff < (max_diff as i64) {
            top.push(options[k]);
        }
        k += 1;
    }
    proof {
        let n = options@.len() as int;
        lemma_near_subseq_elems(options@, n, best as int, max_diff as int);
        let kw = choose|kw: int|
            0 <= kw < options@.len() && (#[trigger] options@[kw].1) == max_pref(
                options@,
                options@.len() as int,
            );
        lemma_near_subseq_nonempty(options@, n, best as int, max_diff as int, kw);
    }
    let n = if top.len() < num {
        top.len()
    } else {
        num
    };
    let pick = rng_below(rng, n);
    let chosen = top[pick];
    proof {
        let k3 = choose|k3: int|
            0 <= k3 < options@.len() && options@[k3] == near_subseq(
                options@,
                options@.len() as int,
                best as int,
                max_diff as int,
            )[pick as int];
    }
    Some(chosen.0)
}

} // verus!
