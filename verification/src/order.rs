//! The orders in which the monitor lists jobs, and a stable sort by them.
use vstd::prelude::*;

use crate::job::{Job, Timestamp};
use crate::text::{lemma_lex_lt_total, lemma_lex_lt_trans, lex_lt, str_lt};

verus! {

broadcast use vstd::seq_lib::group_to_multiset_ensures;

/// The keys by which jobs are sorted.
#[derive(Clone, Copy)]
pub enum JobOrder {
    /// By request time, jobs without one first.
    RequestTime,
    /// By name, then by request time.
    NameThenRequestTime,
}

/// The order of optional times: `None` before any time, times by value.
pub open spec fn opt_le(a: Option<Timestamp>, b: Option<Timestamp>) -> bool {
    match (a, b) {
        (None, _) => true,
        (Some(_), None) => false,
        (Some(x), Some(y)) => x <= y,
    }
}

/// `a` may come before `b` in the given order.
pub open spec fn job_le(order: JobOrder, a: Job, b: Job) -> bool {
    match order {
        JobOrder::RequestTime => opt_le(a.request_dt, b.request_dt),
        JobOrder::NameThenRequestTime => lex_lt(a.name@, b.name@) || (a.name@ == b.name@ && opt_le(
            a.request_dt,
            b.request_dt,
        )),
    }
}

/// `a` and `b` have the same key in the given order.
pub open spec fn same_key(order: JobOrder, a: Job, b: Job) -> bool {
    job_le(order, a, b) && job_le(order, b, a)
}

/// The jobs of `s` in order.
pub open spec fn sorted_by(order: JobOrder, s: Seq<Job>) -> bool {
    forall|i: int, k: int| 0 <= i < k < s.len() ==> job_le(order, #[trigger] s[i], #[trigger] s[k])
}

/// The jobs of `s` that have the key of `j0`, in their order in `s`.
pub open spec fn keyed(order: JobOrder, s: Seq<Job>, j0: Job) -> Seq<Job>
    decreases s.len(),
{
    if s.len() == 0 {
        s
    } else if same_key(order, s.last(), j0) {
        keyed(order, s.drop_last(), j0).push(s.last())
    } else {
        keyed(order, s.drop_last(), j0)
    }
}

/// `out` is `input` sorted stably: in order, and jobs with equal keys in the
/// order they had in `input`.
pub open spec fn is_stable_sort(order: JobOrder, input: Seq<Job>, out: Seq<Job>) -> bool {
    &&& out.len() == input.len()
    &&& out.to_multiset() == input.to_multiset()
    &&& sorted_by(order, out)
    &&& forall|j0: Job| #[trigger] keyed(order, out, j0) == keyed(order, input, j0)
}

/// Any two jobs are ordered one way or the other, and the order is transitive.
pub proof fn lemma_job_le_preorder(order: JobOrder, a: Job, b: Job, c: Job)
    ensures
        job_le(order, a, b) || job_le(order, b, a),
        job_le(order, a, b) && job_le(order, b, c) ==> job_le(order, a, c),
{
    lemma_lex_lt_total(a.name@, b.name@);
    lemma_lex_lt_total(b.name@, c.name@);
    lemma_lex_lt_total(a.name@, c.name@);
    if lex_lt(a.name@, b.name@) && lex_lt(b.name@, c.name@) {
        lemma_lex_lt_trans(a.name@, b.name@, c.name@);
    }
}

proof fn lemma_keyed_add(order: JobOrder, a: Seq<Job>, b: Seq<Job>, j0: Job)
    ensures
        keyed(order, a + b, j0) == keyed(order, a, j0) + keyed(order, b, j0),
    decreases b.len(),
{
    if b.len() == 0 {
        assert(a + b =~= a);
        assert(keyed(order, a, j0) + keyed(order, b, j0) =~= keyed(order, a, j0));
    } else {
        lemma_keyed_add(order, a, b.drop_last(), j0);
        assert((a + b).drop_last() =~= a + b.drop_last());
        assert((a + b).last() == b.last());
        if same_key(order, b.last(), j0) {
            assert(keyed(order, a, j0) + keyed(order, b.drop_last(), j0).push(b.last())
                =~= (keyed(order, a, j0) + keyed(order, b.drop_last(), j0)).push(b.last()));
        }
    }
}

proof fn lemma_keyed_none(order: JobOrder, b: Seq<Job>, j0: Job)
    requires
        forall|k: int| 0 <= k < b.len() ==> !same_key(order, #[trigger] b[k], j0),
    ensures
        keyed(order, b, j0) == Seq::<Job>::empty(),
    decreases b.len(),
{
    if b.len() > 0 {
        assert(!same_key(order, b[b.len() - 1], j0));
        lemma_keyed_none(order, b.drop_last(), j0);
    }
}

fn opt_le_exec(a: Option<Timestamp>, b: Option<Timestamp>) -> (r: bool)
    ensures
        r == opt_le(a, b),
{
    match (a, b) {
        (None, _) => true,
        (Some(_), None) => false,
        (Some(x), Some(y)) => x <= y,
    }
}

/// Whether `a` may come before `b` in the given order.
pub fn job_le_exec(order: JobOrder, a: &Job, b: &Job) -> (r: bool)
    ensures
        r == job_le(order, *a, *b),
{
    match order {
        JobOrder::RequestTime => opt_le_exec(a.request_dt, b.request_dt),
        JobOrder::NameThenRequestTime => {
            str_lt(a.name.as_str(), b.name.as_str()) || (a.name == b.name && opt_le_exec(
                a.request_dt,
                b.request_dt,
            ))
        },
    }
}

/// Sorts jobs stably, as `sort_by_key` and `sort_by` do: in the given order,
/// jobs with equal keys keeping their relative order.
pub fn sort_jobs(jobs: Vec<Job>, order: JobOrder) -> (out: Vec<Job>)
    ensures
        is_stable_sort(order, jobs@, out@),
        order == JobOrder::RequestTime ==> request_times_ascend(out@),
        order == JobOrder::NameThenRequestTime ==> names_then_times_ascend(out@),
{
    let ghost orig = jobs@;
    let mut rest = jobs;
    let mut out: Vec<Job> = Vec::new();
    let ghost mut i: int = 0;
    proof {
        assert(orig.subrange(0, 0) =~= out@);
        assert(orig.subrange(0, orig.len() as int) =~= rest@);
    }
    while rest.len() > 0
        invariant
            0 <= i <= orig.len(),
            rest@ == orig.subrange(i, orig.len() as int),
            out@.len() == i,
            out@.to_multiset() == orig.subrange(0, i).to_multiset(),
            sorted_by(order, out@),
            forall|j0: Job| #[trigger] keyed(order, out@, j0) == keyed(order, orig.subrange(0, i), j0),
        decreases rest@.len(),
    {
        let x = rest.remove(0);
        let ghost prev = out@;
        proof {
            assert(x == orig[i]);
            assert(orig.subrange(0, i + 1) =~= orig.subrange(0, i).push(x));
        }
        let mut p: usize = out.len();
        while p > 0 && !job_le_exec(order, &out[p - 1], &x)
            invariant
                out@ == prev,
                p <= prev.len(),
                forall|k: int| p <= k < prev.len() ==> !job_le(order, #[trigger] prev[k], x),
            decreases p,
        {
            p = p - 1;
        }
        proof {
            assert forall|k: int| 0 <= k < p implies job_le(order, #[trigger] prev[k], x) by {
                if k < p - 1 {
                    lemma_job_le_preorder(order, prev[k], prev[p - 1], x);
                }
            }
            assert forall|k: int| p <= k < prev.len() implies job_le(order, x, #[trigger] prev[k])
                && !same_key(order, prev[k], x) by {
                lemma_job_le_preorder(order, prev[k], x, x);
            }
        }
        out.insert(p, x);
        proof {
            let a = prev.subrange(0, p as int);
            let b = prev.subrange(p as int, prev.len() as int);
            assert(prev =~= a + b);
            assert(out@ =~= a + seq![x] + b);
            assert forall|u: int, v: int| 0 <= u < v < out@.len() implies job_le(
                order,
                #[trigger] out@[u],
                #[trigger] out@[v],
            ) by {
                if u < p && v == p {
                } else if u == p {
                    assert(out@[v] == prev[v - 1]);
                } else if v < p {
                    assert(out@[u] == prev[u] && out@[v] == prev[v]);
                } else if u < p {
                    assert(out@[u] == prev[u] && out@[v] == prev[v - 1]);
                } else {
                    assert(out@[u] == prev[u - 1] && out@[v] == prev[v - 1]);
                }
            }
            assert forall|j0: Job| #[trigger] keyed(order, out@, j0) == keyed(
                order,
                orig.subrange(0, i + 1),
                j0,
            ) by {
                lemma_keyed_add(order, a, b, j0);
                lemma_keyed_add(order, a + seq![x], b, j0);
                lemma_keyed_add(order, a, seq![x], j0);
                assert(seq![x].drop_last() =~= Seq::<Job>::empty());
                assert(keyed(order, Seq::<Job>::empty(), j0) == Seq::<Job>::empty());
                assert(keyed(order, seq![x], j0) == if same_key(order, x, j0) {
                    seq![x]
                } else {
                    Seq::<Job>::empty()
                }) by {
                    assert(Seq::<Job>::empty().push(x) =~= seq![x]);
                }
                assert(keyed(order, prev, j0) == keyed(order, orig.subrange(0, i), j0));
                assert(keyed(order, orig.subrange(0, i).push(x), j0) == if same_key(order, x, j0) {
                    keyed(order, orig.subrange(0, i), j0).push(x)
                } else {
                    keyed(order, orig.subrange(0, i), j0)
                }) by {
                    assert(orig.subrange(0, i).push(x).drop_last() =~= orig.subrange(0, i));
                }
                if same_key(order, x, j0) {
                    assert forall|k: int| 0 <= k < b.len() implies !same_key(
                        order,
                        #[trigger] b[k],
                        j0,
                    ) by {
                        assert(b[k] == prev[p + k]);
                        lemma_job_le_preorder(order, b[k], j0, x);
                        lemma_job_le_preorder(order, x, j0, b[k]);
                    }
                    lemma_keyed_none(order, b, j0);
                    assert(keyed(order, b, j0) =~= Seq::<Job>::empty());
                    assert(keyed(order, a, j0) + seq![x] + Seq::<Job>::empty() =~= keyed(order, a, j0).push(x));
                    assert(keyed(order, a, j0) + Seq::<Job>::empty() =~= keyed(order, a, j0));
                } else {
                    assert(keyed(order, a, j0) + Seq::<Job>::empty() =~= keyed(order, a, j0));
                    assert(keyed(order, a, j0) + Seq::<Job>::empty() + keyed(order, b, j0)
                        =~= keyed(order, a, j0) + keyed(order, b, j0));
                }
            }
            i = i + 1;
            assert(rest@ =~= orig.subrange(i, orig.len() as int));
        }
    }
    proof {
        assert(orig.subrange(0, orig.len() as int) =~= orig);
        if order == JobOrder::RequestTime {
            lemma_request_time_sorted(out@);
        } else {
            lemma_name_then_time_sorted(out@);
        }
    }
    out
}


proof fn lemma_keyed_nonempty(order: JobOrder, s: Seq<Job>, j0: Job)
    requires
        keyed(order, s, j0).len() > 0,
    ensures
        exists|k: int| 0 <= k < s.len() && same_key(order, #[trigger] s[k], j0),
    decreases s.len(),
{
    if s.len() > 0 {
        if same_key(order, s.last(), j0) {
            assert(same_key(order, s[s.len() - 1], j0));
        } else {
            lemma_keyed_nonempty(order, s.drop_last(), j0);
            let k = choose|k: int| 0 <= k < s.len() - 1 && same_key(order, #[trigger] s.drop_last()[k], j0);
            assert(s[k] == s.drop_last()[k]);
        }
    }
}

proof fn lemma_le_last(order: JobOrder, s: Seq<Job>, j0: Job)
    requires
        sorted_by(order, s),
        s.len() > 0,
        keyed(order, s, j0).len() > 0,
    ensures
        job_le(order, j0, s.last()),
{
    lemma_keyed_nonempty(order, s, j0);
    let k = choose|k: int| 0 <= k < s.len() && same_key(order, #[trigger] s[k], j0);
    if k < s.len() - 1 {
        assert(job_le(order, s[k], s[s.len() - 1]));
    }
    lemma_job_le_preorder(order, j0, s[k], s.last());
}

proof fn lemma_sorted_same_keyed_equal(order: JobOrder, a: Seq<Job>, b: Seq<Job>)
    requires
        a.len() == b.len(),
        sorted_by(order, a),
        sorted_by(order, b),
        forall|j0: Job| #[trigger] keyed(order, a, j0) == keyed(order, b, j0),
    ensures
        a == b,
    decreases a.len(),
{
    if a.len() == 0 {
        assert(a =~= b);
    } else {
        let x = a.last();
        let y = b.last();
        lemma_job_le_preorder(order, x, x, x);
        lemma_job_le_preorder(order, y, y, y);
        assert(keyed(order, a, x) == keyed(order, a.drop_last(), x).push(x));
        assert(keyed(order, b, y) == keyed(order, b.drop_last(), y).push(y));
        lemma_le_last(order, b, x);
        lemma_le_last(order, a, y);
        assert(same_key(order, y, x));
        assert(same_key(order, x, y));
        assert(keyed(order, b, x) == keyed(order, b.drop_last(), x).push(y));
        assert(keyed(order, a, x).last() == x);
        assert(keyed(order, b, x).last() == y);
        assert(x == y);
        assert forall|j0: Job| #[trigger] keyed(order, a.drop_last(), j0) == keyed(
            order,
            b.drop_last(),
            j0,
        ) by {
            assert(keyed(order, a, j0) == keyed(order, b, j0));
            if same_key(order, x, j0) {
                assert(keyed(order, a.drop_last(), j0) =~= keyed(order, a, j0).drop_last());
                assert(keyed(order, b.drop_last(), j0) =~= keyed(order, b, j0).drop_last());
            }
        }
        lemma_sorted_same_keyed_equal(order, a.drop_last(), b.drop_last());
        assert(a =~= a.drop_last().push(x));
        assert(b =~= b.drop_last().push(y));
    }
}

/// A stable sort has one result: any two stable sorts of the same jobs are
/// equal.
pub proof fn lemma_stable_sort_unique(order: JobOrder, input: Seq<Job>, a: Seq<Job>, b: Seq<Job>)
    requires
        is_stable_sort(order, input, a),
        is_stable_sort(order, input, b),
    ensures
        a == b,
{
    assert forall|j0: Job| #[trigger] keyed(order, a, j0) == keyed(order, b, j0) by {
        assert(keyed(order, a, j0) == keyed(order, input, j0));
        assert(keyed(order, b, j0) == keyed(order, input, j0));
    }
    lemma_sorted_same_keyed_equal(order, a, b);
}


/// Sorting jobs that are already in order leaves them as they are.
pub proof fn lemma_sort_of_sorted(order: JobOrder, s: Seq<Job>, out: Seq<Job>)
    requires
        sorted_by(order, s),
        is_stable_sort(order, s, out),
    ensures
        out == s,
{
    lemma_stable_sort_unique(order, s, out, s);
}

/// Keeping only some of the jobs keeps them in order.
pub proof fn lemma_filter_keeps_order(order: JobOrder, s: Seq<Job>, p: spec_fn(Job) -> bool)
    requires
        sorted_by(order, s),
    ensures
        sorted_by(order, s.filter(p)),
    decreases s.len(),
{
    reveal(Seq::filter);
    if s.len() > 0 {
        let d = s.drop_last();
        assert forall|i: int, k: int| 0 <= i < k < d.len() implies job_le(
            order,
            #[trigger] d[i],
            #[trigger] d[k],
        ) by {
            assert(d[i] == s[i] && d[k] == s[k]);
        }
        lemma_filter_keeps_order(order, d, p);
        let f = d.filter(p);
        if p(s.last()) {
            let g = f.push(s.last());
            assert(s.filter(p) == g);
            assert forall|i: int, k: int| 0 <= i < k < g.len() implies job_le(
                order,
                #[trigger] g[i],
                #[trigger] g[k],
            ) by {
                if k == g.len() - 1 {
                    assert(f.contains(f[i]));
                    d.lemma_filter_contains_rev(p, f[i]);
                    let m = choose|m: int| 0 <= m < d.len() && d[m] == f[i];
                    assert(s[m] == d[m]);
                    assert(job_le(order, s[m], s[s.len() - 1]));
                } else {
                    assert(g[i] == f[i] && g[k] == f[k]);
                }
            }
        }
    }
}

/// Request time `a` is not later than `b` as a number; a missing time comes
/// before every time.
pub open spec fn time_not_after(a: Option<Timestamp>, b: Option<Timestamp>) -> bool {
    a is None || (b is Some && a.unwrap() as int <= b.unwrap() as int)
}

/// The request times of `s` never decrease: jobs without one come first, then
/// the times in increasing numeric order.
pub open spec fn request_times_ascend(s: Seq<Job>) -> bool {
    forall|i: int, k: int|
        0 <= i < k < s.len() ==> time_not_after(#[trigger] s[i].request_dt, #[trigger] s[k].request_dt)
}

/// The names of `s` never decrease, and among jobs of one name the request
/// times never decrease.
pub open spec fn names_then_times_ascend(s: Seq<Job>) -> bool {
    forall|i: int, k: int|
        0 <= i < k < s.len() ==> {
            ||| lex_lt(#[trigger] s[i].name@, #[trigger] s[k].name@)
            ||| (s[i].name@ == s[k].name@ && time_not_after(s[i].request_dt, s[k].request_dt))
        }
}

/// How the orders compare two jobs: by request time as numbers, with a
/// missing time first; by name, and for equal names by request time.
pub proof fn lemma_orders_compare_numbers(a: Job, b: Job)
    ensures
        job_le(JobOrder::RequestTime, a, b) <==> (a.request_dt is None || (b.request_dt is Some
            && a.request_dt.unwrap() as int <= b.request_dt.unwrap() as int)),
        job_le(JobOrder::NameThenRequestTime, a, b) <==> (lex_lt(a.name@, b.name@) || (a.name@
            == b.name@ && (a.request_dt is None || (b.request_dt is Some
            && a.request_dt.unwrap() as int <= b.request_dt.unwrap() as int)))),
{
}

/// Jobs in request-time order have ascending request times.
pub proof fn lemma_request_time_sorted(s: Seq<Job>)
    requires
        sorted_by(JobOrder::RequestTime, s),
    ensures
        request_times_ascend(s),
{
    assert forall|i: int, k: int| 0 <= i < k < s.len() implies time_not_after(
        #[trigger] s[i].request_dt,
        #[trigger] s[k].request_dt,
    ) by {
        assert(job_le(JobOrder::RequestTime, s[i], s[k]));
        lemma_orders_compare_numbers(s[i], s[k]);
    }
}

/// Jobs in name-then-time order have ascending names, and ascending request
/// times within a name.
pub proof fn lemma_name_then_time_sorted(s: Seq<Job>)
    requires
        sorted_by(JobOrder::NameThenRequestTime, s),
    ensures
        names_then_times_ascend(s),
{
    assert forall|i: int, k: int| 0 <= i < k < s.len() implies {
        ||| lex_lt(#[trigger] s[i].name@, #[trigger] s[k].name@)
        ||| (s[i].name@ == s[k].name@ && time_not_after(s[i].request_dt, s[k].request_dt))
    } by {
        assert(job_le(JobOrder::NameThenRequestTime, s[i], s[k]));
        lemma_orders_compare_numbers(s[i], s[k]);
    }
}

/// Two jobs have the same key when their request times are equal, and, in the
/// name-then-time order, their names too.
pub proof fn lemma_same_key_meaning(a: Job, b: Job)
    ensures
        same_key(JobOrder::RequestTime, a, b) <==> a.request_dt == b.request_dt,
        same_key(JobOrder::NameThenRequestTime, a, b) <==> (a.name@ == b.name@ && a.request_dt
            == b.request_dt),
{
    lemma_lex_lt_total(a.name@, b.name@);
}

/// The jobs of `s` with the key of `j0` are `s` filtered by that key.
pub proof fn lemma_keyed_is_filter(order: JobOrder, s: Seq<Job>, j0: Job)
    ensures
        keyed(order, s, j0) == s.filter(|j: Job| same_key(order, j, j0)),
    decreases s.len(),
{
    reveal(Seq::filter);
    if s.len() > 0 {
        lemma_keyed_is_filter(order, s.drop_last(), j0);
    }
}

} // verus!
