use vstd::prelude::*;
use crate::action::Status;
use crate::issue::Issue;

verus! {

/// A status predicate for listing: only open issues, or only closed ones.
/// Absence of a filter retains everything.
#[derive(Clone, Copy, Debug, PartialEq, Eq, Structural)]
pub enum StatusFilter {
    Open,
    Closed,
}

/// Whether a state passes the (optional) filter.
pub open spec fn spec_status_matches(f: Option<StatusFilter>, s: Status) -> bool {
    match f {
        Option::None => true,
        Option::Some(StatusFilter::Open) => s is Open,
        Option::Some(StatusFilter::Closed) => s is Closed,
    }
}

/// Executable status predicate.
pub fn status_matches(f: &Option<StatusFilter>, s: &Status) -> (r: bool)
    ensures
        r == spec_status_matches(*f, *s),
{
    match f {
        Option::None => true,
        Option::Some(StatusFilter::Open) => match s {
            Status::Open => true,
            _ => false,
        },
        Option::Some(StatusFilter::Closed) => match s {
            Status::Closed { .. } => true,
            _ => false,
        },
    }
}

/// The subsequence of issues that pass the filter, in input order.
pub open spec fn retained(s: Seq<Issue>, f: Option<StatusFilter>) -> Seq<Issue>
    decreases s.len(),
{
    if s.len() == 0 {
        s
    } else {
        let rest = retained(s.drop_last(), f);
        if spec_status_matches(f, s.last().state) {
            rest.push(s.last())
        } else {
            rest
        }
    }
}

/// Presentation order: most recently touched first, ties broken by id
/// ascending.
pub open spec fn query_le(a: Issue, b: Issue) -> bool {
    ||| a.timestamp > b.timestamp
    ||| (a.timestamp == b.timestamp && a.id <= b.id)
}

/// The sequence stands in presentation order.
pub open spec fn query_sorted(s: Seq<Issue>) -> bool {
    forall|i: int, j: int| 0 <= i < j < s.len() ==> query_le(s[i], s[j])
}

/// Executable presentation order.
fn query_before(a: &Issue, b: &Issue) -> (r: bool)
    ensures
        r == query_le(*a, *b),
{
    if a.timestamp != b.timestamp {
        a.timestamp > b.timestamp
    } else {
        a.id <= b.id
    }
}

/// Filters a snapshot of issues by status and sorts it for presentation:
/// timestamp descending, ties by id ascending. Pure: the result holds
/// exactly the retained issues, and the inputs decide it alone.
pub fn query(issues: Vec<Issue>, filter: Option<StatusFilter>) -> (r: Vec<Issue>)
    ensures
        r@.to_multiset() == retained(issues@, filter).to_multiset(),
        query_sorted(r@),
        forall|k: int|
            0 <= k < r@.len() ==> spec_status_matches(filter, (#[trigger] r@[k]).state),
{
    let ghost input = issues@;
    let mut kept: Vec<Issue> = Vec::new();
    let mut src = issues;
    let total = src.len();
    let mut i: usize = 0;
    proof {
        assert(input.take(0) =~= Seq::<Issue>::empty());
        assert(input.skip(0) =~= input);
    }
    while src.len() > 0
        invariant
            i + src@.len() == input.len(),
            input.len() == total,
            src@ == input.skip(i as int),
            kept@ == retained(input.take(i as int), filter),
        decreases src@.len(),
    {
        let ghost src0 = src@;
        let x = src.remove(0);
        proof {
            assert(src0[0] == input[i as int]);
            assert(x == input[i as int]);
            assert(src@ =~= input.skip(i as int + 1));
            let pre = input.take(i as int);
            let cur = input.take(i as int + 1);
            assert(cur.drop_last() =~= pre);
            assert(cur.last() == input[i as int]);
        }
        let keep = status_matches(&filter, &x.state);
        if keep {
            kept.push(x);
        }
        i = i + 1;
    }
    proof {
        assert(input.take(i as int) =~= input);
    }
    // Insertion sort into presentation order.
    let ghost keptseq = kept@;
    let mut out: Vec<Issue> = Vec::new();
    let mut rest = kept;
    proof {
        broadcast use vstd::seq_lib::group_to_multiset_ensures;

        assert(out@.to_multiset().add(rest@.to_multiset()) =~= keptseq.to_multiset());
        lemma_retained_matches(input, filter);
    }
    while rest.len() > 0
        invariant
            out@.to_multiset().add(rest@.to_multiset()) == keptseq.to_multiset(),
            query_sorted(out@),
            forall|k: int|
                0 <= k < out@.len() ==> spec_status_matches(
                    filter,
                    (#[trigger] out@[k]).state,
                ),
            forall|k: int|
                0 <= k < rest@.len() ==> spec_status_matches(
                    filter,
                    (#[trigger] rest@[k]).state,
                ),
        decreases rest@.len(),
    {
        let ghost out0 = out@;
        let ghost rest0 = rest@;
        let x = rest.remove(0);
        let mut p: usize = 0;
        while p < out.len() && query_before(&out[p], &x)
            invariant
                out@ == out0,
                p <= out@.len(),
                forall|j: int| 0 <= j < p ==> query_le(#[trigger] out@[j], x),
            decreases out@.len() - p,
        {
            p = p + 1;
        }
        proof {
            assert forall|j: int| p <= j < out@.len() implies query_le(x, #[trigger] out@[j]) by {
                if j == p {
                    assert(!query_le(out@[p as int], x));
                } else {
                    assert(!query_le(out@[p as int], x));
                    assert(query_le(out@[p as int], out@[j]));
                }
            }
        }
        out.insert(p, x);
        proof {
            broadcast use vstd::seq_lib::group_to_multiset_ensures;

            assert(query_sorted(out@)) by {
                assert forall|a: int, b: int|
                    0 <= a < b < out@.len() implies query_le(out@[a], out@[b]) by {
                    let a0: int = if a < p { a } else { a - 1 };
                    let b0: int = if b < p { b } else { b - 1 };
                    if a == p {
                        assert(out@[b] == out0[b - 1]);
                    } else if b == p {
                        assert(out@[a] == out0[a]);
                    } else {
                        assert(out@[a] == out0[a0] && out@[b] == out0[b0]);
                    }
                }
            }
            crate::seqextra::lemma_to_multiset_insert(out0, p as int, x);
            assert(rest0.remove(0) =~= rest@);
            assert(rest@.to_multiset() =~= rest0.to_multiset().remove(x));
            assert(out@.to_multiset().add(rest@.to_multiset()) =~= keptseq.to_multiset()) by {
                broadcast use vstd::multiset::group_multiset_axioms;

                assert(rest0.to_multiset().contains(x)) by {
                    assert(rest0[0] == x);
                    assert(rest0.contains(x));
                }
            }
            assert(forall|k: int|
                0 <= k < out@.len() ==> spec_status_matches(
                    filter,
                    (#[trigger] out@[k]).state,
                ));
        }
    }
    proof {
        broadcast use vstd::multiset::group_multiset_axioms;

        assert(rest@.to_multiset().len() == 0);
        assert(out@.to_multiset() =~= keptseq.to_multiset());
    }
    out
}

/// Every issue that the filter retains passes the filter.
pub proof fn lemma_retained_matches(s: Seq<Issue>, f: Option<StatusFilter>)
    ensures
        forall|k: int|
            0 <= k < retained(s, f).len() ==> spec_status_matches(
                f,
                (#[trigger] retained(s, f)[k]).state,
            ),
    decreases s.len(),
{
    if s.len() > 0 {
        lemma_retained_matches(s.drop_last(), f);
        let r = retained(s, f);
        let rest = retained(s.drop_last(), f);
        assert forall|k: int|
            0 <= k < r.len() implies spec_status_matches(f, (#[trigger] r[k]).state) by {
            if k < rest.len() {
                assert(r[k] == rest[k]);
            } else {
                assert(r[k] == s.last());
            }
        }
    }
}

} // verus!
