//! The bookkeeping of a parallel map: numbering the inputs as jobs, and putting
//! the results, which come back in any order, into their places.
use vstd::prelude::*;

verus! {

/// The jobs for `input`, in the order they are sent: taken from the back of
/// the input, each numbered with the position it came from.
pub open spec fn jobs_spec<T>(input: Seq<T>) -> Seq<(usize, T)> {
    Seq::new(
        input.len(),
        |k: int| (((input.len() - 1 - k) as usize), input[input.len() - 1 - k]),
    )
}

/// Numbers each input with its position, taking the inputs from the back, as
/// they are handed to the workers.
pub fn number_jobs<T>(input: Vec<T>) -> (r: Vec<(usize, T)>)
    ensures
        r@ == jobs_spec(input@),
{
    let ghost orig = input@;
    let len = input.len();
    let mut rest = input;
    let mut jobs: Vec<(usize, T)> = Vec::new();
    let mut index: usize = 0;
    while index < len
        invariant
            index <= len == orig.len(),
            rest@ == orig.take(len - index),
            jobs@ == jobs_spec(orig).take(index as int),
        decreases len - index,
    {
        match rest.pop() {
            Some(entry) => {
                assert(entry == orig[len - 1 - index]);
                jobs.push((len - 1 - index, entry));
                assert(rest@ =~= orig.take(len - index - 1));
                assert(jobs@ =~= jobs_spec(orig).take(index + 1));
            },
            None => {
                assert(false);
            },
        }
        index += 1;
    }
    assert(jobs@ =~= jobs_spec(orig));
    jobs
}

/// `slots` after each result in `results`, in order, was put at its position.
pub open spec fn fill_spec<U>(slots: Seq<U>, results: Seq<(usize, U)>) -> Seq<U>
    decreases results.len(),
{
    if results.len() == 0 {
        slots
    } else {
        fill_spec(slots, results.drop_last()).update(results.last().0 as int, results.last().1)
    }
}

/// Puts each result, in the order received, at the position it is numbered
/// with.
pub fn place_results<U>(slots: Vec<U>, results: Vec<(usize, U)>) -> (r: Vec<U>)
    requires
        forall|k: int| 0 <= k < results@.len() ==> (#[trigger] results@[k]).0 < slots@.len(),
    ensures
        r@ == fill_spec(slots@, results@),
{
    let ghost orig = results@;
    let n = results.len();
    let mut pending = results;
    let mut reversed: Vec<(usize, U)> = Vec::new();
    while pending.len() > 0
        invariant
            pending@.len() + reversed@.len() == n == orig.len(),
            pending@ == orig.take(pending@.len() as int),
            forall|k: int|
                0 <= k < reversed@.len() ==> #[trigger] reversed@[k] == orig[n - 1 - k],
        decreases pending@.len(),
    {
        let ghost m = pending@.len();
        match pending.pop() {
            Some(r) => {
                reversed.push(r);
                assert(pending@ =~= orig.take(m - 1));
            },
            None => {},
        }
    }
    let mut out = slots;
    let ghost start = out@;
    let mut done: usize = 0;
    while reversed.len() > 0
        invariant
            reversed@.len() + done == n == orig.len(),
            forall|k: int|
                0 <= k < reversed@.len() ==> #[trigger] reversed@[k] == orig[n - 1 - k],
            forall|k: int| 0 <= k < orig.len() ==> (#[trigger] orig[k]).0 < start.len(),
            out@ == fill_spec(start, orig.take(done as int)),
            out@.len() == start.len(),
        decreases reversed@.len(),
    {
        match reversed.pop() {
            Some(r) => {
                let (i, v) = r;
                assert(orig.take(done + 1).drop_last() =~= orig.take(done as int));
                out.set(i, v);
            },
            None => {},
        }
        done += 1;
    }
    assert(orig.take(n as int) =~= orig);
    out
}

/// Some result is numbered with position `j`.
pub open spec fn numbered<U>(results: Seq<(usize, U)>, j: int) -> bool {
    exists|k: int| 0 <= k < results.len() && results[k].0 == j
}

proof fn lemma_fill_len<U>(slots: Seq<U>, results: Seq<(usize, U)>)
    requires
        forall|k: int| 0 <= k < results.len() ==> (#[trigger] results[k]).0 < slots.len(),
    ensures
        fill_spec(slots, results).len() == slots.len(),
    decreases results.len(),
{
    if results.len() > 0 {
        let prev = results.drop_last();
        assert forall|k: int| 0 <= k < prev.len() implies (#[trigger] prev[k]).0 < slots.len() by {
            assert(prev[k] == results[k]);
        }
        lemma_fill_len(slots, prev);
        assert(results[results.len() - 1].0 < slots.len());
    }
}

/// When every result is the mapped value of the input at its position, each
/// position ends up holding its mapped value if some result was numbered with
/// it, and its starting value if none was.
proof fn lemma_fill_correct<T, U>(
    input: Seq<T>,
    g: spec_fn(T) -> U,
    slots: Seq<U>,
    results: Seq<(usize, U)>,
)
    requires
        slots.len() == input.len(),
        forall|k: int|
            0 <= k < results.len() ==> (#[trigger] results[k]).0 < input.len() && results[k].1 == g(
                input[results[k].0 as int],
            ),
    ensures
        fill_spec(slots, results).len() == slots.len(),
        forall|j: int|
            0 <= j < slots.len() ==> #[trigger] fill_spec(slots, results)[j] == if numbered(
                results,
                j,
            ) {
                g(input[j])
            } else {
                slots[j]
            },
    decreases results.len(),
{
    lemma_fill_len(slots, results);
    if results.len() > 0 {
        let prev = results.drop_last();
        assert forall|k: int| 0 <= k < prev.len() implies (#[trigger] prev[k]).0 < input.len()
            && prev[k].1 == g(input[prev[k].0 as int]) by {
            assert(prev[k] == results[k]);
        }
        lemma_fill_correct(input, g, slots, prev);
        let last = results.last();
        assert(last == results[results.len() - 1]);
        assert forall|j: int| 0 <= j < slots.len() implies #[trigger] fill_spec(slots, results)[j]
            == if numbered(results, j) {
            g(input[j])
        } else {
            slots[j]
        } by {
            if j != last.0 as int {
                if exists|k: int| 0 <= k < results.len() && results[k].0 == j {
                    let k = choose|k: int| 0 <= k < results.len() && results[k].0 == j;
                    assert(k < prev.len());
                    assert(prev[k] == results[k]);
                }
                if exists|k: int| 0 <= k < prev.len() && prev[k].0 == j {
                    let k = choose|k: int| 0 <= k < prev.len() && prev[k].0 == j;
                    assert(results[k] == prev[k]);
                }
            } else {
                assert(results[results.len() - 1].0 == j);
            }
        }
    }
}

/// A parallel map gives what a sequential map gives: whatever order the
/// workers' results come back in, when they are the jobs for `input` each
/// mapped through `g`, placing them yields `g` of each input, in input order.
pub proof fn lemma_parallel_map_in_order<T, U>(
    input: Seq<T>,
    g: spec_fn(T) -> U,
    slots: Seq<U>,
    results: Seq<(usize, U)>,
)
    requires
        input.len() <= usize::MAX,
        slots.len() == input.len(),
        results.to_multiset() == jobs_spec(input).map_values(|j: (usize, T)| (j.0, g(j.1))).to_multiset(),
    ensures
        fill_spec(slots, results) == input.map_values(g),
{
    broadcast use vstd::seq_lib::group_to_multiset_ensures;

    let mapped = jobs_spec(input).map_values(|j: (usize, T)| (j.0, g(j.1)));
    let n = input.len();
    assert forall|k: int| 0 <= k < results.len() implies (#[trigger] results[k]).0 < input.len()
        && results[k].1 == g(input[results[k].0 as int]) by {
        assert(results.contains(results[k]));
        assert(results.to_multiset().count(results[k]) > 0);
        assert(mapped.contains(results[k]));
        let m = choose|m: int| 0 <= m < mapped.len() && mapped[m] == results[k];
        assert(mapped[m] == ((n - 1 - m) as usize, g(input[n - 1 - m])));
    }
    lemma_fill_correct(input, g, slots, results);
    assert forall|j: int| 0 <= j < n implies #[trigger] numbered(results, j) by {
        let m = n - 1 - j;
        assert(mapped[m] == (j as usize, g(input[j])));
        assert(mapped.contains(mapped[m]));
        assert(mapped.to_multiset().count(mapped[m]) > 0);
        assert(results.contains(mapped[m]));
        let k = choose|k: int| 0 <= k < results.len() && results[k] == mapped[m];
        assert(results[k].0 == j);
    }
    assert(fill_spec(slots, results) =~= input.map_values(g));
}

} // verus!
