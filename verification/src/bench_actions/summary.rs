//! Headline numbers, grouped so a weak model can be told from a broken rung: six
//! failures across six classes is the former, six in one class the latter.

use vstd::prelude::*;

use super::fixture::{CaseReport, CaseReportV, Verdict};
use crate::order;
use crate::order::place;
use crate::text;
use crate::text::same;

verus! {

/// A fraction of the cases that were run: so many of so many, and nothing of
/// nothing where none was.
#[derive(Debug, Clone, Copy, PartialEq, Eq, Structural)]
pub struct Rate {
    pub part: usize,
    pub whole: usize,
}

/// Whether one rate is at most another of the same run.
pub open spec fn at_most(a: Rate, b: Rate) -> bool {
    a.whole == b.whole && a.part <= b.part
}

/// Headline numbers.
#[derive(Debug, Clone, Copy, PartialEq, Eq, Structural)]
pub struct Summary {
    pub n: usize,
    pub passed: usize,
    pub recovered: usize,
    pub failed: usize,
    pub drifted: usize,
    pub skipped: usize,
    /// Chose the right tool and arguments unaided, as a fraction of cases
    /// actually run.
    ///
    /// Deliberately **not** a success rate: a case can route perfectly and still
    /// fail because the house rejected the argument.
    pub routing_rate: Rate,
    /// Right in the end, however many attempts it took.
    pub final_rate: Rate,
    /// Right in the end **and** unaided, so the ladder never had to fire.
    /// [`Self::final_rate`] minus this is what the recovery machinery is worth.
    pub first_try_rate: Rate,
    pub p50_ms: u64,
    pub p95_ms: u64,
}

// ---------------------------------------------------------------------------
// Counting
// ---------------------------------------------------------------------------

/// Whether a case was run.
pub open spec fn was_run(r: CaseReportV) -> bool {
    r.verdict != Verdict::Skipped
}

/// How many reports pass a test.
pub open spec fn count_reports(
    reports: Seq<CaseReportV>,
    p: spec_fn(CaseReportV) -> bool,
) -> nat
    decreases reports.len(),
{
    if reports.len() == 0 {
        0
    } else {
        count_reports(reports.drop_last(), p) + (if p(reports.last()) {
            1nat
        } else {
            0nat
        })
    }
}

/// How many cases came out a certain way.
pub open spec fn count_verdict(reports: Seq<CaseReportV>, v: Verdict) -> nat {
    count_reports(reports, |r: CaseReportV| r.verdict == v)
}

/// How many cases were run.
pub open spec fn run_count(reports: Seq<CaseReportV>) -> nat {
    count_reports(reports, |r: CaseReportV| was_run(r))
}

/// How many of the cases that were run opened right.
pub open spec fn routed_count(reports: Seq<CaseReportV>) -> nat {
    count_reports(reports, |r: CaseReportV| was_run(r) && r.routed_first_try)
}

/// How long the cases that were run took.
pub open spec fn times(reports: Seq<CaseReportV>) -> Seq<u64>
    decreases reports.len(),
{
    if reports.len() == 0 {
        Seq::empty()
    } else if was_run(reports.last()) {
        times(reports.drop_last()).push(reports.last().elapsed_ms)
    } else {
        times(reports.drop_last())
    }
}

/// Numbers from the least to the greatest.
pub open spec fn in_order(v: Seq<u64>) -> Seq<u64> {
    v.sort_by(|a: u64, b: u64| a <= b)
}

/// The number that stands so many percent of the way up, or zero where there
/// are none.
pub open spec fn percentile(sorted: Seq<u64>, p: nat) -> u64 {
    if sorted.len() == 0 {
        0
    } else {
        sorted[((sorted.len() - 1) * p) as int / 100]
    }
}

/// What some reports add up to.
pub open spec fn summary_of(reports: Seq<CaseReportV>) -> Summary {
    let n = run_count(reports) as usize;
    let passed = count_verdict(reports, Verdict::Passed) as usize;
    let recovered = count_verdict(reports, Verdict::Recovered) as usize;
    let sorted = in_order(times(reports));
    Summary {
        n,
        passed,
        recovered,
        failed: count_verdict(reports, Verdict::Failed) as usize,
        drifted: count_verdict(reports, Verdict::Drifted) as usize,
        skipped: (reports.len() - run_count(reports)) as usize,
        routing_rate: Rate { part: routed_count(reports) as usize, whole: n },
        final_rate: Rate { part: (passed + recovered) as usize, whole: n },
        first_try_rate: Rate { part: passed, whole: n },
        p50_ms: percentile(sorted, 50),
        p95_ms: percentile(sorted, 95),
    }
}

/// The verdicts share out the cases: whatever was run came out one way.
pub proof fn lemma_shares(reports: Seq<CaseReportV>)
    ensures
        run_count(reports) == count_verdict(reports, Verdict::Passed) + count_verdict(
            reports,
            Verdict::Recovered,
        ) + count_verdict(reports, Verdict::Failed) + count_verdict(reports, Verdict::Drifted),
        run_count(reports) + count_verdict(reports, Verdict::Skipped) == reports.len(),
        routed_count(reports) <= run_count(reports),
        times(reports).len() == run_count(reports),
    decreases reports.len(),
{
    if reports.len() > 0 {
        lemma_shares(reports.drop_last());
    }
}

fn count_of(reports: &Vec<CaseReport>, v: Verdict) -> (r: usize)
    ensures
        r == count_verdict(order::views(reports@), v),
        r <= reports@.len(),
{
    let ghost all = order::views(reports@);
    let ghost test = |r: CaseReportV| r.verdict == v;
    let mut n: usize = 0;
    for i in 0..reports.len()
        invariant
            all == order::views(reports@),
            test == (|r: CaseReportV| r.verdict == v),
            n <= i,
            n == count_reports(all.take(i as int), test),
    {
        proof {
            assert(all.take(i + 1).drop_last() == all.take(i as int));
            assert(all[i as int] == reports@[i as int]@);
        }
        if reports[i].verdict == v {
            n = n + 1;
        }
    }
    assert(all.take(all.len() as int) == all);
    n
}

fn count_routed(reports: &Vec<CaseReport>) -> (r: usize)
    ensures
        r == routed_count(order::views(reports@)),
{
    let ghost all = order::views(reports@);
    let ghost test = |r: CaseReportV| was_run(r) && r.routed_first_try;
    let mut n: usize = 0;
    for i in 0..reports.len()
        invariant
            all == order::views(reports@),
            test == (|r: CaseReportV| was_run(r) && r.routed_first_try),
            n <= i,
            n == count_reports(all.take(i as int), test),
    {
        proof {
            assert(all.take(i + 1).drop_last() == all.take(i as int));
            assert(all[i as int] == reports@[i as int]@);
        }
        if reports[i].verdict != Verdict::Skipped && reports[i].routed_first_try {
            n = n + 1;
        }
    }
    assert(all.take(all.len() as int) == all);
    n
}

// ---------------------------------------------------------------------------
// Sorting
// ---------------------------------------------------------------------------

/// Whether numbers stand in order.
pub open spec fn is_in_order(v: Seq<u64>) -> bool {
    forall|i: int, j: int| 0 <= i <= j < v.len() ==> #[trigger] v[i] <= #[trigger] v[j]
}

/// Put one more number in its place.
fn insert_sorted(v: &mut Vec<u64>, x: u64)
    requires
        is_in_order(old(v)@),
    ensures
        is_in_order(final(v)@),
        final(v)@.to_multiset() == old(v)@.to_multiset().insert(x),
{
    let ghost before = v@;
    let n = v.len();
    let mut i: usize = 0;
    while i < n && v[i] <= x
        invariant
            i <= n,
            n == v@.len(),
            v@ == before,
            is_in_order(before),
            forall|k: int| 0 <= k < i ==> before[k] <= x,
        decreases n - i,
    {
        i = i + 1;
    }
    v.insert(i, x);
    proof {
        assert forall|a: int, b: int| 0 <= a <= b < v@.len() implies #[trigger] v@[a]
            <= #[trigger] v@[b] by {
            if a < i && b < i {
                assert(before[a] <= before[b]);
            } else if a < i && b > i {
                assert(before[a] <= before[b - 1]);
            } else if a > i {
                assert(before[a - 1] <= before[b - 1]);
            } else if a == i && b > i {
                assert(before[i as int] <= before[b - 1]);
            }
        }
        vstd::seq_lib::to_multiset_insert(before, i as int, x);
    }
}

proof fn lemma_one_sorting(a: Seq<u64>, b: Seq<u64>)
    requires
        is_in_order(a),
        a.to_multiset() == b.to_multiset(),
    ensures
        a == in_order(b),
{
    let leq = |x: u64, y: u64| x <= y;
    assert(vstd::relations::total_ordering(leq));
    b.lemma_sort_by_ensures(leq);
    let c = b.sort_by(leq);
    assert(vstd::relations::sorted_by(a, leq));
    vstd::seq_lib::lemma_sorted_unique(a, c, leq);
}

fn sorted_times(reports: &Vec<CaseReport>) -> (r: Vec<u64>)
    ensures
        r@ == in_order(times(order::views(reports@))),
{
    let ghost all = order::views(reports@);
    let mut out: Vec<u64> = Vec::new();
    assert(times(all.take(0)) =~= out@);
    for i in 0..reports.len()
        invariant
            all == order::views(reports@),
            is_in_order(out@),
            out@.to_multiset() == times(all.take(i as int)).to_multiset(),
    {
        proof {
            assert(all.take(i + 1).drop_last() == all.take(i as int));
            assert(all[i as int] == reports@[i as int]@);
            times(all.take(i as int)).to_multiset_ensures();
        }
        if reports[i].verdict != Verdict::Skipped {
            insert_sorted(&mut out, reports[i].elapsed_ms);
        }
    }
    assert(all.take(all.len() as int) == all);
    proof {
        lemma_one_sorting(out@, times(all));
    }
    out
}

fn pct(sorted: &Vec<u64>, p: usize) -> (r: u64)
    requires
        p <= 100,
    ensures
        r == percentile(sorted@, p as nat),
{
    if sorted.len() == 0 {
        return 0;
    }
    let last: usize = sorted.len() - 1;
    assert(0 <= last * p <= last * 100) by (nonlinear_arith)
        requires
            0 <= p <= 100,
            0 <= last,
    ;
    let i: usize = ((last as u128 * p as u128) / 100) as usize;
    sorted[i]
}

/// Add some reports up. What was skipped counts for nothing: a house that lacks
/// a device must not drag the score down.
pub fn summarise(reports: &Vec<CaseReport>) -> (r: Summary)
    ensures
        r == summary_of(order::views(reports@)),
{
    let ghost all = order::views(reports@);
    proof {
        lemma_shares(all);
    }
    let skipped = count_of(reports, Verdict::Skipped);
    let n: usize = reports.len() - skipped;
    let passed = count_of(reports, Verdict::Passed);
    let recovered = count_of(reports, Verdict::Recovered);
    let sorted = sorted_times(reports);
    Summary {
        n,
        passed,
        recovered,
        failed: count_of(reports, Verdict::Failed),
        drifted: count_of(reports, Verdict::Drifted),
        skipped,
        routing_rate: Rate { part: count_routed(reports), whole: n },
        final_rate: Rate { part: passed + recovered, whole: n },
        first_try_rate: Rate { part: passed, whole: n },
        p50_ms: pct(&sorted, 50),
        p95_ms: pct(&sorted, 95),
    }
}

// ---------------------------------------------------------------------------
// Grouping
// ---------------------------------------------------------------------------

/// The reports filed under a key.
pub open spec fn filed_under(
    reports: Seq<CaseReportV>,
    keys: Seq<Seq<char>>,
    key: Seq<char>,
) -> Seq<CaseReportV>
    decreases reports.len(),
{
    if reports.len() == 0 || keys.len() == 0 {
        Seq::empty()
    } else {
        let rest = filed_under(reports.drop_last(), keys.drop_last(), key);
        if keys.last() == key {
            rest.push(reports.last())
        } else {
            rest
        }
    }
}

/// Whether groups are all the keys in order, each once, with what is filed under
/// it added up.
pub open spec fn are_groups(
    groups: Seq<(Seq<char>, Summary)>,
    reports: Seq<CaseReportV>,
    keys: Seq<Seq<char>>,
) -> bool {
    &&& order::ascending::<String>(groups.map_values(|g: (Seq<char>, Summary)| g.0))
    &&& forall|k: Seq<char>|
        groups.map_values(|g: (Seq<char>, Summary)| g.0).contains(k) <==> #[trigger] keys.contains(
            k,
        )
    &&& forall|i: int|
        0 <= i < groups.len() ==> (#[trigger] groups[i]).1 == summary_of(
            filed_under(reports, keys, groups[i].0),
        )
}

/// The keys, in order, each with what is filed under it added up.
pub open spec fn grouped(reports: Seq<CaseReportV>, keys: Seq<Seq<char>>) -> Seq<
    (Seq<char>, Summary),
> {
    choose|groups: Seq<(Seq<char>, Summary)>| are_groups(groups, reports, keys)
}

/// There is only one way to group.
pub proof fn lemma_one_grouping(
    groups: Seq<(Seq<char>, Summary)>,
    reports: Seq<CaseReportV>,
    keys: Seq<Seq<char>>,
)
    requires
        are_groups(groups, reports, keys),
    ensures
        groups == grouped(reports, keys),
{
    let other = grouped(reports, keys);
    let a = groups.map_values(|g: (Seq<char>, Summary)| g.0);
    let b = other.map_values(|g: (Seq<char>, Summary)| g.0);
    assert(are_groups(other, reports, keys));
    assert forall|k: Seq<char>|
        #![trigger a.contains(k)]
        #![trigger b.contains(k)]
        a.contains(k) <==> b.contains(k) by {
        assert(a.contains(k) <==> keys.contains(k));
    }
    order::lemma_one_order::<String>(a, b);
    assert(a.len() == groups.len() && b.len() == other.len());
    assert forall|i: int| 0 <= i < groups.len() implies groups[i] == other[i] by {
        assert(a[i] == groups[i].0);
        assert(b[i] == other[i].0);
    }
    assert(groups =~= other);
}

/// What some groups say.
pub open spec fn group_views(v: Seq<(String, Summary)>) -> Seq<(Seq<char>, Summary)> {
    v.map_values(|g: (String, Summary)| (g.0@, g.1))
}

fn file(reports: &Vec<CaseReport>, keys: &Vec<String>, key: &str) -> (r: Vec<CaseReport>)
    requires
        keys@.len() == reports@.len(),
    ensures
        order::views(r@) == filed_under(order::views(reports@), text::texts(keys@), key@),
{
    let ghost all = order::views(reports@);
    let ghost names = text::texts(keys@);
    let mut out: Vec<CaseReport> = Vec::new();
    assert(order::views(out@) =~= filed_under(all.take(0), names.take(0), key@));
    for i in 0..reports.len()
        invariant
            keys@.len() == reports@.len(),
            all == order::views(reports@),
            names == text::texts(keys@),
            order::views(out@) == filed_under(all.take(i as int), names.take(i as int), key@),
    {
        let ghost before = order::views(out@);
        proof {
            assert(all.take(i + 1).drop_last() == all.take(i as int));
            assert(names.take(i + 1).drop_last() == names.take(i as int));
            assert(all[i as int] == reports@[i as int]@);
            assert(names[i as int] == keys@[i as int]@);
        }
        if same(&keys[i], key) {
            let one = reports[i].copy();
            let ghost said = one@;
            out.push(one);
            assert(order::views(out@) =~= before.push(said));
        }
    }
    assert(all.take(all.len() as int) == all);
    assert(names.take(names.len() as int) == names);
    out
}

/// Add reports up by the key each is filed under, in the order of the keys.
pub fn group_by_keys(reports: &Vec<CaseReport>, keys: &Vec<String>) -> (r: Vec<(String, Summary)>)
    requires
        keys@.len() == reports@.len(),
    ensures
        are_groups(group_views(r@), order::views(reports@), text::texts(keys@)),
{
    let ghost all = order::views(reports@);
    let ghost names = text::texts(keys@);
    let mut found: Vec<String> = Vec::new();
    for i in 0..keys.len()
        invariant
            names == text::texts(keys@),
            order::ascending::<String>(order::views(found@)),
            forall|k: Seq<char>| #[trigger]
                order::views(found@).contains(k) <==> names.take(i as int).contains(k),
    {
        let ghost before = order::views(found@);
        place(&mut found, keys[i].clone());
        proof {
            assert(names[i as int] == keys@[i as int]@);
            assert forall|k: Seq<char>| #[trigger]
                order::views(found@).contains(k) <==> names.take(i + 1).contains(k) by {
                lemma_one_more(names, i as int, k);
                assert(before.contains(k) <==> names.take(i as int).contains(k));
            }
        }
    }
    assert(names.take(names.len() as int) == names);
    let mut out: Vec<(String, Summary)> = Vec::new();
    for i in 0..found.len()
        invariant
            keys@.len() == reports@.len(),
            all == order::views(reports@),
            names == text::texts(keys@),
            out@.len() == i,
            forall|k: int|
                0 <= k < i ==> (#[trigger] out@[k]).0@ == found@[k]@ && out@[k].1 == summary_of(
                    filed_under(all, names, found@[k]@),
                ),
    {
        let mine = file(reports, keys, &found[i]);
        out.push((found[i].clone(), summarise(&mine)));
    }
    proof {
        let groups = group_views(out@);
        assert(groups.map_values(|g: (Seq<char>, Summary)| g.0) =~= order::views(found@));
        assert forall|k: Seq<char>|
            groups.map_values(|g: (Seq<char>, Summary)| g.0).contains(k)
                <==> #[trigger] names.contains(k) by {
            assert(order::views(found@).contains(k) <==> names.contains(k));
        }
        assert forall|i: int| 0 <= i < groups.len() implies (#[trigger] groups[i]).1
            == summary_of(filed_under(all, names, groups[i].0)) by {
            assert(groups[i] == (out@[i].0@, out@[i].1));
        }
    }
    out
}

proof fn lemma_one_more(s: Seq<Seq<char>>, i: int, x: Seq<char>)
    requires
        0 <= i < s.len(),
    ensures
        s.take(i + 1).contains(x) <==> s.take(i).contains(x) || s[i] == x,
{
    let less = s.take(i);
    let more = s.take(i + 1);
    if less.contains(x) {
        let k = choose|k: int| 0 <= k < less.len() && less[k] == x;
        assert(more[k] == x);
    }
    if s[i] == x {
        assert(more[i] == x);
    }
    if more.contains(x) {
        let k = choose|k: int| 0 <= k < more.len() && more[k] == x;
        if k < i {
            assert(less[k] == x);
        }
    }
}

/// Add reports up by whatever key the caller groups on.
///
/// Both cuts matter: by language shows whether a house named in English
/// understands Romanian, and by class shows which rung is broken.
pub fn group_by<F: Fn(&CaseReport) -> String>(reports: &Vec<CaseReport>, key: F) -> (r: Vec<
    (String, Summary),
>)
    requires
        forall|i: int| 0 <= i < reports@.len() ==> call_requires(key, (&#[trigger] reports@[i],)),
    ensures
        exists|keys: Seq<String>|
            keys.len() == reports@.len() && (forall|i: int|
                0 <= i < keys.len() ==> call_ensures(
                    key,
                    (&reports@[i],),
                    #[trigger] keys[i],
                )) && #[trigger] are_groups(
                group_views(r@),
                order::views(reports@),
                text::texts(keys),
            ),
{
    let mut keys: Vec<String> = Vec::new();
    for i in 0..reports.len()
        invariant
            forall|i: int|
                0 <= i < reports@.len() ==> call_requires(key, (&#[trigger] reports@[i],)),
            keys@.len() == i,
            forall|k: int|
                0 <= k < i ==> call_ensures(key, (&reports@[k],), #[trigger] keys@[k]),
    {
        let one = key(&reports[i]);
        keys.push(one);
    }
    group_by_keys(reports, &keys)
}

// ---------------------------------------------------------------------------
// Laws
// ---------------------------------------------------------------------------

/// The two success rates nest: what worked first try worked in the end, and
/// neither is more than everything that was run.
pub proof fn law_the_success_rates_nest(reports: Seq<CaseReportV>)
    requires
        reports.len() <= usize::MAX,
    ensures
        at_most(summary_of(reports).first_try_rate, summary_of(reports).final_rate),
        summary_of(reports).final_rate.part <= summary_of(reports).n,
        summary_of(reports).routing_rate.part <= summary_of(reports).n,
{
    lemma_shares(reports);
}

/// The gap between the two success rates is what recovered: it is the measured
/// worth of the recovery ladder.
pub proof fn law_the_gap_is_what_recovered(reports: Seq<CaseReportV>)
    requires
        reports.len() <= usize::MAX,
    ensures
        summary_of(reports).final_rate.part - summary_of(reports).first_try_rate.part
            == summary_of(reports).recovered,
{
    lemma_shares(reports);
}

/// Nothing is lost in the count: every case that was run passed, recovered,
/// failed or drifted, and every other one was skipped.
pub proof fn law_every_case_is_counted_once(reports: Seq<CaseReportV>)
    requires
        reports.len() <= usize::MAX,
    ensures
        ({
            let s = summary_of(reports);
            &&& s.n == s.passed + s.recovered + s.failed + s.drifted
            &&& s.n + s.skipped == reports.len()
        }),
{
    lemma_shares(reports);
}

/// A skip drags nothing down: one more skipped case changes nothing but the
/// number of skips.
pub proof fn law_a_skip_changes_no_score(reports: Seq<CaseReportV>, r: CaseReportV)
    requires
        reports.len() < usize::MAX,
        r.verdict == Verdict::Skipped,
    ensures
        summary_of(reports.push(r)) == (Summary {
            skipped: (summary_of(reports).skipped + 1) as usize,
            ..summary_of(reports)
        }),
{
    assert(reports.push(r).drop_last() =~= reports);
    lemma_shares(reports);
    lemma_shares(reports.push(r));
}

/// A percentile is a time some case really took, and the median is no more than
/// the slow end.
pub proof fn law_a_percentile_is_a_real_time(reports: Seq<CaseReportV>, p: nat, q: nat)
    requires
        times(reports).len() > 0,
        p <= q <= 100,
    ensures
        times(reports).contains(percentile(in_order(times(reports)), p)),
        percentile(in_order(times(reports)), p) <= percentile(in_order(times(reports)), q),
{
    let v = times(reports);
    let leq = |x: u64, y: u64| x <= y;
    assert(vstd::relations::total_ordering(leq));
    v.lemma_sort_by_ensures(leq);
    let s = v.sort_by(leq);
    v.to_multiset_ensures();
    s.to_multiset_ensures();
    assert(s.len() == v.len());
    let last = s.len() - 1;
    assert(0 <= last * p <= last * q <= last * 100) by (nonlinear_arith)
        requires
            0 <= p <= q <= 100,
            0 <= last,
    ;
    let i = (last * p) as int / 100;
    let j = (last * q) as int / 100;
    assert(0 <= i <= j <= last);
    assert(s.contains(s[i]));
    assert(leq(s[i], s[j]) || i == j);
}

/// Nothing is lost in the groups: every report is filed under its own key.
pub proof fn law_every_report_is_filed_once(
    reports: Seq<CaseReportV>,
    keys: Seq<Seq<char>>,
    i: int,
)
    requires
        keys.len() == reports.len(),
        0 <= i < reports.len(),
    ensures
        filed_under(reports, keys, keys[i]).contains(reports[i]),
    decreases reports.len(),
{
    let key = keys[i];
    let all = filed_under(reports, keys, key);
    if i == reports.len() - 1 {
        assert(all.last() == reports[i]);
        assert(all[all.len() - 1] == reports[i]);
    } else {
        law_every_report_is_filed_once(reports.drop_last(), keys.drop_last(), i);
        let rest = filed_under(reports.drop_last(), keys.drop_last(), key);
        let k = choose|k: int| 0 <= k < rest.len() && rest[k] == reports[i];
        assert(all[k] == reports[i]);
    }
}

/// Reports are counted one by one, whatever they are counted for.
pub proof fn law_reports_are_counted_one_by_one(
    reports: Seq<CaseReportV>,
    r: CaseReportV,
    p: spec_fn(CaseReportV) -> bool,
)
    ensures
        count_reports(Seq::empty(), p) == 0,
        p(r) ==> count_reports(reports.push(r), p) == count_reports(reports, p) + 1,
        !p(r) ==> count_reports(reports.push(r), p) == count_reports(reports, p),
{
    assert(reports.push(r).drop_last() == reports);
}

/// One more report adds one to the count of its verdict, to no other count, and
/// to the share that was routed right exactly where it was; its time is among the
/// times unless it was skipped.
pub proof fn law_one_more_report(reports: Seq<CaseReportV>, r: CaseReportV)
    requires
        reports.len() < usize::MAX,
    ensures
        ({
            let a = summary_of(reports);
            let b = summary_of(reports.push(r));
            let one = |c: bool|
                if c {
                    1int
                } else {
                    0int
                };
            let ran = r.verdict != Verdict::Skipped;
            &&& b.n == a.n + one(ran)
            &&& b.passed == a.passed + one(r.verdict == Verdict::Passed)
            &&& b.recovered == a.recovered + one(r.verdict == Verdict::Recovered)
            &&& b.failed == a.failed + one(r.verdict == Verdict::Failed)
            &&& b.drifted == a.drifted + one(r.verdict == Verdict::Drifted)
            &&& b.skipped == a.skipped + one(!ran)
            &&& b.routing_rate.part == a.routing_rate.part + one(ran && r.routed_first_try)
            &&& b.routing_rate.whole == b.n
            &&& b.final_rate.whole == b.n && b.final_rate.part == b.passed + b.recovered
            &&& b.first_try_rate.whole == b.n && b.first_try_rate.part == b.passed
            &&& ran ==> times(reports.push(r)) == times(reports).push(r.elapsed_ms)
            &&& !ran ==> times(reports.push(r)) == times(reports)
        }),
        ({
            let none = summary_of(Seq::empty());
            none.n == 0 && none.passed == 0 && none.recovered == 0 && none.failed == 0
                && none.drifted == 0 && none.skipped == 0 && none.p50_ms == 0 && none.p95_ms == 0
        }),
{
    let more = reports.push(r);
    assert(more.drop_last() == reports);
    assert(more.last() == r);
    lemma_shares(reports);
    lemma_shares(more);
    let none = Seq::<CaseReportV>::empty();
    lemma_shares(none);
    assert(times(none).len() == 0);
    lemma_no_times();
}

proof fn lemma_no_times()
    ensures
        in_order(Seq::<u64>::empty()).len() == 0,
{
    let leq = |a: u64, b: u64| a <= b;
    Seq::<u64>::empty().lemma_sort_by_ensures(leq);
    Seq::<u64>::empty().to_multiset_ensures();
    in_order(Seq::<u64>::empty()).to_multiset_ensures();
}

/// The times a summary speaks of are put in order, and none is lost or made up.
pub proof fn law_times_are_put_in_order(v: Seq<u64>)
    ensures
        is_in_order(in_order(v)),
        in_order(v).to_multiset() == v.to_multiset(),
        in_order(v).len() == v.len(),
{
    let leq = |a: u64, b: u64| a <= b;
    v.lemma_sort_by_ensures(leq);
    v.to_multiset_ensures();
    in_order(v).to_multiset_ensures();
    let s = in_order(v);
    assert forall|i: int, j: int| 0 <= i <= j < s.len() implies #[trigger] s[i] <= #[trigger] s[j] by {
        if i < j {
            assert(leq(s[i], s[j]));
        }
    }
}

/// A percentile is the time at the place that lies as far along the row as the
/// percentage says, rounded down: the first for none of it, the last for all.
pub proof fn law_a_percentile_lies_as_far_along(sorted: Seq<u64>, p: nat)
    requires
        sorted.len() > 0,
        p <= 100,
    ensures
        exists|i: int|
            0 <= i < sorted.len() && percentile(sorted, p) == #[trigger] sorted[i] && 100 * i <= (
            sorted.len() - 1) * p < 100 * i + 100,
        percentile(sorted, 0) == sorted[0],
        percentile(sorted, 100) == sorted.last(),
        percentile(Seq::empty(), p) == 0,
{
    let n = sorted.len() - 1;
    let i = (n * p) / 100;
    assert(0 <= n * p <= n * 100) by (nonlinear_arith)
        requires
            0 <= n,
            0 <= p <= 100,
    ;
    assert(n * 0 == 0) by (nonlinear_arith);
    assert(percentile(sorted, p) == sorted[i]);
}

/// A summary's two times are its median and the ninety-fifth of a hundred, of the
/// times of what was run.
pub proof fn law_the_two_times_of_a_summary(reports: Seq<CaseReportV>)
    ensures
        summary_of(reports).p50_ms == percentile(in_order(times(reports)), 50),
        summary_of(reports).p95_ms == percentile(in_order(times(reports)), 95),
{
}

/// What is filed under a key is every report that has it, in order, and no other.
pub proof fn law_what_is_filed_under_a_key(
    reports: Seq<CaseReportV>,
    keys: Seq<Seq<char>>,
    r: CaseReportV,
    k: Seq<char>,
    key: Seq<char>,
)
    requires
        reports.len() == keys.len(),
    ensures
        k == key ==> filed_under(reports.push(r), keys.push(k), key) == filed_under(
            reports,
            keys,
            key,
        ).push(r),
        k != key ==> filed_under(reports.push(r), keys.push(k), key) == filed_under(
            reports,
            keys,
            key,
        ),
        filed_under(Seq::empty(), Seq::empty(), key).len() == 0,
{
    assert(reports.push(r).drop_last() == reports);
    assert(keys.push(k).drop_last() == keys);
}

/// Every report is in the group of its key: each key has a group, summed up from
/// what is filed under it, no other key has one, and the groups stand in the order
/// of their keys.
pub proof fn law_every_key_has_its_group(
    groups: Seq<(Seq<char>, Summary)>,
    reports: Seq<CaseReportV>,
    keys: Seq<Seq<char>>,
    i: int,
    j: int,
)
    requires
        are_groups(groups, reports, keys),
    ensures
        0 <= i < keys.len() ==> exists|k: int|
            0 <= k < groups.len() && (#[trigger] groups[k]).0 == keys[i] && groups[k].1
                == summary_of(filed_under(reports, keys, keys[i])),
        0 <= i < groups.len() ==> keys.contains(groups[i].0),
        0 <= i < j < groups.len() ==> order::text_order(groups[i].0, groups[j].0) < 0,
{
    let names = groups.map_values(|g: (Seq<char>, Summary)| g.0);
    if 0 <= i < keys.len() {
        assert(keys.contains(keys[i]));
        assert(names.contains(keys[i]));
        let k = choose|k: int| 0 <= k < names.len() && names[k] == keys[i];
        assert(groups[k].0 == keys[i]);
    }
    if 0 <= i < groups.len() {
        assert(names[i] == groups[i].0);
        assert(names.contains(groups[i].0));
    }
    if 0 <= i < j < groups.len() {
        order::law_a_row_in_order::<String>(names, i, j);
    }
}

/// Reports can be grouped in one way only, and that is how they are.
pub proof fn law_reports_are_grouped_in_the_one_way(
    groups: Seq<(Seq<char>, Summary)>,
    reports: Seq<CaseReportV>,
    keys: Seq<Seq<char>>,
)
    requires
        are_groups(groups, reports, keys),
    ensures
        grouped(reports, keys) == groups,
{
    lemma_one_grouping(groups, reports, keys);
}

} // verus!
