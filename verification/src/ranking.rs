//! Ordering of the NICs found at start-up, and the choice of the one shown first.
use vstd::prelude::*;
use crate::text::{chars_of, contains, contains_exec};
use crate::report::{reports_zero_copy, zero_copy_capable};

verus! {

/// A NIC found at start-up: its name, whether its driver supports zero-copy XDP,
/// and the bytes it has received and sent.
pub type Candidate = (String, bool, u64);

pub type CandidateView = (Seq<char>, bool, u64);

/// The order of `String`s: lexicographic by character (for UTF-8 text the same
/// order as by bytes).
pub open spec fn name_le(a: Seq<char>, b: Seq<char>) -> bool
    decreases a.len(),
{
    if a.len() == 0 {
        true
    } else if b.len() == 0 {
        false
    } else if (a[0] as u32) < (b[0] as u32) {
        true
    } else if (a[0] as u32) > (b[0] as u32) {
        false
    } else {
        name_le(a.drop_first(), b.drop_first())
    }
}

pub fn name_le_exec(a: &Vec<char>, b: &Vec<char>) -> (res: bool)
    ensures
        res == name_le(a@, b@),
{
    let mut i: usize = 0;
    assert(a@.skip(0) =~= a@);
    assert(b@.skip(0) =~= b@);
    while i < a.len() && i < b.len()
        invariant
            i <= a.len(),
            i <= b.len(),
            name_le(a@, b@) == name_le(a@.skip(i as int), b@.skip(i as int)),
        decreases a.len() - i,
    {
        assert(a@.skip(i as int)[0] == a@[i as int]);
        assert(b@.skip(i as int)[0] == b@[i as int]);
        if (a[i] as u32) < (b[i] as u32) {
            return true;
        }
        if (a[i] as u32) > (b[i] as u32) {
            return false;
        }
        assert(a@.skip(i as int).drop_first() =~= a@.skip(i + 1));
        assert(b@.skip(i as int).drop_first() =~= b@.skip(i + 1));
        i = i + 1;
    }
    i == a.len()
}

/// `s` with `e` inserted after every element whose name is not greater than its own.
pub open spec fn insert_by_name(s: Seq<CandidateView>, e: CandidateView) -> Seq<CandidateView>
    decreases s.len(),
{
    if s.len() == 0 {
        seq![e]
    } else if !name_le(s.last().0, e.0) {
        insert_by_name(s.drop_last(), e).push(s.last())
    } else {
        s.push(e)
    }
}

/// The stable sort by name that `slice::sort_by` with `String::cmp` of the names performs.
pub open spec fn sort_by_name(s: Seq<CandidateView>) -> Seq<CandidateView>
    decreases s.len(),
{
    if s.len() == 0 {
        s
    } else {
        insert_by_name(sort_by_name(s.drop_last()), s.last())
    }
}

/// The NICs in the order they are offered: sorted by name, or the loopback
/// device alone where none was found.
pub open spec fn ranked(found: Seq<CandidateView>) -> Seq<CandidateView> {
    if found.len() == 0 {
        seq![("lo"@, false, 0u64)]
    } else {
        sort_by_name(found)
    }
}

fn insert_by_name_exec(v: &mut Vec<Candidate>, e: Candidate)
    ensures
        final(v).deep_view() == insert_by_name(old(v).deep_view(), e.deep_view()),
{
    let ghost s = v.deep_view();
    let key = chars_of(e.0.as_str());
    let mut j = v.len();
    assert(s.take(j as int) =~= s);
    assert(s.skip(j as int) =~= Seq::<CandidateView>::empty());
    while j > 0 && !name_le_exec(&chars_of(v[j - 1].0.as_str()), &key)
        invariant
            j <= v.len(),
            s == v.deep_view(),
            key@ == e.0@,
            insert_by_name(s, e.deep_view()) == insert_by_name(s.take(j as int), e.deep_view())
                + s.skip(j as int),
        decreases j,
    {
        let ghost t = s.take(j as int);
        assert(t.last() == s[j - 1]);
        assert(t.drop_last() =~= s.take(j - 1));
        assert(insert_by_name(t, e.deep_view()) == insert_by_name(s.take(j - 1), e.deep_view()).push(
            s[j - 1],
        ));
        assert(insert_by_name(s.take(j - 1), e.deep_view()).push(s[j - 1]) + s.skip(j as int)
            =~= insert_by_name(s.take(j - 1), e.deep_view()) + s.skip(j - 1));
        j = j - 1;
    }
    let ghost t = s.take(j as int);
    assert(insert_by_name(t, e.deep_view()) =~= t.push(e.deep_view()));
    v.insert(j, e);
    assert(v.deep_view() =~= t.push(e.deep_view()) + s.skip(j as int));
}

/// Orders the NICs found at start-up by name (keeping the order of equal names);
/// where none was found, offers the loopback device "lo".
pub fn sorted_candidates(found: Vec<Candidate>) -> (res: Vec<Candidate>)
    ensures
        res.deep_view() == ranked(found.deep_view()),
{
    let ghost all = found.deep_view();
    let mut sorted: Vec<Candidate> = Vec::new();
    let mut rest = found;
    let mut i: usize = 0;
    let n = rest.len();
    while i < n
        invariant
            i <= n,
            n == all.len(),
            rest.deep_view() == all,
            sorted.deep_view() == sort_by_name(all.take(i as int)),
        decreases n - i,
    {
        assert(all.take(i + 1).drop_last() =~= all.take(i as int));
        assert(all.take(i + 1).last() == rest[i as int].deep_view());
        let e = (rest[i].0.clone(), rest[i].1, rest[i].2);
        assert(e.deep_view() == rest[i as int].deep_view());
        insert_by_name_exec(&mut sorted, e);
        i = i + 1;
    }
    assert(all.take(i as int) =~= all);
    if sorted.len() == 0 {
        sorted.push(("lo".to_owned(), false, 0));
        assert(sorted.deep_view() =~= seq![("lo"@, false, 0u64)]);
    }
    sorted
}

/// A network interface found at start-up: its name, its `ethtool -i` report
/// (`None` where `ethtool` could not be run), and the bytes it has received and
/// sent.
pub type FoundNic = (String, Option<String>, u64);

pub type FoundNicView = (Seq<char>, Option<Seq<char>>, u64);

/// Whether the `ethtool -i` report of a NIC names a zero-copy capable driver.
pub open spec fn found_zero_copy(report: Option<Seq<char>>) -> bool {
    match report {
        Some(r) => reports_zero_copy(r),
        None => false,
    }
}

/// The candidates that the interfaces found make: name, zero-copy capability
/// and traffic.
pub open spec fn candidates_of(found: Seq<FoundNicView>) -> Seq<CandidateView> {
    found.map_values(|f: FoundNicView| (f.0, found_zero_copy(f.1), f.2))
}

/// The NICs offered for the interfaces found, in the order `ranked` gives.
pub fn ranked_nics(found: &Vec<FoundNic>) -> (res: Vec<Candidate>)
    ensures
        res.deep_view() == ranked(candidates_of(found.deep_view())),
{
    let ghost fs = found.deep_view();
    let mut cands: Vec<Candidate> = Vec::new();
    let mut i: usize = 0;
    while i < found.len()
        invariant
            i <= found.len(),
            fs == found.deep_view(),
            cands.deep_view() == candidates_of(fs).take(i as int),
        decreases found.len() - i,
    {
        assert(fs[i as int] == found[i as int].deep_view());
        let zc = match &found[i].1 {
            Some(r) => zero_copy_capable(r.as_str()),
            None => false,
        };
        let c = (found[i].0.clone(), zc, found[i].2);
        assert(c.deep_view() == candidates_of(fs)[i as int]);
        let ghost before = cands.deep_view();
        cands.push(c);
        assert(cands.deep_view() =~= before.push(candidates_of(fs)[i as int]));
        assert(cands.deep_view() =~= candidates_of(fs).take(i + 1));
        i = i + 1;
    }
    assert(candidates_of(fs).take(i as int) =~= candidates_of(fs));
    sorted_candidates(cands)
}

/// The bonus of a NIC for the XDP attachment its `ip -details link show` report
/// shows: native or offloaded XDP counts most, generic XDP less.
pub open spec fn link_bonus(report: Option<Seq<char>>) -> nat {
    match report {
        Some(t) => if contains(t, "xdpdrv"@) || contains(t, "xdpoffload"@) {
            500_000_000_000
        } else if contains(t, "xdpgeneric"@) {
            200_000_000_000
        } else {
            0
        },
        None => 0,
    }
}

/// How strongly a NIC is preferred at start-up: its traffic, plus a bonus for a
/// zero-copy capable driver and one for an attached XDP program.
pub open spec fn nic_score(c: CandidateView, report: Option<Seq<char>>) -> nat {
    c.2 as nat + (if c.1 {
        100_000_000_000nat
    } else {
        0nat
    }) + link_bonus(report)
}

/// The preferred NIC of a prefix of the list and its score: the last one whose
/// score is not below any before it, starting from the first NIC at score 0.
pub open spec fn best_of(scores: Seq<nat>) -> (int, nat)
    decreases scores.len(),
{
    if scores.len() == 0 {
        (0, 0)
    } else {
        let prev = best_of(scores.drop_last());
        if scores.last() >= prev.1 {
            (scores.len() - 1, scores.last())
        } else {
            prev
        }
    }
}

pub open spec fn scores(cands: Seq<CandidateView>, reports: Seq<Option<Seq<char>>>) -> Seq<nat> {
    Seq::new(cands.len(), |i: int| nic_score(cands[i], reports[i]))
}

/// The NIC shown first: the one with the highest score, the last of them where
/// several share it.
pub open spec fn preferred(cands: Seq<CandidateView>, reports: Seq<Option<Seq<char>>>) -> int {
    best_of(scores(cands, reports)).0
}

/// The preferred NIC has the highest score, and every NIC after it a lower one.
pub proof fn lemma_best_of(s: Seq<nat>)
    requires
        s.len() > 0,
    ensures
        0 <= best_of(s).0 < s.len(),
        best_of(s).1 == s[best_of(s).0],
        forall|j: int| 0 <= j < s.len() ==> s[j] <= best_of(s).1,
        forall|j: int| best_of(s).0 < j < s.len() ==> s[j] < best_of(s).1,
    decreases s.len(),
{
    let p = s.drop_last();
    assert(forall|j: int| 0 <= j < p.len() ==> p[j] == s[j]);
    if p.len() > 0 {
        lemma_best_of(p);
    } else {
        assert(best_of(p) == (0int, 0nat));
    }
}

/// The NIC shown first has the highest score, and every NIC after it a strictly
/// lower one, where a NIC scores its traffic, plus 100_000_000_000 for a
/// zero-copy capable driver, plus 500_000_000_000 where its link report shows
/// native (`xdpdrv`) or offloaded (`xdpoffload`) XDP, else 200_000_000_000 where
/// it shows generic XDP (`xdpgeneric`).
pub proof fn lemma_preferred_has_highest_score(
    cands: Seq<CandidateView>,
    reports: Seq<Option<Seq<char>>>,
)
    requires
        cands.len() > 0,
        reports.len() == cands.len(),
    ensures
        0 <= preferred(cands, reports) < cands.len(),
        forall|j: int|
            0 <= j < cands.len() ==> {
                let b = preferred(cands, reports);
                let score_j = (#[trigger] cands[j]).2 + (if cands[j].1 {
                    100_000_000_000int
                } else {
                    0int
                }) + match reports[j] {
                    Some(t) => if contains(t, "xdpdrv"@) || contains(t, "xdpoffload"@) {
                        500_000_000_000int
                    } else if contains(t, "xdpgeneric"@) {
                        200_000_000_000int
                    } else {
                        0int
                    },
                    None => 0int,
                };
                let score_b = cands[b].2 + (if cands[b].1 {
                    100_000_000_000int
                } else {
                    0int
                }) + match reports[b] {
                    Some(t) => if contains(t, "xdpdrv"@) || contains(t, "xdpoffload"@) {
                        500_000_000_000int
                    } else if contains(t, "xdpgeneric"@) {
                        200_000_000_000int
                    } else {
                        0int
                    },
                    None => 0int,
                };
                &&& score_j <= score_b
                &&& j > b ==> score_j < score_b
            },
{
    let s = scores(cands, reports);
    lemma_best_of(s);
    let b = preferred(cands, reports);
    assert(s[b] == nic_score(cands[b], reports[b]));
    assert forall|j: int| 0 <= j < cands.len() implies s[j] == nic_score(#[trigger] cands[j], reports[j])
        && s[j] <= s[b] && (j > b ==> s[j] < s[b]) by {}
}

fn link_bonus_exec(report: &Option<String>) -> (res: u64)
    ensures
        res as nat == link_bonus(report.deep_view()),
{
    match report {
        Some(r) => {
            let t = chars_of(r.as_str());
            if contains_exec(&t, &chars_of("xdpdrv")) || contains_exec(&t, &chars_of("xdpoffload")) {
                500_000_000_000
            } else if contains_exec(&t, &chars_of("xdpgeneric")) {
                200_000_000_000
            } else {
                0
            }
        },
        None => 0,
    }
}

/// Whether every score of `cands`, with link reports `reports`, fits in `u64`.
pub fn scores_fit(cands: &Vec<Candidate>, reports: &Vec<Option<String>>) -> (res: bool)
    requires
        reports.len() == cands.len(),
    ensures
        res == forall|i: int|
            0 <= i < cands.len() ==> nic_score(
                #[trigger] cands.deep_view()[i],
                reports.deep_view()[i],
            ) <= u64::MAX,
{
    let ghost cs = cands.deep_view();
    let ghost rs = reports.deep_view();
    let mut i: usize = 0;
    while i < cands.len()
        invariant
            i <= cands.len(),
            reports.len() == cands.len(),
            cs == cands.deep_view(),
            rs == reports.deep_view(),
            forall|k: int| 0 <= k < i ==> nic_score(#[trigger] cs[k], rs[k]) <= u64::MAX,
        decreases cands.len() - i,
    {
        assert(cs[i as int] == cands[i as int].deep_view());
        assert(rs[i as int] == reports[i as int].deep_view());
        let zc_bonus: u64 = if cands[i].1 {
            100_000_000_000
        } else {
            0
        };
        let bonus = link_bonus_exec(&reports[i]);
        match cands[i].2.checked_add(zc_bonus) {
            Some(partial) => {
                if partial.checked_add(bonus).is_none() {
                    assert(nic_score(cs[i as int], rs[i as int]) > u64::MAX);
                    return false;
                }
            },
            None => {
                assert(nic_score(cs[i as int], rs[i as int]) > u64::MAX);
                return false;
            },
        }
        i = i + 1;
    }
    true
}

/// The index of the NIC to show first among `cands`, whose `ip -details link
/// show` reports are `reports`.
pub fn preferred_index(cands: &Vec<Candidate>, reports: &Vec<Option<String>>) -> (res: usize)
    requires
        reports.len() == cands.len(),
        forall|i: int|
            0 <= i < cands.len() ==> nic_score(
                #[trigger] cands.deep_view()[i],
                reports.deep_view()[i],
            ) <= u64::MAX,
    ensures
        res == preferred(cands.deep_view(), reports.deep_view()),
{
    let ghost cs = cands.deep_view();
    let ghost rs = reports.deep_view();
    let ghost sc = scores(cs, rs);
    let mut best_idx: usize = 0;
    let mut best_score: u64 = 0;
    let mut i: usize = 0;
    while i < cands.len()
        invariant
            i <= cands.len(),
            reports.len() == cands.len(),
            cs == cands.deep_view(),
            rs == reports.deep_view(),
            sc == scores(cs, rs),
            forall|k: int| 0 <= k < cands.len() ==> nic_score(#[trigger] cs[k], rs[k]) <= u64::MAX,
            best_of(sc.take(i as int)) == (best_idx as int, best_score as nat),
        decreases cands.len() - i,
    {
        assert(sc.take(i + 1).drop_last() =~= sc.take(i as int));
        assert(sc[i as int] == nic_score(cs[i as int], rs[i as int]));
        assert(cs[i as int] == cands[i as int].deep_view());
        assert(rs[i as int] == reports[i as int].deep_view());
        let zc_bonus: u64 = if cands[i].1 {
            100_000_000_000
        } else {
            0
        };
        let score = cands[i].2 + zc_bonus + link_bonus_exec(&reports[i]);
        if score >= best_score {
            best_score = score;
            best_idx = i;
        }
        i = i + 1;
    }
    assert(sc.take(i as int) =~= sc);
    best_idx
}

proof fn lemma_name_le_total(a: Seq<char>, b: Seq<char>)
    ensures
        name_le(a, b) || name_le(b, a),
    decreases a.len(),
{
    if a.len() > 0 && b.len() > 0 && (a[0] as u32) == (b[0] as u32) {
        lemma_name_le_total(a.drop_first(), b.drop_first());
    }
}

proof fn lemma_name_le_trans(a: Seq<char>, b: Seq<char>, c: Seq<char>)
    requires
        name_le(a, b),
        name_le(b, c),
    ensures
        name_le(a, c),
    decreases a.len(),
{
    if a.len() > 0 && b.len() > 0 && c.len() > 0 && (a[0] as u32) == (b[0] as u32) && (b[0] as u32)
        == (c[0] as u32) {
        lemma_name_le_trans(a.drop_first(), b.drop_first(), c.drop_first());
    }
}

/// Whether the names of `s` are in order.
pub open spec fn sorted_by_name(s: Seq<CandidateView>) -> bool {
    forall|i: int, j: int| 0 <= i < j < s.len() ==> name_le(#[trigger] s[i].0, #[trigger] s[j].0)
}

proof fn lemma_insert_bounded(s: Seq<CandidateView>, e: CandidateView, b: Seq<char>)
    requires
        forall|i: int| 0 <= i < s.len() ==> name_le(#[trigger] s[i].0, b),
        name_le(e.0, b),
    ensures
        forall|i: int|
            0 <= i < insert_by_name(s, e).len() ==> name_le(#[trigger] insert_by_name(s, e)[i].0, b),
    decreases s.len(),
{
    if s.len() == 0 {
        assert(insert_by_name(s, e) =~= seq![e]);
    } else if !name_le(s.last().0, e.0) {
        let dl = s.drop_last();
        assert(forall|i: int| 0 <= i < dl.len() ==> dl[i] == s[i]);
        lemma_insert_bounded(dl, e, b);
        let r = insert_by_name(dl, e);
        assert(name_le(s[s.len() - 1].0, b));
        assert forall|i: int| 0 <= i < r.push(s.last()).len() implies name_le(
            #[trigger] r.push(s.last())[i].0,
            b,
        ) by {
            if i < r.len() {
                assert(name_le(r[i].0, b));
            }
        }
    } else {
        assert forall|i: int| 0 <= i < s.push(e).len() implies name_le(#[trigger] s.push(e)[i].0, b) by {
            if i < s.len() {
                assert(name_le(s[i].0, b));
            }
        }
    }
}

proof fn lemma_insert_by_name(s: Seq<CandidateView>, e: CandidateView)
    requires
        sorted_by_name(s),
    ensures
        sorted_by_name(insert_by_name(s, e)),
        insert_by_name(s, e).to_multiset() == s.to_multiset().insert(e),
    decreases s.len(),
{
    broadcast use vstd::seq_lib::group_to_multiset_ensures;

    if s.len() == 0 {
        assert(seq![e] =~= Seq::<CandidateView>::empty().push(e));
    } else {
        let dl = s.drop_last();
        let last = s.last();
        assert(s =~= dl.push(last));
        assert(forall|i: int| 0 <= i < dl.len() ==> dl[i] == s[i]);
        if !name_le(last.0, e.0) {
            lemma_insert_by_name(dl, e);
            lemma_name_le_total(last.0, e.0);
            assert forall|i: int| 0 <= i < dl.len() implies name_le(#[trigger] dl[i].0, last.0) by {
                assert(name_le(s[i].0, s[s.len() - 1].0));
            }
            lemma_insert_bounded(dl, e, last.0);
            let r = insert_by_name(dl, e);
            assert(insert_by_name(s, e) == r.push(last));
            assert forall|i: int, j: int| 0 <= i < j < r.push(last).len() implies name_le(
                #[trigger] r.push(last)[i].0,
                #[trigger] r.push(last)[j].0,
            ) by {
                if j == r.len() {
                    assert(name_le(r[i].0, last.0));
                } else {
                    assert(name_le(r[i].0, r[j].0));
                }
            }
            assert(r.push(last).to_multiset() =~= dl.to_multiset().insert(e).insert(last));
            assert(s.to_multiset() =~= dl.to_multiset().insert(last));
        } else {
            assert forall|i: int, j: int| 0 <= i < j < s.push(e).len() implies name_le(
                #[trigger] s.push(e)[i].0,
                #[trigger] s.push(e)[j].0,
            ) by {
                if j == s.len() {
                    if i < s.len() - 1 {
                        assert(name_le(s[i].0, s[s.len() - 1].0));
                        lemma_name_le_trans(s[i].0, last.0, e.0);
                    }
                } else {
                    assert(name_le(s[i].0, s[j].0));
                }
            }
        }
    }
}

/// The NICs offered at start-up are in order of their names and are exactly
/// the ones found, or, where none was found, the loopback device alone.
pub proof fn lemma_ranked(found: Seq<CandidateView>)
    ensures
        sorted_by_name(ranked(found)),
        found.len() > 0 ==> ranked(found).to_multiset() == found.to_multiset(),
        found.len() == 0 ==> ranked(found) == seq![("lo"@, false, 0u64)],
    decreases found.len(),
{
    broadcast use vstd::seq_lib::group_to_multiset_ensures;

    if found.len() > 0 {
        let dl = found.drop_last();
        assert(found =~= dl.push(found.last()));
        lemma_ranked(dl);
        if dl.len() > 0 {
            lemma_insert_by_name(sort_by_name(dl), found.last());
        } else {
            assert(sort_by_name(dl) == dl);
            lemma_insert_by_name(dl, found.last());
        }
    }
}

} // verus!
