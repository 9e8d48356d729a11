//! Prediction statistics: the pleasure/pain self-ratings reduced to
//! day-scoped entries, then summarized as counts, component sums and
//! component medians, in total and grouped by ISO week.
//!
//! Each of the four components (predicted and actual pleasure and pain) is
//! sorted independently, so the reported median quadruple need not be an
//! observed one.  The median convention takes the element at index
//! `count / 2` of the sorted series.  Means are reported as exact sums with
//! the count, for the renderer to divide.

use vstd::prelude::*;
use vstd::relations::{sorted_by, total_ordering};
use vstd::seq_lib::lemma_sorted_unique;
use crate::records::{RawEntry, RecV, opt_view, recs_view};
use crate::dates::{Date, iso_week_num, iso_week_of, iso_year_num, iso_year_of, parse_day_date, day_date_ok, date_of};
use crate::text::str_chars;
use std::borrow::ToOwned;

verus! {

// ---------------------------------------------------------------------------
// Entries
// ---------------------------------------------------------------------------

/// A prediction quadruple: predicted pleasure, predicted pain, actual
/// pleasure, actual pain.
#[derive(Clone, Copy, Debug, PartialEq, Eq, Structural)]
pub struct Prediction(pub u8, pub u8, pub u8, pub u8);

/// A clock time: hour and minute.
#[derive(Clone, Copy, Debug, PartialEq, Eq, Structural)]
pub struct Time(pub u8, pub u8);

/// One day-scoped log entry: the date in force, the entry's text, and the
/// time and prediction attached to it (to the entry preceding them in the
/// log, which the reduction tracks as the current one).
#[derive(Debug, Clone, PartialEq, Eq)]
pub struct Entry {
    pub date: String,
    pub desc: String,
    pub url: Option<String>,
    pub pred: Option<Prediction>,
    pub time: Option<Time>,
}

/// Spec-level view of an [`Entry`].
pub struct EntryV {
    pub date: Seq<char>,
    pub desc: Seq<char>,
    pub url: Option<Seq<char>>,
    pub pred: Option<Prediction>,
    pub time: Option<Time>,
}

impl View for Entry {
    type V = EntryV;

    open spec fn view(&self) -> EntryV {
        EntryV {
            date: self.date@,
            desc: self.desc@,
            url: opt_view(self.url),
            pred: self.pred,
            time: self.time,
        }
    }
}

pub open spec fn entries_view(s: Seq<Entry>) -> Seq<EntryV> {
    s.map_values(|e: Entry| e@)
}

// ---------------------------------------------------------------------------
// Reducing raw records to entries
// ---------------------------------------------------------------------------

/// The date in force before any day marker.
pub open spec fn default_date_text() -> Seq<char> {
    "2099-01-01"@
}

/// The entries emitted from position `i` on, given the date in force and
/// the entry under construction.  A day marker restarts the current entry
/// as a `New day` one; an action emits the current entry and starts a fresh
/// one carrying the action's text; times and predictions attach to the
/// current entry; everything else is dropped.  The entry still under
/// construction at the end is emitted last.
pub open spec fn rte_from(recs: Seq<RecV>, i: int, date: Seq<char>, next: EntryV) -> Seq<EntryV>
    decreases recs.len() - i,
{
    if i < 0 || i >= recs.len() {
        seq![next]
    } else {
        match recs[i] {
            RecV::NewDay(d) => rte_from(
                recs,
                i + 1,
                d,
                EntryV { date: d, desc: "New day"@, url: None, pred: None, time: None },
            ),
            RecV::Action(s) => seq![next] + rte_from(
                recs,
                i + 1,
                date,
                EntryV { date: date, desc: s, url: None, pred: None, time: None },
            ),
            RecV::Time(h, m) => rte_from(
                recs,
                i + 1,
                date,
                EntryV {
                    date: next.date,
                    desc: next.desc,
                    url: next.url,
                    pred: next.pred,
                    time: Some(Time(h, m)),
                },
            ),
            RecV::Prediction(a, b, c, d) => rte_from(
                recs,
                i + 1,
                date,
                EntryV {
                    date: next.date,
                    desc: next.desc,
                    url: next.url,
                    pred: Some(Prediction(a, b, c, d)),
                    time: next.time,
                },
            ),
            _ => rte_from(recs, i + 1, date, next),
        }
    }
}

/// The whole reduction of a record stream to entries.
pub open spec fn rte_spec(recs: Seq<RecV>) -> Seq<EntryV> {
    rte_from(
        recs,
        0,
        default_date_text(),
        EntryV {
            date: default_date_text(),
            desc: Seq::empty(),
            url: None,
            pred: None,
            time: None,
        },
    )
}

/// Reduce classified records to day-scoped entries, exactly as
/// [`rte_spec`] states.
pub fn raw_to_entries(raws: &Vec<RawEntry>) -> (r: Vec<Entry>)
    ensures
        entries_view(r@) == rte_spec(recs_view(raws@)),
{
    let ghost recs = recs_view(raws@);
    let mut date: String = "2099-01-01".to_owned();
    let mut next = Entry {
        date: date.clone(),
        desc: String::new(),
        url: None,
        pred: None,
        time: None,
    };
    let mut out: Vec<Entry> = Vec::new();
    let mut i: usize = 0;
    proof {
        assert(entries_view(out@) =~= Seq::<EntryV>::empty());
        assert(Seq::<EntryV>::empty() + rte_from(recs, 0, date@, next@) =~= rte_from(
            recs,
            0,
            date@,
            next@,
        ));
    }
    while i < raws.len()
        invariant
            i <= raws@.len(),
            recs == recs_view(raws@),
            rte_spec(recs) == entries_view(out@) + rte_from(recs, i as int, date@, next@),
        decreases raws@.len() - i,
    {
        let ghost date0 = date@;
        let ghost next0 = next@;
        assert(recs[i as int] == raws@[i as int]@);
        match &raws[i] {
            RawEntry::NewDay(d) => {
                date = d.clone();
                next = Entry {
                    date: d.clone(),
                    desc: "New day".to_owned(),
                    url: None,
                    pred: None,
                    time: None,
                };
                proof {
                    assert(rte_from(recs, i as int, date0, next0) == rte_from(
                        recs,
                        i + 1,
                        date@,
                        next@,
                    ));
                }
            },
            RawEntry::Action(s) => {
                let ghost out0 = entries_view(out@);
                let emitted = next;
                next = Entry {
                    date: date.clone(),
                    desc: s.clone(),
                    url: None,
                    pred: None,
                    time: None,
                };
                out.push(emitted);
                proof {
                    assert(entries_view(out@) =~= out0.push(next0));
                    assert(rte_from(recs, i as int, date0, next0) == seq![next0] + rte_from(
                        recs,
                        i + 1,
                        date@,
                        next@,
                    ));
                    assert(out0 + (seq![next0] + rte_from(recs, i + 1, date@, next@))
                        =~= entries_view(out@) + rte_from(recs, i + 1, date@, next@));
                }
            },
            RawEntry::Time(h, m) => {
                next.time = Some(Time(*h, *m));
                proof {
                    assert(rte_from(recs, i as int, date0, next0) == rte_from(
                        recs,
                        i + 1,
                        date@,
                        next@,
                    ));
                }
            },
            RawEntry::Prediction(a, b, c, d) => {
                next.pred = Some(Prediction(*a, *b, *c, *d));
                proof {
                    assert(rte_from(recs, i as int, date0, next0) == rte_from(
                        recs,
                        i + 1,
                        date@,
                        next@,
                    ));
                }
            },
            _ => {
                proof {
                    assert(rte_from(recs, i as int, date0, next0) == rte_from(
                        recs,
                        i + 1,
                        date@,
                        next@,
                    ));
                }
            },
        }
        i = i + 1;
    }
    let ghost out0 = entries_view(out@);
    out.push(next);
    proof {
        assert(rte_from(recs, i as int, date@, next@) == seq![next@]);
        assert(entries_view(out@) =~= out0 + seq![next@]);
    }
    out
}

// ---------------------------------------------------------------------------
// Basic statistics
// ---------------------------------------------------------------------------

/// The prediction quadruples of the entries that carry one, in order.
pub open spec fn preds_of(s: Seq<EntryV>) -> Seq<Prediction>
    decreases s.len(),
{
    if s.len() == 0 {
        Seq::empty()
    } else {
        let rest = preds_of(s.drop_last());
        match s.last().pred {
            Some(p) => rest.push(p),
            None => rest,
        }
    }
}

/// Component `k` of a quadruple: predicted pleasure, predicted pain, actual
/// pleasure, actual pain, in that order.
pub open spec fn comp_of(p: Prediction, k: int) -> u8 {
    if k == 0 {
        p.0
    } else if k == 1 {
        p.1
    } else if k == 2 {
        p.2
    } else {
        p.3
    }
}

pub open spec fn comps(ps: Seq<Prediction>, k: int) -> Seq<u8> {
    ps.map_values(|p: Prediction| comp_of(p, k))
}

pub open spec fn sum_u8s(s: Seq<u8>) -> int
    decreases s.len(),
{
    if s.len() == 0 {
        0
    } else {
        sum_u8s(s.drop_last()) + s.last() as int
    }
}

/// The one ordering the medians sort by.
pub open spec fn u8_leq() -> spec_fn(u8, u8) -> bool {
    |a: u8, b: u8| a <= b
}

/// The median of component `k`: the element at index `count / 2` of that
/// component's independently sorted series; 0 when there are no
/// predictions.
pub open spec fn median_of(ps: Seq<Prediction>, k: int) -> u8 {
    if ps.len() == 0 {
        0
    } else {
        comps(ps, k).sort_by(u8_leq())[ps.len() as int / 2]
    }
}

/// Summary of a prediction series: the count, and per component the sum
/// (for the mean) and the median.
#[derive(Clone, Copy, Debug, PartialEq, Eq, Structural)]
pub struct BasicStats {
    pub predictions: usize,
    pub med_pr_pl: u8,
    pub med_pr_pn: u8,
    pub med_ac_pl: u8,
    pub med_ac_pn: u8,
    pub sum_pr_pl: u64,
    pub sum_pr_pn: u64,
    pub sum_ac_pl: u64,
    pub sum_ac_pn: u64,
}

/// `b` is exactly the summary of the series `ps`.
pub open spec fn stats_ok(b: BasicStats, ps: Seq<Prediction>) -> bool {
    &&& b.predictions == ps.len()
    &&& b.sum_pr_pl == sum_u8s(comps(ps, 0))
    &&& b.sum_pr_pn == sum_u8s(comps(ps, 1))
    &&& b.sum_ac_pl == sum_u8s(comps(ps, 2))
    &&& b.sum_ac_pn == sum_u8s(comps(ps, 3))
    &&& b.med_pr_pl == median_of(ps, 0)
    &&& b.med_pr_pn == median_of(ps, 1)
    &&& b.med_ac_pl == median_of(ps, 2)
    &&& b.med_ac_pn == median_of(ps, 3)
}

proof fn lemma_sum_u8s_bound(s: Seq<u8>)
    ensures
        0 <= sum_u8s(s) <= 255 * s.len(),
    decreases s.len(),
{
    if s.len() > 0 {
        lemma_sum_u8s_bound(s.drop_last());
    }
}

proof fn lemma_preds_len(s: Seq<EntryV>)
    ensures
        preds_of(s).len() <= s.len(),
    decreases s.len(),
{
    if s.len() > 0 {
        lemma_preds_len(s.drop_last());
    }
}

/// Sort bytes ascending (by insertion into a fresh vector).
fn sort_u8(v: &Vec<u8>) -> (r: Vec<u8>)
    ensures
        sorted_by(r@, u8_leq()),
        r@.to_multiset() == v@.to_multiset(),
        r@.len() == v@.len(),
{
    let mut out: Vec<u8> = Vec::new();
    proof {
        assert(v@.take(0) =~= Seq::<u8>::empty());
        assert(out@.to_multiset() =~= v@.take(0).to_multiset());
    }
    let mut i: usize = 0;
    while i < v.len()
        invariant
            i <= v@.len(),
            sorted_by(out@, u8_leq()),
            out@.len() == i,
            out@.to_multiset() == v@.take(i as int).to_multiset(),
        decreases v@.len() - i,
    {
        let x = v[i];
        let mut p: usize = 0;
        while p < out.len() && out[p] <= x
            invariant
                p <= out@.len(),
                forall|k: int| 0 <= k < p ==> out@[k] <= x,
            decreases out@.len() - p,
        {
            p = p + 1;
        }
        let ghost out0 = out@;
        out.insert(p, x);
        proof {
            out0.insert_ensures(p as int, x);
            assert(out@ == out0.insert(p as int, x));
            assert forall|m: int, n: int| 0 <= m < n < out@.len() implies #[trigger] u8_leq()(
                out@[m],
                out@[n],
            ) by {
                if n < p {
                    assert(u8_leq()(out0[m], out0[n]));
                } else if m < p && n == p {
                    assert(out@[m] == out0[m]);
                } else if m < p && n > p {
                    assert(out@[n] == out0[n - 1]);
                    if n - 1 >= p {
                        if p < out0.len() {
                            assert(!(out0[p as int] <= x));
                            if n - 1 > p {
                                assert(u8_leq()(out0[p as int], out0[n - 1]));
                            }
                        }
                    }
                } else if m == p {
                    assert(out@[m] == x);
                    assert(out@[n] == out0[n - 1]);
                    assert(!(out0[p as int] <= x));
                    if n - 1 > p {
                        assert(u8_leq()(out0[p as int], out0[n - 1]));
                    }
                } else {
                    assert(out@[m] == out0[m - 1]);
                    assert(out@[n] == out0[n - 1]);
                    assert(u8_leq()(out0[m - 1], out0[n - 1]));
                }
            }
            // Multiset: inserting x adds one occurrence of x.
            let s2 = out@;
            assert(s2.remove(p as int) =~= out0);
            s2.to_multiset_ensures();
            out0.to_multiset_ensures();
            assert(s2.remove(p as int).to_multiset() =~= s2.to_multiset().remove(s2[p as int]));
            assert(s2[p as int] == x);
            assert(out0.to_multiset() == s2.to_multiset().remove(x));
            assert(s2.to_multiset().contains(x)) by {
                assert(s2.contains(x));
            }
            assert(s2.to_multiset() =~= out0.to_multiset().insert(x));
            assert(v@.take(i + 1) =~= v@.take(i as int).push(v@[i as int]));
            v@.take(i as int).to_multiset_ensures();
            assert(v@.take(i + 1).to_multiset() =~= v@.take(i as int).to_multiset().insert(
                v@[i as int],
            ));
        }
        i = i + 1;
    }
    proof {
        assert(v@.take(v@.len() as int) =~= v@);
    }
    out
}

proof fn lemma_u8_leq_total()
    ensures
        total_ordering(u8_leq()),
{
    assert forall|a: u8, b: u8| #[trigger] u8_leq()(a, b) || u8_leq()(b, a) by {}
}

/// Compute the summary of the entries in `entries[lo..hi]`.
fn basic_stats_range(entries: &Vec<Entry>, lo: usize, hi: usize) -> (r: BasicStats)
    requires
        lo <= hi <= entries@.len(),
        entries@.len() <= 0x00ff_ffff_ffff_ffff,
    ensures
        stats_ok(r, preds_of(entries_view(entries@).subrange(lo as int, hi as int))),
{
    let ghost evs = entries_view(entries@).subrange(lo as int, hi as int);
    let mut c0: Vec<u8> = Vec::new();
    let mut c1: Vec<u8> = Vec::new();
    let mut c2: Vec<u8> = Vec::new();
    let mut c3: Vec<u8> = Vec::new();
    let mut s0: u64 = 0;
    let mut s1: u64 = 0;
    let mut s2: u64 = 0;
    let mut s3: u64 = 0;
    let mut i: usize = lo;
    proof {
        assert(evs.take(0) =~= Seq::<EntryV>::empty());
        assert(c0@ =~= comps(preds_of(evs.take(0)), 0));
        assert(c1@ =~= comps(preds_of(evs.take(0)), 1));
        assert(c2@ =~= comps(preds_of(evs.take(0)), 2));
        assert(c3@ =~= comps(preds_of(evs.take(0)), 3));
    }
    while i < hi
        invariant
            lo <= i <= hi <= entries@.len(),
            entries@.len() <= 0x00ff_ffff_ffff_ffff,
            evs == entries_view(entries@).subrange(lo as int, hi as int),
            c0@ == comps(preds_of(evs.take(i - lo)), 0),
            c1@ == comps(preds_of(evs.take(i - lo)), 1),
            c2@ == comps(preds_of(evs.take(i - lo)), 2),
            c3@ == comps(preds_of(evs.take(i - lo)), 3),
            c0@.len() == preds_of(evs.take(i - lo)).len(),
            preds_of(evs.take(i - lo)).len() <= i - lo,
            s0 == sum_u8s(c0@),
            s1 == sum_u8s(c1@),
            s2 == sum_u8s(c2@),
            s3 == sum_u8s(c3@),
        decreases hi - i,
    {
        let ghost pre = evs.take(i - lo);
        let ghost pre1 = evs.take(i + 1 - lo);
        proof {
            assert(pre1.drop_last() =~= pre);
            assert(pre1.last() == evs[i - lo]);
            assert(evs[i - lo] == entries_view(entries@)[i as int]);
            assert(entries_view(entries@)[i as int] == entries@[i as int]@);
            lemma_preds_len(pre1);
            lemma_sum_u8s_bound(c0@);
            lemma_sum_u8s_bound(c1@);
            lemma_sum_u8s_bound(c2@);
            lemma_sum_u8s_bound(c3@);
        }
        let e = &entries[i];
        match &e.pred {
            Some(p) => {
                let ghost ps0 = preds_of(pre);
                let ghost pp = *p;
                c0.push(p.0);
                c1.push(p.1);
                c2.push(p.2);
                c3.push(p.3);
                s0 = s0 + (p.0 as u64);
                s1 = s1 + (p.1 as u64);
                s2 = s2 + (p.2 as u64);
                s3 = s3 + (p.3 as u64);
                proof {
                    assert(preds_of(pre1) == ps0.push(pp));
                    assert(comps(ps0.push(pp), 0) =~= comps(ps0, 0).push(pp.0));
                    assert(comps(ps0.push(pp), 1) =~= comps(ps0, 1).push(pp.1));
                    assert(comps(ps0.push(pp), 2) =~= comps(ps0, 2).push(pp.2));
                    assert(comps(ps0.push(pp), 3) =~= comps(ps0, 3).push(pp.3));
                    assert(c0@.drop_last() =~= comps(ps0, 0));
                    assert(c1@.drop_last() =~= comps(ps0, 1));
                    assert(c2@.drop_last() =~= comps(ps0, 2));
                    assert(c3@.drop_last() =~= comps(ps0, 3));
                }
            },
            None => {
                proof {
                    assert(preds_of(pre1) == preds_of(pre));
                }
            },
        }
        i = i + 1;
    }
    proof {
        assert(evs.take(hi - lo) =~= evs);
    }
    let count = c0.len();
    if count == 0 {
        let r = BasicStats {
            predictions: 0,
            med_pr_pl: 0,
            med_pr_pn: 0,
            med_ac_pl: 0,
            med_ac_pn: 0,
            sum_pr_pl: 0,
            sum_pr_pn: 0,
            sum_ac_pl: 0,
            sum_ac_pn: 0,
        };
        proof {
            assert(preds_of(evs).len() == 0);
        }
        return r;
    }
    let m0 = sort_u8(&c0);
    let m1 = sort_u8(&c1);
    let m2 = sort_u8(&c2);
    let m3 = sort_u8(&c3);
    let ghost ps = preds_of(evs);
    proof {
        lemma_u8_leq_total();
        comps(ps, 0).lemma_sort_by_ensures(u8_leq());
        comps(ps, 1).lemma_sort_by_ensures(u8_leq());
        comps(ps, 2).lemma_sort_by_ensures(u8_leq());
        comps(ps, 3).lemma_sort_by_ensures(u8_leq());
        lemma_sorted_unique(m0@, comps(ps, 0).sort_by(u8_leq()), u8_leq());
        lemma_sorted_unique(m1@, comps(ps, 1).sort_by(u8_leq()), u8_leq());
        lemma_sorted_unique(m2@, comps(ps, 2).sort_by(u8_leq()), u8_leq());
        lemma_sorted_unique(m3@, comps(ps, 3).sort_by(u8_leq()), u8_leq());
        assert(m0@ == comps(ps, 0).sort_by(u8_leq()));
        assert(m1@ == comps(ps, 1).sort_by(u8_leq()));
        assert(m2@ == comps(ps, 2).sort_by(u8_leq()));
        assert(m3@ == comps(ps, 3).sort_by(u8_leq()));
        assert(m0@.len() == c0@.len() && m1@.len() == c1@.len() && m2@.len() == c2@.len()
            && m3@.len() == c3@.len());
        assert(c0@.len() == ps.len());
        assert(ps.len() == count);
    }
    let med = count / 2;
    assert(med < count);
    BasicStats {
        predictions: count,
        med_pr_pl: m0[med],
        med_pr_pn: m1[med],
        med_ac_pl: m2[med],
        med_ac_pn: m3[med],
        sum_pr_pl: s0,
        sum_pr_pn: s1,
        sum_ac_pl: s2,
        sum_ac_pn: s3,
    }
}

/// Compute the summary of a whole entry list.
///
/// The bound on the entry count is a machine limit: it keeps every
/// component sum within `u64`.
pub fn basic_stats(entries: &Vec<Entry>) -> (r: BasicStats)
    requires
        entries@.len() <= 0x00ff_ffff_ffff_ffff,
    ensures
        stats_ok(r, preds_of(entries_view(entries@))),
{
    let n = entries.len();
    let r = basic_stats_range(entries, 0, n);
    proof {
        assert(entries_view(entries@).subrange(0, n as int) =~= entries_view(entries@));
    }
    r
}

// ---------------------------------------------------------------------------
// Weekly statistics
// ---------------------------------------------------------------------------

/// A week label: the ISO 8601 week-based year and week number.  Near a
/// turn of the year the week-based year can differ from the calendar year
/// by one.
#[derive(Clone, Copy, Debug, PartialEq, Eq, Structural)]
pub struct WeekId {
    pub year: i32,
    pub week: u32,
}

/// The week of a date text: parsed as `YYYY-MM-DD` when possible, else the
/// given fallback date stands in (the deliberately permissive policy of the
/// weekly aggregation).
pub open spec fn week_of_spec(s: Seq<char>, fallback: Date) -> WeekId {
    let d = if day_date_ok(s) {
        date_of(s)
    } else {
        fallback
    };
    WeekId {
        year: iso_year_num(d.year as int, d.month as int, d.day as int) as i32,
        week: iso_week_num(d.year as int, d.month as int, d.day as int) as u32,
    }
}

/// The week an entry's date falls in.
pub fn week_of(date: &str, fallback: Date) -> (r: WeekId)
    requires
        fallback.wf(),
    ensures
        r == week_of_spec(date@, fallback),
{
    let v = str_chars(date);
    let d = match parse_day_date(&v) {
        Some(d) => d,
        None => fallback,
    };
    let wy = iso_year_of(&d);
    let w = iso_week_of(&d);
    WeekId { year: wy, week: w }
}

pub open spec fn entry_week(e: EntryV, fb: Date) -> WeekId {
    week_of_spec(e.date, fb)
}

/// First index at or after `i` whose entry's week differs from `w`, or the
/// length.
pub open spec fn run_end(s: Seq<EntryV>, fb: Date, i: int, w: WeekId) -> int
    decreases s.len() - i,
{
    if 0 <= i < s.len() {
        if entry_week(s[i], fb) == w {
            run_end(s, fb, i + 1, w)
        } else {
            i
        }
    } else {
        s.len() as int
    }
}

/// The contiguous same-week runs from index `i` on, as half-open index
/// pairs, in order of appearance.
pub open spec fn week_runs(s: Seq<EntryV>, fb: Date, i: int) -> Seq<(int, int)>
    decreases s.len() - i,
{
    if i < 0 || i >= s.len() {
        Seq::empty()
    } else {
        let j = run_end(s, fb, i + 1, entry_week(s[i], fb));
        if j <= i || j > s.len() {
            Seq::empty()
        } else {
            seq![(i, j)] + week_runs(s, fb, j)
        }
    }
}

pub proof fn lemma_run_end_bounds(s: Seq<EntryV>, fb: Date, i: int, w: WeekId)
    requires
        0 <= i <= s.len(),
    ensures
        i <= run_end(s, fb, i, w) <= s.len(),
        forall|k: int| i <= k < run_end(s, fb, i, w) ==> entry_week(#[trigger] s[k], fb) == w,
        run_end(s, fb, i, w) < s.len() ==> entry_week(s[run_end(s, fb, i, w)], fb) != w,
    decreases s.len() - i,
{
    if i < s.len() && entry_week(s[i], fb) == w {
        lemma_run_end_bounds(s, fb, i + 1, w);
    }
}

/// One week's summary.
#[derive(Clone, Copy, Debug, PartialEq, Eq, Structural)]
pub struct WeeklyStats {
    pub week: WeekId,
    pub stats: BasicStats,
}

/// `w` is the summary of the run `run` of `evs`.
pub open spec fn stats_match(w: WeeklyStats, evs: Seq<EntryV>, fb: Date, run: (int, int)) -> bool {
    &&& 0 <= run.0 < run.1 <= evs.len()
    &&& w.week == entry_week(evs[run.0], fb)
    &&& stats_ok(w.stats, preds_of(evs.subrange(run.0, run.1)))
}

/// Summaries of the contiguous same-week runs, in order of appearance (the
/// log runs newest-first, so the newest week comes first).
pub fn weekly_stats(entries: &Vec<Entry>, fallback: Date) -> (r: Vec<WeeklyStats>)
    requires
        fallback.wf(),
        entries@.len() <= 0x00ff_ffff_ffff_ffff,
    ensures
        ({
            let evs = entries_view(entries@);
            let runs = week_runs(evs, fallback, 0);
            r@.len() == runs.len() && (forall|t: int|
                0 <= t < runs.len() ==> stats_match(r@[t], evs, fallback, #[trigger] runs[t]))
        }),
{
    let ghost evs = entries_view(entries@);
    let ghost runs = week_runs(evs, fallback, 0);
    let mut out: Vec<WeeklyStats> = Vec::new();
    let mut i: usize = 0;
    proof {
        assert(runs.take(0) =~= Seq::<(int, int)>::empty());
        assert(runs.take(0) + week_runs(evs, fallback, 0) =~= runs);
    }
    while i < entries.len()
        invariant
            i <= entries@.len(),
            entries@.len() <= 0x00ff_ffff_ffff_ffff,
            fallback.wf(),
            evs == entries_view(entries@),
            runs == week_runs(evs, fallback, 0),
            out@.len() <= runs.len(),
            runs =~= runs.take(out@.len() as int) + week_runs(evs, fallback, i as int),
            forall|t: int| 0 <= t < out@.len() ==> stats_match(
                out@[t],
                evs,
                fallback,
                #[trigger] runs[t],
            ),
        decreases entries@.len() - i,
    {
        assert(evs[i as int] == entries@[i as int]@);
        let w = week_of(entries[i].date.as_str(), fallback);
        let ghost wk = entry_week(evs[i as int], fallback);
        assert(w == wk);
        proof {
            lemma_run_end_bounds(evs, fallback, i + 1, wk);
        }
        let mut j: usize = i + 1;
        loop
            invariant
                i + 1 <= j <= entries@.len(),
                fallback.wf(),
                evs == entries_view(entries@),
                w == wk,
                run_end(evs, fallback, i + 1, wk) == run_end(evs, fallback, j as int, wk),
            ensures
                i + 1 <= j <= entries@.len(),
                run_end(evs, fallback, i + 1, wk) == j as int,
            decreases entries@.len() - j,
        {
            if j == entries.len() {
                assert(run_end(evs, fallback, j as int, wk) == j as int);
                break;
            }
            assert(evs[j as int] == entries@[j as int]@);
            let wj = week_of(entries[j].date.as_str(), fallback);
            if wj != w {
                assert(run_end(evs, fallback, j as int, wk) == j as int);
                break;
            }
            j = j + 1;
        }
        let st = basic_stats_range(entries, i, j);
        let ghost out0 = out@;
        let ghost n0 = out@.len() as int;
        out.push(WeeklyStats { week: w, stats: st });
        proof {
            assert(week_runs(evs, fallback, i as int) == seq![(i as int, j as int)] + week_runs(
                evs,
                fallback,
                j as int,
            ));
            assert(runs[n0] == (i as int, j as int));
            assert(evs.subrange(i as int, j as int) =~= entries_view(entries@).subrange(
                i as int,
                j as int,
            ));
            assert(stats_match(out@[n0], evs, fallback, runs[n0]));
            assert(runs.take(n0 + 1) =~= runs.take(n0).push(runs[n0]));
            assert(runs.take(n0) + (seq![(i as int, j as int)] + week_runs(evs, fallback, j as int))
                =~= runs.take(n0 + 1) + week_runs(evs, fallback, j as int));
        }
        i = j;
    }
    proof {
        assert(week_runs(evs, fallback, i as int) =~= Seq::<(int, int)>::empty());
        assert(runs =~= runs.take(out@.len() as int));
        assert(runs.len() == out@.len());
    }
    out
}

// ---------------------------------------------------------------------------
// The whole analysis
// ---------------------------------------------------------------------------

/// The prediction analysis: totals over all entries and per-week summaries.
#[derive(Debug, Clone, PartialEq, Eq)]
pub struct PredictionReport {
    pub totals: BasicStats,
    pub weekly: Vec<WeeklyStats>,
}

/// Analyze the prediction accuracy of a list of entries: the total summary
/// and the per-week summaries, newest week first.
pub fn analyze_prediction(entries: &Vec<Entry>, fallback: Date) -> (r: PredictionReport)
    requires
        fallback.wf(),
        entries@.len() <= 0x00ff_ffff_ffff_ffff,
    ensures
        stats_ok(r.totals, preds_of(entries_view(entries@))),
        ({
            let evs = entries_view(entries@);
            let runs = week_runs(evs, fallback, 0);
            r.weekly@.len() == runs.len() && (forall|t: int|
                0 <= t < runs.len() ==> stats_match(
                    r.weekly@[t],
                    evs,
                    fallback,
                    #[trigger] runs[t],
                ))
        }),
{
    let totals = basic_stats(entries);
    let weekly = weekly_stats(entries, fallback);
    PredictionReport { totals, weekly }
}

} // verus!
