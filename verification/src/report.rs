//! Reports over stored positions: stops (runs without motion), trips (runs
//! with motion) and per-device totals.

use vstd::prelude::*;

use crate::json::{as_bool, as_i64, json_at, json_bool, json_i64, JsonDocument};

verus! {

/// A run of positions that share a motion flag: the index of its first
/// position, and the index of the first later position whose flag differs,
/// if there is one.
#[derive(Debug, Clone, Copy, PartialEq, Eq, Structural)]
pub struct Span {
    pub start: usize,
    pub end: Option<usize>,
}

pub open spec fn opt_int(o: Option<usize>) -> Option<int> {
    match o {
        Some(v) => Some(v as int),
        None => None,
    }
}

/// Index `i` begins a run of `value`: its flag is `value` and the flag
/// before it, if any, is not.
pub open spec fn run_start(m: Seq<bool>, value: bool, i: int) -> bool {
    0 <= i < m.len() && m[i] == value && (i == 0 || m[i - 1] != value)
}

/// The first index from `i` on whose flag is not `value`.
pub open spec fn run_end(m: Seq<bool>, value: bool, i: int) -> Option<int>
    decreases m.len() - i,
{
    if !(0 <= i < m.len()) {
        None
    } else if m[i] != value {
        Some(i)
    } else {
        run_end(m, value, i + 1)
    }
}

/// The spans are exactly the runs of `value`, in order, each with the index
/// where it ends; without `with_open`, only the runs that do end.
pub open spec fn are_runs(m: Seq<bool>, value: bool, with_open: bool, r: Seq<Span>) -> bool {
    &&& forall|k: int|
        0 <= k < r.len() ==> run_start(m, value, r[k].start as int) && opt_int(r[k].end)
            == run_end(m, value, r[k].start as int)
    &&& !with_open ==> forall|k: int| 0 <= k < r.len() ==> r[k].end is Some
    &&& forall|k1: int, k2: int| 0 <= k1 < k2 < r.len() ==> r[k1].start < r[k2].start
    &&& forall|i: int|
        run_start(m, value, i) && (with_open || run_end(m, value, i) is Some) ==> exists|k: int|
            0 <= k < r.len() && r[k].start == i
}

proof fn lemma_run_end_skip(m: Seq<bool>, value: bool, s: int, n: int)
    requires
        0 <= s <= n <= m.len(),
        forall|j: int| s <= j < n ==> m[j] == value,
    ensures
        run_end(m, value, s) == run_end(m, value, n),
    decreases n - s,
{
    if s < n {
        lemma_run_end_skip(m, value, s + 1, n);
    }
}

proof fn lemma_run_end_props(m: Seq<bool>, value: bool, i: int)
    requires
        0 <= i,
    ensures
        run_end(m, value, i) matches Some(e) ==> i <= e < m.len() && m[e] != value && forall|j: int|
            i <= j < e ==> m[j] == value,
        run_end(m, value, i) is None ==> forall|j: int| i <= j < m.len() ==> m[j] == value,
    decreases m.len() - i,
{
    if i < m.len() && m[i] == value {
        lemma_run_end_props(m, value, i + 1);
    }
}

/// Where the run holding position `i` began.
pub open spec fn run_begin(m: Seq<bool>, value: bool, i: int) -> int
    decreases i,
{
    if i <= 0 || m[i - 1] != value {
        i
    } else {
        run_begin(m, value, i - 1)
    }
}

proof fn lemma_run_begin(m: Seq<bool>, value: bool, i: int)
    requires
        0 <= i < m.len(),
        m[i] == value,
    ensures
        run_start(m, value, run_begin(m, value, i)),
        run_begin(m, value, i) <= i,
        forall|j: int| run_begin(m, value, i) <= j <= i ==> m[j] == value,
    decreases i,
{
    if i > 0 && m[i - 1] == value {
        lemma_run_begin(m, value, i - 1);
    }
}

/// The run that span `k` stands for holds position `i`.
pub open spec fn span_holds(r: Seq<Span>, k: int, i: int) -> bool {
    0 <= k < r.len() && r[k].start <= i && (r[k].end is None || i < r[k].end.unwrap())
}

/// Runs cover their flag: every position whose flag is `value` lies in
/// exactly one of the runs (for stops, every position without motion lies
/// in exactly one stop).
pub proof fn lemma_runs_cover(m: Seq<bool>, value: bool, r: Seq<Span>, i: int)
    requires
        are_runs(m, value, true, r),
        0 <= i < m.len(),
        m[i] == value,
    ensures
        exists|k: int| span_holds(r, k, i),
        forall|k1: int, k2: int| span_holds(r, k1, i) && span_holds(r, k2, i) ==> k1 == k2,
{
    lemma_run_begin(m, value, i);
    let s = run_begin(m, value, i);
    let k = choose|k: int| 0 <= k < r.len() && r[k].start == s;
    lemma_run_end_skip(m, value, s, i);
    lemma_run_end_props(m, value, i);
    assert(span_holds(r, k, i));
    assert forall|k1: int, k2: int| span_holds(r, k1, i) && span_holds(r, k2, i) implies k1
        == k2 by {
        if k1 != k2 {
            let (a, b) = if r[k1].start < r[k2].start {
                (k1, k2)
            } else {
                (k2, k1)
            };
            if r[k1].start == r[k2].start {
                if k1 < k2 {
                    assert(r[k1].start < r[k2].start);
                } else {
                    assert(r[k2].start < r[k1].start);
                }
            }
            let sa = r[a].start as int;
            let sb = r[b].start as int;
            assert(run_start(m, value, sb));
            lemma_run_end_props(m, value, sa);
            assert(m[sb - 1] != value);
            assert(sa <= sb - 1 < i);
        }
    }
}

/// The runs of positions whose flag is `value`; the last one also when it
/// lasts to the end, if `with_open`.
fn flag_runs(flags: &Vec<bool>, value: bool, with_open: bool) -> (r: Vec<Span>)
    ensures
        are_runs(flags@, value, with_open, r@),
{
    let ghost m = flags@;
    let mut r: Vec<Span> = Vec::new();
    let mut open: Option<usize> = None;
    let mut n: usize = 0;
    while n < flags.len()
        invariant
            m == flags@,
            n <= m.len(),
            forall|k: int|
                0 <= k < r@.len() ==> run_start(m, value, r@[k].start as int) && r@[k].end
                    is Some && r@[k].end.unwrap() < n && opt_int(r@[k].end) == run_end(
                    m,
                    value,
                    r@[k].start as int,
                ),
            forall|k1: int, k2: int|
                0 <= k1 < k2 < r@.len() ==> r@[k1].start < r@[k2].start,
            forall|k: int| 0 <= k < r@.len() ==> r@[k].start < n,
            open matches Some(s) ==> forall|k: int| 0 <= k < r@.len() ==> r@[k].start < s,
            forall|i: int|
                0 <= i < n && run_start(m, value, i) ==> (exists|k: int|
                    0 <= k < r@.len() && r@[k].start == i) || open == Some(i as usize),
            open matches Some(s) ==> run_start(m, value, s as int) && s < n && forall|j: int|
                s <= j < n ==> m[j] == value,
            open is None ==> n == 0 || m[n - 1] != value,
        decreases flags.len() - n,
    {
        let f = flags[n];
        if f == value {
            if open.is_none() {
                open = Some(n);
            }
        } else {
            match open {
                Some(s) => {
                    proof {
                        lemma_run_end_skip(m, value, s as int, n as int);
                    }
                    let ghost before = r@;
                    r.push(Span { start: s, end: Some(n) });
                    proof {
                        assert forall|i: int|
                            0 <= i < n + 1 && run_start(m, value, i) implies exists|k: int|
                            0 <= k < r@.len() && r@[k].start == i by {
                            if i == s {
                                assert(r@[before.len() as int].start == i);
                            } else if i < n {
                                let k = choose|k: int| 0 <= k < before.len() && before[k].start == i;
                                assert(r@[k].start == i);
                            }
                        }
                    }
                    open = None;
                },
                None => {},
            }
        }
        n = n + 1;
    }
    if let Some(s) = open {
        proof {
            lemma_run_end_skip(m, value, s as int, m.len() as int);
        }
        if with_open {
            let ghost before = r@;
            r.push(Span { start: s, end: None });
            proof {
                assert forall|i: int| run_start(m, value, i) implies exists|k: int|
                    0 <= k < r@.len() && r@[k].start == i by {
                    if i == s {
                        assert(r@[before.len() as int].start == i);
                    } else {
                        let k = choose|k: int| 0 <= k < before.len() && before[k].start == i;
                        assert(r@[k].start == i);
                    }
                }
            }
        } else {
            proof {
                assert forall|i: int| run_start(m, value, i) && run_end(m, value, i) is Some implies exists|k: int|
                    0 <= k < r@.len() && r@[k].start == i by {
                    if i != s {
                        let k = choose|k: int| 0 <= k < r@.len() && r@[k].start == i;
                        assert(r@[k].start == i);
                    }
                }
            }
        }
    }
    r
}

/// Stops: the runs of positions without motion. A stop ends at the first
/// moving position after it; one still open at the end of the positions
/// lasts to the end of the requested range.
pub fn stop_spans(motion: &Vec<bool>) -> (r: Vec<Span>)
    ensures
        are_runs(motion@, false, true, r@),
{
    flag_runs(motion, false, true)
}

/// Trips: the runs of positions in motion, each ending at the first position
/// without motion after it; a trip still under way at the end of the
/// positions is left out.
pub fn trip_spans(motion: &Vec<bool>) -> (r: Vec<Span>)
    ensures
        are_runs(motion@, true, false, r@),
{
    flag_runs(motion, true, false)
}

/// The path `attributes.<key>` in a stored position.
pub open spec fn attr_path(key: Seq<char>) -> Seq<Seq<char>> {
    seq!["attributes"@, key]
}

fn attribute_path(key: &'static str) -> (p: Vec<&'static str>)
    ensures
        p@.map_values(|s: &str| s@) == attr_path(key@),
{
    let p = vec!["attributes", key];
    assert(p@.map_values(|s: &str| s@) =~= attr_path(key@));
    p
}

/// Whether a stored position was in motion: its `attributes.motion` when
/// that is a boolean, otherwise not.
pub open spec fn motion_of(pos: JsonDocument) -> bool {
    match json_bool(json_at(pos.entries@, attr_path("motion"@))) {
        Some(b) => b,
        None => false,
    }
}

/// The engine hours a stored position adds: its `attributes.hours` when that
/// is an integer, otherwise 0.
pub open spec fn hours_of(pos: JsonDocument) -> int {
    match json_i64(json_at(pos.entries@, attr_path("hours"@))) {
        Some(h) => h as int,
        None => 0,
    }
}

pub open spec fn hours_sum(ps: Seq<JsonDocument>) -> int
    decreases ps.len(),
{
    if ps.len() == 0 {
        0
    } else {
        hours_sum(ps.drop_last()) + hours_of(ps.last())
    }
}

/// Every running total of the engine hours fits in 64 bits.
pub open spec fn hours_fit(ps: Seq<JsonDocument>) -> bool {
    forall|k: int|
        0 <= k <= ps.len() ==> i64::MIN <= #[trigger] hours_sum(ps.take(k)) <= i64::MAX
}

pub fn position_motion(pos: &JsonDocument) -> (b: bool)
    ensures
        b == motion_of(*pos),
{
    let path = attribute_path("motion");
    match as_bool(pos.at(&path)) {
        Some(b) => b,
        None => false,
    }
}

fn position_hours(pos: &JsonDocument) -> (h: i64)
    ensures
        h == hours_of(*pos),
{
    let path = attribute_path("hours");
    match as_i64(pos.at(&path)) {
        Some(h) => h,
        None => 0,
    }
}

/// The motion flag of each position, in order.
pub fn motion_flags(positions: &Vec<JsonDocument>) -> (r: Vec<bool>)
    ensures
        r@ == positions@.map_values(|p: JsonDocument| motion_of(p)),
{
    let mut r: Vec<bool> = Vec::new();
    let mut i: usize = 0;
    while i < positions.len()
        invariant
            i <= positions@.len(),
            r@ == positions@.take(i as int).map_values(|p: JsonDocument| motion_of(p)),
        decreases positions.len() - i,
    {
        r.push(position_motion(&positions[i]));
        i = i + 1;
        assert(r@ =~= positions@.take(i as int).map_values(|p: JsonDocument| motion_of(p)));
    }
    assert(positions@.take(i as int) =~= positions@);
    r
}

/// The engine hours of the positions added up; none where a running total
/// leaves the 64-bit range.
pub fn engine_hours_total(positions: &Vec<JsonDocument>) -> (r: Option<i64>)
    ensures
        match r {
            Some(t) => hours_fit(positions@) && t == hours_sum(positions@),
            None => !hours_fit(positions@),
        },
{
    let ghost ps = positions@;
    let mut total: i64 = 0;
    let mut i: usize = 0;
    assert(ps.take(0) =~= Seq::<JsonDocument>::empty());
    while i < positions.len()
        invariant
            ps == positions@,
            i <= ps.len(),
            total == hours_sum(ps.take(i as int)),
            forall|k: int| 0 <= k <= i ==> i64::MIN <= #[trigger] hours_sum(ps.take(k)) <= i64::MAX,
        decreases positions.len() - i,
    {
        let h = position_hours(&positions[i]);
        assert(ps.take(i + 1).drop_last() =~= ps.take(i as int));
        assert(ps.take(i + 1).last() == ps[i as int]);
        match total.checked_add(h) {
            Some(t) => {
                total = t;
            },
            None => {
                assert(!(i64::MIN <= hours_sum(ps.take(i + 1)) <= i64::MAX));
                return None;
            },
        }
        i = i + 1;
    }
    assert(ps.take(i as int) =~= ps);
    Some(total)
}

/// What a summary report gives for one device, apart from distances and
/// speeds.
#[derive(Debug, Clone, Copy, PartialEq, Eq, Structural)]
pub struct SummaryTotals {
    pub device_id: i64,
    pub engine_hours: i64,
    pub position_count: usize,
}

/// The totals for one device over its positions; none where the engine
/// hours overflow.
pub fn summary_totals(device_id: i64, positions: &Vec<JsonDocument>) -> (r: Option<SummaryTotals>)
    ensures
        match r {
            Some(t) => hours_fit(positions@) && t.device_id == device_id && t.engine_hours
                == hours_sum(positions@) && t.position_count == positions@.len(),
            None => !hours_fit(positions@),
        },
{
    match engine_hours_total(positions) {
        Some(h) => Some(SummaryTotals { device_id, engine_hours: h, position_count: positions.len() }),
        None => None,
    }
}

} // verus!
