use vstd::prelude::*;
use crate::civil::Stamp;
use crate::clock::{decimal, decimal_text, now_local, display_text, display_text_spec, elapsed_text, elapsed_text_of, round_to_minute};
use crate::entry::{DoseEntry, EntryView};

verus! {

broadcast use vstd::seq_lib::group_to_multiset_ensures;

/// Which entries a listing shows.
#[derive(Clone, Copy, Debug, PartialEq, Eq, Structural)]
pub enum ListMode {
    /// Every stored entry.
    All,
    /// The entries of the last 24 hours.
    TwentyFourHours,
}

impl ListMode {
    /// The word that selects this mode on the command line.
    pub open spec fn token_spec(self) -> Seq<char> {
        match self {
            ListMode::All => seq!['a', 'l', 'l'],
            ListMode::TwentyFourHours => seq!['2', '4', 'h'],
        }
    }

    pub fn token(&self) -> (r: &'static str)
        ensures
            r@ == self.token_spec(),
    {
        proof {
            reveal_strlit("all");
            reveal_strlit("24h");
        }
        match self {
            ListMode::All => "all",
            ListMode::TwentyFourHours => "24h",
        }
    }

    /// The earliest time that a listing in this mode shows at the moment
    /// `now`; `None` where there is no lower bound. The bound is inclusive.
    pub open spec fn window_start(self, now: Stamp) -> Option<Stamp> {
        match self {
            ListMode::All => None,
            ListMode::TwentyFourHours => now.day_before_spec(),
        }
    }
}

pub open spec fn in_window(start: Option<Stamp>, t: Stamp) -> bool {
    match start {
        Some(s) => s.not_after(t),
        None => true,
    }
}

pub open spec fn views(v: Seq<DoseEntry>) -> Seq<EntryView> {
    v.map_values(|e: DoseEntry| e@)
}

/// The entries of `s` that lie in the window starting at `start`, in the
/// order of `s`.
pub open spec fn kept(s: Seq<EntryView>, start: Option<Stamp>) -> Seq<EntryView>
    decreases s.len(),
{
    if s.len() == 0 {
        s
    } else {
        let k = kept(s.drop_last(), start);
        if in_window(start, s.last().time_taken) {
            k.push(s.last())
        } else {
            k
        }
    }
}

/// Each entry is not later than the next one.
pub open spec fn chronological(s: Seq<EntryView>) -> bool {
    forall|i: int| 0 <= i < s.len() - 1 ==> (#[trigger] s[i]).time_taken.not_after(s[i + 1].time_taken)
}

/// With no lower bound every entry is kept.
pub proof fn lemma_kept_unbounded(s: Seq<EntryView>)
    ensures
        kept(s, None) == s,
    decreases s.len(),
{
    if s.len() > 0 {
        lemma_kept_unbounded(s.drop_last());
        assert(s.drop_last().push(s.last()) =~= s);
    }
}

fn window_start(mode: ListMode, now: &Stamp) -> (r: Option<Stamp>)
    requires
        now.wf(),
    ensures
        r == mode.window_start(*now),
{
    match mode {
        ListMode::All => None,
        ListMode::TwentyFourHours => now.day_before(),
    }
}

/// The entries that a listing in `mode` shows at the moment `now`, in the
/// order of `entries`.
pub fn window_entries(entries: &Vec<DoseEntry>, mode: ListMode, now: &Stamp) -> (r: Vec<DoseEntry>)
    requires
        now.wf(),
    ensures
        views(r@) == kept(views(entries@), mode.window_start(*now)),
        forall|i: int| 0 <= i < r.len() ==> in_window(mode.window_start(*now), #[trigger] r@[i].time_taken),
{
    let start = window_start(mode, now);
    let ghost all = views(entries@);
    let mut pool: Vec<DoseEntry> = Vec::new();
    let mut i: usize = 0;
    while i < entries.len()
        invariant
            i <= entries.len(),
            all == views(entries@),
            views(pool@) == kept(all.subrange(0, i as int), start),
            forall|j: int| 0 <= j < pool.len() ==> in_window(start, #[trigger] pool@[j].time_taken),
        decreases entries.len() - i,
    {
        let e = &entries[i];
        let keep = match &start {
            Some(s) => s.is_not_after(&e.time_taken),
            None => true,
        };
        let ghost before = pool@;
        if keep {
            pool.push(e.copy());
            assert(views(pool@) =~= views(before).push(e@));
        }
        assert(all.subrange(0, i + 1).drop_last() =~= all.subrange(0, i as int));
        assert(all.subrange(0, i + 1).last() == e@);
        i += 1;
    }
    assert(all.subrange(0, entries.len() as int) =~= all);
    pool
}

/// The entries that a listing in `mode` shows at the moment `now`, oldest
/// first.
pub fn select_entries(entries: &Vec<DoseEntry>, mode: ListMode, now: &Stamp) -> (r: Vec<DoseEntry>)
    requires
        now.wf(),
    ensures
        chronological(views(r@)),
        views(r@).to_multiset() == kept(views(entries@), mode.window_start(*now)).to_multiset(),
        forall|i: int| 0 <= i < r.len() ==> in_window(mode.window_start(*now), #[trigger] r@[i].time_taken),
        mode == ListMode::All ==> views(r@).to_multiset() == views(entries@).to_multiset(),
{
    let start = window_start(mode, now);
    let ghost all = views(entries@);
    let mut pool = window_entries(entries, mode, now);
    let ghost total = views(pool@).to_multiset();
    let mut out: Vec<DoseEntry> = Vec::new();
    while pool.len() > 0
        invariant
            views(out@).to_multiset().add(views(pool@).to_multiset()) == total,
            chronological(views(out@)),
            out.len() > 0 ==> forall|j: int|
                0 <= j < pool.len() ==> out@.last().time_taken.not_after(#[trigger] pool@[j].time_taken),
            forall|j: int| 0 <= j < pool.len() ==> in_window(start, #[trigger] pool@[j].time_taken),
            forall|j: int| 0 <= j < out.len() ==> in_window(start, #[trigger] out@[j].time_taken),
        decreases pool.len(),
    {
        let mut m: usize = 0;
        let mut j: usize = 1;
        while j < pool.len()
            invariant
                1 <= j <= pool.len(),
                m < j,
                forall|k: int| 0 <= k < j ==> pool@[m as int].time_taken.not_after(#[trigger] pool@[k].time_taken),
            decreases pool.len() - j,
        {
            if !pool[m].time_taken.is_not_after(&pool[j].time_taken) {
                m = j;
            }
            j += 1;
        }
        let ghost old_pool = pool@;
        let ghost old_out = out@;
        let x = pool.remove(m);
        assert(views(pool@) =~= views(old_pool).remove(m as int));
        out.push(x);
        assert(views(out@) =~= views(old_out).push(x@));
        assert(views(out@).to_multiset().add(views(pool@).to_multiset()) =~= total);
        assert forall|k: int| 0 <= k < pool.len() implies out@.last().time_taken.not_after(
            #[trigger] pool@[k].time_taken) by {
            if k < m {
                assert(pool@[k] == old_pool[k]);
            } else {
                assert(pool@[k] == old_pool[k + 1]);
            }
        }
    }
    proof {
        if mode == ListMode::All {
            lemma_kept_unbounded(all);
        }
    }
    out
}

/// The sum of the dosages of the entries of `s` named `name`.
pub open spec fn total_for(s: Seq<EntryView>, name: Seq<char>) -> nat
    decreases s.len(),
{
    if s.len() == 0 {
        0
    } else {
        total_for(s.drop_last(), name) + if s.last().name == name {
            s.last().dosage
        } else {
            0
        }
    }
}

proof fn lemma_total_bound(s: Seq<EntryView>, name: Seq<char>)
    requires
        forall|i: int| 0 <= i < s.len() ==> (#[trigger] s[i]).dosage <= u32::MAX,
    ensures
        total_for(s, name) <= s.len() * (u32::MAX as nat),
    decreases s.len(),
{
    if s.len() > 0 {
        lemma_total_bound(s.drop_last(), name);
        assert(s.last() == s[s.len() - 1]);
    }
}

/// How much of one medicine was taken.
#[derive(Debug)]
pub struct Total {
    pub name: String,
    pub amount: u64,
}

proof fn lemma_total_absent(s: Seq<EntryView>, name: Seq<char>)
    requires
        forall|k: int| 0 <= k < s.len() ==> (#[trigger] s[k]).name != name,
    ensures
        total_for(s, name) == 0,
    decreases s.len(),
{
    if s.len() > 0 {
        lemma_total_absent(s.drop_last(), name);
        assert(s.last() == s[s.len() - 1]);
    }
}

proof fn lemma_total_step(all: Seq<EntryView>, i: int)
    requires
        0 <= i < all.len(),
    ensures
        forall|n: Seq<char>| #[trigger] total_for(all.subrange(0, i + 1), n) == total_for(all.subrange(0, i), n) + if all[i].name == n {
            all[i].dosage
        } else {
            0
        },
{
    assert(all.subrange(0, i + 1).drop_last() =~= all.subrange(0, i));
    assert(all.subrange(0, i + 1).last() == all[i]);
}

/// The names of the totals.
pub open spec fn total_names(r: Seq<Total>) -> Set<Seq<char>> {
    r.map_values(|t: Total| t.name@).to_set()
}

/// The names of the entries.
pub open spec fn entry_names(s: Seq<EntryView>) -> Set<Seq<char>> {
    s.map_values(|e: EntryView| e.name).to_set()
}

proof fn lemma_same_elements(a: Seq<Seq<char>>, b: Seq<Seq<char>>, pos: Seq<int>, src: Seq<int>)
    requires
        pos.len() == b.len(),
        src.len() == a.len(),
        forall|k: int| 0 <= k < b.len() ==> 0 <= #[trigger] pos[k] < a.len() && a[pos[k]] == b[k],
        forall|j: int| 0 <= j < a.len() ==> 0 <= #[trigger] src[j] < b.len() && b[src[j]] == a[j],
    ensures
        a.to_set() == b.to_set(),
{
    assert forall|x: Seq<char>| a.contains(x) implies b.contains(x) by {
        let j = choose|j: int| 0 <= j < a.len() && a[j] == x;
        assert(b[src[j]] == x);
    }
    assert forall|x: Seq<char>| b.contains(x) implies a.contains(x) by {
        let k = choose|k: int| 0 <= k < b.len() && b[k] == x;
        assert(a[pos[k]] == x);
    }
    assert(a.to_set() =~= b.to_set());
}

/// One total for each distinct name in `entries` (names compared exactly),
/// each the sum of the dosages of the entries of that name.
#[verifier::rlimit(30)]
pub fn dosage_totals(entries: &Vec<DoseEntry>) -> (r: Vec<Total>)
    requires
        entries.len() <= u32::MAX,
    ensures
        forall|a: int, b: int| 0 <= a < b < r.len() ==> r@[a].name@ != r@[b].name@,
        forall|a: int| 0 <= a < r.len() ==> (#[trigger] r@[a]).amount == total_for(views(entries@), r@[a].name@),
        total_names(r@) == entry_names(views(entries@)),
{
    let ghost all = views(entries@);
    let mut r: Vec<Total> = Vec::new();
    let ghost mut pos: Seq<int> = Seq::empty();
    let ghost mut src: Seq<int> = Seq::empty();
    let mut i: usize = 0;
    while i < entries.len()
        invariant
            i <= entries.len() <= u32::MAX,
            all == views(entries@),
            pos.len() == i,
            src.len() == r.len(),
            forall|a: int, b: int| 0 <= a < b < r.len() ==> r@[a].name@ != r@[b].name@,
            forall|a: int| 0 <= a < r.len() ==> (#[trigger] r@[a]).amount == total_for(all.subrange(0, i as int), r@[a].name@),
            forall|k: int| 0 <= k < i ==> 0 <= #[trigger] pos[k] < r.len() && r@[pos[k]].name@ == entries@[k].name@,
            forall|a: int| 0 <= a < r.len() ==> 0 <= #[trigger] src[a] < i && entries@[src[a]].name@ == r@[a].name@,
        decreases entries.len() - i,
    {
        let e = &entries[i];
        proof {
            lemma_total_step(all, i as int);
            assert(all[i as int] == e@);
        }
        let mut a: usize = 0;
        let mut found = false;
        while !found && a < r.len()
            invariant
                a <= r.len(),
                !found ==> forall|b: int| 0 <= b < a ==> (#[trigger] r@[b]).name@ != e.name@,
                found ==> a < r.len() && r@[a as int].name@ == e.name@,
            decreases r.len() - a + if found { 0int } else { 1 },
        {
            if r[a].name == e.name {
                found = true;
            } else {
                a += 1;
            }
        }
        let ghost old_r = r@;
        if found {
            proof {
                let next = all.subrange(0, i + 1);
                assert forall|b: int| 0 <= b < next.len() implies (#[trigger] next[b]).dosage <= u32::MAX by {
                    assert(next[b] == all[b]);
                }
                lemma_total_bound(next, e.name@);
                assert((i + 1) * (u32::MAX as nat) <= u32::MAX * (u32::MAX as nat)) by (nonlinear_arith)
                    requires i + 1 <= u32::MAX;
            }
            let amount = r[a].amount + e.dosage as u64;
            let name = r[a].name.clone();
            r.set(a, Total { name, amount });
            proof {
                pos = pos.push(a as int);
                assert forall|b: int| 0 <= b < r.len() implies r@[b].name@ == old_r[b].name@ by {}
                assert forall|b: int, c: int| 0 <= b < c < r.len() implies r@[b].name@ != r@[c].name@ by {
                    assert(old_r[b].name@ != old_r[c].name@);
                }
            }
        } else {
            proof {
                let prefix = all.subrange(0, i as int);
                assert forall|k: int| 0 <= k < prefix.len() implies (#[trigger] prefix[k]).name != e.name@ by {
                    assert(prefix[k] == all[k]);
                    assert(all[k].name == entries@[k].name@);
                    assert(0 <= pos[k] < r.len());
                    assert(r@[pos[k]].name@ == entries@[k].name@);
                }
                lemma_total_absent(prefix, e.name@);
            }
            r.push(Total { name: e.name.clone(), amount: e.dosage as u64 });
            proof {
                pos = pos.push(old_r.len() as int);
                src = src.push(i as int);
                assert forall|b: int| 0 <= b < old_r.len() implies r@[b] == old_r[b] by {}
                assert forall|b: int, c: int| 0 <= b < c < r.len() implies r@[b].name@ != r@[c].name@ by {
                    if c < old_r.len() {
                        assert(old_r[b].name@ != old_r[c].name@);
                    } else {
                        assert(old_r[b].name@ != e.name@);
                    }
                }
            }
        }
        i += 1;
    }
    assert(all.subrange(0, entries.len() as int) =~= all);
    proof {
        let a = r@.map_values(|t: Total| t.name@);
        let b = all.map_values(|e: EntryView| e.name);
        assert forall|k: int| 0 <= k < b.len() implies 0 <= #[trigger] pos[k] < a.len() && a[pos[k]] == b[k] by {
            assert(r@[pos[k]].name@ == entries@[k].name@);
        }
        assert forall|j: int| 0 <= j < a.len() implies 0 <= #[trigger] src[j] < b.len() && b[src[j]] == a[j] by {
            assert(entries@[src[j]].name@ == r@[j].name@);
        }
        lemma_same_elements(a, b, pos, src);
    }
    r
}

/// How a dosage is shown: its digits followed by `x`.
pub open spec fn dosage_label_spec(d: nat) -> Seq<char> {
    decimal(d) + seq!['x']
}

pub fn dosage_label(d: u32) -> (r: String)
    ensures
        r@ == dosage_label_spec(d as nat),
{
    proof {
        reveal_strlit("x");
    }
    decimal_text(d as u64).concat("x")
}

/// One line of the listing of doses.
#[derive(Debug)]
pub struct Row {
    pub name: String,
    pub dosage: String,
    pub time_taken: String,
    pub since: String,
}

/// What a row shows of an entry: its name, its dosage and, from the year 1
/// on, its time rounded to the minute.
pub open spec fn row_shows(row: Row, e: EntryView) -> bool {
    &&& row.name@ == e.name
    &&& row.dosage@ == dosage_label_spec(e.dosage)
    &&& 1 <= e.time_taken.year ==> row.time_taken@ == display_text_spec(e.time_taken.round_minute_spec()->Some_0)
}

/// A time in the window whose minute cannot be rounded: the last half minute
/// of the year 9999.
pub open spec fn cannot_round(t: Stamp, start: Option<Stamp>) -> bool {
    in_window(start, t) && 1 <= t.year && t.round_minute_spec() is None
}

/// A listing: the entries shown, one row for each, and the totals over them.
#[derive(Debug)]
pub struct Report {
    pub entries: Vec<DoseEntry>,
    pub rows: Vec<Row>,
    pub totals: Vec<Total>,
}

pub open spec fn stamps_valid(s: Seq<DoseEntry>) -> bool {
    forall|i: int| 0 <= i < s.len() ==> (#[trigger] s[i]).time_taken.wf()
}

/// Every time lies in years whose minutes can be rounded and shown.
pub open spec fn within_display_range(s: Seq<DoseEntry>) -> bool {
    forall|i: int| 0 <= i < s.len() ==> 1 <= (#[trigger] s[i]).time_taken.year <= 9997
}

proof fn lemma_kept_contains(s: Seq<EntryView>, start: Option<Stamp>, k: int)
    requires
        0 <= k < s.len(),
        in_window(start, s[k].time_taken),
    ensures
        kept(s, start).to_multiset().count(s[k]) > 0,
    decreases s.len(),
{
    let d = s.drop_last();
    if k < s.len() - 1 {
        lemma_kept_contains(d, start, k);
        assert(d[k] == s[k]);
    }
}

proof fn lemma_kept_len(s: Seq<EntryView>, start: Option<Stamp>)
    ensures
        kept(s, start).len() <= s.len(),
    decreases s.len(),
{
    if s.len() > 0 {
        lemma_kept_len(s.drop_last(), start);
    }
}

proof fn lemma_kept_within(s: Seq<EntryView>, start: Option<Stamp>, x: EntryView)
    ensures
        kept(s, start).to_multiset().count(x) <= s.to_multiset().count(x),
    decreases s.len(),
{
    if s.len() > 0 {
        lemma_kept_within(s.drop_last(), start, x);
        assert(s.drop_last().push(s.last()) =~= s);
    }
}

/// One row for an entry; `now` is already rounded to the minute.
fn make_row(e: &DoseEntry, now: &Stamp) -> (r: Result<Row, jiff::Error>)
    requires
        e.time_taken.wf(),
        now.wf(),
    ensures
        r is Ok ==> row_shows(r->Ok_0, e@),
        r is Ok && 1 <= e.time_taken.year ==> r->Ok_0.since@ == elapsed_text_of(
            e.time_taken.round_minute_spec()->Some_0,
            *now,
        ),
        1 <= e.time_taken.year && e.time_taken.round_minute_spec() is None ==> r is Err,
        1 <= e.time_taken.year <= 9997 ==> r is Ok,
{
    let t = round_to_minute(&e.time_taken)?;
    let time_taken = display_text(&t)?;
    Ok(Row { name: e.name.clone(), dosage: dosage_label(e.dosage), time_taken, since: elapsed_text(&t, now) })
}

/// `rep` is the listing of `entries` in `mode` at the moment `now`: the
/// entries in the window oldest first, a row for each, and one total for
/// each medicine in the window.
pub open spec fn lists(rep: Report, entries: Seq<DoseEntry>, mode: ListMode, now: Stamp) -> bool {
    let shown = views(rep.entries@);
    let window = kept(views(entries), mode.window_start(now));
    &&& chronological(shown)
    &&& shown.to_multiset() == window.to_multiset()
    &&& forall|i: int| 0 <= i < shown.len() ==> in_window(mode.window_start(now), #[trigger] shown[i].time_taken)
    &&& rep.rows.len() == shown.len()
    &&& forall|i: int| 0 <= i < shown.len() ==> row_shows(#[trigger] rep.rows@[i], shown[i])
    &&& 1 <= now.year ==> forall|i: int| 0 <= i < shown.len() && 1 <= shown[i].time_taken.year ==> (#[trigger] rep.rows@[i]).since@ == elapsed_text_of(
        shown[i].time_taken.round_minute_spec()->Some_0,
        now.round_minute_spec()->Some_0,
    )
    &&& forall|a: int, b: int| 0 <= a < b < rep.totals.len() ==> rep.totals@[a].name@ != rep.totals@[b].name@
    &&& forall|a: int| 0 <= a < rep.totals.len() ==> (#[trigger] rep.totals@[a]).amount == total_for(window, rep.totals@[a].name@)
    &&& total_names(rep.totals@) == entry_names(window)
}

/// The listing in `mode` at the moment `now`: the entries in the window,
/// oldest first, a row for each, and the total dosage of each medicine
/// in the window. Rounding a time past the last minute of the year 9999 is
/// an error.
#[verifier::rlimit(30)]
pub fn build_report(entries: &Vec<DoseEntry>, mode: ListMode, now: &Stamp) -> (r: Result<Report, jiff::Error>)
    requires
        now.wf(),
        stamps_valid(entries@),
        entries.len() <= u32::MAX,
    ensures
        r is Ok ==> lists(r->Ok_0, entries@, mode, *now),
        1 <= now.year <= 9998 && within_display_range(entries@) ==> r is Ok,
        1 <= now.year && now.round_minute_spec() is None ==> r is Err,
        (exists|k: int| 0 <= k < entries.len() && cannot_round(#[trigger] entries@[k].time_taken, mode.window_start(*now))) ==> r is Err,
{
    let selected = select_entries(entries, mode, now);
    let ghost all = views(entries@);
    let ghost start = mode.window_start(*now);
    let ghost shown = views(selected@);
    proof {
        lemma_kept_len(all, start);
        assert(shown.len() == shown.to_multiset().len());
        assert forall|i: int| 0 <= i < selected.len() implies (#[trigger] selected@[i]).time_taken.wf()
            && (within_display_range(entries@) ==> 1 <= selected@[i].time_taken.year <= 9997) by {
            let x = shown[i];
            assert(shown.to_multiset().count(x) > 0);
            lemma_kept_within(all, start, x);
            assert(all.to_multiset().count(x) > 0);
            assert(all.contains(x));
            let k = choose|k: int| 0 <= k < all.len() && all[k] == x;
            assert(entries@[k].time_taken == x.time_taken);
        }
    }
    let now_r = round_to_minute(now)?;
    let mut rows: Vec<Row> = Vec::new();
    let mut i: usize = 0;
    while i < selected.len()
        invariant
            i <= selected.len(),
            shown == views(selected@),
            now_r.wf(),
            1 <= now.year ==> now_r == now.round_minute_spec()->Some_0,
            rows.len() == i,
            forall|j: int| 0 <= j < selected.len() ==> (#[trigger] selected@[j]).time_taken.wf()
                && (within_display_range(entries@) ==> 1 <= selected@[j].time_taken.year <= 9997),
            forall|j: int| 0 <= j < i ==> row_shows(#[trigger] rows@[j], shown[j]),
            forall|j: int| 0 <= j < i && 1 <= shown[j].time_taken.year ==> (#[trigger] rows@[j]).since@ == elapsed_text_of(
                shown[j].time_taken.round_minute_spec()->Some_0,
                now_r,
            ),
            forall|j: int| 0 <= j < i && 1 <= #[trigger] shown[j].time_taken.year ==> shown[j].time_taken.round_minute_spec() is Some,
        decreases selected.len() - i,
    {
        let row = make_row(&selected[i], &now_r)?;
        rows.push(row);
        i += 1;
    }
    proof {
        assert forall|k: int| 0 <= k < entries.len() implies !cannot_round(#[trigger] entries@[k].time_taken, start) by {
            if in_window(start, entries@[k].time_taken) {
                assert(all[k] == entries@[k]@);
                lemma_kept_contains(all, start, k);
                assert(shown.to_multiset().count(all[k]) > 0);
                assert(shown.contains(all[k]));
                let j = choose|j: int| 0 <= j < shown.len() && shown[j] == all[k];
                assert(shown[j].time_taken == entries@[k].time_taken);
            }
        }
    }
    let windowed = window_entries(entries, mode, now);
    let totals = dosage_totals(&windowed);
    Ok(Report { entries: selected, rows, totals })
}

/// The listing in `mode` at the current local time.
pub fn list_entries(entries: &Vec<DoseEntry>, mode: ListMode) -> (r: Result<Report, jiff::Error>)
    requires
        stamps_valid(entries@),
        entries.len() <= u32::MAX,
    ensures
        exists|now: Stamp| {
            &&& now.wf()
            &&& r is Ok ==> lists(r->Ok_0, entries@, mode, now)
            &&& 1 <= now.year <= 9998 && within_display_range(entries@) ==> r is Ok
        },
{
    let now = now_local();
    let r = build_report(entries, mode, &now);
    assert(now.wf() && (r is Ok ==> lists(r->Ok_0, entries@, mode, now)) && (1 <= now.year <= 9998
        && within_display_range(entries@) ==> r is Ok));
    r
}

} // verus!
