use vstd::prelude::*;
use crate::text::{decimal, pad, fit, push_decimal, push_padded_decimal, push_fitted};
use crate::selftop::windowSniffer::{Window, WindowView, Counter, Entries, WindowSniffer, entries_view};


verus! {

/// Whole hours in `ms` milliseconds.
pub open spec fn span_hours(ms: nat) -> nat {
    ms / 1000 / 3600
}

/// Whole minutes in `ms` milliseconds, past the whole hours.
pub open spec fn span_minutes(ms: nat) -> nat {
    ms / 1000 % 3600 / 60
}

/// Whole seconds in `ms` milliseconds, past the whole minutes.
pub open spec fn span_seconds(ms: nat) -> nat {
    ms / 1000 % 60
}

/// The text `<h>h<m>m<s>s` for a span of `ms` milliseconds.
pub open spec fn span_text(ms: nat) -> Seq<char> {
    decimal(span_hours(ms)) + seq!['h'] + decimal(span_minutes(ms)) + seq!['m'] + decimal(
        span_seconds(ms),
    ) + seq!['s']
}

/// The parts of a span add up to its whole seconds, and minutes and seconds stay
/// below 60.
pub proof fn lemma_span_parts(ms: nat)
    ensures
        span_hours(ms) * 3600 + span_minutes(ms) * 60 + span_seconds(ms) == ms / 1000,
        span_minutes(ms) < 60,
        span_seconds(ms) < 60,
{
    let secs = ms / 1000;
    assert(secs == (secs / 3600) * 3600 + secs % 3600) by (nonlinear_arith);
    assert(secs % 3600 == (secs % 3600 / 60) * 60 + secs % 3600 % 60) by (nonlinear_arith);
    assert(secs % 3600 % 60 == secs % 60) by (nonlinear_arith);
    assert(secs % 3600 < 3600) by (nonlinear_arith);
    assert(secs % 3600 / 60 < 60) by (nonlinear_arith)
        requires
            secs % 3600 < 3600,
    ;
    assert(secs % 60 < 60) by (nonlinear_arith);
}

/// Formats a span of milliseconds as hours, minutes and seconds, such as `1h2m3s`.
pub fn format_time_span(timeMs: u64) -> (r: String)
    ensures
        r@ == span_text(timeMs as nat),
{
    let secs = timeMs / 1000;
    let hours = secs / (60 * 60);
    proof {
        assert(hours * 3600 <= secs) by (nonlinear_arith)
            requires
                hours == secs / 3600,
        ;
        assert(secs - hours * 3600 == secs % 3600) by (nonlinear_arith)
            requires
                hours == secs / 3600,
        ;
    }
    let mins = (secs - (hours * 60 * 60)) / 60;
    proof {
        assert(mins * 60 <= secs - hours * 3600) by (nonlinear_arith)
            requires
                mins == (secs - hours * 3600) / 60,
                hours * 3600 <= secs,
        ;
        assert(secs - hours * 3600 - mins * 60 == secs % 60) by (nonlinear_arith)
            requires
                mins == (secs - hours * 3600) / 60,
                secs - hours * 3600 == secs % 3600,
        ;
    }
    let seconds = secs - (hours * 60 * 60) - (mins * 60);
    let mut s = String::new();
    push_decimal(&mut s, hours);
    proof {
        reveal_strlit("h");
        reveal_strlit("m");
        reveal_strlit("s");
    }
    s.append("h");
    push_decimal(&mut s, mins);
    s.append("m");
    push_decimal(&mut s, seconds);
    s.append("s");
    assert(s@ =~= span_text(timeMs as nat));
    s
}

/// One line of the report, before formatting.
pub struct ScreenRow {
    pub pid: u32,
    pub class: String,
    pub wm_name: String,
    pub keys: u64,
    pub clicks: u64,
    pub motions: u64,
    pub timer: u64,
}

/// The mathematical value of a `ScreenRow`.
pub struct RowView {
    pub pid: u32,
    pub class: Seq<char>,
    pub wm_name: Seq<char>,
    pub keys: u64,
    pub clicks: u64,
    pub motions: u64,
    pub timer: u64,
}

impl View for ScreenRow {
    type V = RowView;

    open spec fn view(&self) -> RowView {
        RowView {
            pid: self.pid,
            class: self.class@,
            wm_name: self.wm_name@,
            keys: self.keys,
            clicks: self.clicks,
            motions: self.motions,
            timer: self.timer,
        }
    }
}

pub open spec fn rows_view(v: Seq<ScreenRow>) -> Seq<RowView> {
    v.map_values(|r: ScreenRow| r@)
}

/// The report row of a window: its pid (0 when unknown), the last part of its class
/// (empty when unknown), its name (empty when unknown) and its counts.
pub open spec fn row_of(w: WindowView, c: Counter) -> RowView {
    RowView {
        pid: match w.pid {
            Some(p) => p,
            None => 0,
        },
        class: match w.class {
            Some(v) => v.last(),
            None => Seq::empty(),
        },
        wm_name: match w.wm_name {
            Some(n) => n,
            None => Seq::empty(),
        },
        keys: c.keys,
        clicks: c.clicks,
        motions: c.motionSniffer.motion_count,
        timer: c.timer,
    }
}

/// The rows of all windows of the table, in table order.
pub open spec fn rows_of(s: Entries) -> Seq<RowView> {
    s.map_values(|e: (WindowView, Counter)| row_of(e.0, e.1))
}

/// Every class list of the table that is present has a last part.
pub open spec fn classes_nonempty(s: Entries) -> bool {
    forall|i: int| 0 <= i < s.len() ==> (#[trigger] s[i].0.class matches Some(v) ==> v.len() > 0)
}

/// `s` with `r` placed before the first row that has less time than `r`.
pub open spec fn insert_by_time(s: Seq<RowView>, r: RowView) -> Seq<RowView>
    decreases s.len(),
{
    if s.len() == 0 {
        seq![r]
    } else if s[0].timer < r.timer {
        seq![r] + s
    } else {
        seq![s[0]] + insert_by_time(s.drop_first(), r)
    }
}

/// The rows ordered by time, longest first; rows with equal time keep their order.
pub open spec fn sort_by_time(s: Seq<RowView>) -> Seq<RowView>
    decreases s.len(),
{
    if s.len() == 0 {
        Seq::empty()
    } else {
        insert_by_time(sort_by_time(s.drop_last()), s.last())
    }
}

/// The times of the rows never increase along `s`.
pub open spec fn time_descending(s: Seq<RowView>) -> bool {
    forall|i: int, j: int| 0 <= i < j < s.len() ==> #[trigger] s[i].timer >= #[trigger] s[j].timer
}

/// The total time of the rows.
pub open spec fn sum_timers(s: Seq<RowView>) -> nat
    decreases s.len(),
{
    if s.len() == 0 {
        0
    } else {
        s[0].timer as nat + sum_timers(s.drop_first())
    }
}

/// Placing `r` before the first row with less time is inserting it at that position.
pub proof fn lemma_insert_by_time_at(s: Seq<RowView>, r: RowView, p: int)
    requires
        0 <= p <= s.len(),
        forall|j: int| 0 <= j < p ==> #[trigger] s[j].timer >= r.timer,
        p < s.len() ==> s[p].timer < r.timer,
    ensures
        insert_by_time(s, r) == s.insert(p, r),
    decreases s.len(),
{
    if s.len() == 0 {
        assert(insert_by_time(s, r) =~= s.insert(p, r));
    } else if p == 0 {
        assert(insert_by_time(s, r) =~= s.insert(p, r));
    } else {
        let t = s.drop_first();
        assert forall|j: int| 0 <= j < p - 1 implies #[trigger] t[j].timer >= r.timer by {
            assert(t[j] == s[j + 1]);
        }
        lemma_insert_by_time_at(t, r, p - 1);
        assert(insert_by_time(s, r) =~= s.insert(p, r));
    }
}

/// Inserting a row keeps the rows in descending time, and adds only that row.
pub proof fn lemma_insert_by_time_sorted(s: Seq<RowView>, r: RowView)
    requires
        time_descending(s),
    ensures
        time_descending(insert_by_time(s, r)),
        insert_by_time(s, r).len() == s.len() + 1,
        forall|x: RowView| #[trigger] insert_by_time(s, r).contains(x) ==> x == r || s.contains(x),
        sum_timers(insert_by_time(s, r)) == sum_timers(s) + r.timer,
        insert_by_time(s, r).to_multiset() == s.to_multiset().insert(r),
    decreases s.len(),
{
    broadcast use vstd::seq_lib::to_multiset_build, vstd::seq_lib::to_multiset_insert;

    let u = insert_by_time(s, r);
    if s.len() == 0 {
        assert(u =~= seq![r]);
        assert(u.drop_first() =~= Seq::<RowView>::empty());
        assert(sum_timers(u) == r.timer + sum_timers(u.drop_first()));
        assert(u =~= s.insert(0, r));
    } else if s[0].timer < r.timer {
        assert(u.drop_first() =~= s);
        assert(sum_timers(u) == r.timer + sum_timers(s));
        assert forall|x: RowView| #[trigger] u.contains(x) implies x == r || s.contains(x) by {
            let i = choose|i: int| 0 <= i < u.len() && u[i] == x;
            if i > 0 {
                assert(s[i - 1] == x);
            }
        }
        assert(u =~= s.insert(0, r));
    } else {
        let t = s.drop_first();
        let v = insert_by_time(t, r);
        assert(time_descending(t));
        lemma_insert_by_time_sorted(t, r);
        assert(u =~= seq![s[0]] + v);
        assert(u.drop_first() =~= v);
        assert forall|x: RowView| #[trigger] u.contains(x) implies x == r || s.contains(x) by {
            let i = choose|i: int| 0 <= i < u.len() && u[i] == x;
            if i > 0 {
                assert(v.contains(x));
                if t.contains(x) {
                    let k = choose|k: int| 0 <= k < t.len() && t[k] == x;
                    assert(s[k + 1] == x);
                }
            }
        }
        assert forall|i: int, j: int| 0 <= i < j < u.len() implies #[trigger] u[i].timer
            >= #[trigger] u[j].timer by {
            if i == 0 {
                assert(v.contains(u[j]));
                if t.contains(u[j]) {
                    let k = choose|k: int| 0 <= k < t.len() && t[k] == u[j];
                    assert(s[k + 1] == u[j]);
                }
            } else {
                assert(u[i] == v[i - 1]);
                assert(u[j] == v[j - 1]);
            }
        }
        assert(s =~= t.insert(0, s[0]));
        assert(u =~= v.insert(0, s[0]));
        assert(sum_timers(u) == s[0].timer + sum_timers(v));
        assert(u.to_multiset() =~= s.to_multiset().insert(r)) by {
            broadcast use vstd::multiset::group_multiset_axioms;

        }
    }
}

/// The sum of the rows is the sum of a prefix and of the rest.
pub proof fn lemma_sum_split(s: Seq<RowView>, i: int)
    requires
        0 <= i <= s.len(),
    ensures
        sum_timers(s) == sum_timers(s.take(i)) + sum_timers(s.skip(i)),
    decreases s.len(),
{
    if i == 0 {
        assert(s.skip(0) =~= s);
        assert(s.take(0).len() == 0);
    } else {
        lemma_sum_split(s.drop_first(), i - 1);
        assert(s.take(i).drop_first() =~= s.drop_first().take(i - 1));
        assert(s.skip(i) =~= s.drop_first().skip(i - 1));
    }
}

/// Adding the next row to a prefix adds its time.
pub proof fn lemma_sum_take_next(s: Seq<RowView>, k: int)
    requires
        0 <= k < s.len(),
    ensures
        sum_timers(s.take(k + 1)) == sum_timers(s.take(k)) + s[k].timer,
{
    let t = s.take(k + 1);
    lemma_sum_split(t, k);
    assert(t.take(k) =~= s.take(k));
    assert(t.skip(k) =~= seq![s[k]]);
    assert(seq![s[k]].drop_first() =~= Seq::<RowView>::empty());
    assert(sum_timers(Seq::<RowView>::empty()) == 0);
    assert(sum_timers(seq![s[k]]) == s[k].timer + sum_timers(seq![s[k]].drop_first()));
}

/// Ordering the rows by time keeps them all: it is a permutation with the same total,
/// and the result is in descending time.
pub proof fn lemma_sort_by_time(s: Seq<RowView>)
    ensures
        time_descending(sort_by_time(s)),
        sort_by_time(s).len() == s.len(),
        sort_by_time(s).to_multiset() == s.to_multiset(),
        sum_timers(sort_by_time(s)) == sum_timers(s),
    decreases s.len(),
{
    broadcast use vstd::seq_lib::to_multiset_build;

    if s.len() == 0 {
        assert(sort_by_time(s) =~= s);
    } else {
        let d = s.drop_last();
        lemma_sort_by_time(d);
        lemma_insert_by_time_sorted(sort_by_time(d), s.last());
        lemma_sum_take_next(s, s.len() - 1);
        assert(s.take(s.len() - 1) =~= d);
        assert(s.take(s.len() as int) =~= s);
        assert(s =~= d.push(s.last()));
    }
}

/// The time of the rows shown and the time of the rows not shown add up to the total
/// time of all windows, so the time shown never exceeds the total.
pub proof fn lemma_shown_within_total(s: Seq<RowView>, n: nat)
    requires
        n <= s.len(),
    ensures
        sum_timers(sort_by_time(s).take(n as int)) + sum_timers(sort_by_time(s).skip(n as int))
            == sum_timers(s),
        sum_timers(sort_by_time(s).take(n as int)) <= sum_timers(s),
{
    lemma_sort_by_time(s);
    lemma_sum_split(sort_by_time(s), n as int);
}

/// Each window's row carries that window's own numbers, each in its own column: pid (0
/// when unknown), keys, clicks, pointer movements and time.
pub proof fn lemma_rows_of_counters(s: Entries)
    ensures
        rows_of(s).len() == s.len(),
        forall|i: int|
            0 <= i < s.len() ==> {
                &&& #[trigger] rows_of(s)[i].keys == s[i].1.keys
                &&& rows_of(s)[i].clicks == s[i].1.clicks
                &&& rows_of(s)[i].motions == s[i].1.motionSniffer.motion_count
                &&& rows_of(s)[i].timer == s[i].1.timer
                &&& rows_of(s)[i].pid == (if s[i].0.pid is Some {
                    s[i].0.pid->0
                } else {
                    0
                })
            },
{
}

/// Every row of the ordered report is the row of one of the windows, with that window's
/// keys, clicks, pointer movements and time in their columns, and there is one row per
/// window.
pub proof fn lemma_sorted_rows_from_windows(s: Entries)
    ensures
        sort_by_time(rows_of(s)).len() == s.len(),
        forall|j: int|
            0 <= j < s.len() ==> exists|i: int|
                0 <= i < s.len() && {
                    &&& #[trigger] sort_by_time(rows_of(s))[j] == rows_of(s)[i]
                    &&& sort_by_time(rows_of(s))[j].keys == s[i].1.keys
                    &&& sort_by_time(rows_of(s))[j].clicks == s[i].1.clicks
                    &&& sort_by_time(rows_of(s))[j].motions == s[i].1.motionSniffer.motion_count
                    &&& sort_by_time(rows_of(s))[j].timer == s[i].1.timer
                },
{
    broadcast use vstd::seq_lib::to_multiset_contains;

    let rows = rows_of(s);
    let sorted = sort_by_time(rows);
    lemma_sort_by_time(rows);
    lemma_rows_of_counters(s);
    assert forall|j: int| 0 <= j < s.len() implies exists|i: int|
        0 <= i < s.len() && {
            &&& #[trigger] sorted[j] == rows[i]
            &&& sorted[j].keys == s[i].1.keys
            &&& sorted[j].clicks == s[i].1.clicks
            &&& sorted[j].motions == s[i].1.motionSniffer.motion_count
            &&& sorted[j].timer == s[i].1.timer
        } by {
        let x = sorted[j];
        assert(sorted.contains(x));
        assert(sorted.to_multiset().count(x) > 0);
        assert(rows.contains(x));
        let i = choose|i: int| 0 <= i < rows.len() && rows[i] == x;
        assert(rows[i].keys == s[i].1.keys);
    }
}

/// Width of the pid column.
pub const PID_WIDTH: usize = 5;

/// Width of the class column.
pub const CLASS_WIDTH: usize = 20;

/// Width of each of the key, click and motion columns.
pub const COUNT_WIDTH: usize = 5;

/// Width of the time column.
pub const TIME_WIDTH: usize = 9;

/// Screen columns taken by everything but the name column: the other columns and the
/// separators.
pub const FIXED_COLUMNS: usize = 56;

/// The text of a report line: the columns in order, each left-aligned in its width and
/// separated by one space; texts are cut to their column, numbers are not.
pub open spec fn row_line(r: RowView, name_width: nat) -> Seq<char> {
    pad(decimal(r.pid as nat), PID_WIDTH as nat) + seq![' '] + fit(r.class, CLASS_WIDTH as nat)
        + seq![' '] + fit(r.wm_name, name_width) + seq![' '] + pad(
        decimal(r.keys as nat),
        COUNT_WIDTH as nat,
    ) + seq![' '] + pad(decimal(r.clicks as nat), COUNT_WIDTH as nat) + seq![' '] + pad(
        decimal(r.motions as nat),
        COUNT_WIDTH as nat,
    ) + seq![' '] + fit(span_text(r.timer as nat), TIME_WIDTH as nat)
}

/// The last line: the total time, the time of the rows shown, and the rest.
pub open spec fn footer_text(total: nat, shown: nat) -> Seq<char> {
    seq!['T', 'o', 't', 'a', 'l', ':', ' '] + span_text(total) + seq![
        ',',
        ' ',
        's',
        'h',
        'o',
        'w',
        'n',
        ':',
        ' ',
    ] + span_text(shown) + seq![',', ' ', 'n', 'o', 't', ' ', 's', 'h', 'o', 'w', 'n', ':', ' ']
        + span_text((total - shown) as nat)
}

/// How many of `n` rows fit on a screen of `height` lines: all but the last line, and at
/// least one row.
pub open spec fn shown_count(n: nat, height: nat) -> nat {
    let room: nat = if height >= 2 {
        (height - 1) as nat
    } else {
        1
    };
    if n < room {
        n
    } else {
        room
    }
}

/// What the screen shows: one line per row, then the footer on the line below.
pub struct Report {
    pub lines: Vec<String>,
    pub footer: String,
}

/// The report row of one window.
fn row_from(w: &Window, c: Counter) -> (r: ScreenRow)
    requires
        w@.class matches Some(v) ==> v.len() > 0,
    ensures
        r@ == row_of(w@, c),
        r.keys == c.keys,
        r.clicks == c.clicks,
        r.motions == c.motionSniffer.motion_count,
        r.timer == c.timer,
{
    let pid = match w.pid {
        Some(pid) => pid,
        None => 0,
    };
    let class = match &w.class {
        Some(class) => class[class.len() - 1].clone(),
        None => String::new(),
    };
    let wm_name = match &w.wm_name {
        Some(wm_name) => wm_name.clone(),
        None => String::new(),
    };
    ScreenRow {
        pid,
        class,
        wm_name,
        keys: c.keys,
        clicks: c.clicks,
        motions: c.motionSniffer.motion_count,
        timer: c.timer,
    }
}

/// The rows of all windows, ordered by time, longest first, and their total time.
pub fn sorted_rows(entries: &Vec<(Window, Counter)>) -> (res: (Vec<ScreenRow>, u64))
    requires
        classes_nonempty(entries_view(entries@)),
        sum_timers(rows_of(entries_view(entries@))) <= u64::MAX,
    ensures
        rows_view(res.0@) == sort_by_time(rows_of(entries_view(entries@))),
        res.1 == sum_timers(rows_of(entries_view(entries@))),
        res.0@.len() == entries@.len(),
        forall|j: int|
            0 <= j < entries@.len() ==> exists|i: int|
                0 <= i < entries@.len() && {
                    &&& #[trigger] res.0@[j].keys == entries@[i].1.keys
                    &&& res.0@[j].clicks == entries@[i].1.clicks
                    &&& res.0@[j].motions == entries@[i].1.motionSniffer.motion_count
                    &&& res.0@[j].timer == entries@[i].1.timer
                },
{
    let ghost rows = rows_of(entries_view(entries@));
    let mut total: u64 = 0;
    let mut items: Vec<ScreenRow> = Vec::new();
    let mut i: usize = 0;
    while i < entries.len()
        invariant
            i <= entries@.len(),
            rows == rows_of(entries_view(entries@)),
            rows.len() == entries@.len(),
            classes_nonempty(entries_view(entries@)),
            sum_timers(rows) <= u64::MAX,
            rows_view(items@) == sort_by_time(rows.take(i as int)),
            total == sum_timers(rows.take(i as int)),
        decreases entries@.len() - i,
    {
        let ghost sorted = rows_view(items@);
        assert(entries_view(entries@)[i as int].0 == entries@[i as int].0@);
        let row = row_from(&entries[i].0, entries[i].1);
        assert(row@ == rows[i as int]);
        proof {
            lemma_sum_take_next(rows, i as int);
            lemma_sum_split(rows, i + 1);
        }
        total = total + entries[i].1.timer;
        let mut p: usize = 0;
        while p < items.len() && items[p].timer >= row.timer
            invariant
                p <= items@.len(),
                sorted == rows_view(items@),
                forall|j: int| 0 <= j < p ==> #[trigger] sorted[j].timer >= row@.timer,
            decreases items@.len() - p,
        {
            p += 1;
        }
        proof {
            lemma_insert_by_time_at(sorted, row@, p as int);
        }
        items.insert(p, row);
        proof {
            let t = rows.take(i + 1);
            assert(t.drop_last() =~= rows.take(i as int));
            assert(rows_view(items@) =~= sorted.insert(p as int, row@));
        }
        i += 1;
    }
    assert(rows.take(entries@.len() as int) =~= rows);
    proof {
        let e = entries_view(entries@);
        lemma_sorted_rows_from_windows(e);
        assert forall|j: int| 0 <= j < entries@.len() implies exists|i: int|
            0 <= i < entries@.len() && {
                &&& #[trigger] items@[j].keys == entries@[i].1.keys
                &&& items@[j].clicks == entries@[i].1.clicks
                &&& items@[j].motions == entries@[i].1.motionSniffer.motion_count
                &&& items@[j].timer == entries@[i].1.timer
            } by {
            assert(rows_view(items@)[j] == items@[j]@);
            let i = choose|i: int|
                0 <= i < e.len() && {
                    &&& #[trigger] sort_by_time(rows_of(e))[j] == rows_of(e)[i]
                    &&& sort_by_time(rows_of(e))[j].keys == e[i].1.keys
                    &&& sort_by_time(rows_of(e))[j].clicks == e[i].1.clicks
                    &&& sort_by_time(rows_of(e))[j].motions == e[i].1.motionSniffer.motion_count
                    &&& sort_by_time(rows_of(e))[j].timer == e[i].1.timer
                };
            assert(e[i].1 == entries@[i].1);
        }
    }
    (items, total)
}

/// The text of a report line for `row`.
pub fn format_row(row: &ScreenRow, name_width: usize) -> (line: String)
    ensures
        line@ == row_line(row@, name_width as nat),
{
    let mut line = String::new();
    proof {
        reveal_strlit(" ");
    }
    push_padded_decimal(&mut line, row.pid as u64, PID_WIDTH);
    line.append(" ");
    push_fitted(&mut line, row.class.as_str(), CLASS_WIDTH);
    line.append(" ");
    push_fitted(&mut line, row.wm_name.as_str(), name_width);
    line.append(" ");
    push_padded_decimal(&mut line, row.keys, COUNT_WIDTH);
    line.append(" ");
    push_padded_decimal(&mut line, row.clicks, COUNT_WIDTH);
    line.append(" ");
    push_padded_decimal(&mut line, row.motions, COUNT_WIDTH);
    line.append(" ");
    let span = format_time_span(row.timer);
    push_fitted(&mut line, span.as_str(), TIME_WIDTH);
    assert(line@ =~= row_line(row@, name_width as nat));
    line
}

/// The footer line for a total time and the time of the rows shown.
pub fn format_footer(total: u64, shown: u64) -> (line: String)
    requires
        shown <= total,
    ensures
        line@ == footer_text(total as nat, shown as nat),
{
    proof {
        reveal_strlit("Total: ");
        reveal_strlit(", shown: ");
        reveal_strlit(", not shown: ");
    }
    let mut line = String::from_str("Total: ");
    let a = format_time_span(total);
    line.append(a.as_str());
    line.append(", shown: ");
    let b = format_time_span(shown);
    line.append(b.as_str());
    line.append(", not shown: ");
    let c = format_time_span(total - shown);
    line.append(c.as_str());
    assert(line@ =~= footer_text(total as nat, shown as nat));
    line
}

/// The screen for a tracker on a terminal of `width` by `height` characters: the windows
/// ordered by time, longest first, as many as fit above the footer, then the footer
/// with the total time, the time shown and the time not shown.
pub fn screen_report(sniffer: &WindowSniffer, width: usize, height: usize) -> (r: Report)
    requires
        width >= FIXED_COLUMNS,
        classes_nonempty(sniffer@.windows),
        sum_timers(rows_of(sniffer@.windows)) <= u64::MAX,
    ensures
        ({
            let sorted = sort_by_time(rows_of(sniffer@.windows));
            let n = shown_count(sorted.len(), height as nat);
            &&& r.lines@.len() == n
            &&& forall|i: int|
                0 <= i < n ==> #[trigger] r.lines@[i]@ == row_line(
                    sorted[i],
                    (width - FIXED_COLUMNS) as nat,
                )
            &&& r.footer@ == footer_text(
                sum_timers(rows_of(sniffer@.windows)),
                sum_timers(sorted.take(n as int)),
            )
        }),
{
    let (items, total) = sorted_rows(&sniffer.windows);
    let ghost sorted = rows_view(items@);
    proof {
        lemma_sort_by_time(rows_of(sniffer@.windows));
    }
    let name_width = width - FIXED_COLUMNS;
    let room = if height >= 2 {
        height - 1
    } else {
        1
    };
    let n = if items.len() < room {
        items.len()
    } else {
        room
    };
    let mut lines: Vec<String> = Vec::new();
    let mut shown: u64 = 0;
    let mut current_line: usize = 0;
    while current_line < n
        invariant
            n <= items@.len(),
            sorted == rows_view(items@),
            sum_timers(sorted) == total,
            current_line <= n,
            lines@.len() == current_line,
            forall|i: int|
                0 <= i < current_line ==> #[trigger] lines@[i]@ == row_line(
                    sorted[i],
                    name_width as nat,
                ),
            shown == sum_timers(sorted.take(current_line as int)),
        decreases n - current_line,
    {
        let line = format_row(&items[current_line], name_width);
        lines.push(line);
        proof {
            lemma_sum_take_next(sorted, current_line as int);
            lemma_sum_split(sorted, current_line + 1);
        }
        shown = shown + items[current_line].timer;
        current_line += 1;
    }
    proof {
        lemma_sum_split(sorted, n as int);
    }
    let footer = format_footer(total, shown);
    Report { lines, footer }
}

} // verus!
