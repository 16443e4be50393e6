use vstd::prelude::*;
use vstd::string::StringExecFns;
use crate::config::{error_view, load_env_str, value_error, ConfigError, STATS_FILE};
use crate::entry::{entries_view, EmailResult, EntryView, PingResult, StatsEntry, Timestamp};
use crate::text::{padded_text, push_padded_text, push_str};

verus! {

/// How a result is shown.
#[derive(Clone, Copy, Debug, PartialEq, Eq, Structural)]
pub enum DisplayColor {
    Okay,
    Error,
}

impl From<PingResult> for DisplayColor {
    fn from(value: PingResult) -> (r: DisplayColor) {
        match value {
            PingResult::Success => DisplayColor::Okay,
            PingResult::Failure => DisplayColor::Error,
        }
    }
}

impl vstd::std_specs::convert::FromSpecImpl<PingResult> for DisplayColor {
    open spec fn obeys_from_spec() -> bool {
        true
    }

    open spec fn from_spec(v: PingResult) -> DisplayColor {
        ping_color(v)
    }
}

impl From<EmailResult> for DisplayColor {
    fn from(value: EmailResult) -> (r: DisplayColor) {
        match value {
            EmailResult::FailedToSend => DisplayColor::Error,
            _ => DisplayColor::Okay,
        }
    }
}

impl vstd::std_specs::convert::FromSpecImpl<EmailResult> for DisplayColor {
    open spec fn obeys_from_spec() -> bool {
        true
    }

    open spec fn from_spec(v: EmailResult) -> DisplayColor {
        email_color(v)
    }
}

/// A passed probe shows as ok, a failed one as an error.
pub open spec fn ping_color(p: PingResult) -> DisplayColor {
    match p {
        PingResult::Success => DisplayColor::Okay,
        PingResult::Failure => DisplayColor::Error,
    }
}

/// Only an alert that failed to send shows as an error.
pub open spec fn email_color(e: EmailResult) -> DisplayColor {
    match e {
        EmailResult::FailedToSend => DisplayColor::Error,
        _ => DisplayColor::Okay,
    }
}

/// The text shown where an entry has no error.
pub const NO_ERROR: &'static str = "No error";

pub open spec fn error_text(o: Option<Seq<char>>) -> Seq<char> {
    match o {
        Some(t) => t,
        None => NO_ERROR@,
    }
}

/// A timestamp as `YYYY-MM-DD HH:MM:SS`.
pub open spec fn display_time(t: Timestamp) -> Seq<char> {
    padded_text(t.year as nat, 4) + "-"@ + padded_text(t.month as nat, 2) + "-"@ + padded_text(
        t.day as nat,
        2,
    ) + " "@ + padded_text(t.hour as nat, 2) + ":"@ + padded_text(t.minute as nat, 2) + ":"@
        + padded_text(t.second as nat, 2)
}

/// One line of the dashboard's table.
#[derive(Clone, Debug)]
pub struct TableEntry {
    pub version: u32,
    pub timestamp: String,
    pub request_state: String,
    pub full_url: String,
    pub ping_result: PingResult,
    pub ping_error: String,
    pub ping_color: DisplayColor,
    pub email_result: EmailResult,
    pub email_error: String,
    pub email_color: DisplayColor,
}

/// What a table line shows.
pub struct TableView {
    pub version: u32,
    pub timestamp: Seq<char>,
    pub request_state: Seq<char>,
    pub full_url: Seq<char>,
    pub ping_result: PingResult,
    pub ping_error: Seq<char>,
    pub ping_color: DisplayColor,
    pub email_result: EmailResult,
    pub email_error: Seq<char>,
    pub email_color: DisplayColor,
}

impl View for TableEntry {
    type V = TableView;

    open spec fn view(&self) -> TableView {
        TableView {
            version: self.version,
            timestamp: self.timestamp@,
            request_state: self.request_state@,
            full_url: self.full_url@,
            ping_result: self.ping_result,
            ping_error: self.ping_error@,
            ping_color: self.ping_color,
            email_result: self.email_result,
            email_error: self.email_error@,
            email_color: self.email_color,
        }
    }
}

/// The table line of an entry.
pub open spec fn table_view(e: EntryView) -> TableView {
    TableView {
        version: e.entry_version,
        timestamp: display_time(e.timestamp),
        request_state: e.request_state,
        full_url: e.pinged_url,
        ping_result: e.ping_result,
        ping_error: error_text(e.ping_error),
        ping_color: ping_color(e.ping_result),
        email_result: e.email_result,
        email_error: error_text(e.email_error),
        email_color: email_color(e.email_result),
    }
}

fn time_text(t: &Timestamp) -> (r: String)
    ensures
        r@ == display_time(*t),
{
    let mut s = String::new();
    push_padded_text(&mut s, t.year, 4);
    push_str(&mut s, "-");
    push_padded_text(&mut s, t.month, 2);
    push_str(&mut s, "-");
    push_padded_text(&mut s, t.day, 2);
    push_str(&mut s, " ");
    push_padded_text(&mut s, t.hour, 2);
    push_str(&mut s, ":");
    push_padded_text(&mut s, t.minute, 2);
    push_str(&mut s, ":");
    push_padded_text(&mut s, t.second, 2);
    assert(s@ =~= display_time(*t));
    s
}

fn error_or_placeholder(o: Option<String>) -> (r: String)
    ensures
        r@ == error_text(crate::entry::opt_view(o)),
{
    match o {
        Some(t) => t,
        None => String::from_str(NO_ERROR),
    }
}

impl TableEntry {
    /// The table line of an entry: its time shown to the second, a placeholder for
    /// each absent error, and the colors of its two results.
    pub fn from(value: StatsEntry) -> (r: TableEntry)
        ensures
            r@ == table_view(value@),
    {
        let timestamp = time_text(&value.timestamp);
        TableEntry {
            version: value.entry_version,
            timestamp,
            request_state: value.request_state,
            full_url: value.pinged_url,
            ping_result: value.ping_result,
            ping_error: error_or_placeholder(value.ping_error),
            ping_color: DisplayColor::from(value.ping_result),
            email_result: value.email_result,
            email_error: error_or_placeholder(value.email_error),
            email_color: DisplayColor::from(value.email_result),
        }
    }
}

/// Inserts `e` before the first entry that it is strictly later than, so that it
/// stays after every entry of its own time.
pub open spec fn insert_newest_first(s: Seq<EntryView>, e: EntryView) -> Seq<EntryView>
    decreases s.len(),
{
    if s.len() == 0 {
        seq![e]
    } else if e.timestamp.spec_later(s[0].timestamp) {
        seq![e] + s
    } else {
        seq![s[0]] + insert_newest_first(s.drop_first(), e)
    }
}

/// The entries, most recent first; entries of the same time keep their order.
pub open spec fn newest_first(es: Seq<EntryView>) -> Seq<EntryView>
    decreases es.len(),
{
    if es.len() == 0 {
        Seq::empty()
    } else {
        insert_newest_first(newest_first(es.drop_last()), es.last())
    }
}

pub open spec fn is_newest_first(s: Seq<EntryView>) -> bool {
    forall|i: int, j: int|
        0 <= i < j < s.len() ==> !(#[trigger] s[j]).timestamp.spec_later((#[trigger] s[i]).timestamp)
}

proof fn lemma_later_order(a: Timestamp, b: Timestamp, c: Timestamp)
    ensures
        a.spec_later(b) ==> !b.spec_later(a),
        !a.spec_later(b) && !b.spec_later(c) ==> !a.spec_later(c),
        a.spec_later(b) && !c.spec_later(b) ==> !c.spec_later(a),
{
}

proof fn lemma_insert_position(s: Seq<EntryView>, e: EntryView, p: int)
    requires
        0 <= p <= s.len(),
        forall|m: int| 0 <= m < p ==> !e.timestamp.spec_later(#[trigger] s[m].timestamp),
        p == s.len() || e.timestamp.spec_later(s[p].timestamp),
    ensures
        insert_newest_first(s, e) == s.take(p) + seq![e] + s.skip(p),
    decreases s.len(),
{
    if s.len() == 0 {
        assert(s.take(p) + seq![e] + s.skip(p) =~= seq![e]);
    } else if p == 0 {
        assert(s.take(p) + seq![e] + s.skip(p) =~= seq![e] + s);
    } else {
        let t = s.drop_first();
        assert forall|m: int| 0 <= m < p - 1 implies !e.timestamp.spec_later(#[trigger] t[m].timestamp) by {
            assert(t[m] == s[m + 1]);
        }
        lemma_insert_position(t, e, p - 1);
        assert(seq![s[0]] + (t.take(p - 1) + seq![e] + t.skip(p - 1)) =~= s.take(p) + seq![e]
            + s.skip(p));
    }
}

proof fn lemma_insert_sorted(s: Seq<EntryView>, e: EntryView)
    requires
        is_newest_first(s),
    ensures
        is_newest_first(insert_newest_first(s, e)),
        insert_newest_first(s, e).len() == s.len() + 1,
        forall|m: int|
            0 <= m < insert_newest_first(s, e).len() ==> #[trigger] insert_newest_first(s, e)[m] == e
                || s.contains(insert_newest_first(s, e)[m]),
    decreases s.len(),
{
    let r = insert_newest_first(s, e);
    if s.len() == 0 {
    } else if e.timestamp.spec_later(s[0].timestamp) {
        assert forall|i: int, j: int| 0 <= i < j < r.len() implies !(#[trigger] r[j]).timestamp.spec_later(
            (#[trigger] r[i]).timestamp,
        ) by {
            if i == 0 {
                assert(r[j] == s[j - 1]);
                if j - 1 > 0 {
                    assert(!s[j - 1].timestamp.spec_later(s[0].timestamp));
                }
                lemma_later_order(e.timestamp, s[0].timestamp, s[j - 1].timestamp);
            } else {
                assert(r[i] == s[i - 1] && r[j] == s[j - 1]);
            }
        }
        assert forall|m: int| 0 <= m < r.len() implies #[trigger] r[m] == e || s.contains(r[m]) by {
            if m > 0 {
                assert(r[m] == s[m - 1]);
            }
        }
    } else {
        let t = s.drop_first();
        assert(is_newest_first(t)) by {
            assert forall|i: int, j: int| 0 <= i < j < t.len() implies !(#[trigger] t[j]).timestamp.spec_later(
                (#[trigger] t[i]).timestamp,
            ) by {
                assert(t[i] == s[i + 1] && t[j] == s[j + 1]);
            }
        }
        lemma_insert_sorted(t, e);
        let rt = insert_newest_first(t, e);
        assert(r == seq![s[0]] + rt);
        assert forall|i: int, j: int| 0 <= i < j < r.len() implies !(#[trigger] r[j]).timestamp.spec_later(
            (#[trigger] r[i]).timestamp,
        ) by {
            if i == 0 {
                assert(r[j] == rt[j - 1]);
                if rt[j - 1] == e {
                } else {
                    assert(t.contains(rt[j - 1]));
                    let k = choose|k: int| 0 <= k < t.len() && t[k] == rt[j - 1];
                    assert(s[k + 1] == t[k]);
                }
            } else {
                assert(r[i] == rt[i - 1] && r[j] == rt[j - 1]);
            }
        }
        assert forall|m: int| 0 <= m < r.len() implies #[trigger] r[m] == e || s.contains(r[m]) by {
            if m > 0 {
                assert(r[m] == rt[m - 1]);
                if rt[m - 1] != e {
                    let k = choose|k: int| 0 <= k < t.len() && t[k] == rt[m - 1];
                    assert(s[k + 1] == t[k]);
                }
            } else {
                assert(s[0] == r[0]);
            }
        }
    }
}

proof fn lemma_newest_first_sorted(es: Seq<EntryView>)
    ensures
        is_newest_first(newest_first(es)),
    decreases es.len(),
{
    if es.len() > 0 {
        lemma_newest_first_sorted(es.drop_last());
        lemma_insert_sorted(newest_first(es.drop_last()), es.last());
    }
}

proof fn lemma_insert_last(s: Seq<EntryView>, e: EntryView)
    requires
        forall|m: int| 0 <= m < s.len() ==> !e.timestamp.spec_later(#[trigger] s[m].timestamp),
    ensures
        insert_newest_first(s, e) == s.push(e),
{
    lemma_insert_position(s, e, s.len() as int);
    assert(s.take(s.len() as int) + seq![e] + s.skip(s.len() as int) =~= s.push(e));
}

proof fn lemma_sorted_fixpoint(s: Seq<EntryView>)
    requires
        is_newest_first(s),
    ensures
        newest_first(s) == s,
    decreases s.len(),
{
    if s.len() > 0 {
        let d = s.drop_last();
        assert(is_newest_first(d)) by {
            assert forall|i: int, j: int| 0 <= i < j < d.len() implies !(#[trigger] d[j]).timestamp.spec_later(
                (#[trigger] d[i]).timestamp,
            ) by {
                assert(d[i] == s[i] && d[j] == s[j]);
            }
        }
        lemma_sorted_fixpoint(d);
        assert forall|m: int| 0 <= m < d.len() implies !s.last().timestamp.spec_later(
            #[trigger] d[m].timestamp,
        ) by {
            assert(d[m] == s[m]);
        }
        lemma_insert_last(d, s.last());
        assert(d.push(s.last()) =~= s);
    }
}

/// Ordering a history that is already ordered changes nothing: the order is
/// newest first, and entries of the same time keep their relative order.
pub proof fn lemma_newest_first_idempotent(es: Seq<EntryView>)
    ensures
        is_newest_first(newest_first(es)),
        newest_first(newest_first(es)) == newest_first(es),
{
    lemma_newest_first_sorted(es);
    lemma_sorted_fixpoint(newest_first(es));
}

proof fn lemma_view_remove_first(v: Seq<StatsEntry>)
    requires
        v.len() > 0,
    ensures
        entries_view(v.remove(0)) == entries_view(v).skip(1),
        entries_view(v)[0] == v[0]@,
{
    assert(entries_view(v.remove(0)) =~= entries_view(v).skip(1));
}

/// The entries of time `t`, in their order.
pub open spec fn at_time(s: Seq<EntryView>, t: Timestamp) -> Seq<EntryView> {
    s.filter(|e: EntryView| e.timestamp == t)
}

proof fn lemma_at_time_push(s: Seq<EntryView>, e: EntryView, t: Timestamp)
    ensures
        at_time(s.push(e), t) == if e.timestamp == t {
            at_time(s, t).push(e)
        } else {
            at_time(s, t)
        },
{
    reveal(Seq::filter);
    assert(s.push(e).drop_last() =~= s);
}

proof fn lemma_at_time_prepend(e: EntryView, s: Seq<EntryView>, t: Timestamp)
    ensures
        at_time(seq![e] + s, t) == if e.timestamp == t {
            seq![e] + at_time(s, t)
        } else {
            at_time(s, t)
        },
{
    Seq::filter_distributes_over_add(seq![e], s, |x: EntryView| x.timestamp == t);
    lemma_at_time_push(Seq::empty(), e, t);
    assert(Seq::<EntryView>::empty().push(e) =~= seq![e]);
    reveal(Seq::filter);
    assert(at_time(Seq::<EntryView>::empty(), t) =~= Seq::<EntryView>::empty());
}

proof fn lemma_at_time_none(s: Seq<EntryView>, t: Timestamp)
    requires
        forall|m: int| 0 <= m < s.len() ==> (#[trigger] s[m]).timestamp != t,
    ensures
        at_time(s, t) == Seq::<EntryView>::empty(),
    decreases s.len(),
{
    if s.len() > 0 {
        lemma_at_time_none(s.drop_last(), t);
        lemma_at_time_push(s.drop_last(), s.last(), t);
        assert(s.drop_last().push(s.last()) =~= s);
    } else {
        reveal(Seq::filter);
        assert(at_time(s, t) =~= Seq::<EntryView>::empty());
    }
}

proof fn lemma_insert_at_time(s: Seq<EntryView>, e: EntryView, t: Timestamp)
    requires
        is_newest_first(s),
    ensures
        at_time(insert_newest_first(s, e), t) == if e.timestamp == t {
            at_time(s, t).push(e)
        } else {
            at_time(s, t)
        },
    decreases s.len(),
{
    if s.len() == 0 {
        lemma_at_time_push(s, e, t);
        assert(s.push(e) =~= seq![e]);
        reveal(Seq::filter);
        assert(at_time(s, t) =~= Seq::<EntryView>::empty());
    } else if e.timestamp.spec_later(s[0].timestamp) {
        lemma_at_time_prepend(e, s, t);
        if e.timestamp == t {
            assert forall|m: int| 0 <= m < s.len() implies (#[trigger] s[m]).timestamp != t by {
                if m > 0 {
                    assert(!s[m].timestamp.spec_later(s[0].timestamp));
                }
                lemma_later_order(e.timestamp, s[0].timestamp, s[m].timestamp);
            }
            lemma_at_time_none(s, t);
            assert(seq![e] + Seq::<EntryView>::empty() =~= Seq::<EntryView>::empty().push(e));
        }
    } else {
        let rest = s.drop_first();
        assert(is_newest_first(rest)) by {
            assert forall|i: int, j: int| 0 <= i < j < rest.len() implies !(#[trigger] rest[j]).timestamp.spec_later(
                (#[trigger] rest[i]).timestamp,
            ) by {
                assert(rest[i] == s[i + 1] && rest[j] == s[j + 1]);
            }
        }
        lemma_insert_at_time(rest, e, t);
        lemma_at_time_prepend(s[0], insert_newest_first(rest, e), t);
        lemma_at_time_prepend(s[0], rest, t);
        assert(seq![s[0]] + rest =~= s);
        if e.timestamp == t {
            if s[0].timestamp == t {
                assert(seq![s[0]] + at_time(rest, t).push(e) =~= (seq![s[0]] + at_time(rest, t)).push(
                    e,
                ));
            }
        }
    }
}

/// Ordering keeps the relative order of the entries that share a time: for every
/// time, the entries of that time stand in the ordered history as they stood in the
/// loaded one.
pub proof fn lemma_newest_first_stable(es: Seq<EntryView>, t: Timestamp)
    ensures
        at_time(newest_first(es), t) == at_time(es, t),
    decreases es.len(),
{
    if es.len() == 0 {
    } else {
        lemma_newest_first_stable(es.drop_last(), t);
        lemma_newest_first_sorted(es.drop_last());
        lemma_insert_at_time(newest_first(es.drop_last()), es.last(), t);
        lemma_at_time_push(es.drop_last(), es.last(), t);
        assert(es.drop_last().push(es.last()) =~= es);
    }
}

/// Orders the entries most recent first; entries of the same time keep their order.
pub fn sort_newest_first(entries: Vec<StatsEntry>) -> (r: Vec<StatsEntry>)
    ensures
        entries_view(r@) == newest_first(entries_view(entries@)),
{
    let ghost orig = entries_view(entries@);
    let mut rest = entries;
    let mut sorted: Vec<StatsEntry> = Vec::new();
    let ghost k: int = 0;
    assert(orig.take(0) =~= Seq::<EntryView>::empty());
    assert(entries_view(sorted@) =~= Seq::<EntryView>::empty());
    while rest.len() > 0
        invariant
            0 <= k <= orig.len(),
            entries_view(rest@) == orig.skip(k),
            entries_view(sorted@) == newest_first(orig.take(k)),
        decreases rest@.len(),
    {
        let ghost before = rest@;
        proof {
            lemma_view_remove_first(before);
            assert(orig.skip(k).skip(1) =~= orig.skip(k + 1));
        }
        assert(k < orig.len());
        let e = rest.remove(0);
        let ghost ev = e@;
        assert(ev == orig[k]) by {
            assert(orig.skip(k)[0] == orig[k]);
        }
        let ghost sv = entries_view(sorted@);
        let mut p: usize = 0;
        while p < sorted.len() && !e.timestamp.later_than(&sorted[p].timestamp)
            invariant
                p <= sorted@.len(),
                sv == entries_view(sorted@),
                ev == e@,
                forall|m: int| 0 <= m < p ==> !ev.timestamp.spec_later(#[trigger] sv[m].timestamp),
            decreases sorted@.len() - p,
        {
            p = p + 1;
        }
        proof {
            lemma_insert_position(sv, ev, p as int);
        }
        sorted.insert(p, e);
        proof {
            assert(entries_view(sorted@) =~= sv.take(p as int) + seq![ev] + sv.skip(p as int));
            assert(orig.take(k + 1).drop_last() =~= orig.take(k));
            assert(entries_view(rest@) =~= orig.skip(k + 1));
            k = k + 1;
        }
    }
    assert(orig.take(k) =~= orig) by {
        assert(orig.skip(k).len() == 0);
    }
    sorted
}

/// What the dashboard shows: a table of the history, most recent first, or an
/// empty-state view when there is no entry.
#[derive(Clone, Debug)]
pub struct Dashboard {
    pub show_table: bool,
    pub entries: Vec<TableEntry>,
}

/// The dashboard of a loaded history.
pub fn get_dashboard(entries: Vec<StatsEntry>) -> (r: Dashboard)
    ensures
        r.show_table == (entries@.len() > 0),
        r.entries@.map_values(|t: TableEntry| t@) == newest_first(entries_view(entries@)).map_values(
            |e: EntryView| table_view(e),
        ),
{
    let show_table = entries.len() > 0;
    let mut sorted = sort_newest_first(entries);
    let ghost sv = entries_view(sorted@);
    let mut table: Vec<TableEntry> = Vec::new();
    let ghost k: int = 0;
    while sorted.len() > 0
        invariant
            0 <= k <= sv.len(),
            entries_view(sorted@) == sv.skip(k),
            table@.map_values(|t: TableEntry| t@) == sv.take(k).map_values(
                |e: EntryView| table_view(e),
            ),
        decreases sorted@.len(),
    {
        let ghost before = sorted@;
        proof {
            lemma_view_remove_first(before);
            assert(sv.skip(k).skip(1) =~= sv.skip(k + 1));
        }
        assert(k < sv.len());
        let ghost old_table = table@;
        let e = sorted.remove(0);
        proof {
            assert(e@ == sv[k]) by {
                assert(sv.skip(k)[0] == sv[k]);
            }
        }
        let line = TableEntry::from(e);
        table.push(line);
        proof {
            assert(sv.take(k + 1) =~= sv.take(k).push(sv[k]));
            assert(table@ == old_table.push(line));
            assert(table@.map_values(|t: TableEntry| t@) =~= old_table.map_values(|t: TableEntry| t@).push(line@));
            assert(table@.map_values(|t: TableEntry| t@) =~= sv.take(k + 1).map_values(
                |e: EntryView| table_view(e),
            ));
            assert(entries_view(sorted@) =~= sv.skip(k + 1));
            k = k + 1;
        }
    }
    assert(sv.take(k) =~= sv) by {
        assert(sv.skip(k).len() == 0);
    }
    Dashboard { show_table, entries: table }
}

/// The dashboard's settings.
#[derive(Clone, Debug)]
pub struct Config {
    pub stats_file: String,
}

impl Config {
    /// Takes the store's path from the value of `STATS_FILE`, which must be set and
    /// not empty.
    pub fn new(stats_file: Option<String>) -> (r: Result<Config, ConfigError>)
        ensures
            match value_error(STATS_FILE@, stats_file) {
                Some(e) => r matches Err(x) && error_view(x) == e,
                None => r matches Ok(c) && stats_file == Some(c.stats_file),
            },
    {
        match load_env_str(STATS_FILE, stats_file) {
            Ok(v) => Ok(Config { stats_file: v }),
            Err(e) => Err(e),
        }
    }
}

} // verus!
