use vstd::prelude::*;
use vstd::utf8::*;
use crate::digits::{
    all_digits, decimal, digits_value, fixed_digits, lemma_decimal, lemma_decimal_len,
    lemma_fixed_digits, pow10,
};
use crate::entry::{EmailResult, EntryView, PingResult, Timestamp};
use crate::fields::{
    lemma_read_field, needs_quotes, optional_field_bytes, read_field, unquoted_end, COMMA,
    NEWLINE,
};

verus! {

/// The header row's text: the field names, in the order the fields stand in a row.
pub const HEADER: &'static str =
    "entry_version,timestamp,pinged_url,request_state,ping_result,ping_error,email_result,email_error\n";

pub open spec fn header_bytes() -> Seq<u8> {
    encode_utf8(HEADER@)
}

pub open spec fn ping_text(p: PingResult) -> Seq<char> {
    match p {
        PingResult::Success => "Success"@,
        PingResult::Failure => "Failure"@,
    }
}

pub open spec fn email_text(e: EmailResult) -> Seq<char> {
    match e {
        EmailResult::SentSuccessfully => "SentSuccessfully"@,
        EmailResult::FailedToSend => "FailedToSend"@,
        EmailResult::NotSent => "NotSent"@,
    }
}

/// A timestamp as `YYYY-MM-DDTHH:MM:SS.nnnnnnnnnZ`.
pub open spec fn timestamp_bytes(t: Timestamp) -> Seq<u8> {
    fixed_digits(t.year as nat, 4) + seq![45u8] + fixed_digits(t.month as nat, 2) + seq![45u8]
        + fixed_digits(t.day as nat, 2) + seq![84u8] + fixed_digits(t.hour as nat, 2) + seq![
        58u8,
    ] + fixed_digits(t.minute as nat, 2) + seq![58u8] + fixed_digits(t.second as nat, 2) + seq![
        46u8,
    ] + fixed_digits(t.nanosecond as nat, 9) + seq![90u8]
}

pub open spec fn window(v: Seq<u8>, start: int, w: int) -> nat {
    digits_value(v.subrange(start, start + w))
}

pub open spec fn window_digits(v: Seq<u8>, start: int, w: int) -> bool {
    all_digits(v.subrange(start, start + w))
}

/// The nanoseconds that a timestamp's ending spells from position 19: `Z` alone,
/// or a dot, three, six or nine digits of the second, and `Z`.
pub open spec fn parse_fraction(v: Seq<u8>) -> Option<nat> {
    if v.len() == 20 && v[19] == 90 {
        Some(0)
    } else if v.len() == 24 && v[19] == 46 && window_digits(v, 20, 3) && v[23] == 90 {
        Some(window(v, 20, 3) * 1_000_000)
    } else if v.len() == 27 && v[19] == 46 && window_digits(v, 20, 6) && v[26] == 90 {
        Some(window(v, 20, 6) * 1000)
    } else if v.len() == 30 && v[19] == 46 && window_digits(v, 20, 9) && v[29] == 90 {
        Some(window(v, 20, 9))
    } else {
        None
    }
}

/// Reads a timestamp as `YYYY-MM-DDTHH:MM:SS` followed by `Z` or by a fraction of
/// three, six or nine digits and `Z`.
pub open spec fn parse_timestamp(v: Seq<u8>) -> Option<Timestamp> {
    if v.len() >= 20 && v[4] == 45 && v[7] == 45 && v[10] == 84 && v[13] == 58 && v[16] == 58
        && window_digits(v, 0, 4) && window_digits(v, 5, 2) && window_digits(v, 8, 2)
        && window_digits(v, 11, 2) && window_digits(v, 14, 2) && window_digits(v, 17, 2)
        && parse_fraction(v) is Some && parse_fraction(v)->Some_0 < 1_000_000_000 {
        let t = Timestamp {
            year: window(v, 0, 4) as u32,
            month: window(v, 5, 2) as u32,
            day: window(v, 8, 2) as u32,
            hour: window(v, 11, 2) as u32,
            minute: window(v, 14, 2) as u32,
            second: window(v, 17, 2) as u32,
            nanosecond: parse_fraction(v)->Some_0 as u32,
        };
        if t.wf() {
            Some(t)
        } else {
            None
        }
    } else {
        None
    }
}

/// The eight fields of an entry's row, in header order; `None` is an absent value.
pub open spec fn entry_fields(e: EntryView) -> Seq<Option<Seq<u8>>> {
    seq![
        Some(decimal(e.entry_version as nat)),
        Some(timestamp_bytes(e.timestamp)),
        Some(encode_utf8(e.pinged_url)),
        Some(encode_utf8(e.request_state)),
        Some(encode_utf8(ping_text(e.ping_result))),
        text_bytes(e.ping_error),
        Some(encode_utf8(email_text(e.email_result))),
        text_bytes(e.email_error),
    ]
}

pub open spec fn text_bytes(o: Option<Seq<char>>) -> Option<Seq<u8>> {
    match o {
        Some(c) => Some(encode_utf8(c)),
        None => None,
    }
}

/// Fields joined by commas, the last one ended by a line feed.
pub open spec fn join_fields(fs: Seq<Option<Seq<u8>>>) -> Seq<u8>
    decreases fs.len(),
{
    if fs.len() == 0 {
        Seq::empty()
    } else if fs.len() == 1 {
        optional_field_bytes(fs[0]) + seq![NEWLINE]
    } else {
        optional_field_bytes(fs[0]) + seq![COMMA] + join_fields(fs.drop_first())
    }
}

/// The bytes of one entry's row.
pub open spec fn row_bytes(e: EntryView) -> Seq<u8> {
    join_fields(entry_fields(e))
}

/// The rows of a sequence of entries, in order.
pub open spec fn rows_bytes(es: Seq<EntryView>) -> Seq<u8>
    decreases es.len(),
{
    if es.len() == 0 {
        Seq::empty()
    } else {
        rows_bytes(es.drop_last()) + row_bytes(es.last())
    }
}

/// A whole store: the header, then one row per entry.
pub open spec fn store_bytes(es: Seq<EntryView>) -> Seq<u8> {
    header_bytes() + rows_bytes(es)
}

pub open spec fn field_sep(n: nat) -> u8 {
    if n == 1 {
        NEWLINE
    } else {
        COMMA
    }
}

/// Reads `n` fields from `i`, the last one ended by a line feed and the others by
/// commas: the fields read so far follow `acc`.
pub open spec fn read_fields(t: Seq<u8>, i: int, n: nat, acc: Seq<(Seq<u8>, bool)>) -> Option<
    (Seq<(Seq<u8>, bool)>, int),
>
    decreases n,
{
    if n == 0 {
        Some((acc, i))
    } else {
        match read_field(t, i) {
            Some((v, q, j)) => if 0 <= j < t.len() && t[j] == field_sep(n) {
                read_fields(t, j + 1, (n - 1) as nat, acc.push((v, q)))
            } else {
                None
            },
            None => None,
        }
    }
}

/// A text value: valid UTF-8.
pub open spec fn parse_text(v: Seq<u8>) -> Option<Seq<char>> {
    if valid_utf8(v) {
        Some(decode_utf8(v))
    } else {
        None
    }
}

/// An optional text value: an empty unquoted field is absent.
pub open spec fn parse_optional_text(f: (Seq<u8>, bool)) -> Option<Option<Seq<char>>> {
    if !f.1 && f.0.len() == 0 {
        Some(None)
    } else {
        match parse_text(f.0) {
            Some(c) => Some(Some(c)),
            None => None,
        }
    }
}

pub open spec fn parse_ping(v: Seq<u8>) -> Option<PingResult> {
    if v == encode_utf8(ping_text(PingResult::Success)) {
        Some(PingResult::Success)
    } else if v == encode_utf8(ping_text(PingResult::Failure)) {
        Some(PingResult::Failure)
    } else {
        None
    }
}

pub open spec fn parse_email(v: Seq<u8>) -> Option<EmailResult> {
    if v == encode_utf8(email_text(EmailResult::SentSuccessfully)) {
        Some(EmailResult::SentSuccessfully)
    } else if v == encode_utf8(email_text(EmailResult::FailedToSend)) {
        Some(EmailResult::FailedToSend)
    } else if v == encode_utf8(email_text(EmailResult::NotSent)) {
        Some(EmailResult::NotSent)
    } else {
        None
    }
}

/// A version: one to ten digits, spelling a number that fits in 32 bits.
pub open spec fn parse_version(v: Seq<u8>) -> Option<u32> {
    if 1 <= v.len() <= 10 && all_digits(v) && digits_value(v) <= u32::MAX {
        Some(digits_value(v) as u32)
    } else {
        None
    }
}

/// The entry that eight raw fields spell, if they spell one.
pub open spec fn entry_of_fields(f: Seq<(Seq<u8>, bool)>) -> Option<EntryView> {
    if f.len() == 8 && parse_version(f[0].0) is Some && parse_timestamp(f[1].0) is Some
        && parse_text(f[2].0) is Some && parse_text(f[3].0) is Some && parse_ping(f[4].0) is Some
        && parse_optional_text(f[5]) is Some && parse_email(f[6].0) is Some
        && parse_optional_text(f[7]) is Some {
        Some(
            EntryView {
                entry_version: parse_version(f[0].0)->Some_0,
                timestamp: parse_timestamp(f[1].0)->Some_0,
                pinged_url: parse_text(f[2].0)->Some_0,
                request_state: parse_text(f[3].0)->Some_0,
                ping_result: parse_ping(f[4].0)->Some_0,
                ping_error: parse_optional_text(f[5])->Some_0,
                email_result: parse_email(f[6].0)->Some_0,
                email_error: parse_optional_text(f[7])->Some_0,
            },
        )
    } else {
        None
    }
}

/// Reads the row that starts at `i`: its entry and the position after its line feed.
pub open spec fn read_row(t: Seq<u8>, i: int) -> Option<(EntryView, int)> {
    match read_fields(t, i, 8, Seq::empty()) {
        Some((f, j)) => match entry_of_fields(f) {
            Some(e) => Some((e, j)),
            None => None,
        },
        None => None,
    }
}

/// Reads rows from `i` to the end; the entries read so far are `acc`.
pub open spec fn read_rows(t: Seq<u8>, i: int, acc: Seq<EntryView>) -> Option<Seq<EntryView>>
    decreases t.len() - i,
{
    if i < 0 || i >= t.len() {
        Some(acc)
    } else {
        match read_row(t, i) {
            Some((e, j)) => if i < j <= t.len() {
                read_rows(t, j, acc.push(e))
            } else {
                None
            },
            None => None,
        }
    }
}

/// What a store's bytes hold: nothing for an empty store, else the header and then
/// rows, each of which must read as an entry.
pub open spec fn read_store(t: Seq<u8>) -> Option<Seq<EntryView>> {
    if t.len() == 0 {
        Some(Seq::empty())
    } else if t.len() >= header_bytes().len() && t.take(header_bytes().len() as int)
        == header_bytes() {
        read_rows(t, header_bytes().len() as int, Seq::empty())
    } else {
        None
    }
}

/// An entry that its row can hold: one with a valid timestamp.
pub open spec fn storable(e: EntryView) -> bool {
    e.timestamp.wf()
}

/// How a field reads back: its bytes and whether it was quoted.
pub open spec fn raw_field(o: Option<Seq<u8>>) -> (Seq<u8>, bool) {
    match o {
        None => (Seq::empty(), false),
        Some(v) => (v, needs_quotes(v)),
    }
}

pub open spec fn raw_fields(fs: Seq<Option<Seq<u8>>>) -> Seq<(Seq<u8>, bool)> {
    fs.map_values(|o: Option<Seq<u8>>| raw_field(o))
}

proof fn lemma_read_fields(t: Seq<u8>, i: int, fs: Seq<Option<Seq<u8>>>, acc: Seq<(Seq<u8>, bool)>)
    requires
        0 <= i,
        i + join_fields(fs).len() <= t.len(),
        t.subrange(i, i + join_fields(fs).len()) == join_fields(fs),
    ensures
        read_fields(t, i, fs.len(), acc) == Some((acc + raw_fields(fs), i + join_fields(fs).len())),
    decreases fs.len(),
{
    let jf = join_fields(fs);
    if fs.len() == 0 {
        assert(acc + raw_fields(fs) =~= acc);
    } else {
        let f0 = optional_field_bytes(fs[0]);
        let rest = fs.drop_first();
        let sep = field_sep(fs.len() as nat);
        let tail = if fs.len() == 1 {
            Seq::<u8>::empty()
        } else {
            join_fields(rest)
        };
        assert(jf =~= f0 + seq![sep] + tail);
        let j = i + f0.len();
        assert(t[j] == jf[f0.len() as int]);
        assert(t.subrange(i, j) =~= f0) by {
            assert forall|m: int| 0 <= m < f0.len() implies t.subrange(i, j)[m] == f0[m] by {
                assert(t.subrange(i, i + jf.len())[m] == jf[m]);
            }
        }
        match fs[0] {
            Some(v) => {
                lemma_read_field(t, i, v);
            },
            None => {
                assert(f0.len() == 0);
                assert(unquoted_end(t, i) == i);
                assert(t.subrange(i, i) =~= Seq::<u8>::empty());
            },
        }
        assert(read_field(t, i) == Some((raw_field(fs[0]).0, raw_field(fs[0]).1, j)));
        let acc2 = acc.push(raw_field(fs[0]));
        if fs.len() == 1 {
            assert(acc + raw_fields(fs) =~= acc2);
        } else {
            assert(t.subrange(j + 1, j + 1 + tail.len()) =~= tail) by {
                assert forall|m: int| 0 <= m < tail.len() implies t.subrange(j + 1, j + 1
                    + tail.len())[m] == tail[m] by {
                    assert(t.subrange(i, i + jf.len())[f0.len() + 1 + m] == jf[f0.len() + 1 + m]);
                }
            }
            lemma_read_fields(t, j + 1, rest, acc2);
            assert(rest.len() == (fs.len() - 1) as nat);
            assert(acc2 + raw_fields(rest) =~= acc + raw_fields(fs));
        }
    }
}

proof fn lemma_timestamp(t: Timestamp)
    requires
        t.wf(),
    ensures
        parse_timestamp(timestamp_bytes(t)) == Some(t),
{
    reveal_with_fuel(pow10, 10);
    lemma_fixed_digits(t.year as nat, 4);
    lemma_fixed_digits(t.month as nat, 2);
    lemma_fixed_digits(t.day as nat, 2);
    lemma_fixed_digits(t.hour as nat, 2);
    lemma_fixed_digits(t.minute as nat, 2);
    lemma_fixed_digits(t.second as nat, 2);
    lemma_fixed_digits(t.nanosecond as nat, 9);
    let v = timestamp_bytes(t);
    assert(v.len() == 30);
    assert(v.subrange(0, 4) =~= fixed_digits(t.year as nat, 4));
    assert(v.subrange(5, 7) =~= fixed_digits(t.month as nat, 2));
    assert(v.subrange(8, 10) =~= fixed_digits(t.day as nat, 2));
    assert(v.subrange(11, 13) =~= fixed_digits(t.hour as nat, 2));
    assert(v.subrange(14, 16) =~= fixed_digits(t.minute as nat, 2));
    assert(v.subrange(17, 19) =~= fixed_digits(t.second as nat, 2));
    assert(v.subrange(20, 29) =~= fixed_digits(t.nanosecond as nat, 9));
    assert(v[4] == 45 && v[7] == 45 && v[10] == 84 && v[13] == 58 && v[16] == 58 && v[19] == 46
        && v[29] == 90);
}

proof fn lemma_text(c: Seq<char>)
    ensures
        parse_text(encode_utf8(c)) == Some(c),
{
    encode_utf8_valid_utf8(c);
    encode_utf8_decode_utf8(c);
}

proof fn lemma_distinct_texts(a: Seq<char>, b: Seq<char>)
    requires
        a != b,
    ensures
        encode_utf8(a) != encode_utf8(b),
{
    encode_utf8_decode_utf8(a);
    encode_utf8_decode_utf8(b);
}

proof fn lemma_optional_text(o: Option<Seq<char>>)
    ensures
        parse_optional_text(raw_field(text_bytes(o))) == Some(o),
{
    if let Some(c) = o {
        lemma_text(c);
    }
}

proof fn lemma_version(v: u32)
    ensures
        parse_version(decimal(v as nat)) == Some(v),
{
    lemma_decimal(v as nat);
    reveal_with_fuel(pow10, 11);
    lemma_decimal_len(v as nat, 10);
}

proof fn lemma_ping(p: PingResult)
    ensures
        parse_ping(encode_utf8(ping_text(p))) == Some(p),
{
    reveal_strlit("Success");
    reveal_strlit("Failure");
    assert("Success"@ != "Failure"@) by {
        assert("Success"@[0] != "Failure"@[0]);
    }
    lemma_distinct_texts("Success"@, "Failure"@);
}

proof fn lemma_email(e: EmailResult)
    ensures
        parse_email(encode_utf8(email_text(e))) == Some(e),
{
    reveal_strlit("SentSuccessfully");
    reveal_strlit("FailedToSend");
    reveal_strlit("NotSent");
    assert("SentSuccessfully"@ != "FailedToSend"@) by {
        assert("SentSuccessfully"@[0] != "FailedToSend"@[0]);
    }
    assert("SentSuccessfully"@ != "NotSent"@) by {
        assert("SentSuccessfully"@[0] != "NotSent"@[0]);
    }
    assert("FailedToSend"@ != "NotSent"@) by {
        assert("FailedToSend"@[0] != "NotSent"@[0]);
    }
    lemma_distinct_texts("SentSuccessfully"@, "FailedToSend"@);
    lemma_distinct_texts("SentSuccessfully"@, "NotSent"@);
    lemma_distinct_texts("FailedToSend"@, "NotSent"@);
}

proof fn lemma_entry_fields(e: EntryView)
    requires
        storable(e),
    ensures
        entry_of_fields(raw_fields(entry_fields(e))) == Some(e),
{
    let f = raw_fields(entry_fields(e));
    lemma_version(e.entry_version);
    lemma_timestamp(e.timestamp);
    lemma_text(e.pinged_url);
    lemma_text(e.request_state);
    lemma_optional_text(e.ping_error);
    lemma_optional_text(e.email_error);
    lemma_ping(e.ping_result);
    lemma_email(e.email_result);
    assert(f[0] == raw_field(Some(decimal(e.entry_version as nat))));
    assert(f[1] == raw_field(Some(timestamp_bytes(e.timestamp))));
    assert(f[2] == raw_field(Some(encode_utf8(e.pinged_url))));
    assert(f[3] == raw_field(Some(encode_utf8(e.request_state))));
    assert(f[4] == raw_field(Some(encode_utf8(ping_text(e.ping_result)))));
    assert(f[5] == raw_field(text_bytes(e.ping_error)));
    assert(f[6] == raw_field(Some(encode_utf8(email_text(e.email_result)))));
    assert(f[7] == raw_field(text_bytes(e.email_error)));
}

proof fn lemma_rows_prefix(es: Seq<EntryView>, m: int)
    requires
        0 <= m <= es.len(),
    ensures
        rows_bytes(es.take(m)).len() <= rows_bytes(es).len(),
        rows_bytes(es).subrange(0, rows_bytes(es.take(m)).len() as int) == rows_bytes(es.take(m)),
    decreases es.len(),
{
    if m == es.len() {
        assert(es.take(m) =~= es);
    } else {
        lemma_rows_prefix(es.drop_last(), m);
        assert(es.drop_last().take(m) =~= es.take(m));
        let a = rows_bytes(es.take(m));
        let b = rows_bytes(es.drop_last());
        assert(rows_bytes(es) == b + row_bytes(es.last()));
        assert(rows_bytes(es).subrange(0, a.len() as int) =~= b.subrange(0, a.len() as int));
    }
}

proof fn lemma_row_len(e: EntryView)
    ensures
        row_bytes(e).len() >= 1,
        row_bytes(e)[row_bytes(e).len() - 1] == NEWLINE,
{
    reveal_with_fuel(join_fields, 9);
    let fs = entry_fields(e);
    assert(fs.len() == 8);
}

proof fn lemma_read_row(t: Seq<u8>, p: int, e: EntryView)
    requires
        storable(e),
        0 <= p,
        p + row_bytes(e).len() <= t.len(),
        t.subrange(p, p + row_bytes(e).len()) == row_bytes(e),
    ensures
        read_row(t, p) == Some((e, p + row_bytes(e).len())),
        row_bytes(e).len() >= 1,
{
    let fs = entry_fields(e);
    assert(fs.len() == 8);
    lemma_read_fields(t, p, fs, Seq::empty());
    assert(Seq::<(Seq<u8>, bool)>::empty() + raw_fields(fs) =~= raw_fields(fs));
    lemma_entry_fields(e);
    lemma_row_len(e);
}

proof fn lemma_row_slice(es: Seq<EntryView>, k: int)
    requires
        0 <= k < es.len(),
    ensures
        ({
            let p = header_bytes().len() + rows_bytes(es.take(k)).len();
            let q = p + row_bytes(es[k]).len();
            &&& q <= store_bytes(es).len()
            &&& store_bytes(es).subrange(p as int, q as int) == row_bytes(es[k])
            &&& rows_bytes(es.take(k + 1)).len() == rows_bytes(es.take(k)).len() + row_bytes(
                es[k],
            ).len()
        }),
{
    let t = store_bytes(es);
    let h = header_bytes();
    let r = row_bytes(es[k]);
    let p: int = (h.len() + rows_bytes(es.take(k)).len()) as int;
    let q: int = p + r.len() as int;
    lemma_rows_prefix(es, k + 1);
    assert(es.take(k + 1).drop_last() =~= es.take(k));
    assert(rows_bytes(es.take(k + 1)) == rows_bytes(es.take(k)) + r);
    let rk: int = rows_bytes(es.take(k)).len() as int;
    assert(t.subrange(p, q) =~= r) by {
        assert forall|m: int| 0 <= m < r.len() implies t.subrange(p, q)[m] == r[m] by {
            assert(rows_bytes(es).subrange(0, rows_bytes(es.take(k + 1)).len() as int)[rk + m]
                == rows_bytes(es.take(k + 1))[rk + m]);
        }
    }
}

proof fn lemma_read_rows(es: Seq<EntryView>, k: int)
    requires
        0 <= k <= es.len(),
        forall|m: int| 0 <= m < es.len() ==> storable(#[trigger] es[m]),
    ensures
        read_rows(
            store_bytes(es),
            (header_bytes().len() + rows_bytes(es.take(k)).len()) as int,
            es.take(k),
        ) == Some(es),
    decreases es.len() - k,
{
    let t = store_bytes(es);
    let h = header_bytes();
    let p: int = (h.len() + rows_bytes(es.take(k)).len()) as int;
    lemma_rows_prefix(es, k);
    if k == es.len() {
        assert(es.take(k) =~= es);
        assert(p == t.len());
    } else {
        let e = es[k];
        lemma_row_slice(es, k);
        lemma_read_row(t, p, e);
        assert(es.take(k).push(e) =~= es.take(k + 1));
        lemma_read_rows(es, k + 1);
    }
}

/// Every sequence of storable entries, written as a store, reads back as the same
/// entries in the same order.
pub proof fn lemma_store_round_trip(es: Seq<EntryView>)
    requires
        forall|m: int| 0 <= m < es.len() ==> storable(#[trigger] es[m]),
    ensures
        read_store(store_bytes(es)) == Some(es),
{
    let t = store_bytes(es);
    let h = header_bytes();
    assert(t.take(h.len() as int) =~= h);
    assert(es.take(0) =~= Seq::<EntryView>::empty());
    lemma_read_rows(es, 0);
    if t.len() == 0 {
        assert(es.len() == 0) by {
            if es.len() > 0 {
                lemma_rows_prefix(es, es.len() - 1);
                lemma_row_len(es.last());
            }
        }
    }
}

pub open spec fn row_part(e: EntryView, k: int) -> Seq<u8> {
    optional_field_bytes(entry_fields(e)[k]) + seq![field_sep((8 - k) as nat)]
}

/// A row is its eight fields, each followed by its separator.
pub proof fn lemma_row_parts(e: EntryView)
    ensures
        row_bytes(e) == row_part(e, 0) + row_part(e, 1) + row_part(e, 2) + row_part(e, 3)
            + row_part(e, 4) + row_part(e, 5) + row_part(e, 6) + row_part(e, 7),
{
    let fs = entry_fields(e);
    reveal_with_fuel(join_fields, 9);
    assert(fs.drop_first().drop_first().drop_first().drop_first().drop_first().drop_first().drop_first() =~= seq![fs[7]]);
    assert(row_bytes(e) =~= row_part(e, 0) + row_part(e, 1) + row_part(e, 2) + row_part(e, 3)
        + row_part(e, 4) + row_part(e, 5) + row_part(e, 6) + row_part(e, 7));
}

} // verus!
