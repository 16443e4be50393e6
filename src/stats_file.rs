use vstd::prelude::*;
use vstd::utf8::{decode_utf8, valid_utf8};
use crate::digits::{
    all_digits, digits_value, is_digit, lemma_digits_value_bound, lemma_pow10_bound, parse_digits, pow10,
    push_decimal, push_fixed,
};
use crate::entry::{
    entries_view, opt_view, EmailResult, EntryView, PingResult, StatsEntry, Timestamp, ENTRY_VERSION,
};
use crate::fields::{push_field, read_field_at, COMMA, NEWLINE};
use crate::row::{
    email_text, entry_of_fields, field_sep, header_bytes, parse_email,
    parse_fraction, parse_optional_text, parse_ping, parse_text, parse_timestamp, parse_version,
    ping_text,
    read_fields, read_row, read_rows, read_store, row_bytes, row_part, rows_bytes, store_bytes,
    timestamp_bytes, HEADER,
};

verus! {

/// What stands at the stats file's path.
#[derive(Clone, Copy, Debug, PartialEq, Eq, Structural)]
pub enum StoreState {
    /// Nothing: the store is yet to be created.
    Missing,
    /// A regular file.
    File,
    /// Something that is not a regular file, such as a directory.
    NotAFile,
}

/// The store's structural errors, each fatal to the process that meets it.
#[derive(Clone, Copy, Debug, PartialEq, Eq, Structural)]
pub enum StatsFileError {
    /// The store does not exist.
    Missing,
    /// The path holds something that is not a regular file.
    NotAFile,
    /// The store's bytes are not a header followed by well-formed rows.
    Malformed,
    /// The clock gave a time whose year does not have four digits.
    ClockOutOfRange,
}

/// The bytes to write for one append, and how.
#[derive(Clone, Debug)]
pub enum LogWrite {
    /// Create the store and write these bytes: the header and the first row.
    Create(Vec<u8>),
    /// Open the existing store for appending and write this row.
    Append(Vec<u8>),
}

/// Relies on `String::from_utf8`: it accepts exactly the valid UTF-8 sequences,
/// and the string holds the characters that the bytes encode.
#[verifier::external_body]
fn utf8_string(v: Vec<u8>) -> (r: Option<String>)
    ensures
        r is Some <==> valid_utf8(v@),
        r matches Some(s) ==> s@ == decode_utf8(v@),
{
    String::from_utf8(v).ok()
}

fn push_bytes(out: &mut Vec<u8>, src: &[u8])
    ensures
        final(out)@ == old(out)@ + src@,
{
    let n = src.len();
    let mut j: usize = 0;
    while j < n
        invariant
            n == src@.len(),
            j <= n,
            out@ == old(out)@ + src@.take(j as int),
        decreases n - j,
    {
        out.push(src[j]);
        j = j + 1;
        assert(src@.take(j as int) =~= src@.take(j - 1).push(src@[j - 1]));
        assert(out@ =~= old(out)@ + src@.take(j as int));
    }
    assert(src@.take(n as int) =~= src@);
}

fn bytes_equal(a: &[u8], b: &[u8]) -> (r: bool)
    ensures
        r == (a@ == b@),
{
    if a.len() != b.len() {
        return false;
    }
    let n = a.len();
    let mut j: usize = 0;
    while j < n
        invariant
            n == a@.len() == b@.len(),
            j <= n,
            a@.take(j as int) == b@.take(j as int),
        decreases n - j,
    {
        if a[j] != b[j] {
            return false;
        }
        j = j + 1;
        assert(a@.take(j as int) =~= a@.take(j - 1).push(a@[j - 1]));
        assert(b@.take(j as int) =~= b@.take(j - 1).push(b@[j - 1]));
    }
    assert(a@.take(n as int) =~= a@);
    assert(b@.take(n as int) =~= b@);
    true
}

fn push_timestamp(out: &mut Vec<u8>, t: Timestamp)
    requires
        t.wf(),
    ensures
        final(out)@ == old(out)@ + timestamp_bytes(t),
{
    proof {
        reveal_with_fuel(pow10, 10);
    }
    push_fixed(out, t.year, 4);
    out.push(45);
    push_fixed(out, t.month, 2);
    out.push(45);
    push_fixed(out, t.day, 2);
    out.push(84);
    push_fixed(out, t.hour, 2);
    out.push(58);
    push_fixed(out, t.minute, 2);
    out.push(58);
    push_fixed(out, t.second, 2);
    out.push(46);
    push_fixed(out, t.nanosecond, 9);
    out.push(90);
    assert(out@ =~= old(out)@ + timestamp_bytes(t));
}

fn parse_fraction_bytes(v: &[u8]) -> (r: Option<u32>)
    ensures
        match parse_fraction(v@) {
            None => r is None,
            Some(n) => r matches Some(x) && x as nat == n && n < 1_000_000_000,
        },
{
    proof {
        reveal_with_fuel(pow10, 10);
    }
    let n = v.len();
    if n == 20 {
        if v[19] == 90 {
            return Some(0);
        }
        return None;
    }
    if n != 24 && n != 27 && n != 30 {
        return None;
    }
    if v[19] != 46 || v[n - 1] != 90 {
        return None;
    }
    let w = n - 21;
    match parse_digits(v, 20, w) {
        None => None,
        Some(d) => {
            proof {
                lemma_digits_value_bound(v@.subrange(20, 20 + w as int));
            }
            if w == 3 {
                Some(d * 1_000_000)
            } else if w == 6 {
                Some(d * 1000)
            } else {
                Some(d)
            }
        },
    }
}

/// Reads a timestamp (see `parse_timestamp`).
pub fn parse_timestamp_bytes(v: &[u8]) -> (r: Option<Timestamp>)
    ensures
        r == parse_timestamp(v@),
{
    if v.len() < 20 || v[4] != 45 || v[7] != 45 || v[10] != 84 || v[13] != 58 || v[16] != 58 {
        return None;
    }
    let year = parse_digits(v, 0, 4);
    let month = parse_digits(v, 5, 2);
    let day = parse_digits(v, 8, 2);
    let hour = parse_digits(v, 11, 2);
    let minute = parse_digits(v, 14, 2);
    let second = parse_digits(v, 17, 2);
    let nanosecond = parse_fraction_bytes(v);
    match (year, month, day, hour, minute, second, nanosecond) {
        (Some(y), Some(mo), Some(d), Some(h), Some(mi), Some(s), Some(n)) => {
            Timestamp::from_parts(y, mo, d, h, mi, s, n)
        },
        _ => None,
    }
}

/// The bytes of `e`'s row.
pub fn encode_entry(e: &StatsEntry) -> (r: Vec<u8>)
    requires
        e.timestamp.wf(),
    ensures
        r@ == row_bytes(e@),
{
    let ghost ev = e@;
    proof {
        crate::row::lemma_row_parts(ev);
    }
    let mut out: Vec<u8> = Vec::new();
    let mut version: Vec<u8> = Vec::new();
    push_decimal(&mut version, e.entry_version);
    push_field(&mut out, version.as_slice());
    out.push(COMMA);
    assert(out@ =~= row_part(ev, 0));
    let mut time: Vec<u8> = Vec::new();
    push_timestamp(&mut time, e.timestamp);
    push_field(&mut out, time.as_slice());
    out.push(COMMA);
    assert(out@ =~= row_part(ev, 0) + row_part(ev, 1));
    push_field(&mut out, e.pinged_url.as_str().as_bytes());
    out.push(COMMA);
    assert(out@ =~= row_part(ev, 0) + row_part(ev, 1) + row_part(ev, 2));
    push_field(&mut out, e.request_state.as_str().as_bytes());
    out.push(COMMA);
    let ghost first_four = row_part(ev, 0) + row_part(ev, 1) + row_part(ev, 2) + row_part(ev, 3);
    assert(out@ =~= first_four);
    let ping = match e.ping_result {
        PingResult::Success => "Success",
        PingResult::Failure => "Failure",
    };
    assert(ping@ == ping_text(e.ping_result));
    push_field(&mut out, ping.as_bytes());
    out.push(COMMA);
    assert(out@ =~= first_four + row_part(ev, 4));
    match &e.ping_error {
        Some(s) => push_field(&mut out, s.as_str().as_bytes()),
        None => {},
    }
    out.push(COMMA);
    let ghost first_six = first_four + row_part(ev, 4) + row_part(ev, 5);
    assert(out@ =~= first_six);
    let email = match e.email_result {
        EmailResult::SentSuccessfully => "SentSuccessfully",
        EmailResult::FailedToSend => "FailedToSend",
        EmailResult::NotSent => "NotSent",
    };
    assert(email@ == email_text(e.email_result));
    push_field(&mut out, email.as_bytes());
    out.push(COMMA);
    assert(out@ =~= first_six + row_part(ev, 6));
    match &e.email_error {
        Some(s) => push_field(&mut out, s.as_str().as_bytes()),
        None => {},
    }
    out.push(NEWLINE);
    assert(out@ =~= first_six + row_part(ev, 6) + row_part(ev, 7));
    out
}

/// The header row's bytes.
pub fn encode_header() -> (r: Vec<u8>)
    ensures
        r@ == header_bytes(),
{
    let mut out: Vec<u8> = Vec::new();
    push_bytes(&mut out, HEADER.as_bytes());
    assert(out@ =~= header_bytes());
    out
}

pub open spec fn fields_so_far(vals: Seq<Vec<u8>>, quoted: Seq<bool>) -> Seq<(Seq<u8>, bool)> {
    Seq::new(vals.len(), |m: int| (vals[m]@, quoted[m]))
}

fn copy_bytes(v: &Vec<u8>) -> (r: Vec<u8>)
    ensures
        r@ == v@,
{
    let mut out: Vec<u8> = Vec::new();
    push_bytes(&mut out, v.as_slice());
    assert(out@ =~= v@);
    out
}

fn parse_text_field(v: &Vec<u8>) -> (r: Option<String>)
    ensures
        match parse_text(v@) {
            None => r is None,
            Some(c) => r matches Some(s) && s@ == c,
        },
{
    utf8_string(copy_bytes(v))
}

fn parse_optional_text_field(v: &Vec<u8>, quoted: bool) -> (r: Option<Option<String>>)
    ensures
        match parse_optional_text((v@, quoted)) {
            None => r is None,
            Some(o) => r matches Some(o2) && opt_view(o2) == o,
        },
{
    if !quoted && v.len() == 0 {
        Some(None)
    } else {
        match parse_text_field(v) {
            Some(s) => Some(Some(s)),
            None => None,
        }
    }
}

fn parse_ping_field(v: &Vec<u8>) -> (r: Option<PingResult>)
    ensures
        r == parse_ping(v@),
{
    if bytes_equal(v.as_slice(), "Success".as_bytes()) {
        Some(PingResult::Success)
    } else if bytes_equal(v.as_slice(), "Failure".as_bytes()) {
        Some(PingResult::Failure)
    } else {
        None
    }
}

fn parse_email_field(v: &Vec<u8>) -> (r: Option<EmailResult>)
    ensures
        r == parse_email(v@),
{
    if bytes_equal(v.as_slice(), "SentSuccessfully".as_bytes()) {
        Some(EmailResult::SentSuccessfully)
    } else if bytes_equal(v.as_slice(), "FailedToSend".as_bytes()) {
        Some(EmailResult::FailedToSend)
    } else if bytes_equal(v.as_slice(), "NotSent".as_bytes()) {
        Some(EmailResult::NotSent)
    } else {
        None
    }
}

fn parse_version_field(v: &Vec<u8>) -> (r: Option<u32>)
    ensures
        r == parse_version(v@),
{
    let n = v.len();
    if n < 1 || n > 10 {
        return None;
    }
    if n <= 9 {
        let r = parse_digits(v.as_slice(), 0, n);
        assert(v@.subrange(0, n as int) =~= v@);
        proof {
            if r is Some {
                lemma_digits_value_bound(v@);
                lemma_pow10_bound(n as nat);
            }
        }
        return r;
    }
    let high = parse_digits(v.as_slice(), 0, 9);
    let low = parse_digits(v.as_slice(), 9, 1);
    assert(v@.subrange(0, 9) =~= v@.drop_last());
    let ghost w = v@;
    assert(all_digits(w) <==> all_digits(w.drop_last()) && all_digits(w.subrange(9, 10))) by {
        if all_digits(w.drop_last()) && all_digits(w.subrange(9, 10)) {
            assert forall|i: int| 0 <= i < w.len() implies is_digit(#[trigger] w[i]) by {
                if i < 9 {
                    assert(w[i] == w.drop_last()[i]);
                } else {
                    assert(w[i] == w.subrange(9, 10)[0]);
                }
            }
        }
        if all_digits(w) {
            assert forall|i: int| 0 <= i < 9 implies is_digit(#[trigger] w.drop_last()[i]) by {
                assert(w.drop_last()[i] == w[i]);
            }
            assert forall|i: int| 0 <= i < 1 implies is_digit(#[trigger] w.subrange(9, 10)[i]) by {
                assert(w.subrange(9, 10)[i] == w[9]);
            }
        }
    }
    match (high, low) {
        (Some(h), Some(l)) => {
            assert(digits_value(w.subrange(9, 10)) == (w.last() - 48) as nat) by {
                assert(w.subrange(9, 10).drop_last() =~= Seq::<u8>::empty());
                assert(digits_value(Seq::<u8>::empty()) == 0);
                assert(w.subrange(9, 10).last() == w.last());
            }
            assert(digits_value(w) == digits_value(w.drop_last()) * 10 + (w.last() - 48) as nat);
            let value: u64 = h as u64 * 10 + l as u64;
            if value > 4294967295 {
                None
            } else {
                Some(value as u32)
            }
        },
        _ => None,
    }
}

fn entry_from_fields(vals: &Vec<Vec<u8>>, quoted: &Vec<bool>) -> (r: Option<StatsEntry>)
    requires
        vals@.len() == 8,
        quoted@.len() == 8,
    ensures
        match entry_of_fields(fields_so_far(vals@, quoted@)) {
            None => r is None,
            Some(ev) => r matches Some(e) && e@ == ev,
        },
{
    let ghost f = fields_so_far(vals@, quoted@);
    assert(f.len() == 8);
    let version = parse_version_field(&vals[0]);
    let timestamp = parse_timestamp_bytes(vals[1].as_slice());
    let url = parse_text_field(&vals[2]);
    let state = parse_text_field(&vals[3]);
    let ping = parse_ping_field(&vals[4]);
    let ping_error = parse_optional_text_field(&vals[5], quoted[5]);
    let email = parse_email_field(&vals[6]);
    let email_error = parse_optional_text_field(&vals[7], quoted[7]);
    match (version, timestamp, url, state, ping, ping_error, email, email_error) {
        (Some(v), Some(t), Some(u), Some(st), Some(p), Some(pe), Some(em), Some(ee)) => {
            Some(
                StatsEntry {
                    entry_version: v,
                    timestamp: t,
                    pinged_url: u,
                    request_state: st,
                    ping_result: p,
                    ping_error: pe,
                    email_result: em,
                    email_error: ee,
                },
            )
        },
        _ => None,
    }
}

/// Reads the row at `i` (see `read_row`).
fn read_row_at(t: &[u8], i: usize) -> (r: Option<(StatsEntry, usize)>)
    requires
        i <= t@.len(),
    ensures
        match read_row(t@, i as int) {
            None => r is None,
            Some((ev, j)) => r matches Some((e, j2)) && e@ == ev && j2 == j,
        },
{
    let n = t.len();
    let mut vals: Vec<Vec<u8>> = Vec::new();
    let mut quoted: Vec<bool> = Vec::new();
    let mut pos: usize = i;
    let mut k: usize = 0;
    assert(fields_so_far(vals@, quoted@) =~= Seq::<(Seq<u8>, bool)>::empty());
    while k < 8
        invariant
            n == t@.len(),
            k <= 8,
            pos <= n,
            vals@.len() == k,
            quoted@.len() == k,
            read_fields(t@, pos as int, (8 - k) as nat, fields_so_far(vals@, quoted@)) == read_fields(
                t@,
                i as int,
                8,
                Seq::empty(),
            ),
        decreases 8 - k,
    {
        match read_field_at(t, pos) {
            None => {
                return None;
            },
            Some((v, q, j)) => {
                let sep = if k == 7 {
                    NEWLINE
                } else {
                    COMMA
                };
                assert(sep == field_sep((8 - k) as nat));
                if j >= n || t[j] != sep {
                    return None;
                }
                let ghost before = fields_so_far(vals@, quoted@);
                vals.push(v);
                quoted.push(q);
                assert(fields_so_far(vals@, quoted@) =~= before.push((v@, q)));
                pos = j + 1;
                k = k + 1;
            },
        }
    }
    match entry_from_fields(&vals, &quoted) {
        Some(e) => Some((e, pos)),
        None => None,
    }
}

/// Reads a whole store (see `read_store`).
pub fn parse_store(t: &[u8]) -> (r: Option<Vec<StatsEntry>>)
    ensures
        match read_store(t@) {
            None => r is None,
            Some(es) => r matches Some(v) && entries_view(v@) == es,
        },
{
    let n = t.len();
    let mut entries: Vec<StatsEntry> = Vec::new();
    if n == 0 {
        assert(entries_view(entries@) =~= Seq::<EntryView>::empty());
        return Some(entries);
    }
    let header = HEADER.as_bytes();
    let h = header.len();
    if n < h {
        return None;
    }
    let mut k: usize = 0;
    while k < h
        invariant
            n == t@.len(),
            h == header@.len() == header_bytes().len(),
            header@ == header_bytes(),
            h <= n,
            k <= h,
            t@.take(k as int) == header@.take(k as int),
        decreases h - k,
    {
        if t[k] != header[k] {
            assert(t@.take(h as int)[k as int] != header_bytes()[k as int]);
            return None;
        }
        k = k + 1;
        assert(t@.take(k as int) =~= t@.take(k - 1).push(t@[k - 1]));
        assert(header@.take(k as int) =~= header@.take(k - 1).push(header@[k - 1]));
    }
    assert(header@.take(h as int) =~= header@);
    let mut pos: usize = h;
    assert(entries_view(entries@) =~= Seq::<EntryView>::empty());
    while pos < n
        invariant
            n == t@.len(),
            h <= pos <= n,
            h == header_bytes().len(),
            t@.take(h as int) == header_bytes(),
            read_rows(t@, pos as int, entries_view(entries@)) == read_rows(
                t@,
                h as int,
                Seq::empty(),
            ),
        decreases n - pos,
    {
        match read_row_at(t, pos) {
            None => {
                return None;
            },
            Some((e, j)) => {
                if j <= pos || j > n {
                    return None;
                }
                let ghost before = entries_view(entries@);
                let ghost ev = e@;
                entries.push(e);
                assert(entries_view(entries@) =~= before.push(ev));
                pos = j;
            },
        }
    }
    Some(entries)
}

/// Loads every entry of the store, in the order they were appended.
pub fn load_from_file(store: StoreState, contents: &[u8]) -> (r: Result<
    Vec<StatsEntry>,
    StatsFileError,
>)
    ensures
        store == StoreState::Missing ==> r == Err::<Vec<StatsEntry>, _>(StatsFileError::Missing),
        store == StoreState::NotAFile ==> r == Err::<Vec<StatsEntry>, _>(
            StatsFileError::NotAFile,
        ),
        store == StoreState::File ==> match read_store(contents@) {
            None => r == Err::<Vec<StatsEntry>, _>(StatsFileError::Malformed),
            Some(es) => r matches Ok(v) && entries_view(v@) == es,
        },
{
    match store {
        StoreState::Missing => Err(StatsFileError::Missing),
        StoreState::NotAFile => Err(StatsFileError::NotAFile),
        StoreState::File => match parse_store(contents) {
            Some(v) => Ok(v),
            None => Err(StatsFileError::Malformed),
        },
    }
}

impl LogWrite {
    pub open spec fn spec_bytes(self) -> Seq<u8> {
        match self {
            LogWrite::Create(b) => b@,
            LogWrite::Append(b) => b@,
        }
    }
}

impl StatsEntry {
    /// An entry of the current schema version.
    pub fn new(
        timestamp: Timestamp,
        pinged_url: String,
        request_state: String,
        ping_result: PingResult,
        ping_error: Option<String>,
        email_result: EmailResult,
        email_error: Option<String>,
    ) -> (r: StatsEntry)
        ensures
            r.entry_version == ENTRY_VERSION,
            r.timestamp == timestamp,
            r.pinged_url == pinged_url,
            r.request_state == request_state,
            r.ping_result == ping_result,
            r.ping_error == ping_error,
            r.email_result == email_result,
            r.email_error == email_error,
    {
        StatsEntry {
            entry_version: ENTRY_VERSION,
            timestamp,
            pinged_url,
            request_state,
            ping_result,
            ping_error,
            email_result,
            email_error,
        }
    }
}

/// What to write to record `entry`: a new store with the header and the entry's
/// row, the row alone to append to an existing file, or a refusal where the path
/// holds something that is not a file.
pub fn store_write(store: StoreState, entry: &StatsEntry) -> (r: Result<LogWrite, StatsFileError>)
    requires
        entry.timestamp.wf(),
    ensures
        store == StoreState::NotAFile ==> r == Err::<LogWrite, _>(StatsFileError::NotAFile),
        store == StoreState::Missing ==> (r matches Ok(LogWrite::Create(b)) && b@ == store_bytes(
            seq![entry@],
        )),
        store == StoreState::File ==> (r matches Ok(LogWrite::Append(b)) && b@ == row_bytes(
            entry@,
        )),
{
    match store {
        StoreState::NotAFile => Err(StatsFileError::NotAFile),
        StoreState::Missing => {
            let mut out = encode_header();
            let row = encode_entry(entry);
            push_bytes(&mut out, row.as_slice());
            proof {
                let s = seq![entry@];
                assert(s.drop_last() =~= Seq::<EntryView>::empty());
                assert(rows_bytes(Seq::<EntryView>::empty()) =~= Seq::<u8>::empty());
                assert(s.last() == entry@);
                assert(rows_bytes(s) =~= row_bytes(entry@));
            }
            Ok(LogWrite::Create(out))
        },
        StoreState::File => Ok(LogWrite::Append(encode_entry(entry))),
    }
}

/// Records one probe cycle, stamped with the current time: the entry and what to
/// write for it (see `store_write`).
pub fn log_entry(
    store: StoreState,
    state: String,
    ping_url: String,
    ping_result: PingResult,
    ping_error: Option<String>,
    email_result: EmailResult,
    email_error: Option<String>,
) -> (r: Result<(StatsEntry, LogWrite), StatsFileError>)
    ensures
        store == StoreState::NotAFile ==> r == Err::<(StatsEntry, LogWrite), _>(
            StatsFileError::NotAFile,
        ),
        store != StoreState::NotAFile ==> (r is Ok || r == Err::<(StatsEntry, LogWrite), _>(
            StatsFileError::ClockOutOfRange,
        )),
        r matches Ok((e, w)) ==> {
            &&& e.entry_version == ENTRY_VERSION
            &&& e.timestamp.wf()
            &&& e.request_state == state
            &&& e.pinged_url == ping_url
            &&& e.ping_result == ping_result
            &&& e.ping_error == ping_error
            &&& e.email_result == email_result
            &&& e.email_error == email_error
            &&& store == StoreState::Missing ==> w is Create && w.spec_bytes() == store_bytes(
                seq![e@],
            )
            &&& store == StoreState::File ==> w is Append && w.spec_bytes() == row_bytes(e@)
        },
{
    if store == StoreState::NotAFile {
        return Err(StatsFileError::NotAFile);
    }
    let timestamp = match Timestamp::now() {
        Some(t) => t,
        None => {
            return Err(StatsFileError::ClockOutOfRange);
        },
    };
    let entry = StatsEntry::new(
        timestamp,
        ping_url,
        state,
        ping_result,
        ping_error,
        email_result,
        email_error,
    );
    match store_write(store, &entry) {
        Ok(w) => Ok((entry, w)),
        Err(e) => Err(e),
    }
}

/// Appending a row to a store holding `es` gives the store of `es` with that entry
/// last, and a store is read back as the entries written to it, in order.
pub proof fn lemma_append_then_load(es: Seq<EntryView>, e: EntryView)
    requires
        forall|m: int| 0 <= m < es.len() ==> crate::row::storable(#[trigger] es[m]),
        crate::row::storable(e),
    ensures
        store_bytes(es.push(e)) == store_bytes(es) + row_bytes(e),
        read_store(store_bytes(es) + row_bytes(e)) == Some(es.push(e)),
{
    assert(es.push(e).drop_last() =~= es);
    assert(store_bytes(es.push(e)) =~= store_bytes(es) + row_bytes(e));
    crate::row::lemma_store_round_trip(es.push(e));
}

/// The bytes that a run of writes leaves in a store: the first creates it, each
/// later one is appended.
pub open spec fn written(writes: Seq<Seq<u8>>) -> Seq<u8>
    decreases writes.len(),
{
    if writes.len() == 0 {
        Seq::empty()
    } else {
        written(writes.drop_last()) + writes.last()
    }
}

proof fn lemma_written_bytes(es: Seq<EntryView>, writes: Seq<Seq<u8>>)
    requires
        es.len() == writes.len(),
        es.len() > 0,
        writes[0] == store_bytes(seq![es[0]]),
        forall|m: int| 0 < m < writes.len() ==> #[trigger] writes[m] == row_bytes(es[m]),
    ensures
        written(writes) == store_bytes(es),
    decreases es.len(),
{
    let d = es.drop_last();
    let wd = writes.drop_last();
    if es.len() == 1 {
        assert(wd =~= Seq::<Seq<u8>>::empty());
        assert(es =~= seq![es[0]]);
        assert(written(wd) =~= Seq::<u8>::empty());
        assert(written(writes) =~= writes[0]);
    } else {
        assert forall|m: int| 0 < m < wd.len() implies #[trigger] wd[m] == row_bytes(d[m]) by {
            assert(wd[m] == writes[m] && d[m] == es[m]);
        }
        assert(seq![d[0]] =~= seq![es[0]]);
        assert(wd[0] == writes[0]);
        lemma_written_bytes(d, wd);
        assert(writes.last() == writes[writes.len() - 1]);
        assert(es.drop_last() == d);
        assert(rows_bytes(es) == rows_bytes(d) + row_bytes(es.last()));
        assert(store_bytes(es) =~= store_bytes(d) + row_bytes(es.last()));
    }
}

/// Writing entries one by one, as `store_write` gives the bytes (a new store for
/// the first, an appended row for each later one), leaves a store that loads back
/// as exactly those entries, in the order they were written.
pub proof fn lemma_writes_load_back(es: Seq<EntryView>, writes: Seq<Seq<u8>>)
    requires
        es.len() == writes.len(),
        es.len() > 0,
        forall|m: int| 0 <= m < es.len() ==> crate::row::storable(#[trigger] es[m]),
        writes[0] == store_bytes(seq![es[0]]),
        forall|m: int| 0 < m < writes.len() ==> #[trigger] writes[m] == row_bytes(es[m]),
    ensures
        written(writes) == store_bytes(es),
        read_store(written(writes)) == Some(es),
{
    lemma_written_bytes(es, writes);
    crate::row::lemma_store_round_trip(es);
}

/// A store that holds its header alone reads as no entries.
pub proof fn lemma_header_only_store()
    ensures
        read_store(header_bytes()) == Some(Seq::<EntryView>::empty()),
{
    crate::row::lemma_store_round_trip(Seq::empty());
    assert(store_bytes(Seq::empty()) =~= header_bytes());
}

} // verus!
