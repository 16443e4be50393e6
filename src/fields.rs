use vstd::prelude::*;

verus! {

pub const COMMA: u8 = 44;

pub const QUOTE: u8 = 34;

pub const NEWLINE: u8 = 10;

pub const RETURN: u8 = 13;

pub open spec fn is_special(b: u8) -> bool {
    b == COMMA || b == QUOTE || b == NEWLINE || b == RETURN
}

/// A field is quoted when it is empty or holds a delimiter, a quote or a line break.
pub open spec fn needs_quotes(s: Seq<u8>) -> bool {
    s.len() == 0 || exists|i: int| 0 <= i < s.len() && is_special(#[trigger] s[i])
}

pub open spec fn escape_byte(b: u8) -> Seq<u8> {
    if b == QUOTE {
        seq![QUOTE, QUOTE]
    } else {
        seq![b]
    }
}

/// The body of a quoted field: each quote doubled.
pub open spec fn escape(s: Seq<u8>) -> Seq<u8>
    decreases s.len(),
{
    if s.len() == 0 {
        Seq::empty()
    } else {
        escape_byte(s[0]) + escape(s.drop_first())
    }
}

/// How a field's bytes stand in a row.
pub open spec fn field_bytes(s: Seq<u8>) -> Seq<u8> {
    if needs_quotes(s) {
        seq![QUOTE] + escape(s) + seq![QUOTE]
    } else {
        s
    }
}

/// An absent value is an empty unquoted field; a present one, even empty, is a field.
pub open spec fn optional_field_bytes(o: Option<Seq<u8>>) -> Seq<u8> {
    match o {
        None => Seq::empty(),
        Some(s) => field_bytes(s),
    }
}

/// Reads the body of a quoted field from `i` (just past the opening quote): the
/// unescaped bytes and the position just past the closing quote.
pub open spec fn scan_quoted(t: Seq<u8>, i: int, acc: Seq<u8>) -> Option<(Seq<u8>, int)>
    decreases t.len() - i,
{
    if i < 0 || i >= t.len() {
        None
    } else if t[i] == QUOTE {
        if i + 1 < t.len() && t[i + 1] == QUOTE {
            scan_quoted(t, i + 2, acc.push(QUOTE))
        } else {
            Some((acc, i + 1))
        }
    } else {
        scan_quoted(t, i + 1, acc.push(t[i]))
    }
}

/// The position of the first delimiter or line feed at or after `i`, or the end.
pub open spec fn unquoted_end(t: Seq<u8>, i: int) -> int
    decreases t.len() - i,
{
    if i < 0 || i >= t.len() || t[i] == COMMA || t[i] == NEWLINE {
        i
    } else {
        unquoted_end(t, i + 1)
    }
}

/// Reads one field that starts at `i`: its value, whether it was quoted, and the
/// position just after it.
pub open spec fn read_field(t: Seq<u8>, i: int) -> Option<(Seq<u8>, bool, int)> {
    if 0 <= i < t.len() && t[i] == QUOTE {
        match scan_quoted(t, i + 1, Seq::empty()) {
            Some((v, j)) => Some((v, true, j)),
            None => None,
        }
    } else {
        Some((t.subrange(i, unquoted_end(t, i)), false, unquoted_end(t, i)))
    }
}

pub proof fn lemma_escape_push(s: Seq<u8>, b: u8)
    ensures
        escape(s.push(b)) == escape(s) + escape_byte(b),
    decreases s.len(),
{
    let p = s.push(b);
    if s.len() == 0 {
        assert(p[0] == b);
        assert(p.drop_first() =~= Seq::<u8>::empty());
        assert(escape(p.drop_first()) =~= Seq::<u8>::empty());
        assert(escape(s) =~= Seq::<u8>::empty());
        assert(escape(p) == escape_byte(b) + escape(p.drop_first()));
        assert(escape(s.push(b)) =~= escape(s) + escape_byte(b));
    } else {
        lemma_escape_push(s.drop_first(), b);
        assert(s.push(b).drop_first() =~= s.drop_first().push(b));
        assert(escape(s.push(b)) =~= escape(s) + escape_byte(b));
    }
}

pub proof fn lemma_scan_escaped(t: Seq<u8>, i: int, acc: Seq<u8>, s: Seq<u8>)
    requires
        0 <= i,
        i + escape(s).len() + 1 < t.len(),
        t.subrange(i, i + escape(s).len() + 1) == escape(s).push(QUOTE),
        t[i + escape(s).len() + 1] != QUOTE,
    ensures
        scan_quoted(t, i, acc) == Some((acc + s, i + escape(s).len() + 1)),
    decreases s.len(),
{
    let e = escape(s);
    assert(t[i + e.len()] == e.push(QUOTE)[e.len() as int]);
    if s.len() == 0 {
        assert(acc + s =~= acc);
    } else {
        let rest = s.drop_first();
        let er = escape(rest);
        let h = escape_byte(s[0]);
        assert(e == h + er);
        assert(t[i] == e.push(QUOTE)[0]);
        let k = h.len() as int;
        assert(t.subrange(i + k, i + k + er.len() + 1) =~= er.push(QUOTE)) by {
            assert forall|m: int| 0 <= m < er.len() + 1 implies t.subrange(i + k, i + k + er.len()
                + 1)[m] == er.push(QUOTE)[m] by {
                assert(t.subrange(i, i + e.len() + 1)[k + m] == e.push(QUOTE)[k + m]);
            }
        }
        if s[0] == QUOTE {
            assert(t[i + 1] == e.push(QUOTE)[1]);
            lemma_scan_escaped(t, i + 2, acc.push(QUOTE), rest);
        } else {
            lemma_scan_escaped(t, i + 1, acc.push(s[0]), rest);
        }
        assert(acc.push(s[0]) + rest =~= acc + s);
    }
}

pub proof fn lemma_unquoted_end(t: Seq<u8>, i: int, s: Seq<u8>)
    requires
        0 <= i,
        i + s.len() < t.len(),
        t.subrange(i, i + s.len()) == s,
        forall|k: int| 0 <= k < s.len() ==> !is_special(#[trigger] s[k]),
        t[i + s.len()] == COMMA || t[i + s.len()] == NEWLINE,
    ensures
        unquoted_end(t, i) == i + s.len(),
    decreases s.len(),
{
    if s.len() > 0 {
        assert(t[i] == t.subrange(i, i + s.len())[0]);
        assert(!is_special(s[0]));
        assert(t.subrange(i + 1, i + s.len()) =~= s.drop_first());
        lemma_unquoted_end(t, i + 1, s.drop_first());
    }
}

/// A field written by `field_bytes` and followed by a delimiter or a line feed reads
/// back as the same bytes.
pub proof fn lemma_read_field(t: Seq<u8>, i: int, s: Seq<u8>)
    requires
        0 <= i,
        i + field_bytes(s).len() < t.len(),
        t.subrange(i, i + field_bytes(s).len()) == field_bytes(s),
        t[i + field_bytes(s).len()] == COMMA || t[i + field_bytes(s).len()] == NEWLINE,
    ensures
        read_field(t, i) == Some((s, needs_quotes(s), i + field_bytes(s).len())),
{
    let f = field_bytes(s);
    if needs_quotes(s) {
        let e = escape(s);
        assert(t[i] == f[0]);
        assert(t.subrange(i + 1, i + 1 + e.len() + 1) =~= e.push(QUOTE)) by {
            assert forall|m: int| 0 <= m < e.len() + 1 implies t.subrange(i + 1, i + 1 + e.len()
                + 1)[m] == e.push(QUOTE)[m] by {
                assert(t.subrange(i, i + f.len())[1 + m] == f[1 + m]);
            }
        }
        lemma_scan_escaped(t, i + 1, Seq::empty(), s);
        assert(Seq::<u8>::empty() + s =~= s);
    } else {
        assert(s.len() > 0);
        assert(!is_special(s[0]));
        assert(t[i] == t.subrange(i, i + s.len())[0]);
        lemma_unquoted_end(t, i, s);
    }
}

/// Reads the field that starts at `i` (see `read_field`).
pub fn read_field_at(t: &[u8], i: usize) -> (r: Option<(Vec<u8>, bool, usize)>)
    requires
        i <= t@.len(),
    ensures
        match read_field(t@, i as int) {
            None => r is None,
            Some((v, q, j)) => r matches Some((v2, q2, j2)) && v2@ == v && q2 == q && j2 == j,
        },
{
    let n = t.len();
    let mut out: Vec<u8> = Vec::new();
    if i < n && t[i] == QUOTE {
        let mut k: usize = i + 1;
        while k < n
            invariant
                n == t@.len(),
                i + 1 <= k <= n,
                t@[i as int] == QUOTE,
                scan_quoted(t@, k as int, out@) == scan_quoted(t@, i + 1, Seq::empty()),
            decreases n - k,
        {
            if t[k] == QUOTE {
                if k + 1 < n && t[k + 1] == QUOTE {
                    out.push(QUOTE);
                    k = k + 2;
                } else {
                    assert(scan_quoted(t@, k as int, out@) == Some((out@, k + 1)));
                    assert(t@[i as int] == QUOTE);
                    assert(scan_quoted(t@, i + 1, Seq::<u8>::empty()) == Some((out@, k + 1)));
                    assert(read_field(t@, i as int) == Some((out@, true, k + 1)));
                    return Some((out, true, k + 1));
                }
            } else {
                out.push(t[k]);
                k = k + 1;
            }
        }
        assert(scan_quoted(t@, k as int, out@) is None);
        None
    } else {
        let mut k: usize = i;
        while k < n && t[k] != COMMA && t[k] != NEWLINE
            invariant
                n == t@.len(),
                i <= k <= n,
                unquoted_end(t@, k as int) == unquoted_end(t@, i as int),
                out@ == t@.subrange(i as int, k as int),
            decreases n - k,
        {
            out.push(t[k]);
            k = k + 1;
            assert(out@ =~= t@.subrange(i as int, k as int));
        }
        Some((out, false, k))
    }
}

/// Appends the field that `field_bytes` gives for `s`.
pub fn push_field(out: &mut Vec<u8>, s: &[u8])
    ensures
        final(out)@ == old(out)@ + field_bytes(s@),
{
    let n = s.len();
    let mut quote = n == 0;
    let mut k: usize = 0;
    while k < n
        invariant
            n == s@.len(),
            k <= n,
            quote == (n == 0 || exists|m: int| 0 <= m < k && is_special(#[trigger] s@[m])),
        decreases n - k,
    {
        let b = s[k];
        if b == COMMA || b == QUOTE || b == NEWLINE || b == RETURN {
            quote = true;
        }
        k = k + 1;
    }
    if !quote {
        assert(old(out)@ + s@.take(0) =~= old(out)@);
        let mut j: usize = 0;
        while j < n
            invariant
                n == s@.len(),
                j <= n,
                out@ == old(out)@ + s@.take(j as int),
            decreases n - j,
        {
            out.push(s[j]);
            j = j + 1;
            assert(s@.take(j as int) =~= s@.take(j - 1).push(s@[j - 1]));
        }
        assert(s@.take(n as int) =~= s@);
        assert(out@ =~= old(out)@ + field_bytes(s@));
    } else {
        out.push(QUOTE);
        assert(s@.take(0) =~= Seq::<u8>::empty());
        assert(out@ =~= old(out)@ + seq![QUOTE] + escape(s@.take(0)));
        let mut j: usize = 0;
        while j < n
            invariant
                n == s@.len(),
                j <= n,
                out@ == old(out)@ + seq![QUOTE] + escape(s@.take(j as int)),
            decreases n - j,
        {
            proof {
                lemma_escape_push(s@.take(j as int), s@[j as int]);
                assert(s@.take(j + 1) =~= s@.take(j as int).push(s@[j as int]));
            }
            if s[j] == QUOTE {
                out.push(QUOTE);
                out.push(QUOTE);
            } else {
                out.push(s[j]);
            }
            j = j + 1;
            assert(out@ =~= old(out)@ + seq![QUOTE] + escape(s@.take(j as int)));
        }
        out.push(QUOTE);
        assert(s@.take(n as int) =~= s@);
        assert(out@ =~= old(out)@ + field_bytes(s@));
    }
}

} // verus!
