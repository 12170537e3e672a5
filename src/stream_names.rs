use vstd::prelude::*;

verus! {

pub const LINE_FEED: u8 = 10;
pub const CARRIAGE_RETURN: u8 = 13;
pub const FIELD_SEPARATOR: u8 = 9;
pub const PLUS: u8 = 43;

/// One line of a stream-names file: `stream_id<TAB>stream_name`.
#[derive(Debug, PartialEq, Eq)]
pub struct StreamNameEntry {
    pub twitch_stream_id: u64,
    /// The rest of the line after the first tab, as UTF-8 bytes.
    pub title: Vec<u8>,
}

/// Position of the first line feed at or after `i`, or the end.
pub open spec fn next_line_feed(b: Seq<u8>, i: int) -> int
    decreases b.len() - i,
{
    if i < 0 || i >= b.len() {
        b.len() as int
    } else if b[i] == LINE_FEED {
        i
    } else {
        next_line_feed(b, i + 1)
    }
}

/// The line that starts at `i`: up to the next line feed, without the
/// carriage return of a `\r\n` ending.
pub open spec fn line_at(b: Seq<u8>, i: int) -> Seq<u8> {
    let j = next_line_feed(b, i);
    if j < b.len() && j > i && b[j - 1] == CARRIAGE_RETURN {
        b.subrange(i, j - 1)
    } else {
        b.subrange(i, j)
    }
}

pub open spec fn first_separator(line: Seq<u8>, i: int) -> int
    decreases line.len() - i,
{
    if i < 0 || i >= line.len() {
        line.len() as int
    } else if line[i] == FIELD_SEPARATOR {
        i
    } else {
        first_separator(line, i + 1)
    }
}

pub open spec fn is_digit(c: u8) -> bool {
    48 <= c <= 57
}

pub open spec fn all_digits(d: Seq<u8>) -> bool
    decreases d.len(),
{
    d.len() == 0 || (is_digit(d.last()) && all_digits(d.drop_last()))
}

proof fn lemma_all_digits(d: Seq<u8>)
    ensures
        all_digits(d) <==> forall|m: int| 0 <= m < d.len() ==> is_digit(#[trigger] d[m]),
    decreases d.len(),
{
    if d.len() > 0 {
        lemma_all_digits(d.drop_last());
        if forall|m: int| 0 <= m < d.len() ==> is_digit(#[trigger] d[m]) {
            assert(is_digit(d[d.len() - 1]));
            assert forall|m: int| 0 <= m < d.drop_last().len() implies is_digit(
                #[trigger] d.drop_last()[m],
            ) by {
                assert(d.drop_last()[m] == d[m]);
            }
        }
        if all_digits(d) {
            assert forall|m: int| 0 <= m < d.len() implies is_digit(#[trigger] d[m]) by {
                if m < d.len() - 1 {
                    assert(d.drop_last()[m] == d[m]);
                }
            }
        }
    }
}

pub open spec fn decimal_value(d: Seq<u8>) -> int
    decreases d.len(),
{
    if d.len() == 0 {
        0
    } else {
        decimal_value(d.drop_last()) * 10 + (d.last() - 48)
    }
}

/// An unsigned 64-bit number as text: an optional `+`, then one or more
/// decimal digits, of a value below 2^64.
pub open spec fn parse_u64(s: Seq<u8>) -> Option<u64> {
    let d = if s.len() > 0 && s[0] == PLUS {
        s.subrange(1, s.len() as int)
    } else {
        s
    };
    if d.len() > 0 && all_digits(d) && decimal_value(d) <= u64::MAX {
        Some(decimal_value(d) as u64)
    } else {
        None
    }
}

/// A line's id and title, where the text before the first tab is an id.
pub open spec fn parse_line(line: Seq<u8>) -> Option<(u64, Seq<u8>)> {
    let t = first_separator(line, 0);
    match parse_u64(line.subrange(0, t)) {
        Some(id) => Some(
            (
                id,
                if t < line.len() {
                    line.subrange(t + 1, line.len() as int)
                } else {
                    Seq::empty()
                },
            ),
        ),
        None => None,
    }
}

/// The entries of the lines from position `i` on, skipping lines whose id
/// does not parse.
pub open spec fn entries_from(b: Seq<u8>, i: int) -> Seq<(u64, Seq<u8>)>
    decreases b.len() + 1 - i,
{
    let j = next_line_feed(b, i);
    if i < 0 || i >= b.len() || j < i || j > b.len() {
        Seq::empty()
    } else {
        let rest = entries_from(b, j + 1);
        match parse_line(line_at(b, i)) {
            Some(e) => seq![e] + rest,
            None => rest,
        }
    }
}

pub open spec fn entries_view(v: Seq<StreamNameEntry>) -> Seq<(u64, Seq<u8>)> {
    v.map_values(|e: StreamNameEntry| (e.twitch_stream_id, e.title@))
}

proof fn lemma_next_line_feed(b: Seq<u8>, i: int)
    requires
        0 <= i <= b.len(),
    ensures
        i <= next_line_feed(b, i) <= b.len(),
        next_line_feed(b, i) < b.len() ==> b[next_line_feed(b, i)] == LINE_FEED,
        forall|k: int| i <= k < next_line_feed(b, i) ==> b[k] != LINE_FEED,
    decreases b.len() - i,
{
    if i < b.len() && b[i] != LINE_FEED {
        lemma_next_line_feed(b, i + 1);
    }
}

proof fn lemma_first_separator(line: Seq<u8>, i: int)
    requires
        0 <= i <= line.len(),
    ensures
        i <= first_separator(line, i) <= line.len(),
        forall|k: int| i <= k < first_separator(line, i) ==> line[k] != FIELD_SEPARATOR,
        first_separator(line, i) < line.len() ==> line[first_separator(line, i)] == FIELD_SEPARATOR,
    decreases line.len() - i,
{
    if i < line.len() && line[i] != FIELD_SEPARATOR {
        lemma_first_separator(line, i + 1);
    }
}

proof fn lemma_decimal_grows(d: Seq<u8>, k: int)
    requires
        0 <= k < d.len(),
        forall|m: int| 0 <= m < d.len() ==> is_digit(#[trigger] d[m]),
    ensures
        decimal_value(d.subrange(0, k + 1)) == decimal_value(d.subrange(0, k)) * 10 + (d[k] - 48),
        decimal_value(d.subrange(0, k + 1)) >= decimal_value(d.subrange(0, k)),
        decimal_value(d.subrange(0, k)) >= 0,
{
    assert(d.subrange(0, k + 1).drop_last() =~= d.subrange(0, k));
    lemma_decimal_nonneg(d.subrange(0, k));
}

proof fn lemma_decimal_nonneg(d: Seq<u8>)
    requires
        forall|m: int| 0 <= m < d.len() ==> is_digit(#[trigger] d[m]),
    ensures
        decimal_value(d) >= 0,
    decreases d.len(),
{
    if d.len() > 0 {
        lemma_decimal_nonneg(d.drop_last());
    }
}

proof fn lemma_decimal_monotone(d: Seq<u8>, k: int, n: int)
    requires
        0 <= k <= n <= d.len(),
        forall|m: int| 0 <= m < d.len() ==> is_digit(#[trigger] d[m]),
    ensures
        decimal_value(d.subrange(0, k)) <= decimal_value(d.subrange(0, n)),
    decreases n - k,
{
    if k < n {
        lemma_decimal_monotone(d, k + 1, n);
        lemma_decimal_grows(d, k);
    }
}

/// Reads the id field `b[start..end]`.
fn parse_id(b: &[u8], start: usize, end: usize) -> (r: Option<u64>)
    requires
        start <= end <= b@.len(),
    ensures
        r == parse_u64(b@.subrange(start as int, end as int)),
{
    let ghost s = b@.subrange(start as int, end as int);
    let first = if start < end && b[start] == PLUS {
        start + 1
    } else {
        start
    };
    let ghost d = b@.subrange(first as int, end as int);
    proof {
        if start < end && b@[start as int] == PLUS {
            assert(d =~= s.subrange(1, s.len() as int));
        } else {
            assert(d =~= s);
        }
    }
    if first == end {
        proof {
            assert(d.len() == 0);
            if start < end && b@[start as int] == PLUS {
                assert(s.subrange(1, s.len() as int) == d);
            }
        }
        return None;
    }
    let mut value: u128 = 0;
    let mut overflow = false;
    let mut k: usize = first;
    while k < end
        invariant
            first <= k <= end <= b@.len(),
            d == b@.subrange(first as int, end as int),
            s == b@.subrange(start as int, end as int),
            d == (if s.len() > 0 && s[0] == PLUS {
                s.subrange(1, s.len() as int)
            } else {
                s
            }),
            forall|m: int| 0 <= m < k - first ==> is_digit(#[trigger] d[m]),
            !overflow ==> value == decimal_value(d.subrange(0, k - first)) && value <= u64::MAX,
            overflow ==> decimal_value(d.subrange(0, k - first)) > u64::MAX,
        decreases end - k,
    {
        let c = b[k];
        if c < 48 || c > 57 {
            proof {
                let w = k - first;
                assert(d[w] == c);
                assert(!is_digit(d[w]));
                lemma_all_digits(d);
                assert(!all_digits(d));
                assert(parse_u64(s) is None);
            }
            return None;
        }
        proof {
            let dd = d.subrange(0, k - first + 1);
            assert(forall|m: int| 0 <= m < dd.len() ==> is_digit(#[trigger] dd[m]));
            lemma_decimal_grows(dd, k - first);
            assert(dd.subrange(0, k - first + 1) =~= dd);
            assert(dd.subrange(0, k - first) =~= d.subrange(0, k - first));
        }
        if !overflow {
            value = value * 10 + (c - 48) as u128;
            if value > u64::MAX as u128 {
                overflow = true;
            }
        }
        k = k + 1;
    }
    proof {
        assert(d.subrange(0, d.len() as int) =~= d);
        lemma_all_digits(d);
    }
    if overflow {
        None
    } else {
        Some(value as u64)
    }
}

/// Reads a stream-names file: one `stream_id<TAB>stream_name` per line. A
/// line whose id is not a number is skipped; a line without a tab has an
/// empty name. Entries come in the file's order.
pub fn parse_stream_names(text: &[u8]) -> (r: Vec<StreamNameEntry>)
    ensures
        entries_view(r@) == entries_from(text@, 0),
{
    let n = text.len();
    let mut out: Vec<StreamNameEntry> = Vec::new();
    let mut i: usize = 0;
    while i < n
        invariant
            n == text@.len(),
            i <= n,
            entries_view(out@) + entries_from(text@, i as int) == entries_from(text@, 0),
        decreases n - i,
    {
        proof {
            lemma_next_line_feed(text@, i as int);
        }
        let mut j: usize = i;
        while j < n && text[j] != LINE_FEED
            invariant
                i <= j <= n,
                n == text@.len(),
                next_line_feed(text@, i as int) == next_line_feed(text@, j as int),
            decreases n - j,
        {
            j = j + 1;
        }
        let line_end = if j < n && j > i && text[j - 1] == CARRIAGE_RETURN {
            j - 1
        } else {
            j
        };
        let ghost line = line_at(text@, i as int);
        assert(line =~= text@.subrange(i as int, line_end as int));
        let mut t: usize = i;
        while t < line_end && text[t] != FIELD_SEPARATOR
            invariant
                i <= t <= line_end,
                line_end <= n,
                n == text@.len(),
                line == text@.subrange(i as int, line_end as int),
                first_separator(line, 0) == first_separator(line, t - i),
            decreases line_end - t,
        {
            t = t + 1;
        }
        proof {
            assert(first_separator(line, t - i) == t - i);
        }
        let id = parse_id(text, i, t);
        proof {
            assert(line.subrange(0, t - i) =~= text@.subrange(i as int, t as int));
        }
        let ghost before = entries_view(out@);
        match id {
            Some(twitch_stream_id) => {
                let mut title: Vec<u8> = Vec::new();
                let start = if t < line_end {
                    t + 1
                } else {
                    line_end
                };
                let mut k: usize = start;
                while k < line_end
                    invariant
                        start <= k <= line_end,
                        line_end <= n,
                        n == text@.len(),
                        title@ == text@.subrange(start as int, k as int),
                    decreases line_end - k,
                {
                    title.push(text[k]);
                    assert(text@.subrange(start as int, k + 1) =~= text@.subrange(
                        start as int,
                        k as int,
                    ).push(text@[k as int]));
                    k = k + 1;
                }
                proof {
                    if t - i < line.len() {
                        assert(title@ =~= line.subrange(t - i + 1, line.len() as int));
                    } else {
                        assert(title@ =~= Seq::<u8>::empty());
                    }
                }
                let entry = StreamNameEntry { twitch_stream_id, title };
                out.push(entry);
                proof {
                    assert(entries_view(out@) =~= before.push((twitch_stream_id, entry.title@)));
                    assert(entries_from(text@, i as int) == seq![(twitch_stream_id, entry.title@)]
                        + entries_from(text@, j + 1));
                    assert(entries_view(out@) + entries_from(text@, j + 1) =~= before
                        + entries_from(text@, i as int));
                }
            },
            None => {},
        }
        i = if j < n {
            j + 1
        } else {
            n
        };
    }
    proof {
        assert(entries_from(text@, i as int) == Seq::<(u64, Seq<u8>)>::empty());
        assert(entries_view(out@) =~= entries_view(out@) + Seq::<(u64, Seq<u8>)>::empty());
    }
    out
}

} // verus!
