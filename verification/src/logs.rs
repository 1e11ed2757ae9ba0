//! Log records: the `[timestamp] text` line format that the tray writes, its
//! parsing, the log files that belong to the application, and the
//! newest-first ordering of collected entries.
use vstd::prelude::*;
use crate::text::{
    all_digits, append_decimal, chars_of, concat_str, decimal_text, digit_char, digits_value,
    first_index, has_char, has_suffix, is_digit, is_white_space, lemma_first_index_is,
    lemma_quotient_smaller, lines_of, parse_u64, parse_u64_chars, push_char, skip_white_space,
    split_lines, string_from_chars, trim_start,
};

verus! {

/// One line of a log file, with the file it came from.
pub struct LogEntry {
    pub ts: u64,
    pub source: String,
    pub text: String,
}

/// A log entry as plain values.
pub struct LogEntryView {
    pub ts: u64,
    pub source: Seq<char>,
    pub text: Seq<char>,
}

impl View for LogEntry {
    type V = LogEntryView;

    open spec fn view(&self) -> LogEntryView {
        LogEntryView { ts: self.ts, source: self.source@, text: self.text@ }
    }
}

/// Number of entries the log viewer shows when it names no limit.
pub const DEFAULT_LOG_LIMIT: usize = 500;

/// The number of entries to show for an optional requested limit.
pub fn log_limit(max_lines: Option<usize>) -> (n: usize)
    ensures
        n == match max_lines {
            Some(m) => m,
            None => DEFAULT_LOG_LIMIT,
        },
{
    match max_lines {
        Some(m) => m,
        None => DEFAULT_LOG_LIMIT,
    }
}

// ───────────────────────────── line format ─────────────────────────────

/// How a log line splits into its timestamp and its text: a line
/// `[digits]rest` whose bracketed part parses as a `u64` gives that number and
/// `rest` without its leading white space; any other line gives 0 and the
/// whole line.
pub open spec fn log_line_parts(s: Seq<char>) -> (u64, Seq<char>) {
    if s.len() > 0 && s[0] == '[' && has_char(s, ']') {
        let e = first_index(s, ']');
        match parse_u64(s.subrange(1, e)) {
            Some(ts) => (ts, trim_start(s.skip(e + 1))),
            None => (0, s),
        }
    } else {
        (0, s)
    }
}

/// Splits a log line into its timestamp and text.
pub fn parse_log_line(line: &str) -> (r: (u64, &str))
    ensures
        r.0 == log_line_parts(line@).0,
        r.1@ == log_line_parts(line@).1,
{
    let cs = chars_of(line);
    let n = cs.len();
    if n > 0 && cs[0] == '[' {
        let mut e: usize = 1;
        while e < n && cs[e] != ']'
            invariant
                cs@ == line@,
                n == cs.len(),
                1 <= e <= n,
                cs@[0] == '[',
                forall|j: int| 0 <= j < e ==> cs@[j] != ']',
            decreases n - e,
        {
            e = e + 1;
        }
        if e < n {
            proof {
                lemma_first_index_is(line@, ']', e as int);
            }
            match parse_u64_chars(&cs, 1, e) {
                Some(ts) => {
                    let k = skip_white_space(&cs, e + 1);
                    let rest = line.substring_char(k, n);
                    proof {
                        assert(line@.skip(e + 1) =~= cs@.subrange(e + 1, n as int));
                    }
                    return (ts, rest);
                },
                None => {},
            }
        } else {
            proof {
                assert(!has_char(line@, ']'));
            }
        }
    }
    (0, line)
}

/// The digits `0`-`9` spell themselves.
proof fn lemma_digit_char_is_digit(d: nat)
    requires
        d < 10,
    ensures
        is_digit(digit_char(d)),
        (digit_char(d) as nat) - 48 == d,
{
}

/// A decimal rendering is a run of digits whose value is the number rendered.
pub proof fn lemma_decimal_text_parses(n: nat)
    ensures
        decimal_text(n).len() > 0,
        all_digits(decimal_text(n)),
        digits_value(decimal_text(n)) == n,
    decreases n,
{
    if n < 10 {
        lemma_digit_char_is_digit(n);
        assert(decimal_text(n) == seq![digit_char(n)]);
        assert(decimal_text(n).drop_last() =~= Seq::<char>::empty());
        assert(digits_value(Seq::<char>::empty()) == 0);
        assert(decimal_text(n).last() == digit_char(n));
    } else {
        lemma_quotient_smaller(n, 10);
        lemma_decimal_text_parses(n / 10);
        let p = decimal_text(n / 10);
        lemma_digit_char_is_digit(n % 10);
        assert(decimal_text(n) == p.push(digit_char(n % 10)));
        assert(decimal_text(n).drop_last() =~= p);
        assert(all_digits(decimal_text(n))) by {
            let q = decimal_text(n);
            assert forall|i: int| 0 <= i < q.len() implies is_digit(#[trigger] q[i]) by {
                if i < p.len() {
                    assert(q[i] == p[i]);
                }
            }
        }
        assert(decimal_text(n).last() == digit_char(n % 10));
        assert(digits_value(decimal_text(n)) == digits_value(p) * 10 + (n % 10));
        assert(n == 10 * (n / 10) + n % 10) by {
            vstd::arithmetic::div_mod::lemma_fundamental_div_mod(n as int, 10);
        }
    }
}

/// The line `[ts] text` as the tray writes it to its log files.
pub open spec fn stamped_line_text(ts: u64, text: Seq<char>) -> Seq<char> {
    seq!['['] + decimal_text(ts as nat) + seq![']', ' '] + text
}

/// Formats a log line: the timestamp in brackets, a space, then the text.
pub fn stamped_line(ts: u64, text: &str) -> (s: String)
    ensures
        s@ == stamped_line_text(ts, text@),
{
    let mut s = String::new();
    push_char(&mut s, '[');
    append_decimal(&mut s, ts as u128);
    push_char(&mut s, ']');
    push_char(&mut s, ' ');
    let out = concat_str(s.as_str(), text);
    proof {
        assert(out@ =~= stamped_line_text(ts, text@));
    }
    out
}

/// A line written by `stamped_line` reads back as its timestamp and its text
/// (without leading white space, which the reader always drops).
pub proof fn lemma_stamped_line_round_trip(ts: u64, text: Seq<char>)
    ensures
        log_line_parts(stamped_line_text(ts, text)) == (ts, trim_start(text)),
{
    let d = decimal_text(ts as nat);
    let s = stamped_line_text(ts, text);
    lemma_decimal_text_parses(ts as nat);
    let e: int = d.len() as int + 1;
    assert(s[e as int] == ']');
    assert forall|j: int| 0 <= j < e implies s[j] != ']' by {
        if j > 0 {
            assert(s[j] == d[j - 1]);
            assert(is_digit(d[j - 1]));
        }
    }
    lemma_first_index_is(s, ']', e as int);
    assert(s.subrange(1, e as int) =~= d);
    assert(d[0] != '+') by {
        assert(is_digit(d[0]));
    }
    assert(s.skip(e + 1) =~= seq![' '] + text);
    let t = s.skip(e + 1);
    assert(t.drop_first() =~= text);
    assert(is_white_space(t[0]));
}

// ───────────────────────────── log files ─────────────────────────────

/// The extension that marks the application's log files.
pub open spec fn log_extension() -> Seq<char> {
    seq!['.', 'l', 'o', 'g']
}

/// `name` with every trailing `.log` removed, as `str::trim_end_matches(".log")`
/// gives it.
pub open spec fn strip_log_extensions(name: Seq<char>) -> Seq<char>
    decreases name.len(),
{
    if has_suffix(name, log_extension()) {
        strip_log_extensions(name.take(name.len() - 4))
    } else {
        name
    }
}

fn chars_end_with_log(cs: &Vec<char>, len: usize) -> (r: bool)
    requires
        len <= cs.len(),
    ensures
        r == has_suffix(cs@.take(len as int), log_extension()),
{
    if len < 4 {
        return false;
    }
    let r = cs[len - 4] == '.' && cs[len - 3] == 'l' && cs[len - 2] == 'o' && cs[len - 1] == 'g';
    proof {
        let t = cs@.take(len as int);
        if r {
            assert(t.skip(t.len() - 4) =~= log_extension());
        } else {
            if has_suffix(t, log_extension()) {
                let u = t.skip(t.len() - 4);
                assert(u[0] == cs@[len - 4]);
                assert(u[1] == cs@[len - 3]);
                assert(u[2] == cs@[len - 2]);
                assert(u[3] == cs@[len - 1]);
            }
        }
    }
    r
}

/// Whether a file name belongs to a log file (it ends with `.log`).
pub fn is_log_file_name(name: &str) -> (r: bool)
    ensures
        r == has_suffix(name@, log_extension()),
{
    let cs = chars_of(name);
    proof {
        assert(cs@.take(cs.len() as int) =~= name@);
    }
    chars_end_with_log(&cs, cs.len())
}

/// The source label of a log file: its name without the `.log` endings, or
/// `None` for a file that is not a log file.
pub fn log_source_name(name: &str) -> (r: Option<String>)
    ensures
        match r {
            Some(s) => has_suffix(name@, log_extension()) && s@ == strip_log_extensions(name@),
            None => !has_suffix(name@, log_extension()),
        },
{
    let cs = chars_of(name);
    let mut len = cs.len();
    proof {
        assert(cs@.take(len as int) =~= name@);
    }
    if !chars_end_with_log(&cs, len) {
        return None;
    }
    while chars_end_with_log(&cs, len)
        invariant
            len <= cs.len(),
            cs@ == name@,
            strip_log_extensions(cs@.take(len as int)) == strip_log_extensions(name@),
        decreases len,
    {
        proof {
            assert(cs@.take(len as int).take(len - 4) =~= cs@.take(len - 4));
        }
        len = len - 4;
    }
    let s = string_from_chars(&cs, 0, len);
    proof {
        assert(cs@.subrange(0, len as int) =~= cs@.take(len as int));
    }
    Some(s)
}

/// The entry made of one log line from the file labelled `source`.
pub open spec fn entry_of_line(source: Seq<char>, line: Seq<char>) -> LogEntryView {
    LogEntryView { ts: log_line_parts(line).0, source, text: log_line_parts(line).1 }
}

/// The entries of a log file's content, one per line, in file order.
pub fn log_entries_from_text(source: &str, content: &str) -> (r: Vec<LogEntry>)
    ensures
        r@.len() == split_lines(content@).len(),
        forall|i: int|
            0 <= i < r@.len() ==> #[trigger] r@[i]@ == entry_of_line(
                source@,
                split_lines(content@)[i],
            ),
{
    let lines = lines_of(content);
    let mut out: Vec<LogEntry> = Vec::new();
    let mut i: usize = 0;
    while i < lines.len()
        invariant
            i <= lines.len(),
            lines@.len() == split_lines(content@).len(),
            forall|k: int| 0 <= k < lines@.len() ==> #[trigger] lines@[k]@ == split_lines(content@)[k],
            out@.len() == i,
            forall|k: int|
                0 <= k < i ==> #[trigger] out@[k]@ == entry_of_line(
                    source@,
                    split_lines(content@)[k],
                ),
        decreases lines.len() - i,
    {
        let (ts, text) = parse_log_line(lines[i].as_str());
        let e = LogEntry { ts, source: source.to_owned(), text: text.to_owned() };
        out.push(e);
        proof {
            assert(lines@[i as int]@ == split_lines(content@)[i as int]);
        }
        i = i + 1;
    }
    out
}

// ───────────────────────────── newest first ─────────────────────────────

/// No entry is older than one after it.
pub open spec fn newest_first_sorted(s: Seq<LogEntry>) -> bool {
    forall|i: int, j: int| 0 <= i < j < s.len() ==> s[i].ts >= s[j].ts
}

/// The entries of `s` stamped `t`, in their order in `s`.
pub open spec fn stamped_at(s: Seq<LogEntry>, t: u64) -> Seq<LogEntry>
    decreases s.len(),
{
    if s.len() == 0 {
        seq![]
    } else if s.last().ts == t {
        stamped_at(s.drop_last(), t).push(s.last())
    } else {
        stamped_at(s.drop_last(), t)
    }
}

/// `out` holds the entries of `input` newest first, entries with the same
/// timestamp keeping their order in `input` (what a stable sort by
/// descending timestamp gives).
pub open spec fn is_newest_first_of(input: Seq<LogEntry>, out: Seq<LogEntry>) -> bool {
    &&& newest_first_sorted(out)
    &&& forall|t: u64| #[trigger] stamped_at(out, t) == stamped_at(input, t)
}

proof fn lemma_stamped_at_concat(a: Seq<LogEntry>, b: Seq<LogEntry>, t: u64)
    ensures
        stamped_at(a + b, t) == stamped_at(a, t) + stamped_at(b, t),
    decreases b.len(),
{
    if b.len() == 0 {
        assert(a + b =~= a);
        assert(stamped_at(a, t) + stamped_at(b, t) =~= stamped_at(a, t));
    } else {
        lemma_stamped_at_concat(a, b.drop_last(), t);
        assert((a + b).drop_last() =~= a + b.drop_last());
        assert((a + b).last() == b.last());
        if b.last().ts == t {
            assert(stamped_at(a, t) + stamped_at(b, t) =~= (stamped_at(a, t) + stamped_at(
                b.drop_last(),
                t,
            )).push(b.last()));
        }
    }
}

proof fn lemma_stamped_at_none(s: Seq<LogEntry>, t: u64)
    requires
        forall|i: int| 0 <= i < s.len() ==> #[trigger] s[i].ts != t,
    ensures
        stamped_at(s, t) == Seq::<LogEntry>::empty(),
    decreases s.len(),
{
    if s.len() > 0 {
        lemma_stamped_at_none(s.drop_last(), t);
    }
}

proof fn lemma_stamped_at_single(e: LogEntry, t: u64)
    ensures
        stamped_at(seq![e], t) == (if e.ts == t {
            seq![e]
        } else {
            Seq::<LogEntry>::empty()
        }),
{
    assert(seq![e].drop_last() =~= Seq::<LogEntry>::empty());
    assert(stamped_at(Seq::<LogEntry>::empty(), t) == Seq::<LogEntry>::empty());
    assert(seq![e].last() == e);
    if e.ts == t {
        assert(Seq::<LogEntry>::empty().push(e) =~= seq![e]);
    }
}

/// Inserting `e` at `p`, where everything before `p` is at least as new as
/// `e` and everything from `p` on is older, keeps the order newest first and
/// appends `e` to the entries of its timestamp.
proof fn lemma_insert_newest_first(out: Seq<LogEntry>, p: int, e: LogEntry)
    requires
        newest_first_sorted(out),
        0 <= p <= out.len(),
        forall|j: int| 0 <= j < p ==> #[trigger] out[j].ts >= e.ts,
        forall|j: int| p <= j < out.len() ==> #[trigger] out[j].ts < e.ts,
    ensures
        newest_first_sorted(out.insert(p, e)),
        forall|t: u64|
            #[trigger] stamped_at(out.insert(p, e), t) == if e.ts == t {
                stamped_at(out, t).push(e)
            } else {
                stamped_at(out, t)
            },
{
    let r = out.insert(p, e);
    assert forall|i: int, j: int| 0 <= i < j < r.len() implies r[i].ts >= r[j].ts by {
        if j < p {
            assert(r[i] == out[i] && r[j] == out[j]);
        } else if j == p {
            assert(r[i] == out[i]);
        } else if i < p {
            assert(r[i] == out[i] && r[j] == out[j - 1]);
        } else if i == p {
            assert(r[j] == out[j - 1]);
        } else {
            assert(r[i] == out[i - 1] && r[j] == out[j - 1]);
        }
    }
    assert forall|t: u64|
        #[trigger] stamped_at(out.insert(p, e), t) == if e.ts == t {
            stamped_at(out, t).push(e)
        } else {
            stamped_at(out, t)
        } by {
        let a = out.take(p);
        let b = out.skip(p);
        assert(r =~= a + seq![e] + b);
        assert(out =~= a + b);
        lemma_stamped_at_concat(a + seq![e], b, t);
        lemma_stamped_at_concat(a, seq![e], t);
        lemma_stamped_at_concat(a, b, t);
        lemma_stamped_at_single(e, t);
        if e.ts == t {
            assert forall|i: int| 0 <= i < b.len() implies #[trigger] b[i].ts != t by {
                assert(b[i] == out[p + i]);
            }
            lemma_stamped_at_none(b, t);
            assert(stamped_at(a, t) + seq![e] + Seq::<LogEntry>::empty() =~= (stamped_at(a, t)
                + Seq::<LogEntry>::empty()).push(e));
        } else {
            assert(stamped_at(a, t) + Seq::<LogEntry>::empty() + stamped_at(b, t) =~= stamped_at(
                a,
                t,
            ) + stamped_at(b, t));
        }
    }
}

/// Orders entries newest first; entries with the same timestamp keep their
/// relative order.
pub fn sort_newest_first(entries: Vec<LogEntry>) -> (r: Vec<LogEntry>)
    ensures
        r@.len() == entries@.len(),
        is_newest_first_of(entries@, r@),
{
    let ghost input = entries@;
    let mut out: Vec<LogEntry> = Vec::new();
    proof {
        assert forall|t: u64| #[trigger] stamped_at(out@, t) == stamped_at(input.take(0), t) by {
            assert(input.take(0) =~= Seq::<LogEntry>::empty());
        }
    }
    for e in it: entries
        invariant
            it.seq() == input,
            out@.len() == it.index(),
            newest_first_sorted(out@),
            forall|t: u64| #[trigger] stamped_at(out@, t) == stamped_at(input.take(it.index() as int), t),
    {
        let ghost i = it.index();
        let n = out.len();
        let mut p: usize = 0;
        while p < n && out[p].ts >= e.ts
            invariant
                n == out.len(),
                p <= n,
                newest_first_sorted(out@),
                forall|j: int| 0 <= j < p ==> #[trigger] out@[j].ts >= e.ts,
            decreases n - p,
        {
            p = p + 1;
        }
        proof {
            assert forall|j: int| p <= j < out@.len() implies #[trigger] out@[j].ts < e.ts by {
                assert(out@[p as int].ts < e.ts);
                assert(out@[p as int].ts >= out@[j].ts);
            }
            lemma_insert_newest_first(out@, p as int, e);
            assert(input.take(i + 1).drop_last() =~= input.take(i));
            assert(input.take(i + 1).last() == e);
        }
        out.insert(p, e);
    }
    proof {
        assert(input.take(input.len() as int) =~= input);
    }
    out
}

/// The `limit` newest entries, newest first (entries with the same timestamp
/// in their original order).
pub fn newest_first(entries: Vec<LogEntry>, limit: usize) -> (r: Vec<LogEntry>)
    ensures
        exists|all: Seq<LogEntry>|
            {
                &&& all.len() == entries@.len()
                &&& is_newest_first_of(entries@, all)
                &&& r@ == all.take(if limit < all.len() {
                    limit as int
                } else {
                    all.len() as int
                })
            },
{
    let mut sorted = sort_newest_first(entries);
    let ghost all = sorted@;
    sorted.truncate(limit);
    proof {
        if limit >= all.len() {
            assert(all.take(all.len() as int) =~= all);
        }
    }
    sorted
}

/// Two orderings of the same entries that are both newest first and keep
/// equal timestamps in the same order are the same sequence: the newest-first
/// view of a set of log entries is fully determined.
pub proof fn lemma_newest_first_unique(x: Seq<LogEntry>, y: Seq<LogEntry>)
    requires
        newest_first_sorted(x),
        newest_first_sorted(y),
        forall|t: u64| #[trigger] stamped_at(x, t) == stamped_at(y, t),
    ensures
        x == y,
    decreases x.len() + y.len(),
{
    if x.len() == 0 && y.len() == 0 {
        assert(x =~= y);
    } else if x.len() == 0 {
        let t = y.last().ts;
        assert(stamped_at(y, t).len() > 0);
        assert(stamped_at(x, t) == stamped_at(y, t));
    } else if y.len() == 0 {
        let t = x.last().ts;
        assert(stamped_at(x, t).len() > 0);
        assert(stamped_at(x, t) == stamped_at(y, t));
    } else {
        let tx = x.last().ts;
        let ty = y.last().ts;
        lemma_stamped_member(y, tx);
        lemma_stamped_member(x, ty);
        assert(stamped_at(x, tx) == stamped_at(y, tx));
        assert(stamped_at(x, ty) == stamped_at(y, ty));
        let ix = choose|k: int| 0 <= k < y.len() && y[k].ts == tx;
        let iy = choose|k: int| 0 <= k < x.len() && x[k].ts == ty;
        if ix < y.len() - 1 {
            assert(y[ix].ts >= y[y.len() - 1].ts);
        }
        if iy < x.len() - 1 {
            assert(x[iy].ts >= x[x.len() - 1].ts);
        }
        assert(tx == ty);
        let t = tx;
        assert(stamped_at(x, t) == stamped_at(x.drop_last(), t).push(x.last()));
        assert(stamped_at(y, t) == stamped_at(y.drop_last(), t).push(y.last()));
        assert(x.last() == stamped_at(x, t).last());
        assert(y.last() == stamped_at(y, t).last());
        let xs = x.drop_last();
        let ys = y.drop_last();
        assert forall|u: u64| #[trigger] stamped_at(xs, u) == stamped_at(ys, u) by {
            assert(stamped_at(x, u) == stamped_at(y, u));
            if u == t {
                assert(stamped_at(xs, u) =~= stamped_at(x, u).drop_last());
                assert(stamped_at(ys, u) =~= stamped_at(y, u).drop_last());
            }
        }
        lemma_newest_first_unique(xs, ys);
        assert(x =~= xs.push(x.last()));
        assert(y =~= ys.push(y.last()));
    }
}

/// An entry stamped `t` in `s` shows up among `stamped_at(s, t)`, and the
/// latter is non-empty exactly when such an entry exists.
proof fn lemma_stamped_member(s: Seq<LogEntry>, t: u64)
    ensures
        stamped_at(s, t).len() > 0 <==> exists|k: int| 0 <= k < s.len() && s[k].ts == t,
    decreases s.len(),
{
    if s.len() > 0 {
        lemma_stamped_member(s.drop_last(), t);
        if exists|k: int| 0 <= k < s.len() && s[k].ts == t {
            let k = choose|k: int| 0 <= k < s.len() && s[k].ts == t;
            if k < s.len() - 1 {
                assert(s.drop_last()[k].ts == t);
            }
        }
        if exists|k: int| 0 <= k < s.len() - 1 && s.drop_last()[k].ts == t {
            let k = choose|k: int| 0 <= k < s.len() - 1 && s.drop_last()[k].ts == t;
            assert(s[k].ts == t);
        }
    }
}

} // verus!
