//! Character-level text handling shared by the rest of the library: digit
//! rendering, unsigned decimal parsing, whitespace trimming and line splitting.
use vstd::prelude::*;

verus! {

// ───────────────────────────── string building ─────────────────────────────

/// Appends one character to a string.
///
/// Trusted: wraps `String::push`, whose documentation says it appends the
/// given `char` to the end of the string.
#[verifier::external_body]
pub(crate) fn push_char(s: &mut String, c: char)
    ensures
        final(s)@ == old(s)@.push(c),
{
    s.push(c);
}

/// The characters of `s`, in order.
pub fn chars_of(s: &str) -> (out: Vec<char>)
    ensures
        out@ == s@,
{
    let mut out: Vec<char> = Vec::new();
    for c in it: s.chars()
        invariant
            out@ == it.seq().take(it.index() as int),
            it.seq() == s@,
    {
        out.push(c);
    }
    out
}

/// A new string made of the characters `cs[from..to]`.
pub fn string_from_chars(cs: &Vec<char>, from: usize, to: usize) -> (s: String)
    requires
        from <= to <= cs.len(),
    ensures
        s@ == cs@.subrange(from as int, to as int),
{
    let mut s = String::new();
    let mut i = from;
    while i < to
        invariant
            from <= i <= to <= cs.len(),
            s@ == cs@.subrange(from as int, i as int),
        decreases to - i,
    {
        push_char(&mut s, cs[i]);
        proof {
            assert(cs@.subrange(from as int, i + 1) =~= cs@.subrange(from as int, i as int).push(
                cs@[i as int],
            ));
        }
        i = i + 1;
    }
    s
}

/// A new string equal to `a` followed by `b`.
pub fn concat_str(a: &str, b: &str) -> (s: String)
    ensures
        s@ == a@ + b@,
{
    let mut s = a.to_owned();
    let bs = chars_of(b);
    let mut i: usize = 0;
    while i < bs.len()
        invariant
            i <= bs.len(),
            bs@ == b@,
            s@ == a@ + b@.take(i as int),
        decreases bs.len() - i,
    {
        push_char(&mut s, bs[i]);
        proof {
            assert(b@.take(i + 1) =~= b@.take(i as int).push(b@[i as int]));
            assert(a@ + b@.take(i + 1) =~= (a@ + b@.take(i as int)).push(b@[i as int]));
        }
        i = i + 1;
    }
    proof {
        assert(b@.take(i as int) =~= b@);
    }
    s
}

/// Whether two string slices hold the same characters.
pub fn str_eq(a: &str, b: &str) -> (r: bool)
    ensures
        r == (a@ == b@),
{
    let x = a.to_owned();
    let y = b.to_owned();
    x == y
}

/// `p` is a prefix of `s`.
pub open spec fn has_prefix(s: Seq<char>, p: Seq<char>) -> bool {
    p.len() <= s.len() && s.take(p.len() as int) == p
}

/// `p` is a suffix of `s`.
pub open spec fn has_suffix(s: Seq<char>, p: Seq<char>) -> bool {
    p.len() <= s.len() && s.skip(s.len() - p.len()) == p
}

/// Whether `s` starts with `p`.
pub fn starts_with(s: &str, p: &str) -> (r: bool)
    ensures
        r == has_prefix(s@, p@),
{
    let sc = chars_of(s);
    let pc = chars_of(p);
    if pc.len() > sc.len() {
        return false;
    }
    let mut i: usize = 0;
    while i < pc.len()
        invariant
            sc@ == s@,
            pc@ == p@,
            pc.len() <= sc.len(),
            i <= pc.len(),
            forall|j: int| 0 <= j < i ==> sc@[j] == pc@[j],
        decreases pc.len() - i,
    {
        if sc[i] != pc[i] {
            return false;
        }
        i = i + 1;
    }
    proof {
        assert(s@.take(p@.len() as int) =~= p@);
    }
    true
}

// ───────────────────────────── digits ─────────────────────────────

/// The digit character for `d` in bases up to sixteen (lower-case letters above nine).
pub open spec fn digit_char(d: nat) -> char {
    if d < 10 {
        (d + 48) as char
    } else {
        (d + 87) as char
    }
}

fn digit_char_exec(d: u8) -> (c: char)
    requires
        d < 16,
    ensures
        c == digit_char(d as nat),
{
    if d < 10 {
        (d + 48) as char
    } else {
        (d + 87) as char
    }
}

/// The digits of `n` in base `radix`, most significant first, without leading
/// zeros (zero itself is the single digit `0`).
pub open spec fn radix_digits(n: nat, radix: nat) -> Seq<char>
    decreases n,
{
    if radix <= 1 {
        seq![]
    } else if n < radix {
        seq![digit_char(n)]
    } else {
        proof {
            lemma_quotient_smaller(n, radix);
        }
        radix_digits(n / radix, radix).push(digit_char(n % radix))
    }
}

/// Dividing by a base of at least two makes a number of at least that base smaller.
pub proof fn lemma_quotient_smaller(n: nat, radix: nat)
    requires
        radix >= 2,
        n >= radix,
    ensures
        n / radix < n,
{
    assert(n / radix < n) by (nonlinear_arith)
        requires
            n >= radix,
            radix >= 2,
    ;
}

/// A character that `digit_char` produces for a digit below sixteen.
pub open spec fn is_radix_char(c: char) -> bool {
    ('0' <= c && c <= '9') || ('a' <= c && c <= 'f')
}

proof fn lemma_digit_char_facts(d: nat, e: nat)
    requires
        d < 16,
        e < 16,
    ensures
        is_radix_char(digit_char(d)),
        digit_char(d) == digit_char(e) ==> d == e,
{
}

/// Every rendering has at least one digit, and only digit characters.
pub proof fn lemma_radix_digits_shape(n: nat, radix: nat)
    requires
        2 <= radix <= 16,
    ensures
        radix_digits(n, radix).len() > 0,
        forall|i: int|
            0 <= i < radix_digits(n, radix).len() ==> is_radix_char(
                #[trigger] radix_digits(n, radix)[i],
            ),
    decreases n,
{
    lemma_digit_char_facts(n % radix, 0);
    if n >= radix {
        lemma_quotient_smaller(n, radix);
        lemma_radix_digits_shape(n / radix, radix);
        let p = radix_digits(n / radix, radix);
        let s = radix_digits(n, radix);
        assert(s == p.push(digit_char(n % radix)));
        assert forall|i: int| 0 <= i < s.len() implies is_radix_char(#[trigger] s[i]) by {
            if i < p.len() {
                assert(s[i] == p[i]);
            }
        }
    } else {
        assert(n % radix == n) by (nonlinear_arith)
            requires
                n < radix,
        ;
    }
}

/// Different numbers have different renderings.
pub proof fn lemma_radix_digits_injective(a: nat, b: nat, radix: nat)
    requires
        2 <= radix <= 16,
        radix_digits(a, radix) == radix_digits(b, radix),
    ensures
        a == b,
    decreases a,
{
    let sa = radix_digits(a, radix);
    lemma_digit_char_facts(a % radix, b % radix);
    assert(a % radix < radix && b % radix < radix) by (nonlinear_arith)
        requires
            radix >= 2,
    ;
    if a < radix && b < radix {
        lemma_digit_char_facts(a, b);
        assert(radix_digits(a, radix) == seq![digit_char(a)]);
        assert(radix_digits(b, radix) == seq![digit_char(b)]);
        assert(radix_digits(a, radix)[0] == digit_char(a));
        assert(radix_digits(b, radix)[0] == digit_char(b));
    } else if a < radix {
        lemma_quotient_smaller(b, radix);
        lemma_radix_digits_shape(b / radix, radix);
        assert(radix_digits(a, radix).len() == 1);
        assert(radix_digits(b, radix).len() >= 2);
    } else if b < radix {
        lemma_quotient_smaller(a, radix);
        lemma_radix_digits_shape(a / radix, radix);
        assert(radix_digits(b, radix).len() == 1);
        assert(radix_digits(a, radix).len() >= 2);
    } else {
        lemma_quotient_smaller(a, radix);
        let pa = radix_digits(a / radix, radix);
        let pb = radix_digits(b / radix, radix);
        assert(sa.last() == digit_char(a % radix));
        assert(radix_digits(b, radix).last() == digit_char(b % radix));
        assert(pa =~= sa.drop_last());
        assert(pb =~= radix_digits(b, radix).drop_last());
        lemma_radix_digits_injective(a / radix, b / radix, radix);
        assert(a % radix == b % radix);
        assert(a == radix * (a / radix) + a % radix) by {
            vstd::arithmetic::div_mod::lemma_fundamental_div_mod(a as int, radix as int);
        }
        assert(b == radix * (b / radix) + b % radix) by {
            vstd::arithmetic::div_mod::lemma_fundamental_div_mod(b as int, radix as int);
        }
    }
}

/// Decimal rendering of `n`, as `format!("{}", n)` writes it.
pub open spec fn decimal_text(n: nat) -> Seq<char> {
    radix_digits(n, 10)
}

/// Lower-case hexadecimal rendering of `n`, as `format!("{:x}", n)` writes it.
pub open spec fn hex_text(n: nat) -> Seq<char> {
    radix_digits(n, 16)
}

/// Appends the digits of `n` in base `radix` to `out`.
fn append_radix(out: &mut String, n: u128, radix: u128)
    requires
        2 <= radix <= 16,
    ensures
        final(out)@ == old(out)@ + radix_digits(n as nat, radix as nat),
    decreases n,
{
    if n >= radix {
        proof {
            assert(n / radix < n) by (nonlinear_arith)
                requires
                    n >= radix,
                    radix >= 2,
            ;
        }
        append_radix(out, n / radix, radix);
    }
    let d = (n % radix) as u8;
    let c = digit_char_exec(d);
    push_char(out, c);
    proof {
        if n >= radix {
            assert(old(out)@ + radix_digits(n as nat, radix as nat) =~= old(out)@ + radix_digits(
                (n / radix) as nat,
                radix as nat,
            ) + seq![c]);
        } else {
            assert(n % radix == n) by (nonlinear_arith)
                requires
                    n < radix,
            ;
            assert(old(out)@ + radix_digits(n as nat, radix as nat) =~= old(out)@ + seq![c]);
        }
    }
}

/// Appends the decimal rendering of `n` to `out`.
pub fn append_decimal(out: &mut String, n: u128)
    ensures
        final(out)@ == old(out)@ + decimal_text(n as nat),
{
    append_radix(out, n, 10);
}

/// Appends the lower-case hexadecimal rendering of `n` to `out`.
pub fn append_hex(out: &mut String, n: u128)
    ensures
        final(out)@ == old(out)@ + hex_text(n as nat),
{
    append_radix(out, n, 16);
}

// ───────────────────────────── decimal parsing ─────────────────────────────

/// An ASCII decimal digit.
pub open spec fn is_digit(c: char) -> bool {
    '0' <= c && c <= '9'
}

/// Every character of `s` is an ASCII decimal digit.
pub open spec fn all_digits(s: Seq<char>) -> bool {
    forall|i: int| 0 <= i < s.len() ==> is_digit(#[trigger] s[i])
}

/// The number written by the decimal digits `s` (zero for no digits).
pub open spec fn digits_value(s: Seq<char>) -> nat
    decreases s.len(),
{
    if s.len() == 0 {
        0
    } else {
        digits_value(s.drop_last()) * 10 + ((s.last() as nat) - 48) as nat
    }
}

/// What `str::parse::<u64>` gives for the text `s`: an optional `+` sign
/// followed by one or more ASCII digits whose value fits in `u64`; anything
/// else is an error (`None`).
pub open spec fn parse_u64(s: Seq<char>) -> Option<u64> {
    let d = if s.len() > 0 && s[0] == '+' {
        s.drop_first()
    } else {
        s
    };
    if d.len() > 0 && all_digits(d) && digits_value(d) <= u64::MAX {
        Some(digits_value(d) as u64)
    } else {
        None
    }
}

proof fn lemma_digits_value_prefix_le(s: Seq<char>, k: int)
    requires
        all_digits(s),
        0 <= k <= s.len(),
    ensures
        digits_value(s.take(k)) <= digits_value(s),
    decreases s.len(),
{
    if k < s.len() {
        let t = s.drop_last();
        assert(all_digits(t)) by {
            assert forall|i: int| 0 <= i < t.len() implies is_digit(#[trigger] t[i]) by {
                assert(t[i] == s[i]);
            }
        }
        lemma_digits_value_prefix_le(t, k);
        assert(t.take(k) =~= s.take(k));
    } else {
        assert(s.take(k) =~= s);
    }
}

/// Parses `cs[from..to]` as `str::parse::<u64>` would.
pub fn parse_u64_chars(cs: &Vec<char>, from: usize, to: usize) -> (r: Option<u64>)
    requires
        from <= to <= cs.len(),
    ensures
        r == parse_u64(cs@.subrange(from as int, to as int)),
{
    let ghost s = cs@.subrange(from as int, to as int);
    let mut start = from;
    if from < to && cs[from] == '+' {
        start = from + 1;
    }
    let ghost d = cs@.subrange(start as int, to as int);
    assert(d =~= (if s.len() > 0 && s[0] == '+' {
        s.drop_first()
    } else {
        s
    }));
    if start == to {
        return None;
    }
    let mut acc: u64 = 0;
    let mut i = start;
    while i < to
        invariant
            start <= i <= to <= cs.len(),
            d == cs@.subrange(start as int, to as int),
            d.len() > 0,
            parse_u64(cs@.subrange(from as int, to as int)) == (if all_digits(d) && digits_value(d)
                <= u64::MAX {
                Some(digits_value(d) as u64)
            } else {
                None
            }),
            all_digits(d.take(i - start)),
            acc as nat == digits_value(d.take(i - start)),
        decreases to - i,
    {
        let c = cs[i];
        proof {
            assert(d[i - start] == c);
        }
        if !('0' <= c && c <= '9') {
            proof {
                assert(!all_digits(d)) by {
                    assert(!is_digit(d[i - start]));
                }
            }
            return None;
        }
        let dv = (c as u32 - 48) as u64;
        proof {
            assert(d.take(i - start + 1).drop_last() =~= d.take(i - start));
            assert(all_digits(d.take(i - start + 1)));
            assert(d.take(i - start + 1).last() == c);
            assert(digits_value(d.take(i - start + 1)) == acc * 10 + dv);
        }
        if acc > 1844674407370955161 || (acc == 1844674407370955161 && dv > 5) {
            proof {
                assert(digits_value(d.take(i - start + 1)) > u64::MAX);
                if all_digits(d) {
                    lemma_digits_value_prefix_le(d, i - start + 1);
                }
            }
            return None;
        }
        acc = acc * 10 + dv;
        i = i + 1;
    }
    proof {
        assert(d.take(to - start) =~= d);
    }
    Some(acc)
}

// ───────────────────────────── whitespace ─────────────────────────────

/// The Unicode `White_Space` property, which `char::is_whitespace` tests.
pub open spec fn is_white_space(c: char) -> bool {
    ||| ('\u{9}' <= c && c <= '\u{d}')
    ||| c == ' '
    ||| c == '\u{85}'
    ||| c == '\u{a0}'
    ||| c == '\u{1680}'
    ||| ('\u{2000}' <= c && c <= '\u{200a}')
    ||| c == '\u{2028}'
    ||| c == '\u{2029}'
    ||| c == '\u{202f}'
    ||| c == '\u{205f}'
    ||| c == '\u{3000}'
}

/// Whether `c` is Unicode white space.
pub fn is_white_space_exec(c: char) -> (r: bool)
    ensures
        r == is_white_space(c),
{
    ('\u{9}' <= c && c <= '\u{d}') || c == ' ' || c == '\u{85}' || c == '\u{a0}' || c
        == '\u{1680}' || ('\u{2000}' <= c && c <= '\u{200a}') || c == '\u{2028}' || c
        == '\u{2029}' || c == '\u{202f}' || c == '\u{205f}' || c == '\u{3000}'
}

/// `s` without its leading white space, as `str::trim_start` gives it.
pub open spec fn trim_start(s: Seq<char>) -> Seq<char>
    decreases s.len(),
{
    if s.len() > 0 && is_white_space(s[0]) {
        trim_start(s.drop_first())
    } else {
        s
    }
}

/// The index in `cs` at which `trim_start(cs[from..])` begins.
pub fn skip_white_space(cs: &Vec<char>, from: usize) -> (k: usize)
    requires
        from <= cs.len(),
    ensures
        from <= k <= cs.len(),
        cs@.subrange(k as int, cs.len() as int) == trim_start(
            cs@.subrange(from as int, cs.len() as int),
        ),
{
    let n = cs.len();
    let mut k = from;
    while k < n && is_white_space_exec(cs[k])
        invariant
            from <= k <= n == cs.len(),
            trim_start(cs@.subrange(from as int, n as int)) == trim_start(
                cs@.subrange(k as int, n as int),
            ),
        decreases n - k,
    {
        proof {
            let t = cs@.subrange(k as int, n as int);
            assert(t.drop_first() =~= cs@.subrange(k + 1, n as int));
        }
        k = k + 1;
    }
    k
}

/// `s` without its leading white space.
pub fn trim_start_str(s: &str) -> (r: &str)
    ensures
        r@ == trim_start(s@),
{
    let cs = chars_of(s);
    let k = skip_white_space(&cs, 0);
    proof {
        assert(cs@.subrange(0, cs.len() as int) =~= s@);
    }
    s.substring_char(k, cs.len())
}

// ───────────────────────────── lines ─────────────────────────────

/// `c` occurs in `s`.
pub open spec fn has_char(s: Seq<char>, c: char) -> bool {
    exists|i: int| 0 <= i < s.len() && s[i] == c
}

/// The index of the first `c` in `s` (meaningful when `has_char(s, c)`).
pub open spec fn first_index(s: Seq<char>, c: char) -> int {
    choose|i: int| 0 <= i < s.len() && s[i] == c && forall|j: int| 0 <= j < i ==> s[j] != c
}

/// The first `c` in `s` exists and lies at `first_index(s, c)`.
pub proof fn lemma_first_index(s: Seq<char>, c: char)
    requires
        has_char(s, c),
    ensures
        0 <= first_index(s, c) < s.len(),
        s[first_index(s, c)] == c,
        forall|j: int| 0 <= j < first_index(s, c) ==> s[j] != c,
{
    let w = choose|i: int| 0 <= i < s.len() && s[i] == c;
    lemma_first_from(s, c, w);
}

proof fn lemma_first_from(s: Seq<char>, c: char, w: int)
    requires
        0 <= w < s.len(),
        s[w] == c,
    ensures
        exists|i: int|
            0 <= i < s.len() && s[i] == c && forall|j: int| 0 <= j < i ==> s[j] != c,
    decreases w,
{
    if exists|j: int| 0 <= j < w && s[j] == c {
        let j = choose|j: int| 0 <= j < w && s[j] == c;
        lemma_first_from(s, c, j);
    } else {
        assert(0 <= w < s.len() && s[w] == c && forall|j: int| 0 <= j < w ==> s[j] != c);
    }
}

/// If `i` is the position of the first `c` in `s`, `first_index` names it.
pub proof fn lemma_first_index_is(s: Seq<char>, c: char, i: int)
    requires
        0 <= i < s.len(),
        s[i] == c,
        forall|j: int| 0 <= j < i ==> s[j] != c,
    ensures
        has_char(s, c),
        first_index(s, c) == i,
{
    assert(has_char(s, c));
    lemma_first_index(s, c);
    let f = first_index(s, c);
    if f < i {
        assert(s[f] != c);
    } else if f > i {
        assert(s[i] != c);
    }
}

/// `s` without one trailing carriage return.
pub open spec fn strip_cr(s: Seq<char>) -> Seq<char> {
    if s.len() > 0 && s.last() == '\r' {
        s.drop_last()
    } else {
        s
    }
}

/// The lines of `s` as `str::lines` yields them: split at `\n`, each line
/// losing one `\r` that stands right before its `\n`; a final line ending is
/// optional, and a text without characters has no lines.
#[verifier::opaque]
pub open spec fn split_lines(s: Seq<char>) -> Seq<Seq<char>>
    decreases s.len(),
{
    if s.len() == 0 {
        seq![]
    } else if has_char(s, '\n') {
        let i = first_index(s, '\n');
        if 0 <= i < s.len() {
            seq![strip_cr(s.take(i))] + split_lines(s.skip(i + 1))
        } else {
            seq![]
        }
    } else {
        seq![s]
    }
}

#[verifier::spinoff_prover]
proof fn lemma_split_at_newline(s: Seq<char>, start: int, i: int)
    requires
        0 <= start <= i < s.len(),
        s[i] == '\n',
        forall|j: int| start <= j < i ==> s[j] != '\n',
    ensures
        split_lines(s.subrange(start, s.len() as int)) == seq![strip_cr(s.subrange(start, i))]
            + split_lines(s.subrange(i + 1, s.len() as int)),
{
    let rest = s.subrange(start, s.len() as int);
    let k = i - start;
    assert forall|j: int| 0 <= j < k implies rest[j] != '\n' by {
        assert(rest[j] == s[start + j]);
    }
    lemma_first_index_is(rest, '\n', k);
    assert(rest.take(k) =~= s.subrange(start, i));
    assert(rest.skip(k + 1) =~= s.subrange(i + 1, s.len() as int));
    lemma_split_unfold(rest, k);
}

proof fn lemma_split_unfold(s: Seq<char>, k: int)
    requires
        0 <= k < s.len(),
        has_char(s, '\n'),
        first_index(s, '\n') == k,
    ensures
        split_lines(s) == seq![strip_cr(s.take(k))] + split_lines(s.skip(k + 1)),
{
    reveal(split_lines);
}

/// The lines of `text` as `str::lines` yields them.
pub fn lines_of(text: &str) -> (out: Vec<String>)
    ensures
        out@.len() == split_lines(text@).len(),
        forall|i: int| 0 <= i < out@.len() ==> #[trigger] out@[i]@ == split_lines(text@)[i],
{
    let cs = chars_of(text);
    let n = cs.len();
    let mut out: Vec<String> = Vec::new();
    let mut start: usize = 0;
    let mut i: usize = 0;
    let ghost done: Seq<Seq<char>> = seq![];
    proof {
        assert(cs@.subrange(0, n as int) =~= text@);
        assert(done + split_lines(cs@.subrange(0, n as int)) =~= split_lines(text@));
    }
    while i < n
        invariant
            cs@ == text@,
            n == cs.len(),
            start <= i <= n,
            forall|j: int| start <= j < i ==> cs@[j] != '\n',
            out@.len() == done.len(),
            forall|k: int| 0 <= k < out@.len() ==> #[trigger] out@[k]@ == done[k],
            done + split_lines(cs@.subrange(start as int, n as int)) == split_lines(text@),
        decreases n - i,
    {
        if cs[i] == '\n' {
            proof {
                lemma_split_at_newline(cs@, start as int, i as int);
            }
            let end = if i > start && cs[i - 1] == '\r' {
                i - 1
            } else {
                i
            };
            let line = string_from_chars(&cs, start, end);
            proof {
                let piece = cs@.subrange(start as int, i as int);
                assert(line@ =~= strip_cr(piece));
                assert(done.push(line@) + split_lines(cs@.subrange(i + 1, n as int)) =~= done
                    + split_lines(cs@.subrange(start as int, n as int)));
                done = done.push(line@);
            }
            out.push(line);
            start = i + 1;
        }
        i = i + 1;
    }
    if start < n {
        let line = string_from_chars(&cs, start, n);
        proof {
            let rest = cs@.subrange(start as int, n as int);
            assert(!has_char(rest, '\n')) by {
                assert forall|j: int| 0 <= j < rest.len() implies rest[j] != '\n' by {
                    assert(rest[j] == cs@[start + j]);
                }
            }
            assert(split_lines(rest) == seq![rest]) by {
                reveal(split_lines);
            }
            assert(done.push(line@) =~= done + split_lines(rest));
            done = done.push(line@);
        }
        out.push(line);
    } else {
        proof {
            assert(cs@.subrange(start as int, n as int).len() == 0);
            assert(split_lines(cs@.subrange(start as int, n as int)) == Seq::<Seq<char>>::empty())
                by {
                reveal(split_lines);
            }
            assert(done + split_lines(cs@.subrange(start as int, n as int)) =~= done);
        }
    }
    out
}

} // verus!
