//! Character-level text helpers: whitespace, decimal numbers, and string building.
use vstd::prelude::*;

verus! {

/// The characters with the Unicode `White_Space` property.
pub open spec fn white_space(c: char) -> bool {
    ||| ('\u{9}' <= c && c <= '\u{d}')
    ||| c == ' '
    ||| c == '\u{85}'
    ||| c == '\u{a0}'
    ||| c == '\u{1680}'
    ||| ('\u{2000}' <= c && c <= '\u{200a}')
    ||| c == '\u{2028}'
    ||| c == '\u{2029}'
    ||| c == '\u{202f}'
    ||| c == '\u{205f}'
    ||| c == '\u{3000}'
}

/// Whether `c` is whitespace: the characters with the Unicode `White_Space` property, the
/// set that `char::is_whitespace` tests.
pub fn is_whitespace(c: char) -> (b: bool)
    ensures
        b == white_space(c),
{
    ('\u{9}' <= c && c <= '\u{d}')
        || c == ' '
        || c == '\u{85}'
        || c == '\u{a0}'
        || c == '\u{1680}'
        || ('\u{2000}' <= c && c <= '\u{200a}')
        || c == '\u{2028}'
        || c == '\u{2029}'
        || c == '\u{202f}'
        || c == '\u{205f}'
        || c == '\u{3000}'
}

/// `String::push` appends one character at the end of the string.
pub assume_specification[ String::push ](s: &mut String, ch: char)
    ensures
        final(s)@ == old(s)@.push(ch),
;

/// Whether `s` holds exactly the text `lit`.
pub fn is_text(s: &String, lit: &str) -> (r: bool)
    ensures
        r == (s@ == lit@),
{
    let l = lit.to_owned();
    *s == l
}

/// The characters of `s`, in order.
pub fn chars_of(s: &str) -> (v: Vec<char>)
    ensures
        v@ == s@,
{
    let mut v: Vec<char> = Vec::new();
    for c in it: s.chars()
        invariant
            it.seq() == s@,
            v@ == it.seq().take(it.index() as int),
    {
        proof {
            assert(it.seq().take(it.index() + 1) == it.seq().take(it.index() as int).push(c));
        }
        v.push(c);
    }
    proof {
        assert(s@.take(s@.len() as int) == s@);
    }
    v
}

/// A string holding the characters `cs[from..to]`.
pub fn string_of(cs: &Vec<char>, from: usize, to: usize) -> (s: String)
    requires
        from <= to <= cs.len(),
    ensures
        s@ == cs@.subrange(from as int, to as int),
{
    let mut s = String::new();
    let mut i = from;
    while i < to
        invariant
            from <= i <= to <= cs.len(),
            s@ == cs@.subrange(from as int, i as int),
        decreases to - i,
    {
        s.push(cs[i]);
        proof {
            assert(cs@.subrange(from as int, i + 1) == cs@.subrange(from as int, i as int).push(cs@[i as int]));
        }
        i = i + 1;
    }
    s
}

/// Appends the text `lit` to `s`.
pub fn append(s: &mut String, lit: &str)
    ensures
        final(s)@ == old(s)@ + lit@,
{
    s.append(lit);
}

// ------------------------------------------------------------------
// Decimal rendering
// ------------------------------------------------------------------

/// The decimal digit character for `d < 10`.
pub open spec fn digit_char(d: nat) -> char {
    if d == 0 { '0' }
    else if d == 1 { '1' }
    else if d == 2 { '2' }
    else if d == 3 { '3' }
    else if d == 4 { '4' }
    else if d == 5 { '5' }
    else if d == 6 { '6' }
    else if d == 7 { '7' }
    else if d == 8 { '8' }
    else { '9' }
}

/// The decimal text of a natural number, without leading zeros.
pub open spec fn nat_text(n: nat) -> Seq<char>
    decreases n,
{
    if n < 10 {
        seq![digit_char(n)]
    } else {
        nat_text(n / 10).push(digit_char(n % 10))
    }
}

proof fn lemma_digit_char(d: nat)
    requires
        d < 10,
    ensures
        digit_value(digit_char(d)) == d,
        '0' <= digit_char(d) <= '9',
{
}

/// The decimal text of a natural number is a non-empty string of digits that reads back
/// as the number.
pub proof fn lemma_nat_text_value(n: nat)
    ensures
        nat_text(n).len() > 0,
        digits_value(nat_text(n), 10) == n,
        forall|i: int| 0 <= i < nat_text(n).len() ==> '0' <= #[trigger] nat_text(n)[i] <= '9',
    decreases n,
{
    if n < 10 {
        lemma_digit_char(n);
        let t = seq![digit_char(n)];
        assert(t.drop_last() =~= Seq::<char>::empty());
        assert(digits_value(t, 10) == digits_value(t.drop_last(), 10) * 10 + digit_value(t.last()));
    } else {
        lemma_nat_text_value(n / 10);
        lemma_digit_char(n % 10);
        let t = nat_text(n / 10);
        assert(t.push(digit_char(n % 10)).drop_last() == t);
        assert(n == (n / 10) * 10 + n % 10);
        let u = nat_text(n);
        assert(u.last() == digit_char(n % 10));
        assert(digits_value(u, 10) == digits_value(u.drop_last(), 10) * 10 + digit_value(u.last()));
        assert forall|i: int| 0 <= i < nat_text(n).len() implies '0' <= #[trigger] nat_text(n)[i] <= '9' by {
            if i < t.len() {
                assert(nat_text(n)[i] == t[i]);
            }
        }
    }
}

/// Different natural numbers have different decimal texts.
pub proof fn lemma_nat_text_injective(a: nat, b: nat)
    requires
        nat_text(a) == nat_text(b),
    ensures
        a == b,
{
    lemma_nat_text_value(a);
    lemma_nat_text_value(b);
}

/// The decimal text of an integer, with a leading `-` when negative.
pub open spec fn int_text(n: int) -> Seq<char> {
    if n < 0 {
        seq!['-'] + nat_text((-n) as nat)
    } else {
        nat_text(n as nat)
    }
}

fn digit(d: u64) -> (c: char)
    requires
        d < 10,
    ensures
        c == digit_char(d as nat),
{
    if d == 0 { '0' }
    else if d == 1 { '1' }
    else if d == 2 { '2' }
    else if d == 3 { '3' }
    else if d == 4 { '4' }
    else if d == 5 { '5' }
    else if d == 6 { '6' }
    else if d == 7 { '7' }
    else if d == 8 { '8' }
    else { '9' }
}

/// Appends the decimal text of `n` to `s`.
pub fn push_nat(s: &mut String, n: u64)
    ensures
        final(s)@ == old(s)@ + nat_text(n as nat),
    decreases n,
{
    if n >= 10 {
        push_nat(s, n / 10);
        s.push(digit(n % 10));
    } else {
        s.push(digit(n));
    }
}

/// Appends the decimal text of `n` to `s`.
pub fn push_int(s: &mut String, n: i32)
    ensures
        final(s)@ == old(s)@ + int_text(n as int),
{
    if n < 0 {
        s.push('-');
        let m: i64 = n as i64;
        push_nat(s, (-m) as u64);
        proof {
            assert(seq!['-'] + nat_text((-n) as nat) == seq!['-'].add(nat_text((-n) as nat)));
        }
    } else {
        push_nat(s, n as u64);
    }
}

// ------------------------------------------------------------------
// Integer literals
// ------------------------------------------------------------------

/// The value of a digit character in any radix up to 36, as `char::to_digit` reads it.
pub open spec fn digit_value(c: char) -> int {
    if '0' <= c && c <= '9' {
        c as int - '0' as int
    } else if 'a' <= c && c <= 'z' {
        c as int - 'a' as int + 10
    } else if 'A' <= c && c <= 'Z' {
        c as int - 'A' as int + 10
    } else {
        36
    }
}

/// Whether every character of `s` is a digit of the radix.
pub open spec fn all_digits(s: Seq<char>, radix: int) -> bool {
    forall|i: int| 0 <= i < s.len() ==> #[trigger] digit_value(s[i]) < radix
}

/// The value of a digit string in the radix.
pub open spec fn digits_value(s: Seq<char>, radix: int) -> int
    decreases s.len(),
{
    if s.len() == 0 {
        0
    } else {
        digits_value(s.drop_last(), radix) * radix + digit_value(s.last())
    }
}

/// What `i32::from_str_radix` gives for `s`: an optional `+` or `-` sign,
/// then one or more digits of the radix, with a value in the range of `i32`.
pub open spec fn parse_int(s: Seq<char>, radix: int) -> Option<i32> {
    let negative = s.len() > 0 && s[0] == '-';
    let body = if s.len() > 0 && (s[0] == '-' || s[0] == '+') { s.skip(1) } else { s };
    let magnitude = digits_value(body, radix);
    let value = if negative { -magnitude } else { magnitude };
    if body.len() > 0 && all_digits(body, radix) && i32::MIN <= value <= i32::MAX {
        Some(value as i32)
    } else {
        None
    }
}

proof fn lemma_digits_value_nonneg(s: Seq<char>, radix: int)
    requires
        2 <= radix <= 36,
        all_digits(s, radix),
    ensures
        digits_value(s, radix) >= 0,
    decreases s.len(),
{
    if s.len() > 0 {
        assert(all_digits(s.drop_last(), radix)) by {
            assert forall|i: int| 0 <= i < s.drop_last().len() implies
                #[trigger] digit_value(s.drop_last()[i]) < radix by {
                assert(s.drop_last()[i] == s[i]);
            }
        }
        lemma_digits_value_nonneg(s.drop_last(), radix);
        assert(digit_value(s[s.len() - 1]) < radix);
        let v = digits_value(s.drop_last(), radix);
        assert(v * radix >= 0) by (nonlinear_arith)
            requires
                v >= 0,
                radix >= 2,
        ;
    }
}

proof fn lemma_digits_value_prefix(s: Seq<char>, i: int, radix: int)
    requires
        2 <= radix <= 36,
        all_digits(s, radix),
        0 <= i <= s.len(),
    ensures
        digits_value(s, radix) >= digits_value(s.take(i), radix),
    decreases s.len(),
{
    if i < s.len() {
        let p = s.drop_last();
        assert(all_digits(p, radix)) by {
            assert forall|k: int| 0 <= k < p.len() implies #[trigger] digit_value(p[k]) < radix by {
                assert(p[k] == s[k]);
            }
        }
        lemma_digits_value_prefix(p, i, radix);
        assert(p.take(i) == s.take(i));
        lemma_digits_value_nonneg(p, radix);
        let v = digits_value(p, radix);
        assert(digit_value(s[s.len() - 1]) >= 0);
        assert(v * radix >= v) by (nonlinear_arith)
            requires
                v >= 0,
                radix >= 2,
        ;
    } else {
        assert(s.take(i) == s);
    }
}

/// The value of `cs[from..to]` read by `i32::from_str_radix` with the radix.
pub fn parse_int_at(cs: &Vec<char>, from: usize, to: usize, radix: u32) -> (r: Option<i32>)
    requires
        from <= to <= cs.len(),
        2 <= radix <= 36,
    ensures
        r == parse_int(cs@.subrange(from as int, to as int), radix as int),
{
    let ghost s = cs@.subrange(from as int, to as int);
    let mut start = from;
    let mut negative = false;
    if from < to && (cs[from] == '-' || cs[from] == '+') {
        negative = cs[from] == '-';
        start = from + 1;
    }
    let ghost body = cs@.subrange(start as int, to as int);
    proof {
        assert(body == (if s.len() > 0 && (s[0] == '-' || s[0] == '+') { s.skip(1) } else { s }));
    }
    if start == to {
        return None;
    }
    let mut acc: u64 = 0;
    let mut i = start;
    while i < to
        invariant
            from <= start <= i <= to <= cs.len(),
            2 <= radix <= 36,
            body == cs@.subrange(start as int, to as int),
            s == cs@.subrange(from as int, to as int),
            body == (if s.len() > 0 && (s[0] == '-' || s[0] == '+') { s.skip(1) } else { s }),
            negative == (s.len() > 0 && s[0] == '-'),
            body.len() > 0,
            all_digits(body.take(i - start), radix as int),
            acc == digits_value(body.take(i - start), radix as int),
            acc <= 0x8000_0000,
        decreases to - i,
    {
        let c = cs[i];
        let d: u64 = if '0' <= c && c <= '9' {
            (c as u64) - 48
        } else if 'a' <= c && c <= 'z' {
            (c as u64) - 97 + 10
        } else if 'A' <= c && c <= 'Z' {
            (c as u64) - 65 + 10
        } else {
            36
        };
        assert(d == digit_value(c));
        assert(body[i - start] == c);
        if d >= radix as u64 {
            assert(!all_digits(body, radix as int)) by {
                assert(digit_value(body[i - start]) >= radix);
            }
            return None;
        }
        let ghost k = i - start;
        proof {
            assert(body.take(k + 1).drop_last() == body.take(k));
            assert(body.take(k + 1).last() == c);
            assert(all_digits(body.take(k + 1), radix as int)) by {
                assert forall|j: int| 0 <= j < body.take(k + 1).len() implies
                    #[trigger] digit_value(body.take(k + 1)[j]) < radix by {
                    if j < k {
                        assert(body.take(k + 1)[j] == body.take(k)[j]);
                    }
                }
            }
        }
        assert(acc * (radix as u64) <= 0x8000_0000 * 36) by (nonlinear_arith)
            requires
                acc <= 0x8000_0000,
                radix <= 36,
        ;
        let next: u64 = acc * (radix as u64) + d;
        if next > 0x8000_0000 {
            proof {
                if all_digits(body, radix as int) {
                    lemma_digits_value_prefix(body, k + 1, radix as int);
                }
            }
            return None;
        }
        acc = next;
        i = i + 1;
    }
    proof {
        assert(body.take(to - start) == body);
    }
    proof {
        assert(negative == (s.len() > 0 && s[0] == '-'));
    }
    if negative {
        let v: i64 = -(acc as i64);
        Some(v as i32)
    } else {
        if acc > 0x7fff_ffff {
            return None;
        }
        Some(acc as i32)
    }
}

// ------------------------------------------------------------------
// Trimming and scanning
// ------------------------------------------------------------------

/// The text without its leading whitespace.
pub open spec fn trim_start(s: Seq<char>) -> Seq<char>
    decreases s.len(),
{
    if s.len() > 0 && white_space(s[0]) { trim_start(s.skip(1)) } else { s }
}

/// The text without its trailing whitespace.
pub open spec fn trim_end(s: Seq<char>) -> Seq<char>
    decreases s.len(),
{
    if s.len() > 0 && white_space(s.last()) { trim_end(s.drop_last()) } else { s }
}

/// The text without its leading and trailing whitespace, as `str::trim` gives it.
pub open spec fn trim(s: Seq<char>) -> Seq<char> {
    trim_end(trim_start(s))
}

/// The bounds of `cs[from..to]` with its leading and trailing whitespace removed.
pub fn trim_bounds(cs: &Vec<char>, from: usize, to: usize) -> (r: (usize, usize))
    requires
        from <= to <= cs.len(),
    ensures
        from <= r.0 <= r.1 <= to,
        cs@.subrange(r.0 as int, r.1 as int) == trim(cs@.subrange(from as int, to as int)),
{
    let mut a = from;
    while a < to && is_whitespace(cs[a])
        invariant
            from <= a <= to <= cs.len(),
            trim_start(cs@.subrange(a as int, to as int)) == trim_start(cs@.subrange(from as int, to as int)),
        decreases to - a,
    {
        proof {
            assert(cs@.subrange(a as int, to as int).skip(1) =~= cs@.subrange(a + 1, to as int));
        }
        a = a + 1;
    }
    let mut b = to;
    proof {
        assert(trim_start(cs@.subrange(a as int, to as int)) == cs@.subrange(a as int, to as int));
    }
    while b > a && is_whitespace(cs[b - 1])
        invariant
            from <= a <= b <= to <= cs.len(),
            trim_end(cs@.subrange(a as int, b as int)) == trim(cs@.subrange(from as int, to as int)),
        decreases b - a,
    {
        proof {
            assert(cs@.subrange(a as int, b as int).drop_last() =~= cs@.subrange(a as int, b - 1));
        }
        b = b - 1;
    }
    (a, b)
}

/// The number of occurrences of `c` in `s`.
pub open spec fn count_char(s: Seq<char>, c: char) -> nat
    decreases s.len(),
{
    if s.len() == 0 {
        0
    } else {
        count_char(s.drop_last(), c) + if s.last() == c { 1nat } else { 0nat }
    }
}

/// The text after the first `c` (empty when there is none).
pub open spec fn after_first(s: Seq<char>, c: char) -> Seq<char>
    decreases s.len(),
{
    if s.len() == 0 {
        s
    } else if s[0] == c {
        s.skip(1)
    } else {
        after_first(s.skip(1), c)
    }
}

/// The text before the first `c` (all of it when there is none).
pub open spec fn until_char(s: Seq<char>, c: char) -> Seq<char>
    decreases s.len(),
{
    if s.len() == 0 || s[0] == c {
        Seq::empty()
    } else {
        seq![s[0]] + until_char(s.skip(1), c)
    }
}

/// Whether `s` holds the character `c`.
pub open spec fn has_char(s: Seq<char>, c: char) -> bool {
    exists|i: int| 0 <= i < s.len() && s[i] == c
}

/// The number of occurrences of `c` in `cs[from..to]`.
pub fn count_in(cs: &Vec<char>, from: usize, to: usize, c: char) -> (n: usize)
    requires
        from <= to <= cs.len(),
    ensures
        n == count_char(cs@.subrange(from as int, to as int), c),
{
    let mut n: usize = 0;
    let mut k = from;
    while k < to
        invariant
            from <= k <= to <= cs.len(),
            n == count_char(cs@.subrange(from as int, k as int), c),
            n <= k - from,
        decreases to - k,
    {
        proof {
            assert(cs@.subrange(from as int, k + 1).drop_last() =~= cs@.subrange(from as int, k as int));
        }
        if cs[k] == c {
            n = n + 1;
        }
        k = k + 1;
    }
    n
}

/// The position of the first `c` in `cs[from..to]`, or `to` when there is none.
pub fn find_char(cs: &Vec<char>, from: usize, to: usize, c: char) -> (k: usize)
    requires
        from <= to <= cs.len(),
    ensures
        from <= k <= to,
        k < to ==> cs@[k as int] == c,
        forall|j: int| from <= j < k ==> cs@[j] != c,
        after_first(cs@.subrange(from as int, to as int), c)
            == (if k < to { cs@.subrange(k + 1, to as int) } else { Seq::<char>::empty() }),
        until_char(cs@.subrange(from as int, to as int), c) == cs@.subrange(from as int, k as int),
        has_char(cs@.subrange(from as int, to as int), c) == (k < to),
{
    let mut k = from;
    while k < to && cs[k] != c
        invariant
            from <= k <= to <= cs.len(),
            forall|j: int| from <= j < k ==> cs@[j] != c,
            after_first(cs@.subrange(from as int, to as int), c) == after_first(cs@.subrange(k as int, to as int), c),
            until_char(cs@.subrange(from as int, to as int), c)
                == cs@.subrange(from as int, k as int) + until_char(cs@.subrange(k as int, to as int), c),
        decreases to - k,
    {
        proof {
            let r = cs@.subrange(k as int, to as int);
            assert(r.skip(1) =~= cs@.subrange(k + 1, to as int));
            assert(cs@.subrange(from as int, k + 1) =~= cs@.subrange(from as int, k as int) + seq![r[0]]);
            assert(until_char(r, c) == seq![r[0]] + until_char(r.skip(1), c));
            assert(cs@.subrange(from as int, k as int) + (seq![r[0]] + until_char(r.skip(1), c))
                =~= cs@.subrange(from as int, k + 1) + until_char(r.skip(1), c));
        }
        k = k + 1;
    }
    proof {
        let r = cs@.subrange(k as int, to as int);
        if k < to {
            assert(r.skip(1) =~= cs@.subrange(k + 1, to as int));
            assert(until_char(r, c) =~= Seq::<char>::empty());
            assert(cs@.subrange(from as int, to as int)[k - from] == c);
        } else {
            assert(r =~= Seq::<char>::empty());
            assert forall|i: int| 0 <= i < cs@.subrange(from as int, to as int).len() implies
                cs@.subrange(from as int, to as int)[i] != c by {
                assert(cs@.subrange(from as int, to as int)[i] == cs@[from + i]);
            }
        }
        assert(cs@.subrange(from as int, k as int) + until_char(r, c) =~= cs@.subrange(from as int, k as int));
    }
    k
}

/// Whether `cs[from..to]` starts with the characters of `p`.
pub fn starts_with_at(cs: &Vec<char>, from: usize, to: usize, p: &Vec<char>) -> (r: bool)
    requires
        from <= to <= cs.len(),
    ensures
        r == p@.is_prefix_of(cs@.subrange(from as int, to as int)),
{
    if p.len() > to - from {
        return false;
    }
    let mut i: usize = 0;
    while i < p.len()
        invariant
            p.len() <= to - from,
            from <= to <= cs.len(),
            i <= p.len(),
            forall|j: int| 0 <= j < i ==> p@[j] == cs@[from + j],
        decreases p.len() - i,
    {
        if p[i] != cs[from + i] {
            proof {
                assert(cs@.subrange(from as int, to as int).subrange(0, p@.len() as int)[i as int] != p@[i as int]);
            }
            return false;
        }
        i = i + 1;
    }
    proof {
        assert(p@ =~= cs@.subrange(from as int, to as int).subrange(0, p@.len() as int));
    }
    true
}

/// The end of the line that starts at `i`: the position of the next `\n`, or the end.
pub open spec fn line_end(cs: Seq<char>, i: int) -> int
    decreases cs.len() - i,
{
    if 0 <= i < cs.len() && cs[i] != '\n' { line_end(cs, i + 1) } else { i }
}

/// The end of a line lies at or after its start.
pub proof fn lemma_line_end_bounds(cs: Seq<char>, i: int)
    requires
        0 <= i <= cs.len(),
    ensures
        i <= line_end(cs, i) <= cs.len(),
    decreases cs.len() - i,
{
    if 0 <= i < cs.len() && cs[i] != '\n' {
        lemma_line_end_bounds(cs, i + 1);
    }
}

/// The end of the line that starts at `i`, found by scanning.
pub proof fn lemma_line_end_is(cs: Seq<char>, i: int, e: int)
    requires
        0 <= i <= e <= cs.len(),
        forall|j: int| i <= j < e ==> cs[j] != '\n',
        e < cs.len() ==> cs[e] == '\n',
    ensures
        line_end(cs, i) == e,
    decreases e - i,
{
    if i < e {
        lemma_line_end_is(cs, i + 1, e);
    }
}

} // verus!
