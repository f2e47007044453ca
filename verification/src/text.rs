//! Text: whitespace, ordering, decimal numbers, and messages put together from parts.

use vstd::prelude::*;

verus! {

/// The characters with the Unicode property `White_Space`.
pub open spec fn is_whitespace(c: char) -> bool {
    let n = c as int;
    ||| 0x09 <= n <= 0x0d
    ||| n == 0x20
    ||| n == 0x85
    ||| n == 0xa0
    ||| n == 0x1680
    ||| 0x2000 <= n <= 0x200a
    ||| n == 0x2028
    ||| n == 0x2029
    ||| n == 0x202f
    ||| n == 0x205f
    ||| n == 0x3000
}

/// `s` without its leading whitespace.
pub open spec fn trimmed_start(s: Seq<char>) -> Seq<char>
    decreases s.len(),
{
    if s.len() > 0 && is_whitespace(s.first()) {
        trimmed_start(s.drop_first())
    } else {
        s
    }
}

/// `s` without its trailing whitespace.
pub open spec fn trimmed_end(s: Seq<char>) -> Seq<char>
    decreases s.len(),
{
    if s.len() > 0 && is_whitespace(s.last()) {
        trimmed_end(s.drop_last())
    } else {
        s
    }
}

/// `s` without leading and trailing whitespace.
pub open spec fn trimmed(s: Seq<char>) -> Seq<char> {
    trimmed_end(trimmed_start(s))
}

fn whitespace(c: char) -> (r: bool)
    ensures
        r == is_whitespace(c),
{
    let n: u32 = c as u32;
    (0x09 <= n && n <= 0x0d) || n == 0x20 || n == 0x85 || n == 0xa0 || n == 0x1680 || (0x2000 <= n
        && n <= 0x200a) || n == 0x2028 || n == 0x2029 || n == 0x202f || n == 0x205f || n == 0x3000
}

/// Trimming the front of `s` skips exactly its leading run of whitespace.
proof fn lemma_trimmed_start_skips(s: Seq<char>, n: int)
    requires
        0 <= n <= s.len(),
        forall|i: int| 0 <= i < n ==> is_whitespace(#[trigger] s[i]),
        n < s.len() ==> !is_whitespace(s[n]),
    ensures
        trimmed_start(s) == s.skip(n),
    decreases n,
{
    if n == 0 {
        assert(s.skip(0) =~= s);
    } else {
        assert(is_whitespace(s[0]));
        assert forall|i: int| 0 <= i < n - 1 implies is_whitespace(
            #[trigger] s.drop_first()[i],
        ) by {
            assert(is_whitespace(s[i + 1]));
        }
        lemma_trimmed_start_skips(s.drop_first(), n - 1);
        assert(s.drop_first().skip(n - 1) =~= s.skip(n));
    }
}

/// Trimming the back of `s` keeps exactly what stands before its trailing run of whitespace.
proof fn lemma_trimmed_end_takes(s: Seq<char>, n: int)
    requires
        0 <= n <= s.len(),
        forall|i: int| n <= i < s.len() ==> is_whitespace(#[trigger] s[i]),
        n > 0 ==> !is_whitespace(s[n - 1]),
    ensures
        trimmed_end(s) == s.take(n),
    decreases s.len() - n,
{
    if n == s.len() {
        assert(s.take(n) =~= s);
    } else {
        assert(is_whitespace(s[s.len() - 1]));
        assert forall|i: int| n <= i < s.len() - 1 implies is_whitespace(
            #[trigger] s.drop_last()[i],
        ) by {
            assert(is_whitespace(s[i]));
        }
        lemma_trimmed_end_takes(s.drop_last(), n);
        assert(s.drop_last().take(n) =~= s.take(n));
    }
}

/// The part of `s` between its leading and its trailing whitespace.
pub fn trim(s: &str) -> (r: &str)
    ensures
        r@ == trimmed(s@),
{
    let mut chars = s.chars();
    let mut seen: usize = 0;
    let mut start: usize = 0;
    let mut end: usize = 0;
    let total: usize = s.unicode_len();
    while seen < total
        invariant
            total == s@.len(),
            seen <= total,
            vstd::std_specs::iter::IteratorSpec::remaining(&chars) == s@.skip(seen as int),
            start <= seen,
            end <= seen,
            end == 0 ==> start == seen,
            end > 0 ==> start < end,
            forall|i: int| 0 <= i < start ==> is_whitespace(#[trigger] s@[i]),
            end > 0 ==> !is_whitespace(s@[start as int]) && !is_whitespace(s@[end - 1]),
            forall|i: int| end <= i < seen ==> is_whitespace(#[trigger] s@[i]),
        decreases total - seen,
    {
        let next = chars.next();
        match next {
            Some(c) => {
                assert(c == s@[seen as int]);
                assert(s@.skip(seen as int).drop_first() =~= s@.skip(seen + 1));
                seen = seen + 1;
                if whitespace(c) {
                    if end == 0 {
                        start = seen;
                    }
                } else {
                    end = seen;
                }
            },
            None => {},
        }
    }
    if end == 0 {
        end = start;
    }
    proof {
        lemma_trimmed_start_skips(s@, start as int);
        let rest = s@.skip(start as int);
        assert forall|i: int| end - start <= i < rest.len() implies is_whitespace(
            #[trigger] rest[i],
        ) by {
            assert(is_whitespace(s@[start + i]));
        }
        lemma_trimmed_end_takes(rest, end - start);
        assert(rest.take(end - start) =~= s@.subrange(start as int, end as int));
    }
    s.substring_char(start, end)
}

proof fn lemma_trimmed_end_shape(s: Seq<char>)
    ensures
        trimmed_end(s).len() <= s.len(),
        trimmed_end(s) == s.take(trimmed_end(s).len() as int),
        trimmed_end(s).len() > 0 ==> !is_whitespace(trimmed_end(s).last()),
    decreases s.len(),
{
    if s.len() > 0 && is_whitespace(s.last()) {
        lemma_trimmed_end_shape(s.drop_last());
        let n = trimmed_end(s).len() as int;
        assert(s.drop_last().take(n) =~= s.take(n));
    } else {
        assert(s.take(s.len() as int) =~= s);
    }
}

proof fn lemma_trimmed_start_shape(s: Seq<char>)
    ensures
        trimmed_start(s).len() > 0 ==> !is_whitespace(trimmed_start(s).first()),
    decreases s.len(),
{
    if s.len() > 0 && is_whitespace(s.first()) {
        lemma_trimmed_start_shape(s.drop_first());
    }
}

/// Trimmed text neither starts nor ends with whitespace, and trimming it again changes nothing.
pub proof fn lemma_trimmed(s: Seq<char>)
    ensures
        trimmed(s).len() > 0 ==> !is_whitespace(trimmed(s).first()) && !is_whitespace(
            trimmed(s).last(),
        ),
        trimmed(trimmed(s)) == trimmed(s),
{
    lemma_trimmed_start_shape(s);
    lemma_trimmed_end_shape(trimmed_start(s));
}

proof fn lemma_trimmed_start_is_a_suffix(s: Seq<char>) -> (n: int)
    ensures
        0 <= n <= s.len(),
        trimmed_start(s) == s.skip(n),
        forall|i: int| 0 <= i < n ==> is_whitespace(#[trigger] s[i]),
    decreases s.len(),
{
    if s.len() > 0 && is_whitespace(s.first()) {
        let k = lemma_trimmed_start_is_a_suffix(s.drop_first());
        assert(s.drop_first().skip(k) =~= s.skip(k + 1));
        assert forall|i: int| 0 <= i < k + 1 implies is_whitespace(#[trigger] s[i]) by {
            if i > 0 {
                assert(is_whitespace(s.drop_first()[i - 1]));
            }
        }
        k + 1
    } else {
        assert(s.skip(0) =~= s);
        0
    }
}

proof fn lemma_trimmed_end_is_a_prefix(s: Seq<char>) -> (n: int)
    ensures
        0 <= n <= s.len(),
        trimmed_end(s) == s.take(n),
        forall|i: int| n <= i < s.len() ==> is_whitespace(#[trigger] s[i]),
    decreases s.len(),
{
    if s.len() > 0 && is_whitespace(s.last()) {
        let k = lemma_trimmed_end_is_a_prefix(s.drop_last());
        assert(s.drop_last().take(k) =~= s.take(k));
        assert forall|i: int| k <= i < s.len() implies is_whitespace(#[trigger] s[i]) by {
            if i < s.len() - 1 {
                assert(is_whitespace(s.drop_last()[i]));
            }
        }
        k
    } else {
        assert(s.take(s.len() as int) =~= s);
        s.len() as int
    }
}

/// Trimming takes away nothing but whitespace at the ends: around what is left stand two texts of
/// whitespace alone.
pub proof fn law_trimming_takes_only_whitespace(s: Seq<char>)
    ensures
        exists|a: Seq<char>, b: Seq<char>|
            #![trigger a + trimmed(s) + b]
            s == a + trimmed(s) + b && (forall|i: int|
                0 <= i < a.len() ==> is_whitespace(#[trigger] a[i])) && (forall|i: int|
                0 <= i < b.len() ==> is_whitespace(#[trigger] b[i])),
{
    let n = lemma_trimmed_start_is_a_suffix(s);
    let rest = s.skip(n);
    let m = lemma_trimmed_end_is_a_prefix(rest);
    let a = s.take(n);
    let b = rest.skip(m);
    assert(s =~= a + trimmed(s) + b);
    assert forall|i: int| 0 <= i < a.len() implies is_whitespace(#[trigger] a[i]) by {
        assert(is_whitespace(s[i]));
    }
    assert forall|i: int| 0 <= i < b.len() implies is_whitespace(#[trigger] b[i]) by {
        assert(is_whitespace(rest[m + i]));
    }
}

/// Text that neither starts nor ends with whitespace comes back from trimming whole, whatever
/// whitespace is put around it; whitespace alone comes back as nothing.
pub proof fn law_trimming_keeps_the_rest(a: Seq<char>, core: Seq<char>, b: Seq<char>)
    requires
        forall|i: int| 0 <= i < a.len() ==> is_whitespace(#[trigger] a[i]),
        forall|i: int| 0 <= i < b.len() ==> is_whitespace(#[trigger] b[i]),
        core.len() > 0 ==> !is_whitespace(core.first()) && !is_whitespace(core.last()),
    ensures
        trimmed(a + core + b) == core,
{
    let s = a + core + b;
    if core.len() > 0 {
        let n = a.len() as int;
        assert forall|i: int| 0 <= i < n implies is_whitespace(#[trigger] s[i]) by {
            assert(is_whitespace(a[i]));
        }
        lemma_trimmed_start_skips(s, n);
        let rest = s.skip(n);
        assert(rest =~= core + b);
        assert forall|i: int| core.len() <= i < rest.len() implies is_whitespace(
            #[trigger] rest[i],
        ) by {
            assert(is_whitespace(b[i - core.len()]));
        }
        lemma_trimmed_end_takes(rest, core.len() as int);
        assert(rest.take(core.len() as int) =~= core);
    } else {
        assert forall|i: int| 0 <= i < s.len() implies is_whitespace(#[trigger] s[i]) by {
            if i < a.len() {
                assert(is_whitespace(a[i]));
            } else {
                assert(is_whitespace(b[i - a.len()]));
            }
        }
        lemma_trimmed_start_skips(s, s.len() as int);
        assert(s.skip(s.len() as int) =~= core);
    }
}

/// `a` stands before `b`, or equals it, in the order of their code points.
pub open spec fn text_le(a: Seq<char>, b: Seq<char>) -> bool
    decreases a.len(),
{
    if a.len() == 0 {
        true
    } else if b.len() == 0 {
        false
    } else if a.first() != b.first() {
        (a.first() as int) < (b.first() as int)
    } else {
        text_le(a.drop_first(), b.drop_first())
    }
}

/// `text_le` is a total order.
pub proof fn lemma_text_le_total(a: Seq<char>, b: Seq<char>)
    ensures
        text_le(a, a),
        text_le(a, b) || text_le(b, a),
        text_le(a, b) && text_le(b, a) ==> a == b,
    decreases a.len(),
{
    if a.len() > 0 {
        lemma_text_le_total(a.drop_first(), a.drop_first());
        if b.len() > 0 {
            lemma_text_le_total(a.drop_first(), b.drop_first());
            if a.first() == b.first() && a.drop_first() == b.drop_first() {
                assert(a =~= seq![a.first()] + a.drop_first());
                assert(b =~= seq![b.first()] + b.drop_first());
            }
        }
    } else {
        assert(text_le(b, a) ==> a =~= b);
    }
}

/// `text_le` is transitive.
pub proof fn lemma_text_le_transitive(a: Seq<char>, b: Seq<char>, c: Seq<char>)
    requires
        text_le(a, b),
        text_le(b, c),
    ensures
        text_le(a, c),
    decreases a.len(),
{
    if a.len() > 0 && b.len() > 0 && c.len() > 0 && a.first() == b.first() && b.first()
        == c.first() {
        lemma_text_le_transitive(a.drop_first(), b.drop_first(), c.drop_first());
    }
}

/// Of two texts that share a beginning and then differ, the one with the lesser code point there
/// stands first, whatever follows.
pub proof fn law_first_difference_decides(
    shared: Seq<char>,
    x: char,
    a: Seq<char>,
    y: char,
    b: Seq<char>,
)
    requires
        x != y,
    ensures
        text_le(shared + seq![x] + a, shared + seq![y] + b) <==> (x as int) < (y as int),
    decreases shared.len(),
{
    let left = shared + seq![x] + a;
    let right = shared + seq![y] + b;
    if shared.len() == 0 {
        assert(left.first() == x);
        assert(right.first() == y);
    } else {
        let rest = shared.drop_first();
        law_first_difference_decides(rest, x, a, y, b);
        assert(left.drop_first() =~= rest + seq![x] + a);
        assert(right.drop_first() =~= rest + seq![y] + b);
        assert(left.first() == right.first());
    }
}

/// A text stands before every text that goes on where it ends, and not behind it.
pub proof fn law_beginnings_come_first(s: Seq<char>, more: Seq<char>)
    ensures
        text_le(s, s + more),
        text_le(s + more, s) <==> more.len() == 0,
    decreases s.len(),
{
    if s.len() == 0 {
        assert(s + more =~= more);
    } else {
        law_beginnings_come_first(s.drop_first(), more);
        assert((s + more).drop_first() =~= s.drop_first() + more);
        assert((s + more).first() == s.first());
    }
}

/// Whether `a` stands before `b`, or equals it.
pub fn at_most(a: &str, b: &str) -> (r: bool)
    ensures
        r == text_le(a@, b@),
{
    let mut left = a.chars();
    let mut right = b.chars();
    let total: usize = a.unicode_len();
    let mut seen: usize = 0;
    assert(a@.skip(0) =~= a@);
    assert(b@.skip(0) =~= b@);
    while seen < total
        invariant
            total == a@.len(),
            seen <= total,
            seen <= b@.len(),
            vstd::std_specs::iter::IteratorSpec::remaining(&left) == a@.skip(seen as int),
            vstd::std_specs::iter::IteratorSpec::remaining(&right) == b@.skip(seen as int),
            text_le(a@, b@) == text_le(a@.skip(seen as int), b@.skip(seen as int)),
        decreases total - seen,
    {
        let next_left = left.next();
        let next_right = right.next();
        match (next_left, next_right) {
            (Some(x), Some(y)) => {
                if x != y {
                    return x < y;
                }
                assert(a@.skip(seen as int).drop_first() =~= a@.skip(seen + 1));
                assert(b@.skip(seen as int).drop_first() =~= b@.skip(seen + 1));
                seen = seen + 1;
            },
            (Some(_), None) => {
                return false;
            },
            _ => {},
        }
    }
    true
}

/// Whether two texts are the same.
pub fn same_text(a: &str, b: &str) -> (r: bool)
    ensures
        r == (a@ == b@),
{
    let mut left = a.chars();
    let mut right = b.chars();
    let total: usize = a.unicode_len();
    if b.unicode_len() != total {
        return false;
    }
    let mut seen: usize = 0;
    while seen < total
        invariant
            total == a@.len() == b@.len(),
            seen <= total,
            vstd::std_specs::iter::IteratorSpec::remaining(&left) == a@.skip(seen as int),
            vstd::std_specs::iter::IteratorSpec::remaining(&right) == b@.skip(seen as int),
            forall|i: int| 0 <= i < seen ==> #[trigger] a@[i] == b@[i],
        decreases total - seen,
    {
        let next_left = left.next();
        let next_right = right.next();
        match (next_left, next_right) {
            (Some(x), Some(y)) => {
                if x != y {
                    assert(a@[seen as int] != b@[seen as int]);
                    return false;
                }
                assert(a@.skip(seen as int).drop_first() =~= a@.skip(seen + 1));
                assert(b@.skip(seen as int).drop_first() =~= b@.skip(seen + 1));
                seen = seen + 1;
            },
            _ => {},
        }
    }
    assert(a@ =~= b@);
    true
}

/// The character of a decimal digit.
pub open spec fn digit(d: int) -> char {
    (('0' as int) + d) as char
}

/// A number in decimal, without leading zeros.
pub open spec fn decimal(n: nat) -> Seq<char>
    decreases n,
{
    if n < 10 {
        seq![digit(n as int)]
    } else {
        decimal(n / 10).push(digit((n % 10) as int))
    }
}

/// The text of one decimal digit.
fn digit_text(d: usize) -> (r: &'static str)
    requires
        d < 10,
    ensures
        r@ == seq![digit(d as int)],
{
    proof {
        reveal_strlit("0");
        reveal_strlit("1");
        reveal_strlit("2");
        reveal_strlit("3");
        reveal_strlit("4");
        reveal_strlit("5");
        reveal_strlit("6");
        reveal_strlit("7");
        reveal_strlit("8");
        reveal_strlit("9");
    }
    match d {
        0 => "0",
        1 => "1",
        2 => "2",
        3 => "3",
        4 => "4",
        5 => "5",
        6 => "6",
        7 => "7",
        8 => "8",
        _ => "9",
    }
}

/// Writes a number in decimal.
pub fn to_decimal(n: usize) -> (r: String)
    ensures
        r@ == decimal(n as nat),
    decreases n,
{
    if n < 10 {
        digit_text(n).to_owned()
    } else {
        let mut r = to_decimal(n / 10);
        r.append(digit_text(n % 10));
        assert(r@ =~= decimal(n as nat));
        r
    }
}

/// `c` is a decimal digit.
pub open spec fn is_digit(c: char) -> bool {
    '0' as int <= c as int <= '9' as int
}

/// What a decimal digit is worth.
fn digit_worth(c: char) -> (r: Option<i64>)
    ensures
        r is Some <==> is_digit(c),
        r matches Some(worth) ==> worth == c as int - '0' as int,
{
    if '0' <= c && c <= '9' {
        Some((c as u32 - '0' as u32) as i64)
    } else {
        None
    }
}

/// The number that a run of decimal digits stands for.
pub open spec fn digits_value(s: Seq<char>) -> nat
    decreases s.len(),
{
    if s.len() == 0 {
        0
    } else {
        (digits_value(s.drop_last()) * 10 + (s.last() as int - '0' as int)) as nat
    }
}

/// `s` consists of decimal digits, at least one.
pub open spec fn is_number(s: Seq<char>) -> bool {
    &&& s.len() > 0
    &&& forall|i: int| 0 <= i < s.len() ==> is_digit(#[trigger] s[i])
}

/// `s` without the sign that it may start with.
pub open spec fn unsigned_part(s: Seq<char>) -> Seq<char> {
    if s.len() > 0 && (s.first() == '+' || s.first() == '-') {
        s.drop_first()
    } else {
        s
    }
}

/// The `i32` that `s` spells: an optional sign, then decimal digits and nothing else.
pub open spec fn parsed_i32(s: Seq<char>) -> Option<i32> {
    let magnitude = digits_value(unsigned_part(s)) as int;
    let value = if s.len() > 0 && s.first() == '-' {
        -magnitude
    } else {
        magnitude
    };
    if is_number(unsigned_part(s)) && i32::MIN <= value <= i32::MAX {
        Some(value as i32)
    } else {
        None
    }
}

/// A decimal digit is the character of one of the numbers from 0 to 9, and is worth that number.
pub proof fn law_digits(c: char, d: int)
    requires
        0 <= d < 10,
    ensures
        is_digit(c) <==> 0x30 <= c as int <= 0x39,
        digit(d) as int == 0x30 + d,
        is_digit(digit(d)),
        digits_value(seq![digit(d)]) == d,
{
    assert(seq![digit(d)].drop_last() =~= Seq::<char>::empty());
    assert(seq![digit(d)].last() == digit(d));
    assert(digits_value(seq![digit(d)].drop_last()) == 0);
}

/// Digits in front of others count for ten times as much with each of those.
pub proof fn law_places_count_tenfold(a: Seq<char>, b: Seq<char>)
    requires
        is_number(a) || a.len() == 0,
        is_number(b) || b.len() == 0,
    ensures
        digits_value(a + b) == digits_value(a) * vstd::arithmetic::power::pow(10, b.len()) + digits_value(b),
    decreases b.len(),
{
    if b.len() == 0 {
        assert(a + b =~= a);
        vstd::arithmetic::power::lemma_pow0(10);
    } else {
        let front = b.drop_last();
        assert forall|i: int| 0 <= i < front.len() implies is_digit(#[trigger] front[i]) by {
            assert(is_digit(b[i]));
        }
        assert(is_digit(b[b.len() - 1]));
        law_places_count_tenfold(a, front);
        assert((a + b).drop_last() =~= a + front);
        assert((a + b).last() == b.last());
        reveal(vstd::arithmetic::power::pow);
        let p = vstd::arithmetic::power::pow(10, front.len());
        assert(vstd::arithmetic::power::pow(10, b.len()) == 10 * p);
        let va = digits_value(a) as int;
        assert(va * (10 * p) == 10 * (va * p)) by (nonlinear_arith);
        vstd::arithmetic::power::lemma_pow_positive(10, front.len());
        assert(va * p >= 0) by (nonlinear_arith)
            requires
                va >= 0,
                p >= 0,
        ;
    }
}

/// A number that was written in decimal reads as itself, and starts with a zero only if it is zero.
pub proof fn law_decimal_reads_back(n: nat)
    ensures
        is_number(decimal(n)),
        digits_value(decimal(n)) == n,
        decimal(n).first() == '0' <==> n == 0,
        n == 0 ==> decimal(n).len() == 1,
    decreases n,
{
    if n < 10 {
        law_digits('0', n as int);
        assert(decimal(n) =~= seq![digit(n as int)]);
        assert(decimal(n).first() == digit(n as int));
    } else {
        law_decimal_reads_back(n / 10);
        let last = digit((n % 10) as int);
        law_digits('0', (n % 10) as int);
        assert(decimal(n).drop_last() =~= decimal(n / 10));
        assert(decimal(n).last() == last);
        assert forall|i: int| 0 <= i < decimal(n).len() implies is_digit(
            #[trigger] decimal(n)[i],
        ) by {
            if i < decimal(n / 10).len() {
                assert(is_digit(decimal(n / 10)[i]));
            }
        }
        assert(decimal(n).first() == decimal(n / 10).first());
    }
}

/// A run of digits is read as its value, a sign in front of it tells which way, and what an `i32`
/// cannot hold is not read at all.
pub proof fn law_signed_numbers(digits: Seq<char>)
    requires
        is_number(digits),
    ensures
        ({
            let value = digits_value(digits) as int;
            let read = if value <= 0x7fff_ffff {
                Some(value as i32)
            } else {
                None
            };
            &&& parsed_i32(digits) == read
            &&& parsed_i32(seq!['+'] + digits) == read
            &&& parsed_i32(seq!['-'] + digits) == if value <= 0x8000_0000 {
                Some((-value) as i32)
            } else {
                None
            }
        }),
{
    assert(is_digit(digits[0]));
    assert((seq!['+'] + digits).drop_first() =~= digits);
    assert((seq!['-'] + digits).drop_first() =~= digits);
    assert((seq!['+'] + digits).first() == '+');
    assert((seq!['-'] + digits).first() == '-');
}

/// Text with a character in it that is no digit, other than a sign in front, is no number; neither
/// is nothing, or a sign alone.
pub proof fn law_other_text_is_no_number(s: Seq<char>, i: int)
    requires
        s.len() == 0 || (s.len() == 1 && !is_digit(s[0])) || (0 <= i < s.len() && !is_digit(s[i])
            && (i > 0 || (s[0] != '+' && s[0] != '-'))),
    ensures
        parsed_i32(s) is None,
{
    let body = unsigned_part(s);
    if s.len() > 1 || (s.len() == 1 && s[0] != '+' && s[0] != '-') {
        if body.len() < s.len() {
            assert(body[i - 1] == s[i]);
        } else {
            assert(body[i] == s[i] || s.len() == 1);
            assert(s.len() == 1 ==> body[0] == s[0]);
        }
    }
}

/// Reads an `i32` from text.
pub fn parse_i32(s: &str) -> (r: Option<i32>)
    ensures
        r == parsed_i32(s@),
{
    let total: usize = s.unicode_len();
    if total == 0 {
        return None;
    }
    let first = s.get_char(0);
    let negative: bool = first == '-';
    let skipped: usize = if first == '-' || first == '+' {
        1
    } else {
        0
    };
    let ghost body = s@.skip(skipped as int);
    assert(body =~= unsigned_part(s@));
    if total == skipped {
        return None;
    }
    let mut rest = s.substring_char(skipped, total).chars();
    assert(s@.subrange(skipped as int, total as int) =~= body);
    let count: usize = total - skipped;
    let mut seen: usize = 0;
    let mut value: i64 = 0;
    let mut too_large: bool = false;
    assert(body.skip(0) =~= body);
    assert(body.take(0) =~= Seq::<char>::empty());
    while seen < count
        invariant
            count == body.len(),
            seen <= count,
            vstd::std_specs::iter::IteratorSpec::remaining(&rest) == body.skip(seen as int),
            forall|i: int| 0 <= i < seen ==> is_digit(#[trigger] body[i]),
            too_large ==> digits_value(body.take(seen as int)) > 0x8000_0000,
            !too_large ==> value == digits_value(body.take(seen as int)),
            0 <= value <= 0x8000_0000,
            body == unsigned_part(s@),
        decreases count - seen,
    {
        let next = rest.next();
        match next {
            Some(c) => {
                assert(c == body[seen as int]);
                let worth: i64 = match digit_worth(c) {
                    Some(worth) => worth,
                    None => {
                        assert(!is_digit(body[seen as int]));
                        return None;
                    },
                };
                assert(body.skip(seen as int).drop_first() =~= body.skip(seen + 1));
                assert(body.take(seen + 1).drop_last() =~= body.take(seen as int));
                assert(body.take(seen + 1).last() == c);
                if !too_large {
                    let next_value: i64 = value * 10 + worth;
                    if next_value > 0x8000_0000 {
                        too_large = true;
                    } else {
                        value = next_value;
                    }
                }
                seen = seen + 1;
            },
            None => {},
        }
    }
    assert(body.take(count as int) =~= body);
    if too_large {
        return None;
    }
    if negative {
        Some((0 - value) as i32)
    } else if value <= 0x7fff_ffff {
        Some(value as i32)
    } else {
        None
    }
}

/// `prefix`, `name` and `suffix`, one after the other.
pub fn join3(prefix: &str, name: &str, suffix: &str) -> (r: String)
    ensures
        r@ == prefix@ + name@ + suffix@,
{
    prefix.to_owned().concat(name).concat(suffix)
}

} // verus!
