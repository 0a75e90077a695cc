//! Text helpers: Unicode white space, trimming, prefixes, splitting into
//! words, and decimal numbers.
use vstd::prelude::*;
use vstd::string::StrSliceExecFns;

verus! {

/// The characters with the Unicode property `White_Space`.
pub open spec fn is_white_space(c: char) -> bool {
    let u = c as u32;
    ||| 0x9 <= u <= 0xD
    ||| u == 0x20
    ||| u == 0x85
    ||| u == 0xA0
    ||| u == 0x1680
    ||| 0x2000 <= u <= 0x200A
    ||| u == 0x2028
    ||| u == 0x2029
    ||| u == 0x202F
    ||| u == 0x205F
    ||| u == 0x3000
}

/// `s` without its leading white space.
pub open spec fn trim_start(s: Seq<char>) -> Seq<char>
    decreases s.len(),
{
    if s.len() > 0 && is_white_space(s[0]) {
        trim_start(s.drop_first())
    } else {
        s
    }
}

/// `s` without its trailing white space.
pub open spec fn trim_end(s: Seq<char>) -> Seq<char>
    decreases s.len(),
{
    if s.len() > 0 && is_white_space(s.last()) {
        trim_end(s.drop_last())
    } else {
        s
    }
}

/// `s` without leading and trailing white space.
pub open spec fn trim(s: Seq<char>) -> Seq<char> {
    trim_end(trim_start(s))
}

/// `s` begins with `prefix`.
pub open spec fn starts_with(s: Seq<char>, prefix: Seq<char>) -> bool {
    prefix.len() <= s.len() && s.subrange(0, prefix.len() as int) == prefix
}

/// `s` with `prefix` taken off, if it begins with it.
pub open spec fn strip_prefix(s: Seq<char>, prefix: Seq<char>) -> Option<Seq<char>> {
    if starts_with(s, prefix) {
        Some(s.subrange(prefix.len() as int, s.len() as int))
    } else {
        None
    }
}

/// The words of `s`: the maximal runs of characters that are not white space.
pub open spec fn words(s: Seq<char>) -> Seq<Seq<char>>
    decreases s.len(),
{
    if s.len() == 0 {
        seq![]
    } else {
        let before = words(s.drop_last());
        let c = s.last();
        if is_white_space(c) {
            before
        } else if s.len() >= 2 && !is_white_space(s[s.len() - 2]) {
            before.update(before.len() - 1, before.last().push(c))
        } else {
            before.push(seq![c])
        }
    }
}

/// The decimal digit of `d` (`0 <= d < 10`).
pub open spec fn digit_char(d: int) -> char {
    (48 + d) as char
}

/// The decimal notation of `n`, without leading zeros.
pub open spec fn decimal(n: nat) -> Seq<char>
    decreases n,
{
    if n < 10 {
        seq![digit_char(n as int)]
    } else {
        decimal(n / 10).push(digit_char((n % 10) as int))
    }
}

/// `c` is white space (the Unicode property `White_Space`).
pub fn is_whitespace_char(c: char) -> (r: bool)
    ensures
        r == is_white_space(c),
{
    let u = c as u32;
    (0x9 <= u && u <= 0xD) || u == 0x20 || u == 0x85 || u == 0xA0 || u == 0x1680 || (0x2000 <= u
        && u <= 0x200A) || u == 0x2028 || u == 0x2029 || u == 0x202F || u == 0x205F || u == 0x3000
}

/// `s` without leading and trailing white space.
pub fn trim_str(s: &str) -> (t: &str)
    ensures
        t@ == trim(s@),
{
    let n = s.unicode_len();
    let mut start: usize = 0;
    assert(s@.subrange(0, n as int) =~= s@);
    while start < n && is_whitespace_char(s.get_char(start))
        invariant
            n == s@.len(),
            start <= n,
            trim_start(s@) == trim_start(s@.subrange(start as int, n as int)),
        decreases n - start,
    {
        assert(s@.subrange(start as int, n as int).drop_first() =~= s@.subrange(
            start as int + 1,
            n as int,
        ));
        start = start + 1;
    }
    proof {
        let u = s@.subrange(start as int, n as int);
        if u.len() > 0 {
            assert(u[0] == s@[start as int]);
        }
        assert(trim_start(s@) == u);
    }
    let mut end: usize = n;
    while end > start && is_whitespace_char(s.get_char(end - 1))
        invariant
            n == s@.len(),
            start <= end <= n,
            trim(s@) == trim_end(s@.subrange(start as int, end as int)),
        decreases end - start,
    {
        assert(s@.subrange(start as int, end as int).drop_last() =~= s@.subrange(
            start as int,
            end as int - 1,
        ));
        end = end - 1;
    }
    proof {
        let u = s@.subrange(start as int, end as int);
        if u.len() > 0 {
            assert(u.last() == s@[end - 1]);
        }
    }
    s.substring_char(start, end)
}

/// `s` with `prefix` taken off, if it begins with it.
pub fn strip_prefix_str<'a>(s: &'a str, prefix: &str) -> (r: Option<&'a str>)
    ensures
        r matches Some(t) ==> strip_prefix(s@, prefix@) == Some(t@),
        r is None ==> strip_prefix(s@, prefix@) is None,
{
    let n = s.unicode_len();
    let m = prefix.unicode_len();
    if m > n {
        return None;
    }
    let mut i: usize = 0;
    while i < m
        invariant
            n == s@.len(),
            m == prefix@.len(),
            m <= n,
            i <= m,
            forall|j: int| 0 <= j < i ==> s@[j] == prefix@[j],
        decreases m - i,
    {
        if s.get_char(i) != prefix.get_char(i) {
            assert(s@.subrange(0, m as int)[i as int] != prefix@[i as int]);
            return None;
        }
        i = i + 1;
    }
    assert(s@.subrange(0, m as int) =~= prefix@);
    Some(s.substring_char(m, n))
}

/// `s` holds exactly the characters of `t`.
pub fn str_equals(s: &str, t: &str) -> (r: bool)
    ensures
        r == (s@ == t@),
{
    let n = s.unicode_len();
    let m = t.unicode_len();
    if n != m {
        return false;
    }
    let mut i: usize = 0;
    while i < n
        invariant
            n == s@.len(),
            m == t@.len(),
            n == m,
            i <= n,
            forall|j: int| 0 <= j < i ==> s@[j] == t@[j],
        decreases n - i,
    {
        if s.get_char(i) != t.get_char(i) {
            return false;
        }
        i = i + 1;
    }
    assert(s@ =~= t@);
    true
}

/// Appends `c` to `s`.
///
/// Trusted: std's `String::push`, documented to append the given `char` to
/// the end of the string.
#[verifier::external_body]
pub(crate) fn push_char(s: &mut String, c: char)
    ensures
        final(s)@ == old(s)@.push(c),
{
    s.push(c);
}

/// Appends the decimal notation of `n` to `out`.
pub fn push_decimal(out: &mut String, n: u32)
    ensures
        final(out)@ == old(out)@ + decimal(n as nat),
    decreases n,
{
    if n >= 10 {
        push_decimal(out, n / 10);
    }
    let d = (n % 10) as u8;
    push_char(out, (48u8 + d) as char);
    proof {
        if n >= 10 {
            assert(decimal(n as nat) == decimal((n / 10) as nat).push(digit_char((n % 10) as int)));
        }
    }
    assert(out@ =~= old(out)@ + decimal(n as nat));
}

/// The words of `s`, as slices of it.
pub fn split_words<'a>(s: &'a str) -> (r: Vec<&'a str>)
    ensures
        r@.map_values(|t: &str| t@) == words(s@),
{
    let n = s.unicode_len();
    let mut r: Vec<&'a str> = Vec::new();
    let mut start: usize = 0;
    let mut in_word = false;
    let mut i: usize = 0;
    while i < n
        invariant
            n == s@.len(),
            i <= n,
            start <= i,
            in_word == (i > 0 && !is_white_space(s@[i - 1])),
            in_word ==> forall|j: int| start <= j < i ==> !is_white_space(#[trigger] s@[j]),
            in_word ==> start < i && (start == 0 || is_white_space(s@[start - 1])),
            words(s@.subrange(0, i as int)) == r@.map_values(|t: &str| t@) + if in_word {
                seq![s@.subrange(start as int, i as int)]
            } else {
                seq![]
            },
        decreases n - i,
    {
        let c = s.get_char(i);
        let ghost prefix = s@.subrange(0, i as int + 1);
        let ghost rv = r@.map_values(|t: &str| t@);
        assert(prefix.drop_last() =~= s@.subrange(0, i as int));
        assert(prefix.last() == c);
        if is_whitespace_char(c) {
            if in_word {
                let w = s.substring_char(start, i);
                r.push(w);
                assert(r@.map_values(|t: &str| t@) =~= rv.push(s@.subrange(start as int, i as int)));
            }
            in_word = false;
        } else {
            if !in_word {
                start = i;
                in_word = true;
                assert(words(prefix) == words(s@.subrange(0, i as int)).push(seq![c]));
                assert(seq![c] =~= s@.subrange(start as int, i as int + 1));
            } else {
                assert(prefix[prefix.len() - 2] == s@[i - 1]);
                assert(s@.subrange(start as int, i as int).push(c) =~= s@.subrange(
                    start as int,
                    i as int + 1,
                ));
                let ghost before = words(s@.subrange(0, i as int));
                assert(before == rv + seq![s@.subrange(start as int, i as int)]);
                assert(before.update(before.len() - 1, before.last().push(c)) =~= rv + seq![
                    s@.subrange(start as int, i as int + 1),
                ]);
            }
        }
        i = i + 1;
    }
    assert(s@.subrange(0, n as int) =~= s@);
    if in_word {
        let ghost rv = r@.map_values(|t: &str| t@);
        let w = s.substring_char(start, n);
        r.push(w);
        assert(r@.map_values(|t: &str| t@) =~= rv.push(s@.subrange(start as int, n as int)));
    } else {
        assert(r@.map_values(|t: &str| t@) + seq![] =~= r@.map_values(|t: &str| t@));
    }
    r
}

/// The digits after an optional leading `+`.
pub open spec fn unsigned_digits(s: Seq<char>) -> Seq<char> {
    if s.len() > 0 && s[0] == '+' {
        s.drop_first()
    } else {
        s
    }
}

/// Every character is an ASCII digit.
pub open spec fn all_digits(s: Seq<char>) -> bool {
    forall|i: int| 0 <= i < s.len() ==> '0' <= #[trigger] s[i] <= '9'
}

/// The value of a string of decimal digits.
pub open spec fn digits_value(s: Seq<char>) -> nat
    decreases s.len(),
{
    if s.len() == 0 {
        0
    } else {
        digits_value(s.drop_last()) * 10 + (s.last() as nat - 48) as nat
    }
}

/// The unsigned number written `s` (an optional `+`, then at least one
/// decimal digit), if it is at most `max`.
pub open spec fn unsigned_value(s: Seq<char>, max: nat) -> Option<nat> {
    let d = unsigned_digits(s);
    if d.len() > 0 && all_digits(d) && digits_value(d) <= max {
        Some(digits_value(d))
    } else {
        None
    }
}

/// Reads the unsigned number written `s`, if it is at most `max`.
pub fn parse_unsigned(s: &str, max: u64) -> (r: Option<u64>)
    ensures
        r matches Some(x) ==> unsigned_value(s@, max as nat) == Some(x as nat),
        r is None ==> unsigned_value(s@, max as nat) is None,
{
    let n = s.unicode_len();
    let mut i: usize = 0;
    if n > 0 && s.get_char(0) == '+' {
        i = 1;
    }
    let ghost d = unsigned_digits(s@);
    assert(d =~= s@.subrange(i as int, n as int));
    if i == n {
        return None;
    }
    let mut value: u64 = 0;
    let mut over = false;
    let start = i;
    while i < n
        invariant
            n == s@.len(),
            start <= i <= n,
            d == s@.subrange(start as int, n as int),
            d == unsigned_digits(s@),
            forall|j: int| start <= j < i ==> '0' <= #[trigger] s@[j] <= '9',
            !over ==> value == digits_value(s@.subrange(start as int, i as int)) && value <= max,
            over ==> digits_value(s@.subrange(start as int, i as int)) > max,
        decreases n - i,
    {
        let c = s.get_char(i);
        let ghost p = s@.subrange(start as int, i as int + 1);
        assert(p.drop_last() =~= s@.subrange(start as int, i as int));
        if !('0' <= c && c <= '9') {
            assert(d[i - start] == c);
            assert(!('0' <= d[i - start] <= '9'));
            assert(!all_digits(d));
            return None;
        }
        let digit = (c as u32 - 48) as u64;
        let ghost prev = digits_value(s@.subrange(start as int, i as int));
        assert(digits_value(p) == prev * 10 + digit);
        if !over {
            if digit > max || value > (max - digit) / 10 {
                assert(prev * 10 + digit > max) by (nonlinear_arith)
                    requires
                        prev == value,
                        digit > max || value > (max - digit) / 10,
                        value >= 0,
                ;
                over = true;
            } else {
                assert(value * 10 + digit <= max) by (nonlinear_arith)
                    requires
                        digit <= max,
                        value <= (max - digit) / 10,
                ;
                value = value * 10 + digit;
            }
        } else {
            assert(prev * 10 + digit > max) by (nonlinear_arith)
                requires
                    prev > max,
                    digit >= 0,
            ;
        }
        i = i + 1;
    }
    assert(s@.subrange(start as int, n as int) == d);
    if over {
        return None;
    }
    Some(value)
}

/// The decimal notation of `n` reads back as `n`: it is a non-empty string
/// of digits, without a leading zero, whose value (most significant digit
/// first) is `n`, and the number reader gives `n` back.
pub proof fn lemma_decimal_reads_back(n: nat, max: nat)
    ensures
        decimal(n).len() > 0,
        (decimal(n).len() == 1) == (n < 10),
        all_digits(decimal(n)),
        digits_value(decimal(n)) == n,
        decimal(n).len() > 1 ==> decimal(n)[0] != '0',
        n <= max ==> unsigned_value(decimal(n), max) == Some(n),
    decreases n,
{
    let d = decimal(n);
    if n < 10 {
        assert(d.drop_last() =~= seq![]);
        assert(d.last() as nat == 48 + n);
        assert(digits_value(d) == digits_value(d.drop_last()) * 10 + (d.last() as nat - 48) as nat);
    } else {
        lemma_decimal_reads_back(n / 10, max);
        let h = decimal(n / 10);
        assert(d.drop_last() =~= h);
        assert(d.last() as nat == 48 + n % 10);
        assert(d[0] == h[0]);
        assert(h.len() == 1 ==> h[0] as nat == 48 + n / 10);
        assert(digits_value(d) == digits_value(h) * 10 + (d.last() as nat - 48) as nat);
        assert((n / 10) * 10 + n % 10 == n);
        assert forall|i: int| 0 <= i < d.len() implies '0' <= #[trigger] d[i] <= '9' by {
            if i < h.len() {
                assert(d[i] == h[i]);
            }
        }
    }
    assert(unsigned_digits(d) == d);
}

proof fn lemma_trim_start_shape(s: Seq<char>)
    ensures
        exists|a: int|
            0 <= a <= s.len() && #[trigger] s.subrange(a, s.len() as int) == trim_start(s) && (
            forall|i: int| 0 <= i < a ==> is_white_space(#[trigger] s[i])) && (a < s.len()
                ==> !is_white_space(s[a])),
    decreases s.len(),
{
    if s.len() > 0 && is_white_space(s[0]) {
        let t = s.drop_first();
        lemma_trim_start_shape(t);
        let a = choose|a: int|
            0 <= a <= t.len() && #[trigger] t.subrange(a, t.len() as int) == trim_start(t) && (
            forall|i: int| 0 <= i < a ==> is_white_space(#[trigger] t[i])) && (a < t.len()
                ==> !is_white_space(t[a]));
        assert(s.subrange(a + 1, s.len() as int) =~= t.subrange(a, t.len() as int));
        assert forall|i: int| 0 <= i < a + 1 implies is_white_space(#[trigger] s[i]) by {
            if i > 0 {
                assert(s[i] == t[i - 1]);
            }
        }
        assert(a + 1 < s.len() ==> s[a + 1] == t[a]);
    } else {
        assert(s.subrange(0, s.len() as int) =~= s);
    }
}

proof fn lemma_trim_end_shape(s: Seq<char>)
    ensures
        exists|b: int|
            0 <= b <= s.len() && #[trigger] s.subrange(0, b) == trim_end(s) && (forall|i: int|
                b <= i < s.len() ==> is_white_space(#[trigger] s[i])) && (b > 0
                ==> !is_white_space(s[b - 1])),
    decreases s.len(),
{
    if s.len() > 0 && is_white_space(s.last()) {
        let t = s.drop_last();
        lemma_trim_end_shape(t);
        let b = choose|b: int|
            0 <= b <= t.len() && #[trigger] t.subrange(0, b) == trim_end(t) && (forall|i: int|
                b <= i < t.len() ==> is_white_space(#[trigger] t[i])) && (b > 0
                ==> !is_white_space(t[b - 1]));
        assert(s.subrange(0, b) =~= t.subrange(0, b));
        assert forall|i: int| b <= i < s.len() implies is_white_space(#[trigger] s[i]) by {
            if i < t.len() {
                assert(s[i] == t[i]);
            }
        }
        assert(b > 0 ==> s[b - 1] == t[b - 1]);
    } else {
        assert(s.subrange(0, s.len() as int) =~= s);
    }
}

/// Trimming takes off exactly the white space at both ends: the result is
/// a stretch of the text that neither begins nor ends with white space,
/// and everything before and after it is white space.
pub proof fn lemma_trim_shape(s: Seq<char>)
    ensures
        exists|a: int, b: int|
            0 <= a <= b <= s.len() && #[trigger] s.subrange(a, b) == trim(s) && (forall|i: int|
                0 <= i < a ==> is_white_space(#[trigger] s[i])) && (forall|i: int|
                b <= i < s.len() ==> is_white_space(#[trigger] s[i])),
        trim(s).len() > 0 ==> !is_white_space(trim(s)[0]) && !is_white_space(trim(s).last()),
{
    lemma_trim_start_shape(s);
    let a = choose|a: int|
        0 <= a <= s.len() && #[trigger] s.subrange(a, s.len() as int) == trim_start(s) && (
        forall|i: int| 0 <= i < a ==> is_white_space(#[trigger] s[i])) && (a < s.len()
            ==> !is_white_space(s[a]));
    let u = trim_start(s);
    lemma_trim_end_shape(u);
    let b = choose|b: int|
        0 <= b <= u.len() && #[trigger] u.subrange(0, b) == trim_end(u) && (forall|i: int|
            b <= i < u.len() ==> is_white_space(#[trigger] u[i])) && (b > 0 ==> !is_white_space(
            u[b - 1],
        ));
    assert(s.subrange(a, a + b) =~= u.subrange(0, b));
    assert forall|i: int| a + b <= i < s.len() implies is_white_space(#[trigger] s[i]) by {
        assert(s[i] == u[i - a]);
    }
    if b > 0 {
        assert(trim(s)[0] == u[0]);
        assert(u[0] == s[a]);
    }
}

/// Every word is non-empty and holds no white space; a text that ends in
/// something other than white space has a word.
pub proof fn lemma_words_shape(s: Seq<char>)
    ensures
        forall|i: int| 0 <= i < words(s).len() ==> #[trigger] words(s)[i].len() > 0,
        forall|i: int, j: int|
            0 <= i < words(s).len() && 0 <= j < words(s)[i].len() ==> !is_white_space(
                #[trigger] words(s)[i][j],
            ),
        s.len() > 0 && !is_white_space(s.last()) ==> words(s).len() > 0,
    decreases s.len(),
{
    if s.len() > 0 {
        let t = s.drop_last();
        lemma_words_shape(t);
        let before = words(t);
        let c = s.last();
        if !is_white_space(c) {
            if s.len() >= 2 && !is_white_space(s[s.len() - 2]) {
                assert(t.last() == s[s.len() - 2]);
                let w = before.last().push(c);
                let after = before.update(before.len() - 1, w);
                assert forall|i: int, j: int|
                    0 <= i < after.len() && 0 <= j < after[i].len() implies !is_white_space(
                    #[trigger] after[i][j],
                ) by {
                    if i == before.len() - 1 && j < before.last().len() {
                        assert(after[i][j] == before[i][j]);
                    }
                }
            } else {
                let after = before.push(seq![c]);
                assert forall|i: int, j: int|
                    0 <= i < after.len() && 0 <= j < after[i].len() implies !is_white_space(
                    #[trigger] after[i][j],
                ) by {
                    if i < before.len() {
                        assert(after[i] == before[i]);
                    }
                }
            }
        }
    }
}

} // verus!
