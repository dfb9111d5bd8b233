//! Character-level text handling used for file names and report pages.
//!
//! Every function here works on the `Seq<char>` view of a string and is
//! specified by a recursive spec function that reads the way the text
//! operation is usually described.
use vstd::prelude::*;

verus! {

// ------------------------------------------------------------------
// Specifications
// ------------------------------------------------------------------

/// The extension of a JSON file, `.json`.
pub open spec fn json_ext() -> Seq<char> {
    seq!['.', 'j', 's', 'o', 'n']
}

/// `s` ends with `suffix`.
pub open spec fn ends_with(s: Seq<char>, suffix: Seq<char>) -> bool {
    suffix.len() <= s.len() && s.subrange(s.len() - suffix.len(), s.len() as int) == suffix
}

/// `s` starts with `prefix`.
pub open spec fn starts_with(s: Seq<char>, prefix: Seq<char>) -> bool {
    prefix.len() <= s.len() && s.take(prefix.len() as int) == prefix
}

/// `s` with every trailing copy of `suffix` removed (`str::trim_end_matches`).
pub open spec fn trim_suffixes(s: Seq<char>, suffix: Seq<char>) -> Seq<char>
    decreases s.len(),
{
    if suffix.len() > 0 && ends_with(s, suffix) {
        trim_suffixes(s.take(s.len() - suffix.len()), suffix)
    } else {
        s
    }
}

/// Number of characters before the first `c` (the whole length when there is none).
pub open spec fn prefix_len_before(s: Seq<char>, c: char) -> nat
    decreases s.len(),
{
    if s.len() == 0 {
        0
    } else if s[0] == c {
        0
    } else {
        1 + prefix_len_before(s.skip(1), c)
    }
}

/// The part of `s` before the first `c` (the first item of `str::split(c)`).
pub open spec fn before_char(s: Seq<char>, c: char) -> Seq<char> {
    s.take(prefix_len_before(s, c) as int)
}

/// `c` is one of the ASCII digits `0`..`9`.
pub open spec fn is_digit(c: char) -> bool {
    '0' <= c && c <= '9'
}

/// The value of an ASCII digit.
pub open spec fn digit_of(c: char) -> int {
    c as u32 - '0' as u32
}

/// Every character of `s` is an ASCII digit.
pub open spec fn all_digits(s: Seq<char>) -> bool {
    forall|i: int| 0 <= i < s.len() ==> is_digit(#[trigger] s[i])
}

/// The value of a string of decimal digits.
pub open spec fn digits_value(s: Seq<char>) -> int
    decreases s.len(),
{
    if s.len() == 0 {
        0
    } else {
        digits_value(s.drop_last()) * 10 + digit_of(s.last())
    }
}

/// The digits of a number written for `u32`'s `FromStr`: an optional single `+`
/// is dropped.
pub open spec fn unsigned_digits(s: Seq<char>) -> Seq<char> {
    if s.len() > 0 && s[0] == '+' {
        s.skip(1)
    } else {
        s
    }
}

/// What `s.parse::<u32>()` gives, with the error mapped to `None`: an optional
/// `+`, then at least one decimal digit and nothing else, of value at most
/// `u32::MAX`.
pub open spec fn parse_u32(s: Seq<char>) -> Option<u32> {
    let d = unsigned_digits(s);
    if d.len() > 0 && all_digits(d) && digits_value(d) <= u32::MAX {
        Some(digits_value(d) as u32)
    } else {
        None
    }
}

/// The character of a decimal digit.
pub open spec fn digit_char(d: int) -> char {
    if d == 0 {
        '0'
    } else if d == 1 {
        '1'
    } else if d == 2 {
        '2'
    } else if d == 3 {
        '3'
    } else if d == 4 {
        '4'
    } else if d == 5 {
        '5'
    } else if d == 6 {
        '6'
    } else if d == 7 {
        '7'
    } else if d == 8 {
        '8'
    } else {
        '9'
    }
}

/// The decimal writing of `n`, without leading zeros (`"0"` for zero).
pub open spec fn decimal(n: nat) -> Seq<char>
    decreases n,
{
    if n < 10 {
        seq![digit_char(n as int)]
    } else {
        decimal(n / 10).push(digit_char((n % 10) as int))
    }
}

/// `count` zeros.
pub open spec fn zeros(count: nat) -> Seq<char> {
    Seq::new(count, |i: int| '0')
}

/// `s` left-padded with zeros to at least `width` characters (`{:0width$}`).
pub open spec fn zero_padded(s: Seq<char>, width: nat) -> Seq<char> {
    if s.len() < width {
        zeros((width - s.len()) as nat) + s
    } else {
        s
    }
}

/// Every non-overlapping occurrence of `pat` in `s`, leftmost first, replaced
/// by `rep` (`str::replace`, for a non-empty pattern).
pub open spec fn replace_all(s: Seq<char>, pat: Seq<char>, rep: Seq<char>) -> Seq<char>
    decreases s.len(),
{
    if pat.len() == 0 || s.len() == 0 {
        s
    } else if starts_with(s, pat) {
        rep + replace_all(s.skip(pat.len() as int), pat, rep)
    } else {
        seq![s[0]] + replace_all(s.skip(1), pat, rep)
    }
}

/// Lexicographic order of character sequences by code point, the order of
/// `String`'s `Ord` (UTF-8 keeps code-point order byte by byte).
pub open spec fn seq_lt(a: Seq<char>, b: Seq<char>) -> bool
    decreases a.len(),
{
    if a.len() == 0 {
        b.len() > 0
    } else if b.len() == 0 {
        false
    } else if a[0] != b[0] {
        a[0] < b[0]
    } else {
        seq_lt(a.skip(1), b.skip(1))
    }
}

// ------------------------------------------------------------------
// Lemmas
// ------------------------------------------------------------------

/// A prefix length that stops exactly at the first `c` is `prefix_len_before`.
pub proof fn lemma_prefix_len_before(s: Seq<char>, c: char, k: int)
    requires
        0 <= k <= s.len(),
        forall|j: int| 0 <= j < k ==> s[j] != c,
        k == s.len() || s[k] == c,
    ensures
        prefix_len_before(s, c) == k,
    decreases s.len(),
{
    if s.len() > 0 && s[0] != c {
        lemma_prefix_len_before(s.skip(1), c, k - 1);
    }
}

/// Appending a digit multiplies the value by ten and adds the digit.
pub proof fn lemma_digits_value_push(s: Seq<char>, c: char)
    ensures
        digits_value(s.push(c)) == digits_value(s) * 10 + digit_of(c),
{
    assert(s.push(c).drop_last() =~= s);
}

/// Digit strings have a non-negative value.
pub proof fn lemma_digits_value_nonneg(s: Seq<char>)
    requires
        all_digits(s),
    ensures
        digits_value(s) >= 0,
    decreases s.len(),
{
    if s.len() > 0 {
        assert(all_digits(s.drop_last()));
        lemma_digits_value_nonneg(s.drop_last());
        assert(is_digit(s[s.len() - 1]));
    }
}

/// A leading zero does not change the value of a digit string.
pub proof fn lemma_leading_zero(s: Seq<char>)
    ensures
        digits_value(seq!['0'] + s) == digits_value(s),
    decreases s.len(),
{
    let z = seq!['0'] + s;
    if s.len() == 0 {
        assert(z.drop_last() =~= Seq::<char>::empty());
        assert(z.last() == '0');
        assert(digits_value(Seq::<char>::empty()) == 0);
        assert(digits_value(z) == digits_value(z.drop_last()) * 10 + digit_of(z.last()));
    } else {
        lemma_leading_zero(s.drop_last());
        assert(z.drop_last() =~= seq!['0'] + s.drop_last());
        assert(z.last() == s.last());
        assert(digits_value(z) == digits_value(z.drop_last()) * 10 + digit_of(z.last()));
    }
}

/// Leading zeros do not change the value of a digit string.
pub proof fn lemma_leading_zeros(count: nat, s: Seq<char>)
    ensures
        digits_value(zeros(count) + s) == digits_value(s),
        all_digits(s) ==> all_digits(zeros(count) + s),
    decreases count,
{
    if count > 0 {
        lemma_leading_zeros((count - 1) as nat, s);
        assert(zeros(count) + s =~= seq!['0'] + (zeros((count - 1) as nat) + s));
        lemma_leading_zero(zeros((count - 1) as nat) + s);
    }
    assert(all_digits(s) ==> all_digits(zeros(count) + s)) by {
        if all_digits(s) {
            assert forall|i: int| 0 <= i < (zeros(count) + s).len() implies is_digit(
                #[trigger] (zeros(count) + s)[i],
            ) by {
                if i >= count {
                    assert((zeros(count) + s)[i] == s[i - count]);
                }
            }
        }
    }
}

/// The digit characters read back as their digit.
pub proof fn lemma_digit_char(d: int)
    requires
        0 <= d < 10,
    ensures
        is_digit(digit_char(d)),
        digit_of(digit_char(d)) == d,
{
}

/// The decimal writing of `n` is made of digits and reads back as `n`.
pub proof fn lemma_decimal(n: nat)
    ensures
        all_digits(decimal(n)),
        digits_value(decimal(n)) == n,
        decimal(n).len() >= 1,
    decreases n,
{
    if n < 10 {
        lemma_digit_char(n as int);
        lemma_digits_value_push(Seq::<char>::empty(), digit_char(n as int));
        assert(seq![digit_char(n as int)] =~= Seq::<char>::empty().push(digit_char(n as int)));
    } else {
        lemma_decimal(n / 10);
        lemma_digit_char((n % 10) as int);
        lemma_digits_value_push(decimal(n / 10), digit_char((n % 10) as int));
        let d = decimal(n / 10).push(digit_char((n % 10) as int));
        assert forall|i: int| 0 <= i < d.len() implies is_digit(#[trigger] d[i]) by {
            if i < d.len() - 1 {
                assert(d[i] == decimal(n / 10)[i]);
            }
        }
    }
}

/// A zero-padded decimal writing is made of digits and reads back as `n`.
pub proof fn lemma_padded_decimal(n: nat, width: nat)
    ensures
        all_digits(zero_padded(decimal(n), width)),
        digits_value(zero_padded(decimal(n), width)) == n,
        zero_padded(decimal(n), width).len() >= 1,
{
    lemma_decimal(n);
    if decimal(n).len() < width {
        lemma_leading_zeros((width - decimal(n).len()) as nat, decimal(n));
    }
}

/// A string of digits does not end with `.json`.
pub proof fn lemma_digits_not_json(s: Seq<char>)
    requires
        all_digits(s),
    ensures
        !ends_with(s, json_ext()),
{
    if ends_with(s, json_ext()) {
        let t = s.subrange(s.len() - 5, s.len() as int);
        assert(t[4] == s[s.len() - 1]);
        assert(is_digit(s[s.len() - 1]));
        assert(t[4] == 'n');
    }
}

/// A string of digits has no `_` and so is its own part before `_`.
pub proof fn lemma_digits_before_underscore(s: Seq<char>)
    requires
        all_digits(s),
    ensures
        before_char(s, '_') == s,
{
    assert forall|j: int| 0 <= j < s.len() implies s[j] != '_' by {
        assert(is_digit(s[j]));
    }
    lemma_prefix_len_before(s, '_', s.len() as int);
    assert(s.take(s.len() as int) =~= s);
}

/// A string of digits of value at most `u32::MAX` parses as that value.
pub proof fn lemma_parse_digits(s: Seq<char>)
    requires
        s.len() > 0,
        all_digits(s),
        digits_value(s) <= u32::MAX,
    ensures
        parse_u32(s) == Some(digits_value(s) as u32),
{
    assert(is_digit(s[0]));
    assert(unsigned_digits(s) == s);
}

/// `seq_lt` never holds of a sequence and itself.
pub proof fn lemma_seq_lt_irreflexive(a: Seq<char>)
    ensures
        !seq_lt(a, a),
    decreases a.len(),
{
    if a.len() > 0 {
        lemma_seq_lt_irreflexive(a.skip(1));
    }
}

/// `seq_lt` is transitive.
pub proof fn lemma_seq_lt_transitive(a: Seq<char>, b: Seq<char>, c: Seq<char>)
    requires
        seq_lt(a, b),
        seq_lt(b, c),
    ensures
        seq_lt(a, c),
    decreases a.len(),
{
    if a.len() > 0 && b.len() > 0 && c.len() > 0 {
        if a[0] == b[0] && b[0] == c[0] {
            lemma_seq_lt_transitive(a.skip(1), b.skip(1), c.skip(1));
        }
    }
}

/// Two different sequences are ordered one way or the other.
pub proof fn lemma_seq_lt_total(a: Seq<char>, b: Seq<char>)
    requires
        a != b,
    ensures
        seq_lt(a, b) || seq_lt(b, a),
    decreases a.len(),
{
    if a.len() > 0 && b.len() > 0 && a[0] == b[0] {
        if a.skip(1) == b.skip(1) {
            assert(a =~= seq![a[0]] + a.skip(1));
            assert(b =~= seq![b[0]] + b.skip(1));
        } else {
            lemma_seq_lt_total(a.skip(1), b.skip(1));
        }
    } else if a.len() == 0 && b.len() == 0 {
        assert(a =~= b);
    }
}

// ------------------------------------------------------------------
// Executable functions
// ------------------------------------------------------------------

/// Appends one character to a string (`String::push`).
#[verifier::external_body]
pub(crate) fn push_char(s: &mut String, c: char)
    ensures
        final(s)@ == old(s)@.push(c),
{
    s.push(c);
}

/// The characters of `s`.
pub fn chars_of(s: &str) -> (v: Vec<char>)
    ensures
        v@ == s@,
{
    let mut v: Vec<char> = Vec::new();
    for c in it: s.chars()
        invariant
            v@ == it.seq().take(it.index() as int),
    {
        v.push(c);
    }
    v
}

/// A string made of the characters `chars[start..end]`.
pub fn string_of(chars: &Vec<char>, start: usize, end: usize) -> (s: String)
    requires
        start <= end <= chars.len(),
    ensures
        s@ == chars@.subrange(start as int, end as int),
{
    let mut s = String::new();
    let mut i = start;
    while i < end
        invariant
            start <= i <= end <= chars.len(),
            s@ == chars@.subrange(start as int, i as int),
        decreases end - i,
    {
        push_char(&mut s, chars[i]);
        assert(chars@.subrange(start as int, i + 1) =~= chars@.subrange(start as int, i as int).push(
            chars@[i as int],
        ));
        i = i + 1;
    }
    s
}

/// Whether the character is an ASCII digit.
pub fn char_is_digit(c: char) -> (r: bool)
    ensures
        r == is_digit(c),
{
    '0' <= c && c <= '9'
}

/// The digit character of `d < 10`.
pub fn digit_char_of(d: u32) -> (c: char)
    requires
        d < 10,
    ensures
        c == digit_char(d as int),
{
    if d == 0 {
        '0'
    } else if d == 1 {
        '1'
    } else if d == 2 {
        '2'
    } else if d == 3 {
        '3'
    } else if d == 4 {
        '4'
    } else if d == 5 {
        '5'
    } else if d == 6 {
        '6'
    } else if d == 7 {
        '7'
    } else if d == 8 {
        '8'
    } else {
        '9'
    }
}

/// Whether `chars[start..end]` ends with `suffix`.
pub fn range_ends_with(chars: &Vec<char>, start: usize, end: usize, suffix: &Vec<char>) -> (r: bool)
    requires
        start <= end <= chars.len(),
    ensures
        r == ends_with(chars@.subrange(start as int, end as int), suffix@),
{
    let n = suffix.len();
    if end - start < n {
        return false;
    }
    let base = end - n;
    let mut k: usize = 0;
    while k < n
        invariant
            n == suffix.len(),
            base + n == end,
            start <= base,
            end <= chars.len(),
            k <= n,
            forall|j: int| 0 <= j < k ==> chars@[base + j] == suffix@[j],
        decreases n - k,
    {
        if chars[base + k] != suffix[k] {
            let ghost sub = chars@.subrange(start as int, end as int);
            assert(sub.subrange(sub.len() - n, sub.len() as int)[k as int] == chars@[base + k]);
            return false;
        }
        k = k + 1;
    }
    let ghost sub = chars@.subrange(start as int, end as int);
    assert(sub.subrange(sub.len() - n, sub.len() as int) =~= suffix@);
    true
}

/// The value of `chars[start..end]` read as `u32`'s `FromStr` reads it.
pub fn parse_u32_range(chars: &Vec<char>, start: usize, end: usize) -> (r: Option<u32>)
    requires
        start <= end <= chars.len(),
    ensures
        r == parse_u32(chars@.subrange(start as int, end as int)),
{
    let ghost s = chars@.subrange(start as int, end as int);
    let mut first = start;
    if start < end && chars[start] == '+' {
        first = start + 1;
    }
    let ghost d = unsigned_digits(s);
    assert(d =~= chars@.subrange(first as int, end as int));
    if first == end {
        return None;
    }
    // `value` is the value read so far, held at `cap` once it exceeds `u32::MAX`.
    let cap: u64 = 0x1_0000_0000;
    let mut value: u64 = 0;
    let mut i = first;
    while i < end
        invariant
            start <= first <= i <= end <= chars.len(),
            d =~= chars@.subrange(first as int, end as int),
            s == chars@.subrange(start as int, end as int),
            d == unsigned_digits(s),
            cap == 0x1_0000_0000,
            all_digits(chars@.subrange(first as int, i as int)),
            value <= cap,
            value == (if digits_value(chars@.subrange(first as int, i as int)) < cap {
                digits_value(chars@.subrange(first as int, i as int))
            } else {
                cap as int
            }),
        decreases end - i,
    {
        let c = chars[i];
        let ghost prev = chars@.subrange(first as int, i as int);
        let ghost next = chars@.subrange(first as int, i + 1);
        assert(next =~= prev.push(c));
        if !char_is_digit(c) {
            assert(d[i - first] == c);
            assert(!all_digits(d));
            return None;
        }
        proof {
            lemma_digits_value_push(prev, c);
            lemma_digits_value_nonneg(prev);
            assert forall|j: int| 0 <= j < next.len() implies is_digit(#[trigger] next[j]) by {
                if j < prev.len() {
                    assert(next[j] == prev[j]);
                }
            }
        }
        let digit = (c as u32 - '0' as u32) as u64;
        let raw = value * 10 + digit;
        value = if raw < cap {
            raw
        } else {
            cap
        };
        i = i + 1;
    }
    if value < cap {
        Some(value as u32)
    } else {
        None
    }
}

/// The decimal digits of `n`.
pub fn decimal_chars(n: u32) -> (v: Vec<char>)
    ensures
        v@ == decimal(n as nat),
{
    let mut v: Vec<char> = Vec::new();
    let mut m = n;
    while m >= 10
        invariant
            decimal(n as nat) == decimal(m as nat) + v@,
        decreases m,
    {
        let c = digit_char_of(m % 10);
        proof {
            assert(decimal(m as nat) == decimal((m / 10) as nat).push(digit_char((m % 10) as int)));
            assert(decimal((m / 10) as nat) + v@.insert(0, c) =~= decimal(m as nat) + v@);
        }
        v.insert(0, c);
        m = m / 10;
    }
    let c = digit_char_of(m);
    proof {
        assert(v@.insert(0, c) =~= decimal(m as nat) + v@);
    }
    v.insert(0, c);
    v
}

/// `s` with every non-overlapping occurrence of the non-empty `pat` replaced
/// by `rep` (`str::replace`).
pub fn replace_str(s: &str, pat: &str, rep: &str) -> (r: String)
    requires
        pat@.len() > 0,
    ensures
        r@ == replace_all(s@, pat@, rep@),
{
    let chars = chars_of(s);
    let pchars = chars_of(pat);
    let n = chars.len();
    let m = pchars.len();
    let mut out = String::new();
    let mut i: usize = 0;
    proof {
        assert(s@.skip(0) =~= s@);
        assert(out@ + s@ =~= s@);
        assert(out@ + replace_all(s@, pat@, rep@) =~= replace_all(s@, pat@, rep@));
    }
    while i < n
        invariant
            n == chars.len(),
            m == pchars.len(),
            m > 0,
            chars@ == s@,
            pchars@ == pat@,
            i <= n,
            replace_all(s@, pat@, rep@) == out@ + replace_all(s@.skip(i as int), pat@, rep@),
        decreases n - i,
    {
        let ghost rest = s@.skip(i as int);
        let matched = m <= n - i && range_ends_with(&chars, i, i + m, &pchars);
        if matched {
            proof {
                let sub = chars@.subrange(i as int, i + m);
                assert(sub.subrange(sub.len() - m, sub.len() as int) =~= sub);
                assert(rest.take(m as int) =~= sub);
                assert(rest.skip(m as int) =~= s@.skip(i + m));
            }
            out.append(rep);
            i = i + m;
        } else {
            proof {
                if m <= rest.len() {
                    let sub = chars@.subrange(i as int, i + m);
                    assert(sub.subrange(sub.len() - m, sub.len() as int) =~= sub);
                    assert(rest.take(m as int) =~= sub);
                }
                assert(!starts_with(rest, pat@));
                assert(rest.skip(1) =~= s@.skip(i + 1));
                assert(rest[0] == chars@[i as int]);
            }
            push_char(&mut out, chars[i]);
            proof {
                assert(out@ + replace_all(s@.skip(i + 1), pat@, rep@) =~= (out@.drop_last()) + (
                seq![chars@[i as int]] + replace_all(rest.skip(1), pat@, rep@)));
            }
            i = i + 1;
        }
    }
    proof {
        assert(s@.skip(n as int) =~= Seq::<char>::empty());
        assert(out@ + Seq::<char>::empty() =~= out@);
    }
    out
}

/// Whether `a` and `b` hold the same characters.
pub fn str_equal(a: &str, b: &str) -> (r: bool)
    ensures
        r == (a@ == b@),
{
    let x = chars_of(a);
    let y = chars_of(b);
    if x.len() != y.len() {
        return false;
    }
    let mut i: usize = 0;
    while i < x.len()
        invariant
            x@ == a@,
            y@ == b@,
            x.len() == y.len(),
            i <= x.len(),
            forall|j: int| 0 <= j < i ==> x@[j] == y@[j],
        decreases x.len() - i,
    {
        if x[i] != y[i] {
            return false;
        }
        i = i + 1;
    }
    assert(a@ =~= b@);
    true
}

/// Whether `a` comes before `b` in `String`'s order.
pub fn str_less(a: &str, b: &str) -> (r: bool)
    ensures
        r == seq_lt(a@, b@),
{
    let x = chars_of(a);
    let y = chars_of(b);
    let mut i: usize = 0;
    proof {
        assert(a@.skip(0) =~= a@);
        assert(b@.skip(0) =~= b@);
    }
    while i < x.len() && i < y.len()
        invariant
            x@ == a@,
            y@ == b@,
            i <= x.len(),
            i <= y.len(),
            seq_lt(a@, b@) == seq_lt(a@.skip(i as int), b@.skip(i as int)),
        decreases x.len() - i,
    {
        if x[i] != y[i] {
            let r = x[i] < y[i];
            return r;
        }
        proof {
            assert(a@.skip(i as int).skip(1) =~= a@.skip(i + 1));
            assert(b@.skip(i as int).skip(1) =~= b@.skip(i + 1));
        }
        i = i + 1;
    }
    i < y.len()
}

} // verus!
