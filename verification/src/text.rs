//! Text as sequences of characters: searching, trimming, splitting, and the
//! decimal and boolean notations that configuration values are written in.

use vstd::prelude::*;

verus! {

/// The least index in `lo..hi` at which `p` holds, or `hi` when it holds at none.
pub open spec fn first_index(lo: int, hi: int, p: spec_fn(int) -> bool) -> int
    decreases hi - lo,
{
    if lo >= hi {
        hi
    } else if p(lo) {
        lo
    } else {
        first_index(lo + 1, hi, p)
    }
}

/// `first_index` lies in `lo..=hi`, `p` fails before it and holds at it.
pub proof fn lemma_first_index(lo: int, hi: int, p: spec_fn(int) -> bool)
    requires
        lo <= hi,
    ensures
        lo <= first_index(lo, hi, p) <= hi,
        forall|i: int| lo <= i < first_index(lo, hi, p) ==> !#[trigger] p(i),
        first_index(lo, hi, p) < hi ==> p(first_index(lo, hi, p)),
    decreases hi - lo,
{
    if lo < hi && !p(lo) {
        lemma_first_index(lo + 1, hi, p);
    }
}

/// An index before which `p` fails and at which it holds is `first_index`.
pub proof fn lemma_first_index_is(lo: int, hi: int, p: spec_fn(int) -> bool, k: int)
    requires
        lo <= k <= hi,
        forall|i: int| lo <= i < k ==> !#[trigger] p(i),
        k < hi ==> p(k),
    ensures
        first_index(lo, hi, p) == k,
    decreases hi - lo,
{
    if lo < k {
        lemma_first_index_is(lo + 1, hi, p, k);
    }
}

/// The predicate "position `i` of `s` holds `c`".
pub open spec fn holds_char(s: Seq<char>, c: char) -> spec_fn(int) -> bool {
    |i: int| s[i] == c
}

/// The index of the first `c` in `s`, or `s.len()` when `s` holds none.
pub open spec fn position(s: Seq<char>, c: char) -> int {
    first_index(0, s.len() as int, holds_char(s, c))
}

/// Whether `c` is white space: the code points with the Unicode property
/// White_Space.
pub open spec fn is_space(c: char) -> bool {
    ||| c == ' '
    ||| ('\u{9}' <= c && c <= '\u{d}')
    ||| c == '\u{85}'
    ||| c == '\u{a0}'
    ||| c == '\u{1680}'
    ||| ('\u{2000}' <= c && c <= '\u{200a}')
    ||| c == '\u{2028}'
    ||| c == '\u{2029}'
    ||| c == '\u{202f}'
    ||| c == '\u{205f}'
    ||| c == '\u{3000}'
}

/// The predicate "position `i` of `s` holds no white space".
pub open spec fn holds_ink(s: Seq<char>) -> spec_fn(int) -> bool {
    |i: int| !is_space(s[i])
}

/// Where the trimmed text starts: the index of the first character of `s` that
/// is not white space, or `s.len()`.
pub open spec fn trim_start(s: Seq<char>) -> int {
    first_index(0, s.len() as int, holds_ink(s))
}

/// Where the trimmed text ends, looking at the first `n` characters of `s`:
/// one past the last of them that is not white space, or 0.
pub open spec fn trim_end(s: Seq<char>, n: int) -> int
    decreases n,
{
    if n <= 0 {
        0
    } else if !is_space(s[n - 1]) {
        n
    } else {
        trim_end(s, n - 1)
    }
}

/// `s` without the white space at its two ends.
pub open spec fn trim(s: Seq<char>) -> Seq<char> {
    let a = trim_start(s);
    let b = trim_end(s, s.len() as int);
    if a < b {
        s.subrange(a, b)
    } else {
        Seq::empty()
    }
}

/// `trim_end` lies in `0..=n`, everything from it up to `n` is white space,
/// and the character before it is not.
pub proof fn lemma_trim_end(s: Seq<char>, n: int)
    requires
        0 <= n <= s.len(),
    ensures
        0 <= trim_end(s, n) <= n,
        forall|i: int| trim_end(s, n) <= i < n ==> is_space(#[trigger] s[i]),
        trim_end(s, n) > 0 ==> !is_space(s[trim_end(s, n) - 1]),
    decreases n,
{
    if n > 0 && is_space(s[n - 1]) {
        lemma_trim_end(s, n - 1);
    }
}

/// The pieces of `s` between the occurrences of `sep`, in order. A text with
/// `k` separators has `k + 1` pieces, some of which may be empty.
pub open spec fn split(s: Seq<char>, sep: char) -> Seq<Seq<char>>
    decreases s.len(),
{
    let k = position(s, sep);
    if 0 <= k < s.len() {
        seq![s.take(k)] + split(s.skip(k + 1), sep)
    } else {
        seq![s]
    }
}

/// Whether `c` is one of the ten decimal digits.
pub open spec fn is_digit(c: char) -> bool {
    '0' <= c && c <= '9'
}

/// The number that the digit `c` stands for.
pub open spec fn digit_value(c: char) -> nat {
    (c as int - '0' as int) as nat
}

/// Whether `s` consists of digits only.
pub open spec fn all_digits(s: Seq<char>) -> bool {
    forall|i: int| 0 <= i < s.len() ==> is_digit(#[trigger] s[i])
}

/// The number that the digits `s` denote in base ten.
pub open spec fn decimal_value(s: Seq<char>) -> nat
    decreases s.len(),
{
    if s.len() == 0 {
        0
    } else {
        decimal_value(s.drop_last()) * 10 + digit_value(s.last())
    }
}

/// The digits of an unsigned number as written: `s` without one leading `+`.
pub open spec fn unsigned_digits(s: Seq<char>) -> Seq<char> {
    if s.len() > 0 && s[0] == '+' {
        s.drop_first()
    } else {
        s
    }
}

/// The unsigned number that `s` denotes, if it is at most `max`: an optional
/// `+`, then one digit or more, and nothing else.
pub open spec fn parse_unsigned(s: Seq<char>, max: nat) -> Option<nat> {
    let d = unsigned_digits(s);
    if d.len() > 0 && all_digits(d) && decimal_value(d) <= max {
        Some(decimal_value(d))
    } else {
        None
    }
}

/// The truth value that `s` denotes: exactly `true` or `false`.
pub open spec fn parse_flag(s: Seq<char>) -> Option<bool> {
    if s == seq!['t', 'r', 'u', 'e'] {
        Some(true)
    } else if s == seq!['f', 'a', 'l', 's', 'e'] {
        Some(false)
    } else {
        None
    }
}

/// The character that writes the digit `d`.
pub open spec fn digit_char(d: nat) -> char
    recommends
        d < 10,
{
    if d == 0 {
        '0'
    } else if d == 1 {
        '1'
    } else if d == 2 {
        '2'
    } else if d == 3 {
        '3'
    } else if d == 4 {
        '4'
    } else if d == 5 {
        '5'
    } else if d == 6 {
        '6'
    } else if d == 7 {
        '7'
    } else if d == 8 {
        '8'
    } else {
        '9'
    }
}

/// `n` written in base ten, without leading zeros.
pub open spec fn decimal(n: nat) -> Seq<char>
    decreases n,
{
    if n < 10 {
        seq![digit_char(n)]
    } else {
        decimal(n / 10).push(digit_char(n % 10))
    }
}

/// Whether `p` is what `s` begins with.
pub open spec fn starts_with(s: Seq<char>, p: Seq<char>) -> bool {
    p.len() <= s.len() && s.take(p.len() as int) == p
}

/// What follows `p` in `s`, if `s` begins with `p`.
pub open spec fn strip_prefix(s: Seq<char>, p: Seq<char>) -> Option<Seq<char>> {
    if starts_with(s, p) {
        Some(s.skip(p.len() as int))
    } else {
        None
    }
}

/// `s` in upper case, as the Unicode character database maps it. Some
/// characters map to more than one, so the length may change.
pub uninterp spec fn uppercase(s: Seq<char>) -> Seq<char>;

/// `str::to_uppercase`: a new string that holds the upper-case equivalent of
/// `s`. Nothing is claimed of it but that it depends on `s` alone.
#[verifier::external_body]
fn to_upper(s: &str) -> (out: String)
    ensures
        out@ == uppercase(s@),
{
    s.to_uppercase()
}

/// `chars` in upper case.
pub fn upper_of(chars: &[char]) -> (out: String)
    ensures
        out@ == uppercase(chars@),
{
    let s = string_of(chars);
    to_upper(s.as_str())
}

/// The characters of `s`, in order.
pub fn chars_of(s: &str) -> (out: Vec<char>)
    ensures
        out@ == s@,
{
    let mut out: Vec<char> = Vec::new();
    for c in it: s.chars()
        invariant
            it.seq() == s@,
            out@ == s@.take(it.index()),
    {
        out.push(c);
    }
    out
}

/// `String::push`: appends one character to the end of the string.
#[verifier::external_body]
fn push_char(s: &mut String, c: char)
    ensures
        final(s)@ == old(s)@.push(c),
{
    s.push(c)
}

/// The string made of the characters `lo..hi` of `chars`.
pub fn string_from(chars: &[char], lo: usize, hi: usize) -> (out: String)
    requires
        lo <= hi <= chars@.len(),
    ensures
        out@ == chars@.subrange(lo as int, hi as int),
{
    let mut out = String::new();
    let mut i: usize = lo;
    while i < hi
        invariant
            lo <= i <= hi <= chars@.len(),
            out@ == chars@.subrange(lo as int, i as int),
        decreases hi - i,
    {
        push_char(&mut out, chars[i]);
        i = i + 1;
    }
    out
}

/// The string made of all of `chars`.
pub fn string_of(chars: &[char]) -> (out: String)
    ensures
        out@ == chars@,
{
    string_from(chars, 0, chars.len())
}

/// A copy of the characters `lo..hi` of `chars`.
pub fn copy_range(chars: &[char], lo: usize, hi: usize) -> (out: Vec<char>)
    requires
        lo <= hi <= chars@.len(),
    ensures
        out@ == chars@.subrange(lo as int, hi as int),
{
    let mut out: Vec<char> = Vec::new();
    let mut i: usize = lo;
    while i < hi
        invariant
            lo <= i <= hi <= chars@.len(),
            out@ == chars@.subrange(lo as int, i as int),
        decreases hi - i,
    {
        out.push(chars[i]);
        i = i + 1;
    }
    out
}

/// Whether two texts hold the same characters.
pub fn same_chars(a: &[char], b: &[char]) -> (eq: bool)
    ensures
        eq == (a@ == b@),
{
    if a.len() != b.len() {
        return false;
    }
    let mut i: usize = 0;
    while i < a.len()
        invariant
            i <= a@.len(),
            a@.len() == b@.len(),
            a@.take(i as int) == b@.take(i as int),
        decreases a@.len() - i,
    {
        if a[i] != b[i] {
            return false;
        }
        assert(a@.take(i + 1) =~= a@.take(i as int).push(a@[i as int]));
        assert(b@.take(i + 1) =~= b@.take(i as int).push(b@[i as int]));
        i = i + 1;
    }
    assert(a@ =~= a@.take(i as int));
    assert(b@ =~= b@.take(i as int));
    true
}

/// Whether `c` is white space.
pub fn space(c: char) -> (b: bool)
    ensures
        b == is_space(c),
{
    c == ' ' || ('\u{9}' <= c && c <= '\u{d}') || c == '\u{85}' || c == '\u{a0}' || c == '\u{1680}'
        || ('\u{2000}' <= c && c <= '\u{200a}') || c == '\u{2028}' || c == '\u{2029}' || c
        == '\u{202f}' || c == '\u{205f}' || c == '\u{3000}'
}

/// The index of the first `c` at or after `from`, or `chars.len()`.
pub fn find_from(chars: &[char], from: usize, c: char) -> (k: usize)
    requires
        from <= chars@.len(),
    ensures
        k == first_index(from as int, chars@.len() as int, holds_char(chars@, c)),
        from <= k <= chars@.len(),
{
    let mut i: usize = from;
    while i < chars.len()
        invariant
            from <= i <= chars@.len(),
            forall|j: int| from <= j < i ==> !#[trigger] holds_char(chars@, c)(j),
        decreases chars@.len() - i,
    {
        if chars[i] == c {
            proof {
                lemma_first_index_is(
                    from as int,
                    chars@.len() as int,
                    holds_char(chars@, c),
                    i as int,
                );
            }
            return i;
        }
        i = i + 1;
    }
    proof {
        lemma_first_index_is(from as int, chars@.len() as int, holds_char(chars@, c), i as int);
    }
    i
}

/// `chars` without the white space at its two ends.
pub fn trimmed(chars: &[char]) -> (out: Vec<char>)
    ensures
        out@ == trim(chars@),
{
    let n = chars.len();
    let mut a: usize = 0;
    while a < n && space(chars[a])
        invariant
            a <= n == chars@.len(),
            forall|j: int| 0 <= j < a ==> !#[trigger] holds_ink(chars@)(j),
        decreases n - a,
    {
        a = a + 1;
    }
    proof {
        lemma_first_index_is(0, n as int, holds_ink(chars@), a as int);
    }
    let mut b: usize = n;
    while b > 0 && space(chars[b - 1])
        invariant
            b <= n == chars@.len(),
            trim_end(chars@, n as int) == trim_end(chars@, b as int),
        decreases b,
    {
        b = b - 1;
    }
    if a < b {
        copy_range(chars, a, b)
    } else {
        Vec::new()
    }
}

/// Splitting what follows a piece that ends at a separator.
proof fn lemma_split_step(s: Seq<char>, sep: char, start: int, k: int)
    requires
        0 <= start <= k < s.len(),
        s[k] == sep,
        forall|j: int| start <= j < k ==> s[j] != sep,
    ensures
        split(s.skip(start), sep) == seq![s.subrange(start, k)] + split(s.skip(k + 1), sep),
{
    let t = s.skip(start);
    assert forall|j: int| 0 <= j < k - start implies !#[trigger] holds_char(t, sep)(j) by {
        assert(t[j] == s[start + j]);
    }
    lemma_first_index_is(0, t.len() as int, holds_char(t, sep), k - start);
    assert(t.take(k - start) =~= s.subrange(start, k));
    assert(t.skip(k - start + 1) =~= s.skip(k + 1));
}

/// Splitting a text that holds no separator.
proof fn lemma_split_last(s: Seq<char>, sep: char, start: int)
    requires
        0 <= start <= s.len(),
        forall|j: int| start <= j < s.len() ==> s[j] != sep,
    ensures
        split(s.skip(start), sep) == seq![s.skip(start)],
{
    let t = s.skip(start);
    assert forall|j: int| 0 <= j < t.len() implies !#[trigger] holds_char(t, sep)(j) by {
        assert(t[j] == s[start + j]);
    }
    lemma_first_index_is(0, t.len() as int, holds_char(t, sep), t.len() as int);
}

/// The pieces of `chars` between the occurrences of `sep`.
pub fn split_on(chars: &[char], sep: char) -> (parts: Vec<Vec<char>>)
    ensures
        parts.deep_view() == split(chars@, sep),
        parts@.len() >= 1,
{
    let n = chars.len();
    let mut parts: Vec<Vec<char>> = Vec::new();
    let mut start: usize = 0;
    let mut i: usize = 0;
    assert(chars@.skip(0) =~= chars@);
    assert(parts.deep_view() + split(chars@.skip(0), sep) =~= split(chars@, sep));
    while i < n
        invariant
            start <= i <= n == chars@.len(),
            forall|j: int| start <= j < i ==> chars@[j] != sep,
            parts.deep_view() + split(chars@.skip(start as int), sep) == split(chars@, sep),
        decreases n - i,
    {
        if chars[i] == sep {
            let piece = copy_range(chars, start, i);
            proof {
                lemma_split_step(chars@, sep, start as int, i as int);
                lemma_chars_deep_view(piece);
            }
            let ghost before = parts.deep_view();
            parts.push(piece);
            assert(parts.deep_view() =~= before.push(piece@));
            assert(before.push(piece@) + split(chars@.skip(i + 1), sep) =~= before + (seq![
                piece@,
            ] + split(chars@.skip(i + 1), sep)));
            start = i + 1;
        }
        i = i + 1;
    }
    let piece = copy_range(chars, start, n);
    proof {
        lemma_split_last(chars@, sep, start as int);
        lemma_chars_deep_view(piece);
        assert(chars@.skip(start as int) =~= chars@.subrange(start as int, n as int));
    }
    let ghost before = parts.deep_view();
    parts.push(piece);
    assert(parts.deep_view() =~= before.push(piece@));
    assert(before.push(piece@) =~= before + seq![piece@]);
    parts
}

/// The deep view of a vector of characters is its view.
pub proof fn lemma_chars_deep_view(v: Vec<char>)
    ensures
        v.deep_view() == v@,
{
    assert(v.deep_view() =~= v@);
}

/// The number that the digit `c` stands for.
fn digit_of(c: char) -> (d: u64)
    requires
        is_digit(c),
    ensures
        d == digit_value(c),
        d < 10,
{
    (c as u32 - '0' as u32) as u64
}

/// The unsigned number that `chars` denotes, if it is at most `max`.
pub fn read_unsigned(chars: &[char], max: u64) -> (out: Option<u64>)
    ensures
        match out {
            Some(n) => parse_unsigned(chars@, max as nat) == Some(n as nat),
            None => parse_unsigned(chars@, max as nat) is None,
        },
{
    let n = chars.len();
    let first: usize = if n > 0 && chars[0] == '+' {
        1
    } else {
        0
    };
    let ghost d = unsigned_digits(chars@);
    assert(d =~= chars@.skip(first as int));
    if first == n {
        return None;
    }
    let mut acc: u64 = 0;
    let mut i: usize = first;
    assert(d.take(0) =~= Seq::<char>::empty());
    while i < n
        invariant
            first <= i <= n == chars@.len(),
            d == chars@.skip(first as int),
            d == unsigned_digits(chars@),
            all_digits(d.take(i - first)),
            acc == decimal_value(d.take(i - first)),
            acc <= max,
        decreases n - i,
    {
        let c = chars[i];
        let ghost k = i - first;
        assert(d[k] == c);
        if !(c >= '0' && c <= '9') {
            assert(!is_digit(d[k]));
            return None;
        }
        let v = digit_of(c);
        proof {
            assert(d.take(k + 1).drop_last() =~= d.take(k));
            assert(d.take(k + 1).last() == c);
            assert(decimal_value(d.take(k + 1)) == acc * 10 + v);
            assert forall|j: int| 0 <= j < k + 1 implies is_digit(#[trigger] d.take(k + 1)[j]) by {
                if j < k {
                    assert(d.take(k)[j] == d.take(k + 1)[j]);
                }
            }
        }
        if v > max || acc > (max - v) / 10 {
            proof {
                assert(acc * 10 + v > max);
                lemma_decimal_value_grows(d, k + 1);
            }
            return None;
        }
        acc = acc * 10 + v;
        i = i + 1;
    }
    assert(d.take(n - first) =~= d);
    Some(acc)
}

/// The value of the first `k` digits of `s` is at most the value of all of `s`.
pub proof fn lemma_decimal_value_grows(s: Seq<char>, k: int)
    requires
        0 <= k <= s.len(),
    ensures
        decimal_value(s.take(k)) <= decimal_value(s),
    decreases s.len() - k,
{
    if k == s.len() {
        assert(s.take(k) =~= s);
    } else {
        lemma_decimal_value_grows(s, k + 1);
        assert(s.take(k + 1).drop_last() =~= s.take(k));
    }
}

/// The truth value that `chars` denotes.
pub fn read_flag(chars: &[char]) -> (out: Option<bool>)
    ensures
        out == parse_flag(chars@),
{
    let n = chars.len();
    if n == 4 && chars[0] == 't' && chars[1] == 'r' && chars[2] == 'u' && chars[3] == 'e' {
        assert(chars@ =~= seq!['t', 'r', 'u', 'e']);
        Some(true)
    } else if n == 5 && chars[0] == 'f' && chars[1] == 'a' && chars[2] == 'l' && chars[3] == 's'
        && chars[4] == 'e' {
        assert(chars@ =~= seq!['f', 'a', 'l', 's', 'e']);
        Some(false)
    } else {
        proof {
            let t = seq!['t', 'r', 'u', 'e'];
            let f = seq!['f', 'a', 'l', 's', 'e'];
            if chars@ == t {
                assert(t.len() == 4 && t[0] == 't' && t[1] == 'r' && t[2] == 'u' && t[3] == 'e');
            }
            if chars@ == f {
                assert(f.len() == 5 && f[0] == 'f' && f[1] == 'a' && f[2] == 'l' && f[3] == 's'
                    && f[4] == 'e');
            }
        }
        None
    }
}

/// What follows `prefix` in `chars`, if `chars` begins with `prefix`.
pub fn without_prefix(chars: &[char], prefix: &[char]) -> (out: Option<Vec<char>>)
    ensures
        out.deep_view() == strip_prefix(chars@, prefix@),
{
    let n = chars.len();
    let m = prefix.len();
    if m > n {
        return None;
    }
    let head = copy_range(chars, 0, m);
    assert(chars@.take(m as int) =~= chars@.subrange(0, m as int));
    if same_chars(&head, prefix) {
        let rest = copy_range(chars, m, n);
        proof {
            lemma_chars_deep_view(rest);
            assert(chars@.skip(m as int) =~= chars@.subrange(m as int, n as int));
        }
        Some(rest)
    } else {
        None
    }
}

/// `n` written in base ten.
pub fn write_decimal(n: u64) -> (out: String)
    ensures
        out@ == decimal(n as nat),
    decreases n,
{
    if n < 10 {
        let mut out = String::new();
        push_char(&mut out, digit_to_char(n));
        assert(out@ =~= seq![digit_char(n as nat)]);
        out
    } else {
        let mut out = write_decimal(n / 10);
        push_char(&mut out, digit_to_char(n % 10));
        out
    }
}

/// The character that writes the digit `d`.
fn digit_to_char(d: u64) -> (c: char)
    requires
        d < 10,
    ensures
        c == digit_char(d as nat),
{
    if d == 0 {
        '0'
    } else if d == 1 {
        '1'
    } else if d == 2 {
        '2'
    } else if d == 3 {
        '3'
    } else if d == 4 {
        '4'
    } else if d == 5 {
        '5'
    } else if d == 6 {
        '6'
    } else if d == 7 {
        '7'
    } else if d == 8 {
        '8'
    } else {
        '9'
    }
}

} // verus!
