//! Character-level text operations with exact specifications.
use vstd::prelude::*;
use vstd::string::*;

verus! {

/// Appends one character to a `String` (`String::push`).
#[verifier::external_body]
pub(crate) fn push_char(s: &mut String, c: char)
    ensures
        final(s)@ == old(s)@.push(c),
{
    s.push(c);
}

/// What `str::to_lowercase` returns for a string: Unicode's full lowercase mapping,
/// a function of the characters alone.
pub uninterp spec fn lowercase(s: Seq<char>) -> Seq<char>;

/// `str::to_lowercase`: the contract names the result `lowercase(s@)`, and says only that
/// the lowercase of the empty string is empty.
#[verifier::external_body]
pub(crate) fn to_lowercase(s: &str) -> (r: String)
    ensures
        r@ == lowercase(s@),
        s@.len() == 0 ==> r@.len() == 0,
{
    s.to_lowercase()
}

/// The characters of a string slice, in order.
pub fn chars_of(s: &str) -> (v: Vec<char>)
    ensures
        v@ == s@,
{
    let mut v: Vec<char> = Vec::new();
    for c in it: s.chars()
        invariant
            v@ == it.seq().take(it.index() as int),
    {
        v.push(c);
    }
    v
}

/// Builds a `String` holding exactly the given characters.
pub fn string_of(v: &[char]) -> (s: String)
    ensures
        s@ == v@,
{
    let mut s = String::new();
    let mut i: usize = 0;
    while i < v.len()
        invariant
            i <= v.len(),
            s@ == v@.take(i as int),
        decreases v.len() - i,
    {
        push_char(&mut s, v[i]);
        i += 1;
        assert(v@.take(i as int) == v@.take(i - 1 as int).push(v@[i - 1]));
    }
    assert(v@.take(v@.len() as int) == v@);
    s
}

/// Appends the characters of `t` to `s`.
pub fn append_chars(s: &mut Vec<char>, t: &[char])
    ensures
        final(s)@ == old(s)@ + t@,
{
    let mut i: usize = 0;
    let ghost s0 = s@;
    while i < t.len()
        invariant
            i <= t.len(),
            s@ == s0 + t@.take(i as int),
        decreases t.len() - i,
    {
        s.push(t[i]);
        i += 1;
        assert(t@.take(i as int) == t@.take(i - 1 as int).push(t@[i - 1]));
    }
    assert(t@.take(t@.len() as int) == t@);
}

/// Appends the characters of a string slice to `s`.
pub fn append_str(s: &mut Vec<char>, t: &str)
    ensures
        final(s)@ == old(s)@ + t@,
{
    let v = chars_of(t);
    append_chars(s, v.as_slice());
}

/// Unicode's `White_Space` property, which `char::is_whitespace` tests.
pub open spec fn is_white(c: char) -> bool {
    let u = c as u32;
    ||| 0x09 <= u <= 0x0d
    ||| u == 0x20
    ||| u == 0x85
    ||| u == 0xa0
    ||| u == 0x1680
    ||| 0x2000 <= u <= 0x200a
    ||| u == 0x2028
    ||| u == 0x2029
    ||| u == 0x202f
    ||| u == 0x205f
    ||| u == 0x3000
}

/// `char::is_whitespace`.
pub fn is_white_char(c: char) -> (b: bool)
    ensures
        b == is_white(c),
{
    let u = c as u32;
    (0x09 <= u && u <= 0x0d) || u == 0x20 || u == 0x85 || u == 0xa0 || u == 0x1680 || (0x2000
        <= u && u <= 0x200a) || u == 0x2028 || u == 0x2029 || u == 0x202f || u == 0x205f || u
        == 0x3000
}

/// `s` without its leading white space.
pub open spec fn trim_start(s: Seq<char>) -> Seq<char>
    decreases s.len(),
{
    if s.len() > 0 && is_white(s[0]) {
        trim_start(s.drop_first())
    } else {
        s
    }
}

/// `s` without its trailing white space.
pub open spec fn trim_end(s: Seq<char>) -> Seq<char>
    decreases s.len(),
{
    if s.len() > 0 && is_white(s.last()) {
        trim_end(s.drop_last())
    } else {
        s
    }
}

/// `str::trim`: `s` without leading and trailing white space.
pub open spec fn trim(s: Seq<char>) -> Seq<char> {
    trim_end(trim_start(s))
}

/// Every character of `s` is white space.
pub open spec fn all_white(s: Seq<char>) -> bool {
    forall|i: int| 0 <= i < s.len() ==> is_white(#[trigger] s[i])
}

proof fn lemma_trim_start_white_prefix(a: Seq<char>, t: Seq<char>)
    requires
        all_white(a),
    ensures
        trim_start(a + t) == trim_start(t),
    decreases a.len(),
{
    if a.len() == 0 {
        assert(a + t == t);
    } else {
        assert((a + t)[0] == a[0]);
        assert((a + t).drop_first() == a.drop_first() + t);
        lemma_trim_start_white_prefix(a.drop_first(), t);
    }
}

proof fn lemma_trim_end_white_suffix(t: Seq<char>, b: Seq<char>)
    requires
        all_white(b),
    ensures
        trim_end(t + b) == trim_end(t),
    decreases b.len(),
{
    if b.len() == 0 {
        assert(t + b == t);
    } else {
        assert((t + b).last() == b.last());
        assert((t + b).drop_last() == t + b.drop_last());
        lemma_trim_end_white_suffix(t, b.drop_last());
    }
}

proof fn lemma_trim_white_suffix(q: Seq<char>, b: Seq<char>)
    requires
        all_white(b),
    ensures
        trim(q + b) == trim(q),
    decreases q.len(),
{
    if q.len() == 0 {
        assert(q + b == b);
        lemma_trim_start_white_prefix(b, Seq::<char>::empty());
        assert(b + Seq::<char>::empty() == b);
    } else if is_white(q[0]) {
        assert((q + b)[0] == q[0]);
        assert((q + b).drop_first() == q.drop_first() + b);
        lemma_trim_white_suffix(q.drop_first(), b);
    } else {
        assert((q + b)[0] == q[0]);
        lemma_trim_end_white_suffix(q, b);
    }
}

proof fn lemma_trim_end_empty(u: Seq<char>)
    ensures
        trim_end(u).len() == 0 ==> all_white(u),
    decreases u.len(),
{
    if u.len() > 0 && is_white(u.last()) {
        lemma_trim_end_empty(u.drop_last());
        assert forall|i: int| 0 <= i < u.len() && trim_end(u).len() == 0 implies is_white(
            #[trigger] u[i],
        ) by {
            if i < u.len() - 1 {
                assert(u[i] == u.drop_last()[i]);
            }
        }
    }
}

proof fn lemma_trim_start_white(s: Seq<char>)
    ensures
        all_white(trim_start(s)) ==> all_white(s),
    decreases s.len(),
{
    if s.len() > 0 && is_white(s[0]) {
        lemma_trim_start_white(s.drop_first());
        assert forall|i: int| 0 <= i < s.len() && all_white(trim_start(s)) implies is_white(
            #[trigger] s[i],
        ) by {
            if i > 0 {
                assert(s[i] == s.drop_first()[i - 1]);
            }
        }
    }
}

/// A blank text (one that trims to nothing) is all white space.
pub proof fn lemma_blank_is_white(s: Seq<char>)
    ensures
        trim(s).len() == 0 ==> all_white(s),
{
    lemma_trim_end_empty(trim_start(s));
    lemma_trim_start_white(s);
}

/// `str::trim` removes any white space around a text: trimming `a + q + b` with white
/// `a` and `b` gives the trim of `q`.
pub proof fn lemma_trim_ignores_white_around(a: Seq<char>, q: Seq<char>, b: Seq<char>)
    requires
        all_white(a),
        all_white(b),
    ensures
        trim(a + q + b) == trim(q),
{
    assert(a + q + b == a + (q + b));
    lemma_trim_start_white_prefix(a, q + b);
    lemma_trim_white_suffix(q, b);
}

proof fn lemma_trim_start_skip(s: Seq<char>, i: int)
    requires
        0 <= i <= s.len(),
        forall|j: int| 0 <= j < i ==> is_white(#[trigger] s[j]),
        i == s.len() || !is_white(s[i]),
    ensures
        trim_start(s) == s.skip(i),
    decreases i,
{
    if i == 0 {
        assert(s.skip(0) == s);
    } else {
        assert(is_white(s[0]));
        let t = s.drop_first();
        assert forall|j: int| 0 <= j < i - 1 implies is_white(#[trigger] t[j]) by {
            assert(t[j] == s[j + 1]);
        }
        lemma_trim_start_skip(t, i - 1);
        assert(t.skip(i - 1) == s.skip(i));
    }
}

proof fn lemma_trim_end_take(s: Seq<char>, j: int)
    requires
        0 <= j <= s.len(),
        forall|k: int| j <= k < s.len() ==> is_white(#[trigger] s[k]),
        j == 0 || !is_white(s[j - 1]),
    ensures
        trim_end(s) == s.take(j),
    decreases s.len() - j,
{
    if j == s.len() {
        assert(s.take(j) == s);
    } else {
        assert(is_white(s.last()));
        let t = s.drop_last();
        assert forall|k: int| j <= k < t.len() implies is_white(#[trigger] t[k]) by {
            assert(t[k] == s[k]);
        }
        lemma_trim_end_take(t, j);
        assert(t.take(j) == s.take(j));
    }
}

/// `str::trim` on characters.
pub fn trim_chars(s: &[char]) -> (r: Vec<char>)
    ensures
        r@ == trim(s@),
{
    let mut i: usize = 0;
    while i < s.len() && is_white_char(s[i])
        invariant
            i <= s.len(),
            forall|j: int| 0 <= j < i ==> is_white(#[trigger] s@[j]),
        decreases s.len() - i,
    {
        i += 1;
    }
    proof {
        lemma_trim_start_skip(s@, i as int);
    }
    let mut j: usize = s.len();
    while j > i && is_white_char(s[j - 1])
        invariant
            i <= j <= s.len(),
            forall|k: int| j <= k < s.len() ==> is_white(#[trigger] s@[k]),
        decreases j,
    {
        j -= 1;
    }
    let mut r: Vec<char> = Vec::new();
    let mut k: usize = i;
    while k < j
        invariant
            i <= k <= j,
            j <= s.len(),
            r@ == s@.subrange(i as int, k as int),
        decreases j - k,
    {
        r.push(s[k]);
        k += 1;
    }
    proof {
        let t = s@.skip(i as int);
        assert forall|m: int| j - i <= m < t.len() implies is_white(#[trigger] t[m]) by {
            assert(t[m] == s@[m + i]);
        }
        if j > i {
            assert(t[j - i - 1] == s@[j - 1]);
        }
        lemma_trim_end_take(t, j - i);
        assert(t.take(j - i) == s@.subrange(i as int, j as int));
    }
    r
}

/// `p` is a prefix of `s`.
pub open spec fn has_prefix(s: Seq<char>, p: Seq<char>) -> bool {
    p.len() <= s.len() && s.take(p.len() as int) == p
}

/// `p` is a suffix of `s`.
pub open spec fn has_suffix(s: Seq<char>, p: Seq<char>) -> bool {
    p.len() <= s.len() && s.skip(s.len() - p.len()) == p
}

/// `t` occurs in `s` as a contiguous run (`str::contains` with a string pattern).
pub open spec fn contains_run(s: Seq<char>, t: Seq<char>) -> bool {
    exists|i: int| 0 <= i && i + t.len() <= s.len() && #[trigger] s.subrange(i, i + t.len()) == t
}

/// Whether `s` starts with `p`.
pub fn starts_with_chars(s: &[char], p: &[char]) -> (b: bool)
    ensures
        b == has_prefix(s@, p@),
{
    if p.len() > s.len() {
        return false;
    }
    let mut i: usize = 0;
    while i < p.len()
        invariant
            p.len() <= s.len(),
            i <= p.len(),
            forall|k: int| 0 <= k < i ==> s@[k] == p@[k],
        decreases p.len() - i,
    {
        if s[i] != p[i] {
            assert(s@.take(p.len() as int)[i as int] != p@[i as int]);
            return false;
        }
        i += 1;
    }
    assert(s@.take(p.len() as int) == p@);
    true
}

/// Whether `s` ends with `p`.
pub fn ends_with_chars(s: &[char], p: &[char]) -> (b: bool)
    ensures
        b == has_suffix(s@, p@),
{
    if p.len() > s.len() {
        return false;
    }
    let off = s.len() - p.len();
    let mut i: usize = 0;
    while i < p.len()
        invariant
            p.len() <= s.len(),
            off == s.len() - p.len(),
            i <= p.len(),
            forall|k: int| 0 <= k < i ==> s@[off + k] == p@[k],
        decreases p.len() - i,
    {
        if s[off + i] != p[i] {
            assert(s@.skip(off as int)[i as int] != p@[i as int]);
            return false;
        }
        i += 1;
    }
    assert(s@.skip(off as int) == p@);
    true
}

/// Whether `t` occurs at position `at` of `s`.
pub fn occurs_at(s: &[char], t: &[char], at: usize) -> (b: bool)
    requires
        at + t.len() <= s.len(),
    ensures
        b == (s@.subrange(at as int, at + t.len()) == t@),
{
    let mut i: usize = 0;
    while i < t.len()
        invariant
            at + t.len() <= s.len(),
            i <= t.len(),
            forall|k: int| 0 <= k < i ==> s@[at + k] == t@[k],
        decreases t.len() - i,
    {
        if s[at + i] != t[i] {
            assert(s@.subrange(at as int, at + t.len())[i as int] != t@[i as int]);
            return false;
        }
        i += 1;
    }
    assert(s@.subrange(at as int, at + t.len()) == t@);
    true
}

/// Whether `t` occurs in `s`.
pub fn contains_chars(s: &[char], t: &[char]) -> (b: bool)
    ensures
        b == contains_run(s@, t@),
{
    if t.len() > s.len() {
        return false;
    }
    let mut at: usize = 0;
    let last = s.len() - t.len();
    loop
        invariant
            t.len() <= s.len(),
            last == s.len() - t.len(),
            at <= last,
            forall|i: int| 0 <= i < at ==> #[trigger] s@.subrange(i, i + t.len()) != t@,
        decreases last - at,
    {
        if occurs_at(s, t, at) {
            return true;
        }
        if at == last {
            return false;
        }
        at += 1;
    }
}

/// The decimal digit character for `d` in `0..10`.
pub open spec fn digit_char(d: int) -> char {
    (d + 48) as char
}

/// The decimal representation of `n`, without sign or leading zeros (`u64::to_string`).
pub open spec fn decimal(n: nat) -> Seq<char>
    decreases n,
{
    if n < 10 {
        seq![digit_char(n as int)]
    } else {
        decimal(n / 10).push(digit_char((n % 10) as int))
    }
}

/// The decimal representation of `n`.
pub fn decimal_chars(n: u64) -> (v: Vec<char>)
    ensures
        v@ == decimal(n as nat),
    decreases n,
{
    let d = (n % 10) as u8;
    let c = (48 + d) as char;
    if n < 10 {
        let mut v: Vec<char> = Vec::new();
        v.push(c);
        v
    } else {
        let mut v = decimal_chars(n / 10);
        v.push(c);
        v
    }
}

/// An ASCII decimal digit.
pub open spec fn is_digit(c: char) -> bool {
    48 <= (c as u32) <= 57
}

/// The value of a run of decimal digits.
pub open spec fn digits_value(s: Seq<char>) -> nat
    decreases s.len(),
{
    if s.len() == 0 {
        0
    } else {
        (digits_value(s.drop_last()) * 10 + ((s.last() as u32) - 48)) as nat
    }
}

/// `s` without one leading `+`, if it has one.
pub open spec fn unsigned_digits(s: Seq<char>) -> Seq<char> {
    if s.len() > 0 && s[0] == '+' {
        s.drop_first()
    } else {
        s
    }
}

/// A number's decimal representation reads back as the number: it is a non-empty run of
/// ASCII digits whose value is the number.
pub proof fn lemma_decimal_digits_value(n: nat)
    ensures
        decimal(n).len() > 0,
        decimal(n)[0] != '+',
        forall|i: int| 0 <= i < decimal(n).len() ==> is_digit(#[trigger] decimal(n)[i]),
        digits_value(decimal(n)) == n,
    decreases n,
{
    if n < 10 {
        assert(decimal(n).drop_last() == Seq::<char>::empty());
        assert(digits_value(Seq::<char>::empty()) == 0);
    } else {
        lemma_decimal_digits_value(n / 10);
        let d = decimal(n / 10);
        assert(decimal(n).drop_last() == d);
        assert(decimal(n)[0] == d[0]);
        assert forall|i: int| 0 <= i < decimal(n).len() implies is_digit(#[trigger] decimal(n)[i]) by {
            if i < d.len() {
                assert(decimal(n)[i] == d[i]);
            }
        }
    }
}

/// Every character of `s` is an ASCII digit.
pub open spec fn all_digits(s: Seq<char>) -> bool {
    forall|i: int| 0 <= i < s.len() ==> is_digit(#[trigger] s[i])
}

/// What `str::parse::<u32>` accepts: an optional `+`, then one or more ASCII digits
/// whose value fits in a `u32`; the value it gives back.
pub open spec fn parsed_u32(s: Seq<char>) -> Option<u32> {
    let digits = unsigned_digits(s);
    if digits.len() > 0 && all_digits(digits) && digits_value(digits) <= u32::MAX {
        Some(digits_value(digits) as u32)
    } else {
        None
    }
}

proof fn lemma_digits_value_prefix(s: Seq<char>, i: int)
    requires
        0 <= i <= s.len(),
        forall|k: int| 0 <= k < s.len() ==> is_digit(#[trigger] s[k]),
    ensures
        digits_value(s.take(i)) <= digits_value(s),
    decreases s.len() - i,
{
    if i < s.len() {
        let t = s.drop_last();
        assert forall|k: int| 0 <= k < t.len() implies is_digit(#[trigger] t[k]) by {
            assert(t[k] == s[k]);
        }
        lemma_digits_value_prefix(t, i);
        assert(t.take(i) == s.take(i));
        assert(is_digit(s[s.len() - 1]));
    } else {
        assert(s.take(i) == s);
    }
}

/// `str::parse::<u32>` followed by `.ok()`.
pub fn parse_u32(s: &[char]) -> (r: Option<u32>)
    ensures
        r == parsed_u32(s@),
{
    let start: usize = if s.len() > 0 && s[0] == '+' {
        1
    } else {
        0
    };
    let ghost digits = unsigned_digits(s@);
    assert(digits == s@.skip(start as int));
    if start >= s.len() {
        return None;
    }
    let mut acc: u64 = 0;
    let mut i: usize = start;
    while i < s.len()
        invariant
            start <= i <= s.len(),
            start < s.len(),
            digits == s@.skip(start as int),
            digits == unsigned_digits(s@),
            forall|k: int| start <= k < i ==> is_digit(#[trigger] s@[k]),
            acc == digits_value(s@.subrange(start as int, i as int)),
            acc <= u32::MAX,
        decreases s.len() - i,
    {
        let c = s[i];
        let u = c as u32;
        if u < 48 || u > 57 {
            assert(digits[i - start] == c);
            assert(!is_digit(digits[i - start]));
            assert(parsed_u32(s@) is None);
            return None;
        }
        let next = acc * 10 + (u - 48) as u64;
        assert(s@.subrange(start as int, i + 1).drop_last() == s@.subrange(start as int, i as int));
        assert(s@.subrange(start as int, i + 1).last() == c);
        if next > 0xffff_ffff {
            proof {
                let sub = s@.subrange(start as int, i + 1);
                assert(digits_value(sub) == next);
                if all_digits(digits) {
                    lemma_digits_value_prefix(digits, i + 1 - start);
                    assert(digits.take(i + 1 - start) == sub);
                }
            }
            assert(parsed_u32(s@) is None);
            return None;
        }
        acc = next;
        i += 1;
    }
    assert(s@.subrange(start as int, s.len() as int) == digits);
    assert forall|k: int| 0 <= k < digits.len() implies is_digit(#[trigger] digits[k]) by {
        assert(digits[k] == s@[k + start]);
    }
    Some(acc as u32)
}

/// `s` padded on the right with spaces to at least `width` characters
/// (the `{:<width$}` format).
pub open spec fn pad_right(s: Seq<char>, width: nat) -> Seq<char> {
    if s.len() >= width {
        s
    } else {
        s + spaces((width - s.len()) as nat)
    }
}

/// `n` spaces.
pub open spec fn spaces(n: nat) -> Seq<char> {
    Seq::new(n, |i: int| ' ')
}

/// Pads `s` on the right with spaces to at least `width` characters.
pub fn pad_right_chars(s: &[char], width: usize) -> (r: Vec<char>)
    ensures
        r@ == pad_right(s@, width as nat),
{
    let mut r: Vec<char> = Vec::new();
    append_chars(&mut r, s);
    let mut n: usize = s.len();
    while n < width
        invariant
            s.len() <= n || n == s.len(),
            n >= s.len(),
            s.len() >= width ==> n == s.len(),
            s.len() < width ==> n <= width,
            r@.len() == n,
            r@ == s@ + spaces((n - s.len()) as nat),
        decreases width - n,
    {
        r.push(' ');
        n += 1;
        assert(r@ == s@ + spaces((n - s.len()) as nat));
    }
    if s.len() >= width {
        assert(spaces(0) == Seq::<char>::empty());
        assert(s@ + spaces(0) =~= s@);
    }
    r
}

/// Whether `s` holds exactly the characters of `lit`.
pub fn text_is(s: &[char], lit: &str) -> (b: bool)
    ensures
        b == (s@ == lit@),
{
    let l = chars_of(lit);
    if s.len() != l.len() {
        return false;
    }
    let mut i: usize = 0;
    while i < s.len()
        invariant
            s.len() == l.len(),
            l@ == lit@,
            i <= s.len(),
            forall|k: int| 0 <= k < i ==> s@[k] == l@[k],
        decreases s.len() - i,
    {
        if s[i] != l[i] {
            return false;
        }
        i += 1;
    }
    assert(s@ == l@);
    true
}

/// Whether `s` starts with the characters of `lit`.
pub fn text_starts(s: &[char], lit: &str) -> (b: bool)
    ensures
        b == has_prefix(s@, lit@),
{
    let l = chars_of(lit);
    starts_with_chars(s, l.as_slice())
}

} // verus!
