//! Text operations on strings viewed as sequences of characters.
use vstd::prelude::*;

verus! {

// ---------------------------------------------------------------------------
// Conversions between strings and character vectors
// ---------------------------------------------------------------------------

/// `str::chars` collected into a vector: the characters of `s`, in order.
#[verifier::external_body]
pub(crate) fn chars_of(s: &str) -> (r: Vec<char>)
    ensures
        r@ == s@,
{
    s.chars().collect()
}

/// `String::from_iter` over characters: the string whose characters are `v`, in order.
#[verifier::external_body]
pub(crate) fn text_of(v: &Vec<char>) -> (r: String)
    ensures
        r@ == v@,
{
    v.iter().collect()
}

/// The characters of `v` from index `lo` up to (not including) `hi`.
pub fn chars_between(v: &Vec<char>, lo: usize, hi: usize) -> (r: Vec<char>)
    requires
        lo <= hi <= v.len(),
    ensures
        r@ == v@.subrange(lo as int, hi as int),
{
    let mut r: Vec<char> = Vec::new();
    let mut i = lo;
    while i < hi
        invariant
            lo <= i <= hi <= v.len(),
            r@ == v@.subrange(lo as int, i as int),
        decreases hi - i,
    {
        r.push(v[i]);
        i = i + 1;
    }
    r
}

/// `v` followed by `w`.
pub fn append_chars(v: &mut Vec<char>, w: &Vec<char>)
    ensures
        final(v)@ == old(v)@ + w@,
{
    let mut i: usize = 0;
    let ghost start = v@;
    while i < w.len()
        invariant
            i <= w.len(),
            v@ == start + w@.take(i as int),
        decreases w.len() - i,
    {
        v.push(w[i]);
        i = i + 1;
    }
    assert(w@.take(w.len() as int) == w@);
}

/// The string `a` followed by the string `b`.
pub fn concat_text(a: &str, b: &str) -> (r: String)
    ensures
        r@ == a@ + b@,
{
    let mut v = chars_of(a);
    let w = chars_of(b);
    append_chars(&mut v, &w);
    text_of(&v)
}

// ---------------------------------------------------------------------------
// Lower case
// ---------------------------------------------------------------------------

/// What `str::to_lowercase` gives for a string: Unicode lower-case mapping.
pub uninterp spec fn lowercase(s: Seq<char>) -> Seq<char>;

/// ASCII text without upper-case letters, which lower-casing leaves as it is.
pub open spec fn is_lower_ascii(s: Seq<char>) -> bool {
    forall|i: int|
        0 <= i < s.len() ==> (#[trigger] s[i] as int) < 128 && !('A' as int <= s[i] as int && s[i] as int
            <= 'Z' as int)
}

/// ASCII text: every character below 128.
#[verifier::opaque]
pub open spec fn is_ascii_text(s: Seq<char>) -> bool {
    forall|i: int| 0 <= i < s.len() ==> (#[trigger] s[i] as int) < 128
}

/// An ASCII character lower-cased: `A`..`Z` become `a`..`z`, the others stay.
pub open spec fn ascii_lower(c: char) -> char {
    if 'A' as int <= c as int && c as int <= 'Z' as int {
        (c as int + 32) as char
    } else {
        c
    }
}

/// ASCII text lower-cased, character by character.
#[verifier::opaque]
pub open spec fn ascii_lowercase(s: Seq<char>) -> Seq<char> {
    s.map_values(|c: char| ascii_lower(c))
}

/// `str::to_lowercase`: the Unicode lower-case mapping of `s`, a function of `s` alone. On
/// ASCII text it maps `A`..`Z` to `a`..`z` and leaves every other character as it is.
#[verifier::external_body]
pub(crate) fn to_lowercase(s: &str) -> (r: String)
    ensures
        r@ == lowercase(s@),
        is_lower_ascii(s@) ==> r@ == s@,
        is_ascii_text(s@) ==> r@ == ascii_lowercase(s@),
{
    s.to_lowercase()
}

// ---------------------------------------------------------------------------
// White space and trimming
// ---------------------------------------------------------------------------

/// The characters that `char::is_whitespace` accepts (the Unicode White_Space property).
pub open spec fn is_white(c: char) -> bool {
    let u = c as u32;
    ||| u == 0x20
    ||| 0x09 <= u && u <= 0x0d
    ||| u == 0x85
    ||| u == 0xa0
    ||| u == 0x1680
    ||| 0x2000 <= u && u <= 0x200a
    ||| u == 0x2028
    ||| u == 0x2029
    ||| u == 0x202f
    ||| u == 0x205f
    ||| u == 0x3000
}

/// `s` without its leading white space.
pub open spec fn trim_start(s: Seq<char>) -> Seq<char>
    decreases s.len(),
{
    if s.len() > 0 && is_white(s[0]) {
        trim_start(s.drop_first())
    } else {
        s
    }
}

/// `s` without its trailing white space.
pub open spec fn trim_end(s: Seq<char>) -> Seq<char>
    decreases s.len(),
{
    if s.len() > 0 && is_white(s.last()) {
        trim_end(s.drop_last())
    } else {
        s
    }
}

/// `s` without leading and trailing white space (`str::trim`).
pub open spec fn trimmed(s: Seq<char>) -> Seq<char> {
    trim_end(trim_start(s))
}

/// Whether `c` is white space in the sense of `char::is_whitespace`.
pub fn is_white_char(c: char) -> (r: bool)
    ensures
        r == is_white(c),
{
    let u = c as u32;
    u == 0x20 || (0x09 <= u && u <= 0x0d) || u == 0x85 || u == 0xa0 || u == 0x1680 || (0x2000
        <= u && u <= 0x200a) || u == 0x2028 || u == 0x2029 || u == 0x202f || u == 0x205f || u
        == 0x3000
}

proof fn lemma_trim_start_skip(s: Seq<char>, i: int)
    requires
        0 <= i <= s.len(),
        forall|k: int| 0 <= k < i ==> is_white(#[trigger] s[k]),
        i == s.len() || !is_white(s[i]),
    ensures
        trim_start(s) == s.skip(i),
    decreases i,
{
    if i == 0 {
        assert(s.skip(0) =~= s);
    } else {
        let t = s.drop_first();
        assert forall|k: int| 0 <= k < i - 1 implies is_white(#[trigger] t[k]) by {
            assert(t[k] == s[k + 1]);
        }
        if i - 1 < t.len() {
            assert(t[i - 1] == s[i]);
        }
        lemma_trim_start_skip(t, i - 1);
        assert(t.skip(i - 1) =~= s.skip(i));
    }
}

proof fn lemma_trim_end_take(s: Seq<char>, j: int)
    requires
        0 <= j <= s.len(),
        forall|k: int| j <= k < s.len() ==> is_white(#[trigger] s[k]),
        j == 0 || !is_white(s[j - 1]),
    ensures
        trim_end(s) == s.take(j),
    decreases s.len() - j,
{
    if j == s.len() {
        assert(s.take(j) =~= s);
    } else {
        let t = s.drop_last();
        assert forall|k: int| j <= k < t.len() implies is_white(#[trigger] t[k]) by {
            assert(t[k] == s[k]);
        }
        if j > 0 {
            assert(t[j - 1] == s[j - 1]);
        }
        lemma_trim_end_take(t, j);
        assert(t.take(j) =~= s.take(j));
    }
}

/// `str::trim`: the text without leading and trailing white space.
pub fn trim(s: &str) -> (r: String)
    ensures
        r@ == trimmed(s@),
{
    let v = chars_of(s);
    let mut i: usize = 0;
    while i < v.len() && is_white_char(v[i])
        invariant
            i <= v.len(),
            forall|k: int| 0 <= k < i ==> is_white(#[trigger] v@[k]),
        decreases v.len() - i,
    {
        i = i + 1;
    }
    proof {
        lemma_trim_start_skip(v@, i as int);
    }
    let mut j: usize = v.len();
    while j > i && is_white_char(v[j - 1])
        invariant
            i <= j <= v.len(),
            forall|k: int| j <= k < v.len() ==> is_white(#[trigger] v@[k]),
        decreases j,
    {
        j = j - 1;
    }
    proof {
        let t = v@.skip(i as int);
        assert forall|k: int| (j - i) <= k < t.len() implies is_white(#[trigger] t[k]) by {
            assert(t[k] == v@[k + i]);
        }
        if j > i {
            assert(t[j - i - 1] == v@[j - 1]);
        }
        lemma_trim_end_take(t, j - i);
        assert(t.take(j - i) =~= v@.subrange(i as int, j as int));
    }
    let r = chars_between(&v, i, j);
    text_of(&r)
}

// ---------------------------------------------------------------------------
// Searching inside text
// ---------------------------------------------------------------------------

/// `t` occurs in `s` as a contiguous piece (`str::contains` with a string pattern).
pub open spec fn has_infix(s: Seq<char>, t: Seq<char>) -> bool {
    exists|i: int| 0 <= i && i + t.len() <= s.len() && #[trigger] s.subrange(i, i + t.len()) == t
}

/// `s` begins with `t` (`str::starts_with`).
pub open spec fn has_prefix(s: Seq<char>, t: Seq<char>) -> bool {
    t.len() <= s.len() && s.take(t.len() as int) == t
}

/// `s` ends with `t` (`str::ends_with`).
pub open spec fn has_suffix(s: Seq<char>, t: Seq<char>) -> bool {
    t.len() <= s.len() && s.skip(s.len() - t.len()) == t
}

/// Whether `t` occurs in `s` at position `i`.
fn occurs_at(s: &Vec<char>, t: &Vec<char>, i: usize) -> (r: bool)
    requires
        i + t.len() <= s.len(),
    ensures
        r == (s@.subrange(i as int, i + t.len()) == t@),
{
    let mut k: usize = 0;
    while k < t.len()
        invariant
            i + t.len() <= s.len(),
            k <= t.len(),
            forall|m: int| 0 <= m < k ==> s@[i + m] == t@[m],
        decreases t.len() - k,
    {
        if s[i + k] != t[k] {
            proof {
                assert(s@.subrange(i as int, i + t.len())[k as int] != t@[k as int]);
            }
            return false;
        }
        k = k + 1;
    }
    assert(s@.subrange(i as int, i + t.len()) =~= t@);
    true
}

/// `str::contains` with a string pattern.
pub fn contains(s: &str, t: &str) -> (r: bool)
    ensures
        r == has_infix(s@, t@),
{
    let sv = chars_of(s);
    let tv = chars_of(t);
    if tv.len() > sv.len() {
        return false;
    }
    let last = sv.len() - tv.len();
    let mut i: usize = 0;
    loop
        invariant
            sv@ == s@,
            tv@ == t@,
            last == sv.len() - tv.len(),
            tv.len() <= sv.len(),
            i <= last,
            forall|k: int| 0 <= k < i ==> #[trigger] sv@.subrange(k, k + tv.len()) != tv@,
        decreases last - i,
    {
        if occurs_at(&sv, &tv, i) {
            assert(s@.subrange(i as int, i + t@.len()) == t@);
            return true;
        }
        if i == last {
            assert forall|k: int| 0 <= k && k + t@.len() <= s@.len() implies #[trigger] s@.subrange(
                k,
                k + t@.len(),
            ) != t@ by {
                assert(sv@.subrange(k, k + tv.len()) != tv@);
            }
            return false;
        }
        i = i + 1;
    }
}

/// `str::starts_with` with a string pattern.
pub fn starts_with(s: &str, t: &str) -> (r: bool)
    ensures
        r == has_prefix(s@, t@),
{
    let sv = chars_of(s);
    let tv = chars_of(t);
    if tv.len() > sv.len() {
        return false;
    }
    let r = occurs_at(&sv, &tv, 0);
    assert(sv@.subrange(0, tv.len() as int) == sv@.take(tv.len() as int));
    r
}

/// `str::ends_with` with a string pattern.
pub fn ends_with(s: &str, t: &str) -> (r: bool)
    ensures
        r == has_suffix(s@, t@),
{
    let sv = chars_of(s);
    let tv = chars_of(t);
    if tv.len() > sv.len() {
        return false;
    }
    let i = sv.len() - tv.len();
    let r = occurs_at(&sv, &tv, i);
    assert(sv@.subrange(i as int, sv.len() as int) == sv@.skip(i as int));
    r
}

/// Whether the string `s` holds the character `c`.
pub fn has_char(s: &str, c: char) -> (r: bool)
    ensures
        r == s@.contains(c),
{
    let v = chars_of(s);
    let mut i: usize = 0;
    while i < v.len()
        invariant
            v@ == s@,
            i <= v.len(),
            forall|k: int| 0 <= k < i ==> v@[k] != c,
        decreases v.len() - i,
    {
        if v[i] == c {
            assert(s@[i as int] == c);
            return true;
        }
        i = i + 1;
    }
    false
}

// ---------------------------------------------------------------------------
// Text equality and order
// ---------------------------------------------------------------------------

/// Whether two strings hold the same characters.
pub fn same_text(a: &str, b: &str) -> (r: bool)
    ensures
        r == (a@ == b@),
{
    let av = chars_of(a);
    let bv = chars_of(b);
    if av.len() != bv.len() {
        return false;
    }
    let r = occurs_at(&av, &bv, 0);
    assert(av@.subrange(0, bv.len() as int) =~= av@);
    r
}

/// Strict lexicographic order of character sequences by code point, which is the order of
/// `String`'s `Ord` (UTF-8 byte order agrees with code point order).
pub open spec fn text_less(a: Seq<char>, b: Seq<char>) -> bool
    decreases a.len(),
{
    if a.len() == 0 {
        b.len() > 0
    } else if b.len() == 0 {
        false
    } else if a[0] != b[0] {
        (a[0] as int) < (b[0] as int)
    } else {
        text_less(a.drop_first(), b.drop_first())
    }
}

/// `text_less` never relates a sequence to itself.
pub proof fn lemma_text_less_irreflexive(a: Seq<char>)
    ensures
        !text_less(a, a),
    decreases a.len(),
{
    if a.len() > 0 {
        lemma_text_less_irreflexive(a.drop_first());
    }
}

/// Any two distinct sequences are ordered one way or the other, and never both ways.
pub proof fn lemma_text_less_total(a: Seq<char>, b: Seq<char>)
    ensures
        a != b ==> (text_less(a, b) || text_less(b, a)),
        !(text_less(a, b) && text_less(b, a)),
    decreases a.len(),
{
    if a.len() > 0 && b.len() > 0 {
        if a[0] == b[0] {
            lemma_text_less_total(a.drop_first(), b.drop_first());
            if a != b {
                if a.drop_first() == b.drop_first() {
                    assert(a =~= seq![a[0]] + a.drop_first());
                    assert(b =~= seq![b[0]] + b.drop_first());
                }
            }
        } else {
            let x = a[0];
            let y = b[0];
            assert((x as int) != (y as int));
        }
    } else if a.len() == 0 && b.len() == 0 {
        assert(a =~= b);
    }
}

/// `text_less` is transitive.
pub proof fn lemma_text_less_transitive(a: Seq<char>, b: Seq<char>, c: Seq<char>)
    requires
        text_less(a, b),
        text_less(b, c),
    ensures
        text_less(a, c),
    decreases a.len(),
{
    if a.len() > 0 && b.len() > 0 && c.len() > 0 {
        if a[0] == b[0] && b[0] == c[0] {
            lemma_text_less_transitive(a.drop_first(), b.drop_first(), c.drop_first());
        }
    }
}

/// Three-way outcome of comparing two values.
#[derive(PartialEq, Eq, Structural, Clone, Copy, Debug)]
pub enum Order {
    Less,
    Equal,
    Greater,
}

/// Compares two strings in the order of `String`'s `Ord`.
pub fn compare_text(a: &str, b: &str) -> (r: Order)
    ensures
        r == Order::Less <==> text_less(a@, b@),
        r == Order::Equal <==> a@ == b@,
        r == Order::Greater <==> text_less(b@, a@),
{
    let av = chars_of(a);
    let bv = chars_of(b);
    let mut i: usize = 0;
    proof {
        assert(av@.skip(0) =~= av@);
        assert(bv@.skip(0) =~= bv@);
    }
    while i < av.len() && i < bv.len() && av[i] == bv[i]
        invariant
            av@ == a@,
            bv@ == b@,
            i <= av.len(),
            i <= bv.len(),
            forall|k: int| 0 <= k < i ==> av@[k] == bv@[k],
            text_less(av@, bv@) == text_less(av@.skip(i as int), bv@.skip(i as int)),
            text_less(bv@, av@) == text_less(bv@.skip(i as int), av@.skip(i as int)),
        decreases av.len() - i,
    {
        proof {
            let sa = av@.skip(i as int);
            let sb = bv@.skip(i as int);
            assert(sa.drop_first() =~= av@.skip(i + 1));
            assert(sb.drop_first() =~= bv@.skip(i + 1));
        }
        i = i + 1;
    }
    proof {
        lemma_text_less_total(av@, bv@);
        lemma_text_less_irreflexive(av@);
    }
    if i == av.len() && i == bv.len() {
        assert(av@ =~= bv@);
        Order::Equal
    } else if i == av.len() {
        proof {
            assert(av@.skip(i as int).len() == 0);
            assert(av@ != bv@);
        }
        Order::Less
    } else if i == bv.len() {
        proof {
            assert(bv@.skip(i as int).len() == 0);
            assert(av@ != bv@);
        }
        Order::Greater
    } else {
        proof {
            assert(av@.skip(i as int)[0] == av@[i as int]);
            assert(bv@.skip(i as int)[0] == bv@[i as int]);
            assert(av@[i as int] != bv@[i as int]);
            assert(av@ != bv@);
            assert(text_less(av@.skip(i as int), bv@.skip(i as int)) == ((av@[i as int] as int) < (
            bv@[i as int] as int)));
            assert(text_less(bv@.skip(i as int), av@.skip(i as int)) == ((bv@[i as int] as int) < (
            av@[i as int] as int)));
        }
        if av[i] < bv[i] {
            Order::Less
        } else {
            Order::Greater
        }
    }
}

// ---------------------------------------------------------------------------
// Decimal numbers
// ---------------------------------------------------------------------------

/// The decimal digit character for `d < 10`.
pub open spec fn digit_char(d: int) -> char {
    if d == 0 {
        '0'
    } else if d == 1 {
        '1'
    } else if d == 2 {
        '2'
    } else if d == 3 {
        '3'
    } else if d == 4 {
        '4'
    } else if d == 5 {
        '5'
    } else if d == 6 {
        '6'
    } else if d == 7 {
        '7'
    } else if d == 8 {
        '8'
    } else {
        '9'
    }
}

/// Whether `c` is an ASCII decimal digit.
pub open spec fn is_digit(c: char) -> bool {
    '0' as int <= c as int && c as int <= '9' as int
}

/// The value of the digit character `c`.
pub open spec fn digit_value(c: char) -> int {
    c as int - '0' as int
}

/// How `Display` writes a natural number: its decimal digits, without leading zeros.
pub open spec fn decimal(n: nat) -> Seq<char>
    decreases n,
{
    if n < 10 {
        seq![digit_char(n as int)]
    } else {
        decimal(n / 10).push(digit_char((n % 10) as int))
    }
}

/// How `Display` writes an integer: a minus sign before negative values.
pub open spec fn signed_decimal(n: int) -> Seq<char> {
    if n < 0 {
        seq!['-'] + decimal((-n) as nat)
    } else {
        decimal(n as nat)
    }
}

fn digit_to_char(d: u64) -> (c: char)
    requires
        d < 10,
    ensures
        c == digit_char(d as int),
        is_digit(c),
        digit_value(c) == d,
{
    if d == 0 {
        '0'
    } else if d == 1 {
        '1'
    } else if d == 2 {
        '2'
    } else if d == 3 {
        '3'
    } else if d == 4 {
        '4'
    } else if d == 5 {
        '5'
    } else if d == 6 {
        '6'
    } else if d == 7 {
        '7'
    } else if d == 8 {
        '8'
    } else {
        '9'
    }
}

fn decimal_chars(n: u64) -> (r: Vec<char>)
    ensures
        r@ == decimal(n as nat),
{
    let mut out: Vec<char> = Vec::new();
    let mut m = n;
    while m >= 10
        invariant
            decimal(n as nat) == decimal(m as nat) + out@,
        decreases m,
    {
        let c = digit_to_char(m % 10);
        proof {
            assert(decimal(m as nat) == decimal((m / 10) as nat).push(c));
            assert(decimal(m as nat) + out@ =~= decimal((m / 10) as nat) + (seq![c] + out@));
        }
        let ghost before = out@;
        out.insert(0, c);
        assert(out@ =~= seq![c] + before);
        m = m / 10;
    }
    let c = digit_to_char(m);
    let ghost before = out@;
    out.insert(0, c);
    proof {
        assert(decimal(m as nat) == seq![c]);
        assert(out@ =~= seq![c] + before);
    }
    out
}

/// `u64::to_string`: the decimal text of `n`.
pub fn u64_text(n: u64) -> (r: String)
    ensures
        r@ == decimal(n as nat),
{
    let v = decimal_chars(n);
    text_of(&v)
}

/// `i64::to_string`: the decimal text of `n`, with a minus sign when it is negative.
pub fn i64_text(n: i64) -> (r: String)
    ensures
        r@ == signed_decimal(n as int),
{
    if n < 0 {
        let m: u64 = if n == i64::MIN {
            9223372036854775808u64
        } else {
            (-n) as u64
        };
        let mut v: Vec<char> = Vec::new();
        v.push('-');
        let d = decimal_chars(m);
        append_chars(&mut v, &d);
        assert(v@ =~= seq!['-'] + decimal(m as nat));
        text_of(&v)
    } else {
        u64_text(n as u64)
    }
}

/// `i32::to_string`: the decimal text of `n`, with a minus sign when it is negative.
pub fn i32_text(n: i32) -> (r: String)
    ensures
        r@ == signed_decimal(n as int),
{
    i64_text(n as i64)
}

/// The value of a sequence of decimal digits.
pub open spec fn digits_value(s: Seq<char>) -> nat
    decreases s.len(),
{
    if s.len() == 0 {
        0
    } else {
        (digits_value(s.drop_last()) * 10 + digit_value(s.last())) as nat
    }
}

/// A non-empty run of decimal digits.
pub open spec fn all_digits(s: Seq<char>) -> bool {
    s.len() > 0 && forall|i: int| 0 <= i < s.len() ==> is_digit(#[trigger] s[i])
}

/// The integer that Rust's `FromStr` for integer types reads from `s`, before the range check:
/// an optional `+` or `-` followed by at least one decimal digit, and nothing else.
pub open spec fn integer_value(s: Seq<char>) -> Option<int> {
    if s.len() > 0 && (s[0] == '-' || s[0] == '+') {
        if all_digits(s.drop_first()) {
            if s[0] == '-' {
                Some(-digits_value(s.drop_first()))
            } else {
                Some(digits_value(s.drop_first()) as int)
            }
        } else {
            None
        }
    } else if all_digits(s) {
        Some(digits_value(s) as int)
    } else {
        None
    }
}

/// `str::parse::<i64>`: `Some` value when `s` is a well-formed integer in range.
pub open spec fn parsed_i64(s: Seq<char>) -> Option<i64> {
    match integer_value(s) {
        Some(v) => if i64::MIN <= v <= i64::MAX {
            Some(v as i64)
        } else {
            None
        },
        None => None,
    }
}

/// `str::parse::<i32>`: `Some` value when `s` is a well-formed integer in range.
pub open spec fn parsed_i32(s: Seq<char>) -> Option<i32> {
    match integer_value(s) {
        Some(v) => if i32::MIN <= v <= i32::MAX {
            Some(v as i32)
        } else {
            None
        },
        None => None,
    }
}

proof fn lemma_digits_value_grows_digits(s: Seq<char>, k: int)
    requires
        0 <= k <= s.len(),
        forall|i: int| 0 <= i < s.len() ==> is_digit(#[trigger] s[i]),
    ensures
        digits_value(s.take(k)) <= digits_value(s),
    decreases s.len() - k,
{
    if k < s.len() {
        lemma_digits_value_grows_digits(s, k + 1);
        assert(s.take(k + 1).drop_last() =~= s.take(k));
        assert(s.take(k + 1).last() == s[k]);
        assert(is_digit(s[k]));
    } else {
        assert(s.take(k) =~= s);
    }
}

/// Reads the digits `v[lo..]`: their value when they are all digits and the value is at most
/// 2^63, `None` otherwise; `huge` tells the two failures apart.
fn read_digits(v: &Vec<char>, lo: usize) -> (r: (Option<u64>, bool))
    requires
        lo <= v.len(),
    ensures
        ({
            let t = v@.skip(lo as int);
            &&& r.0 is Some <==> (all_digits(t) && digits_value(t) <= 9223372036854775808)
            &&& r.0 is Some ==> r.0->0 == digits_value(t)
            &&& r.1 <==> (all_digits(t) && digits_value(t) > 9223372036854775808)
        }),
{
    let ghost t = v@.skip(lo as int);
    if lo == v.len() {
        return (None, false);
    }
    let mut acc: u64 = 0;
    let mut i = lo;
    while i < v.len()
        invariant
            lo <= i <= v.len(),
            t == v@.skip(lo as int),
            forall|k: int| lo <= k < i ==> is_digit(#[trigger] v@[k]),
            acc == digits_value(v@.subrange(lo as int, i as int)),
            acc <= 9223372036854775808,
        decreases v.len() - i,
    {
        let c = v[i];
        if !('0' <= c && c <= '9') {
            proof {
                assert(t[i - lo] == c);
                assert(!is_digit(c));
            }
            return (None, false);
        }
        proof {
            assert(v@.subrange(lo as int, i + 1).drop_last() =~= v@.subrange(lo as int, i as int));
        }
        let d = (c as u32 - '0' as u32) as u64;
        if acc > 922337203685477580 || (acc == 922337203685477580 && d > 8) {
            proof {
                let p = v@.subrange(lo as int, i + 1);
                assert(digits_value(p) == acc * 10 + d);
                // the remaining characters can only make the value larger
                let rest_ok = forall|k: int| 0 <= k < t.len() ==> is_digit(#[trigger] t[k]);
                if rest_ok {
                    assert(t.take(i + 1 - lo) =~= p);
                    lemma_digits_value_grows_digits(t, i + 1 - lo);
                }
            }
            let mut all = true;
            let mut j = i + 1;
            while j < v.len()
                invariant
                    i < j <= v.len(),
                    all <==> forall|k: int| i < k < j ==> is_digit(#[trigger] v@[k]),
                decreases v.len() - j,
            {
                let cj = v[j];
                if !('0' <= cj && cj <= '9') {
                    all = false;
                }
                j = j + 1;
            }
            proof {
                if all {
                    assert forall|k: int| 0 <= k < t.len() implies is_digit(#[trigger] t[k]) by {
                        assert(t[k] == v@[k + lo]);
                    }
                } else {
                    let k = choose|k: int| i < k < v.len() && !is_digit(#[trigger] v@[k]);
                    assert(t[k - lo] == v@[k]);
                }
            }
            return (None, all);
        }
        acc = acc * 10 + d;
        i = i + 1;
    }
    proof {
        assert(v@.subrange(lo as int, v.len() as int) =~= t);
        assert forall|k: int| 0 <= k < t.len() implies is_digit(#[trigger] t[k]) by {
            assert(t[k] == v@[k + lo]);
        }
    }
    (Some(acc), false)
}

proof fn lemma_digit_char(d: int)
    requires
        0 <= d < 10,
    ensures
        is_digit(digit_char(d)),
        digit_value(digit_char(d)) == d,
{
}

proof fn lemma_decimal_digits(n: nat)
    ensures
        all_digits(decimal(n)),
        digits_value(decimal(n)) == n,
        decimal(n)[0] != '-' && decimal(n)[0] != '+',
    decreases n,
{
    if n < 10 {
        lemma_digit_char(n as int);
        assert(decimal(n) =~= seq![digit_char(n as int)]);
        assert(decimal(n).drop_last() =~= Seq::<char>::empty());
        assert(decimal(n).last() == digit_char(n as int));
        assert(digits_value(decimal(n)) == digits_value(decimal(n).drop_last()) * 10 + digit_value(decimal(n).last()));
    } else {
        lemma_digit_char((n % 10) as int);
        lemma_decimal_digits(n / 10);
        let d = decimal(n);
        assert(d.drop_last() =~= decimal(n / 10));
        assert(d.last() == digit_char((n % 10) as int));
        assert(digits_value(d) == digits_value(decimal(n / 10)) * 10 + digit_value(d.last()));
        assert((n / 10) * 10 + n % 10 == n);
        assert(d[0] == decimal(n / 10)[0]);
        assert forall|i: int| 0 <= i < d.len() implies is_digit(#[trigger] d[i]) by {
            if i < d.len() - 1 {
                assert(d[i] == decimal(n / 10)[i]);
            }
        }
    }
}

/// Reading back the decimal text of an `i32` gives the number: `str::parse::<i32>` undoes
/// `i32::to_string`.
pub proof fn lemma_i32_text_parses(n: i32)
    ensures
        parsed_i32(signed_decimal(n as int)) == Some(n),
{
    if n < 0 {
        let m = (-n) as nat;
        lemma_decimal_digits(m);
        let s = seq!['-'] + decimal(m);
        assert(s.drop_first() =~= decimal(m));
        assert(s[0] == '-');
    } else {
        lemma_decimal_digits(n as nat);
    }
}

/// `str::parse::<i64>`.
pub fn parse_i64(s: &str) -> (r: Option<i64>)
    ensures
        r == parsed_i64(s@),
{
    let v = chars_of(s);
    if v.len() > 0 && (v[0] == '-' || v[0] == '+') {
        let neg = v[0] == '-';
        let (d, _) = read_digits(&v, 1);
        proof {
            assert(v@.skip(1) =~= s@.drop_first());
        }
        match d {
            Some(x) => {
                if neg {
                    if x == 9223372036854775808u64 {
                        Some(i64::MIN)
                    } else {
                        Some(-(x as i64))
                    }
                } else if x <= 9223372036854775807u64 {
                    Some(x as i64)
                } else {
                    None
                }
            },
            None => None,
        }
    } else {
        let (d, _) = read_digits(&v, 0);
        proof {
            assert(v@.skip(0) =~= s@);
        }
        match d {
            Some(x) => {
                if x <= 9223372036854775807u64 {
                    Some(x as i64)
                } else {
                    None
                }
            },
            None => None,
        }
    }
}

/// `str::parse::<i32>`.
pub fn parse_i32(s: &str) -> (r: Option<i32>)
    ensures
        r == parsed_i32(s@),
{
    match parse_i64(s) {
        Some(x) => {
            if -2147483648 <= x && x <= 2147483647 {
                Some(x as i32)
            } else {
                None
            }
        },
        None => None,
    }
}

// ---------------------------------------------------------------------------
// Splitting and joining
// ---------------------------------------------------------------------------

/// The views of a sequence of strings.
pub open spec fn texts(v: Seq<String>) -> Seq<Seq<char>> {
    v.map_values(|x: String| x@)
}

/// `str::split` with a single-character separator: the pieces between separators, in order;
/// always at least one piece.
pub open spec fn split_on(s: Seq<char>, sep: char) -> Seq<Seq<char>>
    decreases s.len(),
{
    if s.len() == 0 {
        seq![Seq::<char>::empty()]
    } else {
        let front = split_on(s.drop_last(), sep);
        if s.last() == sep {
            front.push(Seq::<char>::empty())
        } else {
            front.update(front.len() - 1, front.last().push(s.last()))
        }
    }
}

/// `[String]::join` with a single-character separator.
pub open spec fn join_on(parts: Seq<Seq<char>>, sep: char) -> Seq<char>
    decreases parts.len(),
{
    if parts.len() == 0 {
        Seq::<char>::empty()
    } else if parts.len() == 1 {
        parts[0]
    } else {
        join_on(parts.drop_last(), sep) + seq![sep] + parts.last()
    }
}

proof fn lemma_split_on_nonempty(s: Seq<char>, sep: char)
    ensures
        split_on(s, sep).len() >= 1,
    decreases s.len(),
{
    if s.len() > 0 {
        lemma_split_on_nonempty(s.drop_last(), sep);
    }
}

/// `str::split(sep)`, each piece collected into a `String`.
pub fn split_text(s: &str, sep: char) -> (r: Vec<String>)
    ensures
        texts(r@) == split_on(s@, sep),
{
    let v = chars_of(s);
    let mut done: Vec<String> = Vec::new();
    let mut cur: Vec<char> = Vec::new();
    let mut i: usize = 0;
    while i < v.len()
        invariant
            v@ == s@,
            i <= v.len(),
            split_on(v@.take(i as int), sep) == texts(done@).push(cur@),
        decreases v.len() - i,
    {
        let c = v[i];
        proof {
            assert(v@.take(i + 1).drop_last() =~= v@.take(i as int));
            assert(v@.take(i + 1).last() == c);
        }
        if c == sep {
            let piece = text_of(&cur);
            let ghost d0 = texts(done@);
            done.push(piece);
            cur = Vec::new();
            proof {
                assert(texts(done@) =~= d0.push(piece@));
                assert(texts(done@).push(cur@) =~= d0.push(piece@).push(Seq::<char>::empty()));
            }
        } else {
            let ghost c0 = cur@;
            cur.push(c);
            proof {
                let front = texts(done@).push(c0);
                assert(front.update(front.len() - 1, front.last().push(c)) =~= texts(done@).push(
                    cur@,
                ));
            }
        }
        i = i + 1;
    }
    let last = text_of(&cur);
    let ghost d0 = texts(done@);
    done.push(last);
    proof {
        assert(v@.take(v.len() as int) =~= v@);
        assert(texts(done@) =~= d0.push(last@));
    }
    done
}

/// Joins strings with a single-character separator (`[String]::join`).
pub fn join_texts(parts: &Vec<String>, sep: char) -> (r: String)
    ensures
        r@ == join_on(texts(parts@), sep),
{
    let mut out: Vec<char> = Vec::new();
    let mut i: usize = 0;
    while i < parts.len()
        invariant
            i <= parts.len(),
            out@ == join_on(texts(parts@).take(i as int), sep),
        decreases parts.len() - i,
    {
        let p = chars_of(parts[i].as_str());
        let ghost before = out@;
        let ghost ps = texts(parts@).take(i + 1);
        proof {
            assert(ps.drop_last() =~= texts(parts@).take(i as int));
            assert(ps.last() == parts@[i as int]@);
        }
        if i > 0 {
            out.push(sep);
        }
        append_chars(&mut out, &p);
        proof {
            if i == 0 {
                assert(out@ =~= ps[0]);
            } else {
                assert(out@ =~= before + seq![sep] + ps.last());
            }
        }
        i = i + 1;
    }
    proof {
        assert(texts(parts@).take(parts.len() as int) =~= texts(parts@));
    }
    text_of(&out)
}

proof fn lemma_split_push_sep(s: Seq<char>, sep: char)
    ensures
        split_on(s.push(sep), sep) == split_on(s, sep).push(Seq::<char>::empty()),
{
    assert(s.push(sep).drop_last() =~= s);
}

proof fn lemma_split_append_plain(a: Seq<char>, b: Seq<char>, sep: char)
    requires
        !b.contains(sep),
    ensures
        split_on(a + b, sep).len() == split_on(a, sep).len(),
        split_on(a + b, sep) == split_on(a, sep).update(
            split_on(a, sep).len() - 1,
            split_on(a, sep).last() + b,
        ),
    decreases b.len(),
{
    lemma_split_on_nonempty(a, sep);
    if b.len() == 0 {
        assert(a + b =~= a);
        assert(split_on(a, sep).last() + b =~= split_on(a, sep).last());
        assert(split_on(a, sep).update(split_on(a, sep).len() - 1, split_on(a, sep).last())
            =~= split_on(a, sep));
    } else {
        let b0 = b.drop_last();
        assert(!b0.contains(sep)) by {
            if b0.contains(sep) {
                let k = choose|k: int| 0 <= k < b0.len() && b0[k] == sep;
                assert(b[k] == sep);
            }
        }
        lemma_split_append_plain(a, b0, sep);
        assert((a + b).drop_last() =~= a + b0);
        assert((a + b).last() == b.last());
        assert(b.last() != sep) by {
            assert(b[b.len() - 1] == b.last());
        }
        let f = split_on(a, sep);
        assert((f.last() + b0).push(b.last()) =~= f.last() + b);
        let g = f.update(f.len() - 1, f.last() + b0);
        assert(g.last() == f.last() + b0);
        assert(f.update(f.len() - 1, f.last() + b0).update(
            f.len() - 1,
            (f.last() + b0).push(b.last()),
        ) =~= f.update(f.len() - 1, f.last() + b));
    }
}

/// Splitting a join gives the parts back, when there is at least one part and no part holds
/// the separator.
pub proof fn lemma_split_join(parts: Seq<Seq<char>>, sep: char)
    requires
        parts.len() >= 1,
        forall|i: int| 0 <= i < parts.len() ==> !(#[trigger] parts[i]).contains(sep),
    ensures
        split_on(join_on(parts, sep), sep) == parts,
    decreases parts.len(),
{
    if parts.len() == 1 {
        let e = Seq::<char>::empty();
        lemma_split_append_plain(e, parts[0], sep);
        assert(e + parts[0] =~= parts[0]);
        assert(split_on(e, sep) =~= seq![e]);
        assert(seq![e].update(0, e + parts[0]) =~= parts);
    } else {
        let front = parts.drop_last();
        lemma_split_join(front, sep);
        let j = join_on(front, sep);
        lemma_split_push_sep(j, sep);
        assert(parts[parts.len() - 1] == parts.last());
        lemma_split_append_plain(j.push(sep), parts.last(), sep);
        assert(j + seq![sep] + parts.last() =~= j.push(sep) + parts.last());
        let f = front.push(Seq::<char>::empty());
        assert(f.update(f.len() - 1, f.last() + parts.last()) =~= parts);
    }
}

// ---------------------------------------------------------------------------
// Line endings
// ---------------------------------------------------------------------------

/// `str::replace("\r\n", "\n")`: every CR LF pair, left to right, becomes a LF.
pub open spec fn crlf_to_lf(s: Seq<char>) -> Seq<char>
    decreases s.len(),
{
    if s.len() == 0 {
        Seq::<char>::empty()
    } else if s.len() >= 2 && s[0] == '\r' && s[1] == '\n' {
        seq!['\n'] + crlf_to_lf(s.skip(2))
    } else {
        seq![s[0]] + crlf_to_lf(s.skip(1))
    }
}

/// `str::replace("\r", "\n")`: every CR becomes a LF.
pub open spec fn cr_to_lf(s: Seq<char>) -> Seq<char> {
    s.map_values(|c: char| if c == '\r' { '\n' } else { c })
}

/// The text with CR LF and lone CR line endings turned into LF, as the two replacements
/// `replace("\r\n", "\n").replace("\r", "\n")` give it.
pub open spec fn normalized_newlines(s: Seq<char>) -> Seq<char> {
    cr_to_lf(crlf_to_lf(s))
}

/// Turns CR LF and lone CR line endings into LF.
pub fn normalize_newlines(s: &str) -> (r: String)
    ensures
        r@ == normalized_newlines(s@),
{
    let v = chars_of(s);
    let mut out: Vec<char> = Vec::new();
    let ghost mut mid: Seq<char> = Seq::empty();
    let mut i: usize = 0;
    proof {
        assert(v@.skip(0) =~= v@);
    }
    while i < v.len()
        invariant
            v@ == s@,
            i <= v.len(),
            crlf_to_lf(v@) == mid + crlf_to_lf(v@.skip(i as int)),
            out@ == cr_to_lf(mid),
        decreases v.len() - i,
    {
        let ghost t = v@.skip(i as int);
        if v[i] == '\r' && i + 1 < v.len() && v[i + 1] == '\n' {
            proof {
                assert(t[0] == '\r' && t[1] == '\n');
                assert(t.skip(2) =~= v@.skip(i + 2));
                assert(mid + (seq!['\n'] + crlf_to_lf(t.skip(2))) =~= mid.push('\n') + crlf_to_lf(
                    t.skip(2),
                ));
                mid = mid.push('\n');
            }
            out.push('\n');
            proof {
                assert(out@ =~= cr_to_lf(mid));
            }
            i = i + 2;
        } else {
            let c = v[i];
            proof {
                assert(t[0] == c);
                assert(t.skip(1) =~= v@.skip(i + 1));
                assert(mid + (seq![c] + crlf_to_lf(t.skip(1))) =~= mid.push(c) + crlf_to_lf(
                    t.skip(1),
                ));
                mid = mid.push(c);
            }
            if c == '\r' {
                out.push('\n');
            } else {
                out.push(c);
            }
            proof {
                assert(out@ =~= cr_to_lf(mid));
            }
            i = i + 1;
        }
    }
    proof {
        assert(v@.skip(i as int) =~= Seq::<char>::empty());
        assert(mid + Seq::<char>::empty() =~= mid);
    }
    text_of(&out)
}

/// Normalized text holds no carriage return.
pub proof fn lemma_normalized_has_no_cr(s: Seq<char>)
    ensures
        !normalized_newlines(s).contains('\r'),
{
    let n = normalized_newlines(s);
    if n.contains('\r') {
        let k = choose|k: int| 0 <= k < n.len() && n[k] == '\r';
        assert(n[k] == (if crlf_to_lf(s)[k] == '\r' { '\n' } else { crlf_to_lf(s)[k] }));
    }
}

// ---------------------------------------------------------------------------
// Path pieces
// ---------------------------------------------------------------------------

/// A path separator on either platform the program runs on.
pub open spec fn is_path_sep(c: char) -> bool {
    c == '/' || c == '\\'
}

/// The piece of `s` after its last `/` or `\\`: `s.split(&['/', '\\'][..]).last()`.
pub open spec fn last_segment(s: Seq<char>) -> Seq<char>
    decreases s.len(),
{
    if s.len() == 0 {
        Seq::<char>::empty()
    } else if is_path_sep(s.last()) {
        Seq::<char>::empty()
    } else {
        last_segment(s.drop_last()).push(s.last())
    }
}

proof fn lemma_last_segment_skip(s: Seq<char>, k: int)
    requires
        0 <= k <= s.len(),
        forall|m: int| k <= m < s.len() ==> !is_path_sep(#[trigger] s[m]),
        k == 0 || is_path_sep(s[k - 1]),
    ensures
        last_segment(s) == s.skip(k),
    decreases s.len(),
{
    if s.len() == 0 {
        assert(s.skip(k) =~= s);
    } else if k == s.len() {
        assert(s.last() == s[k - 1]);
        assert(s.skip(k) =~= Seq::<char>::empty());
    } else {
        let t = s.drop_last();
        assert(s.last() == s[s.len() - 1]);
        assert forall|m: int| k <= m < t.len() implies !is_path_sep(#[trigger] t[m]) by {
            assert(t[m] == s[m]);
        }
        if k > 0 {
            assert(t[k - 1] == s[k - 1]);
        }
        lemma_last_segment_skip(t, k);
        assert(t.skip(k).push(s.last()) =~= s.skip(k));
    }
}

/// The file name at the end of a path written with `/` or `\\` separators.
pub fn last_path_segment(s: &str) -> (r: String)
    ensures
        r@ == last_segment(s@),
{
    let v = chars_of(s);
    let mut k: usize = v.len();
    while k > 0 && !(v[k - 1] == '/' || v[k - 1] == '\\')
        invariant
            k <= v.len(),
            forall|m: int| k <= m < v.len() ==> !is_path_sep(#[trigger] v@[m]),
        decreases k,
    {
        k = k - 1;
    }
    proof {
        lemma_last_segment_skip(v@, k as int);
        assert(v@.subrange(k as int, v.len() as int) =~= v@.skip(k as int));
    }
    let r = chars_between(&v, k, v.len());
    text_of(&r)
}

/// A path that every platform splits alike: it does not begin with two slashes, holds no `\`
/// and no `:` (so no drive, share or verbatim prefix), and its last piece after a `/` is a
/// name other than `.` and `..`.
pub open spec fn is_plain_path(p: Seq<char>) -> bool {
    &&& !(p.len() >= 2 && p[0] == '/' && p[1] == '/')
    &&& !p.contains('\\')
    &&& !p.contains(':')
    &&& last_segment(p).len() > 0
    &&& last_segment(p) != "."@
    &&& last_segment(p) != ".."@
}

/// `Path::new(path).file_name()` as text, or the empty text when there is none. Which
/// separators count depends on the platform: in general the name is a piece of `path`
/// without `/`; for a plain path it is the last piece after a `/` on every platform.
#[verifier::external_body]
pub(crate) fn file_name_of(path: &str) -> (r: String)
    ensures
        has_infix(path@, r@),
        !r@.contains('/'),
        is_plain_path(path@) ==> r@ == last_segment(path@),
{
    match std::path::Path::new(path).file_name() {
        Some(n) => n.to_string_lossy().to_string(),
        None => String::new(),
    }
}

} // verus!
