//! Character-level text handling: trimming, splitting and decimal integers,
//! each specified over the character sequence of the text.

use vstd::prelude::*;

verus! {

/// Unicode `White_Space`, the set of characters that `str::trim` removes.
pub open spec fn is_whitespace(c: char) -> bool {
    ||| c == '\t'
    ||| c == '\n'
    ||| c == '\u{0B}'
    ||| c == '\u{0C}'
    ||| c == '\r'
    ||| c == ' '
    ||| c == '\u{85}'
    ||| c == '\u{A0}'
    ||| c == '\u{1680}'
    ||| ('\u{2000}' <= c && c <= '\u{200A}')
    ||| c == '\u{2028}'
    ||| c == '\u{2029}'
    ||| c == '\u{202F}'
    ||| c == '\u{205F}'
    ||| c == '\u{3000}'
}

/// `s` without its leading white space.
pub open spec fn trim_start(s: Seq<char>) -> Seq<char>
    decreases s.len(),
{
    if s.len() > 0 && is_whitespace(s[0]) {
        trim_start(s.drop_first())
    } else {
        s
    }
}

/// `s` without its trailing white space.
pub open spec fn trim_end(s: Seq<char>) -> Seq<char>
    decreases s.len(),
{
    if s.len() > 0 && is_whitespace(s.last()) {
        trim_end(s.drop_last())
    } else {
        s
    }
}

/// `s` without leading and trailing white space, as `str::trim` gives it.
pub open spec fn trim(s: Seq<char>) -> Seq<char> {
    trim_end(trim_start(s))
}

/// Index of the first `c` in `s` at or after `i`, or `s.len()` when there is none.
pub open spec fn find_from(s: Seq<char>, c: char, i: int) -> int
    decreases s.len() - i,
{
    if i < 0 || i >= s.len() {
        s.len() as int
    } else if s[i] == c {
        i
    } else {
        find_from(s, c, i + 1)
    }
}

/// The `n`-th piece (counting from 0) of `s` cut at every `c`, as
/// `str::split(c).nth(n)` gives it; `None` when there are fewer pieces.
pub open spec fn split_field(s: Seq<char>, c: char, n: nat) -> Option<Seq<char>>
    decreases n,
{
    let k = find_from(s, c, 0);
    if n == 0 {
        Some(s.take(k))
    } else if k < s.len() {
        split_field(s.skip(k + 1), c, (n - 1) as nat)
    } else {
        None
    }
}

pub open spec fn is_digit(c: char) -> bool {
    '0' <= c && c <= '9'
}

pub open spec fn digit_value(c: char) -> int {
    c as int - '0' as int
}

pub open spec fn all_digits(s: Seq<char>) -> bool {
    forall|i: int| 0 <= i < s.len() ==> #[trigger] is_digit(s[i])
}

/// The number that the decimal digits `s` denote.
pub open spec fn decimal_value(s: Seq<char>) -> int
    decreases s.len(),
{
    if s.len() == 0 {
        0
    } else {
        decimal_value(s.drop_last()) * 10 + digit_value(s.last())
    }
}

/// What `str::parse` gives for an integer type whose values are `min..=max`:
/// an optional `+` (or `-` when the type is signed) and at least one decimal
/// digit, nothing else, and a value within the range.
pub open spec fn parse_integer(s: Seq<char>, min: int, max: int) -> Option<int> {
    let negative = s.len() > 0 && s[0] == '-' && min < 0;
    let digits = if s.len() > 0 && (s[0] == '+' || negative) {
        s.drop_first()
    } else {
        s
    };
    let v = if negative {
        -decimal_value(digits)
    } else {
        decimal_value(digits)
    };
    if digits.len() > 0 && all_digits(digits) && min <= v <= max {
        Some(v)
    } else {
        None
    }
}

pub open spec fn parse_i64(s: Seq<char>) -> Option<int> {
    parse_integer(s, i64::MIN as int, i64::MAX as int)
}

pub open spec fn parse_i32(s: Seq<char>) -> Option<int> {
    parse_integer(s, i32::MIN as int, i32::MAX as int)
}

pub open spec fn parse_u32(s: Seq<char>) -> Option<int> {
    parse_integer(s, 0, u32::MAX as int)
}

pub open spec fn all_whitespace(s: Seq<char>) -> bool {
    forall|i: int| 0 <= i < s.len() ==> #[trigger] is_whitespace(s[i])
}

proof fn lemma_trim_start_skips_whitespace(w: Seq<char>, x: Seq<char>)
    requires
        all_whitespace(w),
    ensures
        trim_start(w + x) == trim_start(x),
    decreases w.len(),
{
    if w.len() > 0 {
        assert((w + x)[0] == w[0]);
        assert((w + x).drop_first() =~= w.drop_first() + x);
        lemma_trim_start_skips_whitespace(w.drop_first(), x);
    } else {
        assert(w + x =~= x);
    }
}

proof fn lemma_trim_end_skips_whitespace(x: Seq<char>, w: Seq<char>)
    requires
        all_whitespace(w),
    ensures
        trim_end(x + w) == trim_end(x),
    decreases w.len(),
{
    if w.len() > 0 {
        assert((x + w).last() == w.last());
        assert((x + w).drop_last() =~= x + w.drop_last());
        lemma_trim_end_skips_whitespace(x, w.drop_last());
    } else {
        assert(x + w =~= x);
    }
}

/// Trimming from the start reaches into a suffix only when the text before it is all white space.
proof fn lemma_trim_start_append(x: Seq<char>, w: Seq<char>)
    ensures
        all_whitespace(x) ==> trim_start(x + w) == trim_start(w),
        !all_whitespace(x) ==> trim_start(x + w) == trim_start(x) + w,
    decreases x.len(),
{
    if x.len() == 0 {
        assert(x + w =~= w);
    } else {
        assert((x + w)[0] == x[0]);
        assert((x + w).drop_first() =~= x.drop_first() + w);
        lemma_trim_start_append(x.drop_first(), w);
        if is_whitespace(x[0]) {
            if all_whitespace(x.drop_first()) {
                assert(all_whitespace(x)) by {
                    assert forall|i: int| 0 <= i < x.len() implies #[trigger] is_whitespace(x[i]) by {
                        if i > 0 {
                            assert(x[i] == x.drop_first()[i - 1]);
                        }
                    }
                }
            } else {
                assert(!all_whitespace(x)) by {
                    let j = choose|j: int| 0 <= j < x.drop_first().len() && !is_whitespace(x.drop_first()[j]);
                    assert(x[j + 1] == x.drop_first()[j]);
                }
            }
        } else {
            assert(!all_whitespace(x));
        }
    }
}

proof fn lemma_trim_of_all_whitespace(x: Seq<char>)
    requires
        all_whitespace(x),
    ensures
        trim_start(x).len() == 0,
    decreases x.len(),
{
    if x.len() > 0 {
        assert(all_whitespace(x.drop_first())) by {
            assert forall|i: int| 0 <= i < x.drop_first().len() implies #[trigger] is_whitespace(x.drop_first()[i]) by {
                assert(x.drop_first()[i] == x[i + 1]);
            }
        }
        lemma_trim_of_all_whitespace(x.drop_first());
    }
}

/// White space added around a text does not change what `trim` leaves of it.
pub proof fn lemma_trim_ignores_added_whitespace(before: Seq<char>, s: Seq<char>, after: Seq<char>)
    requires
        all_whitespace(before),
        all_whitespace(after),
    ensures
        trim(before + s + after) == trim(s),
{
    assert(before + s + after =~= before + (s + after));
    lemma_trim_start_skips_whitespace(before, s + after);
    lemma_trim_start_append(s, after);
    if all_whitespace(s) {
        lemma_trim_of_all_whitespace(s);
        lemma_trim_of_all_whitespace(after);
        assert(trim_end(trim_start(after)) == trim_start(after)) by {
            assert(trim_start(after).len() == 0);
        }
        assert(trim_start(s) =~= trim_start(after));
    } else {
        lemma_trim_end_skips_whitespace(trim_start(s), after);
    }
}

/// A text that neither starts nor ends with white space is its own trim.
pub proof fn lemma_trim_identity(s: Seq<char>)
    requires
        s.len() > 0,
        !is_whitespace(s[0]),
        !is_whitespace(s.last()),
    ensures
        trim(s) == s,
{
    assert(trim_start(s) == s);
}

/// `find_from` stops at the first `c` from `i` on.
pub proof fn lemma_find_from_first(s: Seq<char>, c: char, i: int, k: int)
    requires
        0 <= i <= k < s.len(),
        s[k] == c,
        forall|j: int| i <= j < k ==> s[j] != c,
    ensures
        find_from(s, c, i) == k,
    decreases k - i,
{
    if i < k {
        lemma_find_from_first(s, c, i + 1, k);
    }
}

/// Without a `c` from `i` on, `find_from` gives the length.
pub proof fn lemma_find_from_none(s: Seq<char>, c: char, i: int)
    requires
        0 <= i,
        forall|j: int| i <= j < s.len() ==> s[j] != c,
    ensures
        find_from(s, c, i) == s.len(),
    decreases s.len() - i,
{
    if i < s.len() {
        lemma_find_from_none(s, c, i + 1);
    }
}

/// Cutting `a + [c] + b` at `c`, when `a` holds no `c`: `a` is the first
/// piece, and the pieces after it are those of `b`.
pub proof fn lemma_split_field_first(a: Seq<char>, c: char, b: Seq<char>, n: nat)
    requires
        forall|j: int| 0 <= j < a.len() ==> a[j] != c,
    ensures
        split_field(a + seq![c] + b, c, 0) == Some(a),
        split_field(a + seq![c] + b, c, n + 1) == split_field(b, c, n),
{
    let t = a + seq![c] + b;
    lemma_find_from_first(t, c, 0, a.len() as int);
    assert(t.take(a.len() as int) =~= a);
    assert(t.skip(a.len() + 1int) =~= b);
}

/// A text without `c` is a single piece.
pub proof fn lemma_split_field_whole(a: Seq<char>, c: char)
    requires
        forall|j: int| 0 <= j < a.len() ==> a[j] != c,
    ensures
        split_field(a, c, 0) == Some(a),
        split_field(a, c, 1) is None,
{
    lemma_find_from_none(a, c, 0);
    assert(a.take(a.len() as int) =~= a);
}

proof fn lemma_decimal_value_grows(s: Seq<char>, i: int)
    requires
        0 <= i <= s.len(),
        all_digits(s),
    ensures
        decimal_value(s.take(i)) <= decimal_value(s),
        0 <= decimal_value(s),
    decreases s.len(),
{
    if s.len() > 0 {
        assert(all_digits(s.drop_last()));
        assert(is_digit(s[s.len() - 1]));
        if i == s.len() {
            assert(s.take(i) =~= s);
            lemma_decimal_value_grows(s.drop_last(), 0);
        } else {
            assert(s.take(i) =~= s.drop_last().take(i));
            lemma_decimal_value_grows(s.drop_last(), i);
        }
    }
}

/// The characters of `s`, one by one.
pub fn chars_of(s: &str) -> (v: Vec<char>)
    ensures
        v@ == s@,
{
    let n = s.unicode_len();
    let mut v: Vec<char> = Vec::new();
    let mut i: usize = 0;
    while i < n
        invariant
            n == s@.len(),
            i <= n,
            v@ == s@.take(i as int),
        decreases n - i,
    {
        v.push(s.get_char(i));
        i = i + 1;
        assert(v@ =~= s@.take(i as int));
    }
    assert(v@ =~= s@);
    v
}

/// Whether `a` and `b` hold the same characters.
pub fn same_text(a: &str, b: &str) -> (r: bool)
    ensures
        r == (a@ == b@),
{
    let n = a.unicode_len();
    if n != b.unicode_len() {
        return false;
    }
    let mut i: usize = 0;
    while i < n
        invariant
            n == a@.len(),
            n == b@.len(),
            i <= n,
            forall|j: int| 0 <= j < i ==> a@[j] == b@[j],
        decreases n - i,
    {
        if a.get_char(i) != b.get_char(i) {
            return false;
        }
        i = i + 1;
    }
    assert(a@ =~= b@);
    true
}

/// A copy of the characters `a..b` of `v`.
pub fn sub_chars(v: &Vec<char>, a: usize, b: usize) -> (r: Vec<char>)
    requires
        a <= b <= v@.len(),
    ensures
        r@ == v@.subrange(a as int, b as int),
{
    let mut r: Vec<char> = Vec::new();
    let mut i: usize = a;
    while i < b
        invariant
            a <= i <= b <= v@.len(),
            r@ == v@.subrange(a as int, i as int),
        decreases b - i,
    {
        r.push(v[i]);
        i = i + 1;
        assert(r@ =~= v@.subrange(a as int, i as int));
    }
    r
}

pub fn is_whitespace_char(c: char) -> (b: bool)
    ensures
        b == is_whitespace(c),
{
    c == '\t' || c == '\n' || c == '\u{0B}' || c == '\u{0C}' || c == '\r' || c == ' ' || c
        == '\u{85}' || c == '\u{A0}' || c == '\u{1680}' || ('\u{2000}' <= c && c <= '\u{200A}')
        || c == '\u{2028}' || c == '\u{2029}' || c == '\u{202F}' || c == '\u{205F}' || c
        == '\u{3000}'
}

/// `v` without leading and trailing white space.
pub fn trim_chars(v: &Vec<char>) -> (r: Vec<char>)
    ensures
        r@ == trim(v@),
{
    let n = v.len();
    let mut lo: usize = 0;
    assert(v@.skip(0) =~= v@);
    while lo < n && is_whitespace_char(v[lo])
        invariant
            n == v@.len(),
            lo <= n,
            trim_start(v@) == trim_start(v@.skip(lo as int)),
        decreases n - lo,
    {
        assert(v@.skip(lo as int).drop_first() =~= v@.skip(lo + 1));
        lo = lo + 1;
    }
    assert(trim_start(v@) == v@.skip(lo as int));
    let mut hi: usize = n;
    while hi > lo && is_whitespace_char(v[hi - 1])
        invariant
            n == v@.len(),
            lo <= hi <= n,
            trim(v@) == trim_end(v@.subrange(lo as int, hi as int)),
            trim_start(v@) == v@.skip(lo as int),
        decreases hi - lo,
    {
        assert(v@.subrange(lo as int, hi as int).drop_last() =~= v@.subrange(
            lo as int,
            hi - 1,
        ));
        hi = hi - 1;
    }
    assert(v@.skip(lo as int) =~= v@.subrange(lo as int, n as int));
    sub_chars(v, lo, hi)
}

/// Index of the first `c` in `v`, or its length when there is none.
pub fn find_char(v: &Vec<char>, c: char) -> (k: usize)
    ensures
        k == find_from(v@, c, 0),
{
    let n = v.len();
    let mut i: usize = 0;
    while i < n && v[i] != c
        invariant
            n == v@.len(),
            i <= n,
            find_from(v@, c, 0) == find_from(v@, c, i as int),
        decreases n - i,
    {
        i = i + 1;
    }
    i
}

/// The `n`-th piece of `v` cut at every `c`, as `str::split(c).nth(n)` gives it.
pub fn split_field_chars(v: &Vec<char>, c: char, n: usize) -> (r: Option<Vec<char>>)
    ensures
        match r {
            Some(p) => split_field(v@, c, n as nat) == Some(p@),
            None => split_field(v@, c, n as nat) is None,
        },
    decreases n,
{
    let k = find_char(v, c);
    proof {
        lemma_find_from_bounds(v@, c, 0);
    }
    if n == 0 {
        Some(sub_chars(v, 0, k))
    } else if k < v.len() {
        let rest = sub_chars(v, k + 1, v.len());
        assert(rest@ =~= v@.skip(k + 1));
        split_field_chars(&rest, c, n - 1)
    } else {
        None
    }
}

pub proof fn lemma_find_from_bounds(s: Seq<char>, c: char, i: int)
    requires
        0 <= i,
    ensures
        i <= find_from(s, c, i) <= s.len() || (i > s.len() && find_from(s, c, i) == s.len()),
        find_from(s, c, i) < s.len() ==> s[find_from(s, c, i)] == c,
    decreases s.len() - i,
{
    if i < s.len() && s[i] != c {
        lemma_find_from_bounds(s, c, i + 1);
    }
}

/// The decimal digits `v`, when there is at least one, nothing else, and their
/// value is at most `bound`.
fn parse_digits(v: &Vec<char>, start: usize, bound: u64) -> (r: Option<u64>)
    requires
        start <= v@.len(),
    ensures
        ({
            let d = v@.skip(start as int);
            match r {
                Some(x) => d.len() > 0 && all_digits(d) && x == decimal_value(d) && x <= bound,
                None => !(d.len() > 0 && all_digits(d) && decimal_value(d) <= bound),
            }
        }),
{
    let ghost d = v@.skip(start as int);
    let n = v.len();
    if start == n {
        return None;
    }
    let mut acc: u64 = 0;
    let mut i: usize = start;
    while i < n
        invariant
            d == v@.skip(start as int),
            n == v@.len(),
            start <= i <= n,
            all_digits(d.take(i - start)),
            acc == decimal_value(d.take(i - start)),
            acc <= bound,
        decreases n - i,
    {
        let c = v[i];
        if !('0' <= c && c <= '9') {
            assert(!is_digit(d[i - start]));
            return None;
        }
        let dv: u64 = (c as u32 - '0' as u32) as u64;
        assert(d.take(i + 1 - start).drop_last() =~= d.take(i - start));
        if dv > bound || acc > (bound - dv) / 10 {
            proof {
                assert(acc * 10 + dv > bound) by (nonlinear_arith)
                    requires
                        dv > bound || acc > (bound - dv) / 10,
                        acc <= bound,
                        0 <= dv,
                ;
                assert(all_digits(d.take(i + 1 - start)));
                if all_digits(d) {
                    lemma_decimal_value_grows(d, i + 1 - start);
                }
            }
            return None;
        }
        assert(acc * 10 + dv <= bound) by (nonlinear_arith)
            requires
                acc <= (bound - dv) / 10,
                dv <= bound,
        ;
        acc = acc * 10 + dv;
        i = i + 1;
        assert(all_digits(d.take(i - start)));
    }
    assert(d.take(n - start) =~= d);
    Some(acc)
}

/// `str::parse::<i64>`.
pub fn parse_i64_chars(v: &Vec<char>) -> (r: Option<i64>)
    ensures
        match r {
            Some(x) => parse_i64(v@) == Some(x as int),
            None => parse_i64(v@) is None,
        },
{
    let n = v.len();
    let negative = n > 0 && v[0] == '-';
    let start: usize = if n > 0 && (v[0] == '+' || negative) { 1 } else { 0 };
    assert(v@.skip(start as int) =~= (if start == 1 { v@.drop_first() } else { v@ }));
    if negative {
        match parse_digits(v, start, 9223372036854775808u64) {
            Some(m) => {
                if m == 9223372036854775808u64 {
                    Some(i64::MIN)
                } else {
                    Some(-(m as i64))
                }
            },
            None => None,
        }
    } else {
        match parse_digits(v, start, 9223372036854775807u64) {
            Some(m) => Some(m as i64),
            None => None,
        }
    }
}

/// `str::parse::<i32>`.
pub fn parse_i32_chars(v: &Vec<char>) -> (r: Option<i32>)
    ensures
        match r {
            Some(x) => parse_i32(v@) == Some(x as int),
            None => parse_i32(v@) is None,
        },
{
    let n = v.len();
    let negative = n > 0 && v[0] == '-';
    let start: usize = if n > 0 && (v[0] == '+' || negative) { 1 } else { 0 };
    assert(v@.skip(start as int) =~= (if start == 1 { v@.drop_first() } else { v@ }));
    if negative {
        match parse_digits(v, start, 2147483648u64) {
            Some(m) => {
                if m == 2147483648u64 {
                    Some(i32::MIN)
                } else {
                    Some(-(m as i32))
                }
            },
            None => None,
        }
    } else {
        match parse_digits(v, start, 2147483647u64) {
            Some(m) => Some(m as i32),
            None => None,
        }
    }
}

/// `str::parse::<u32>`.
pub fn parse_u32_chars(v: &Vec<char>) -> (r: Option<u32>)
    ensures
        match r {
            Some(x) => parse_u32(v@) == Some(x as int),
            None => parse_u32(v@) is None,
        },
{
    let n = v.len();
    let start: usize = if n > 0 && v[0] == '+' { 1 } else { 0 };
    assert(v@.skip(start as int) =~= (if start == 1 { v@.drop_first() } else { v@ }));
    match parse_digits(v, start, 4294967295u64) {
        Some(m) => Some(m as u32),
        None => None,
    }
}

} // verus!
