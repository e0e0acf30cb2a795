//! Character-level helpers shared by the rest of the library.
//!
//! Strings are reasoned about through their views, `Seq<char>`.
use vstd::prelude::*;

verus! {

/// What `str::to_lowercase` gives for a string: the Unicode lower-case
/// mapping of every character, which can change the length of the text.
pub uninterp spec fn lowercase(s: Seq<char>) -> Seq<char>;

/// A character with the Unicode `White_Space` property, which is what
/// `char::is_whitespace` tests.
pub open spec fn is_white_space(c: char) -> bool {
    let u = c as u32;
    (0x9 <= u <= 0xd) || u == 0x20 || u == 0x85 || u == 0xa0 || u == 0x1680 || (0x2000 <= u <= 0x200a)
        || u == 0x2028 || u == 0x2029 || u == 0x202f || u == 0x205f || u == 0x3000
}

/// `s` without its leading white space.
pub open spec fn trim_start(s: Seq<char>) -> Seq<char>
    decreases s.len(),
{
    if s.len() > 0 && is_white_space(s[0]) {
        trim_start(s.drop_first())
    } else {
        s
    }
}

/// `s` without its trailing white space.
pub open spec fn trim_end(s: Seq<char>) -> Seq<char>
    decreases s.len(),
{
    if s.len() > 0 && is_white_space(s.last()) {
        trim_end(s.drop_last())
    } else {
        s
    }
}

/// What `str::trim` gives for a string: the text with leading and trailing
/// white space removed.
pub open spec fn trimmed(s: Seq<char>) -> Seq<char> {
    trim_end(trim_start(s))
}

/// `needle` occurs in `hay` as a contiguous run of characters.
pub open spec fn has_infix(hay: Seq<char>, needle: Seq<char>) -> bool {
    exists|i: int|
        0 <= i && i + needle.len() <= hay.len() && #[trigger] hay.subrange(i, i + needle.len())
            == needle
}

/// Calls `str::to_lowercase`; the result is named by `lowercase`.
#[verifier::external_body]
pub(crate) fn to_lower(s: &str) -> (r: String)
    ensures
        r@ == lowercase(s@),
{
    s.to_lowercase()
}

/// Whether `c` is white space.
fn is_space(c: char) -> (r: bool)
    ensures
        r == is_white_space(c),
{
    let u = c as u32;
    (0x9 <= u && u <= 0xd) || u == 0x20 || u == 0x85 || u == 0xa0 || u == 0x1680 || (0x2000 <= u && u <= 0x200a)
        || u == 0x2028 || u == 0x2029 || u == 0x202f || u == 0x205f || u == 0x3000
}

/// Dropping the `k` leading white-space characters of `x`, up to the first
/// that is not, is what `trim_start` does.
pub(crate) proof fn lemma_trim_start_at(x: Seq<char>, k: int)
    requires
        0 <= k <= x.len(),
        forall|i: int| 0 <= i < k ==> is_white_space(#[trigger] x[i]),
        k == x.len() || !is_white_space(x[k]),
    ensures
        trim_start(x) == x.subrange(k, x.len() as int),
    decreases k,
{
    if k == 0 {
        assert(x.subrange(0, x.len() as int) =~= x);
    } else {
        let y = x.drop_first();
        assert forall|i: int| 0 <= i < k - 1 implies is_white_space(#[trigger] y[i]) by {
            assert(y[i] == x[i + 1]);
        }
        if k - 1 < y.len() {
            assert(y[k - 1] == x[k]);
        }
        lemma_trim_start_at(y, k - 1);
        assert(y.subrange(k - 1, y.len() as int) =~= x.subrange(k, x.len() as int));
    }
}

/// Dropping the trailing white space of `y` from position `m` on, down to
/// the last character that is not, is what `trim_end` does.
pub(crate) proof fn lemma_trim_end_at(y: Seq<char>, m: int)
    requires
        0 <= m <= y.len(),
        forall|j: int| m <= j < y.len() ==> is_white_space(#[trigger] y[j]),
        m == 0 || !is_white_space(y[m - 1]),
    ensures
        trim_end(y) == y.subrange(0, m),
    decreases y.len() - m,
{
    if m == y.len() {
        assert(y.subrange(0, m) =~= y);
    } else {
        let z = y.drop_last();
        assert(is_white_space(y[y.len() - 1]));
        assert forall|j: int| m <= j < z.len() implies is_white_space(#[trigger] z[j]) by {
            assert(z[j] == y[j]);
        }
        if m > 0 {
            assert(z[m - 1] == y[m - 1]);
        }
        lemma_trim_end_at(z, m);
        assert(z.subrange(0, m) =~= y.subrange(0, m));
    }
}

/// `trim_start(x)` is a tail of `x`, empty or starting with a character
/// that is not white space.
proof fn lemma_trim_start_shape(x: Seq<char>)
    ensures
        exists|k: int| 0 <= k <= x.len() && trim_start(x) == #[trigger] x.subrange(k, x.len() as int),
        trim_start(x).len() == 0 || !is_white_space(trim_start(x)[0]),
    decreases x.len(),
{
    if x.len() > 0 && is_white_space(x[0]) {
        let y = x.drop_first();
        lemma_trim_start_shape(y);
        let k = choose|k: int| 0 <= k <= y.len() && trim_start(y) == #[trigger] y.subrange(k, y.len() as int);
        assert(y.subrange(k, y.len() as int) =~= x.subrange(k + 1, x.len() as int));
    } else {
        assert(x.subrange(0, x.len() as int) =~= x);
    }
}

/// `trim_end(y)` is a start of `y`, empty or ending with a character that is
/// not white space.
proof fn lemma_trim_end_shape(y: Seq<char>)
    ensures
        exists|m: int| 0 <= m <= y.len() && trim_end(y) == #[trigger] y.subrange(0, m),
        trim_end(y).len() == 0 || !is_white_space(trim_end(y).last()),
    decreases y.len(),
{
    if y.len() > 0 && is_white_space(y.last()) {
        let z = y.drop_last();
        lemma_trim_end_shape(z);
        let m = choose|m: int| 0 <= m <= z.len() && trim_end(z) == #[trigger] z.subrange(0, m);
        assert(z.subrange(0, m) =~= y.subrange(0, m));
    } else {
        assert(y.subrange(0, y.len() as int) =~= y);
    }
}

/// Trimmed text is a run of the text's characters, and trimming it again
/// leaves it as it is.
pub proof fn lemma_trimmed_shape(x: Seq<char>)
    ensures
        exists|a: int, b: int| 0 <= a <= b <= x.len() && trimmed(x) == #[trigger] x.subrange(a, b),
        trimmed(trimmed(x)) == trimmed(x),
{
    lemma_trim_start_shape(x);
    let k = choose|k: int| 0 <= k <= x.len() && trim_start(x) == #[trigger] x.subrange(k, x.len() as int);
    let y = trim_start(x);
    lemma_trim_end_shape(y);
    let m = choose|m: int| 0 <= m <= y.len() && trim_end(y) == #[trigger] y.subrange(0, m);
    let t = trimmed(x);
    assert(t =~= x.subrange(k, k + m));
    if t.len() > 0 {
        assert(t[0] == y[0]);
    }
    lemma_trim_start_at(t, 0);
    assert(t.subrange(0, t.len() as int) =~= t);
    lemma_trim_end_at(t, t.len() as int);
}

/// `s` without its leading and trailing white space, as `str::trim` gives it.
pub(crate) fn trim(s: &str) -> (r: &str)
    ensures
        r@ == trimmed(s@),
{
    let n = s.unicode_len();
    let mut a: usize = 0;
    while a < n && is_space(s.get_char(a))
        invariant
            n == s@.len(),
            a <= n,
            forall|i: int| 0 <= i < a ==> is_white_space(#[trigger] s@[i]),
        decreases n - a,
    {
        a = a + 1;
    }
    let mut b: usize = n;
    while b > a && is_space(s.get_char(b - 1))
        invariant
            n == s@.len(),
            a <= b <= n,
            forall|j: int| b <= j < n ==> is_white_space(#[trigger] s@[j]),
        decreases b,
    {
        b = b - 1;
    }
    proof {
        lemma_trim_start_at(s@, a as int);
        let y = s@.subrange(a as int, n as int);
        let m = b - a;
        assert forall|j: int| m <= j < y.len() implies is_white_space(#[trigger] y[j]) by {
            assert(y[j] == s@[a + j]);
        }
        if m > 0 {
            assert(y[m - 1] == s@[b - 1]);
        }
        lemma_trim_end_at(y, m as int);
        assert(y.subrange(0, m as int) =~= s@.subrange(a as int, b as int));
    }
    s.substring_char(a, b)
}

/// Calls `String::push`, which appends one character.
#[verifier::external_body]
pub(crate) fn push_char(s: &mut String, c: char)
    ensures
        final(s)@ == old(s)@.push(c),
{
    s.push(c)
}

/// The characters of `s` in order.
pub fn chars_of(s: &str) -> (v: Vec<char>)
    ensures
        v@ == s@,
{
    let n = s.unicode_len();
    let mut v: Vec<char> = Vec::new();
    let mut i: usize = 0;
    while i < n
        invariant
            n == s@.len(),
            i <= n,
            v@ == s@.subrange(0, i as int),
        decreases n - i,
    {
        let c = s.get_char(i);
        v.push(c);
        i = i + 1;
        assert(v@ =~= s@.subrange(0, i as int));
    }
    assert(v@ =~= s@);
    v
}

/// A `String` holding exactly the characters of `v`.
pub fn string_of(v: &[char]) -> (s: String)
    ensures
        s@ == v@,
{
    let mut s = String::new();
    let mut i: usize = 0;
    while i < v.len()
        invariant
            i <= v@.len(),
            s@ == v@.subrange(0, i as int),
        decreases v@.len() - i,
    {
        push_char(&mut s, v[i]);
        i = i + 1;
        assert(s@ =~= v@.subrange(0, i as int));
    }
    assert(s@ =~= v@);
    s
}

/// A copy of `s` as an owned `String`.
pub fn owned(s: &str) -> (r: String)
    ensures
        r@ == s@,
{
    String::from_str(s)
}

/// The concatenation of `a` and `b`.
pub fn join2(a: &str, b: &str) -> (r: String)
    ensures
        r@ == a@ + b@,
{
    let mut r = String::from_str(a);
    r.append(b);
    r
}

/// The concatenation of `a`, `b` and `c`.
pub fn join3(a: &str, b: &str, c: &str) -> (r: String)
    ensures
        r@ == a@ + b@ + c@,
{
    let mut r = String::from_str(a);
    r.append(b);
    r.append(c);
    r
}

/// Character sequences compared element by element.
pub fn chars_equal(a: &[char], b: &[char]) -> (r: bool)
    ensures
        r == (a@ == b@),
{
    if a.len() != b.len() {
        return false;
    }
    let mut i: usize = 0;
    while i < a.len()
        invariant
            a@.len() == b@.len(),
            i <= a@.len(),
            forall|j: int| 0 <= j < i ==> a@[j] == b@[j],
        decreases a@.len() - i,
    {
        if a[i] != b[i] {
            return false;
        }
        i = i + 1;
    }
    assert(a@ =~= b@);
    true
}

/// Two strings hold the same characters.
pub fn str_eq(a: &str, b: &str) -> (r: bool)
    ensures
        r == (a@ == b@),
{
    let av = chars_of(a);
    let bv = chars_of(b);
    chars_equal(av.as_slice(), bv.as_slice())
}

/// `needle` matches `hay` starting at character `at`.
fn matches_at(hay: &[char], needle: &[char], at: usize) -> (r: bool)
    requires
        at + needle@.len() <= hay@.len(),
    ensures
        r == (hay@.subrange(at as int, at + needle@.len()) == needle@),
{
    let _hl = hay.len();
    let mut j: usize = 0;
    while j < needle.len()
        invariant
            at + needle@.len() <= hay@.len(),
            hay@.len() <= usize::MAX,
            j <= needle@.len(),
            forall|k: int| 0 <= k < j ==> hay@[at + k] == needle@[k],
        decreases needle@.len() - j,
    {
        if hay[at + j] != needle[j] {
            assert(hay@.subrange(at as int, at + needle@.len())[j as int] != needle@[j as int]);
            return false;
        }
        j = j + 1;
    }
    assert(hay@.subrange(at as int, at + needle@.len()) =~= needle@);
    true
}

/// Whether `needle` occurs in `hay`, as `str::contains` with a string pattern.
pub fn chars_contain(hay: &[char], needle: &[char]) -> (r: bool)
    ensures
        r == has_infix(hay@, needle@),
{
    if needle.len() == 0 {
        assert(hay@.subrange(0, 0 + needle@.len() as int) =~= needle@);
        return true;
    }
    if needle.len() > hay.len() {
        return false;
    }
    let last = hay.len() - needle.len();
    let mut i: usize = 0;
    while i <= last
        invariant
            last + needle@.len() == hay@.len(),
            needle@.len() > 0,
            hay@.len() <= usize::MAX,
            i <= last + 1,
            forall|k: int|
                0 <= k < i ==> #[trigger] hay@.subrange(k, k + needle@.len()) != needle@,
        decreases last + 1 - i,
    {
        if matches_at(hay, needle, i) {
            return true;
        }
        i = i + 1;
    }
    false
}

/// Whether the text of `needle` occurs in the text of `hay`.
pub fn str_contains(hay: &str, needle: &str) -> (r: bool)
    ensures
        r == has_infix(hay@, needle@),
{
    let h = chars_of(hay);
    let n = chars_of(needle);
    chars_contain(h.as_slice(), n.as_slice())
}


/// Filtering one more element of `s` appends it exactly when it passes.
pub proof fn lemma_filter_step<A>(s: Seq<A>, i: int, pred: spec_fn(A) -> bool)
    requires
        0 <= i < s.len(),
    ensures
        s.subrange(0, i + 1).filter(pred) == if pred(s[i]) {
            s.subrange(0, i).filter(pred).push(s[i])
        } else {
            s.subrange(0, i).filter(pred)
        },
{
    reveal_with_fuel(Seq::<_>::filter, 1);
    assert(s.subrange(0, i + 1).drop_last() =~= s.subrange(0, i));
    assert(s.subrange(0, i + 1).last() == s[i]);
}


/// The ASCII digit for `d`, which is below ten.
pub open spec fn digit_char(d: nat) -> char {
    if d == 0 { '0' }
    else if d == 1 { '1' }
    else if d == 2 { '2' }
    else if d == 3 { '3' }
    else if d == 4 { '4' }
    else if d == 5 { '5' }
    else if d == 6 { '6' }
    else if d == 7 { '7' }
    else if d == 8 { '8' }
    else { '9' }
}

/// The decimal numeral of `n`, as `to_string` writes an unsigned integer.
pub open spec fn decimal(n: nat) -> Seq<char>
    decreases n,
{
    if n < 10 {
        seq![digit_char(n)]
    } else {
        decimal(n / 10).push(digit_char(n % 10))
    }
}

fn digit(d: u64) -> (c: char)
    requires
        d < 10,
    ensures
        c == digit_char(d as nat),
{
    if d == 0 { '0' }
    else if d == 1 { '1' }
    else if d == 2 { '2' }
    else if d == 3 { '3' }
    else if d == 4 { '4' }
    else if d == 5 { '5' }
    else if d == 6 { '6' }
    else if d == 7 { '7' }
    else if d == 8 { '8' }
    else { '9' }
}

/// The decimal numeral of `n`.
pub fn decimal_string(n: u64) -> (s: String)
    ensures
        s@ == decimal(n as nat),
    decreases n,
{
    if n < 10 {
        let mut s = String::new();
        push_char(&mut s, digit(n));
        assert(s@ =~= seq![digit_char(n as nat)]);
        s
    } else {
        let mut s = decimal_string(n / 10);
        push_char(&mut s, digit(n % 10));
        s
    }
}

/// The decimal numeral of `n`, with a minus sign when it is negative.
pub open spec fn signed_decimal(n: int) -> Seq<char> {
    if n < 0 {
        "-"@ + decimal((-n) as nat)
    } else {
        decimal(n as nat)
    }
}

/// The decimal numeral of `n`, as `to_string` writes a signed integer.
pub fn signed_decimal_string(n: i64) -> (s: String)
    ensures
        s@ == signed_decimal(n as int),
{
    if n < 0 {
        let m: u64 = ((-(n + 1)) as u64) + 1;
        let mut s = String::from_str("-");
        s.append(decimal_string(m).as_str());
        s
    } else {
        decimal_string(n as u64)
    }
}

} // verus!
