//! Text helpers. A string is modelled by the sequence of its characters.

use vstd::prelude::*;

verus! {

/// `needle` occurs in `text` at index `i`.
pub open spec fn occurs_at(text: Seq<char>, needle: Seq<char>, i: int) -> bool {
    &&& 0 <= i
    &&& i + needle.len() <= text.len()
    &&& text.subrange(i, i + needle.len()) == needle
}

/// `needle` occurs somewhere in `text`.
pub open spec fn has(text: Seq<char>, needle: Seq<char>) -> bool {
    exists|i: int| #[trigger] occurs_at(text, needle, i)
}

/// `text` begins with `prefix`.
pub open spec fn begins(text: Seq<char>, prefix: Seq<char>) -> bool {
    occurs_at(text, prefix, 0)
}

/// `text` ends with `suffix`.
pub open spec fn ends(text: Seq<char>, suffix: Seq<char>) -> bool {
    occurs_at(text, suffix, text.len() - suffix.len())
}

/// `a` comes strictly before `b` in the lexicographic order of their characters.
pub open spec fn before(a: Seq<char>, b: Seq<char>) -> bool
    decreases a.len(),
{
    if b.len() == 0 {
        false
    } else if a.len() == 0 {
        true
    } else if a[0] != b[0] {
        a[0] < b[0]
    } else {
        before(a.drop_first(), b.drop_first())
    }
}

/// The decimal digit `d` as a character.
pub open spec fn digit(d: int) -> char {
    (('0' as int) + d) as char
}

/// The decimal notation of `n`, without leading zeros.
pub open spec fn dec(n: nat) -> Seq<char>
    decreases n,
{
    if n < 10 {
        seq![digit(n as int)]
    } else {
        dec(n / 10).push(digit((n % 10) as int))
    }
}

/// The characters of `s`.
pub fn chars_of(s: &str) -> (r: Vec<char>)
    ensures
        r@ == s@,
{
    let mut out: Vec<char> = Vec::new();
    for c in it: s.chars()
        invariant
            out@ == it.seq().take(it.index() as int),
            it.seq() == s@,
    {
        out.push(c);
    }
    out
}

/// `std::string::String::push` appends one character.
pub assume_specification[ std::string::String::push ](s: &mut String, c: char)
    ensures
        final(s)@ == old(s)@.push(c),
;

/// The text of `chars[from..to]`.
pub fn text_of(chars: &Vec<char>, from: usize, to: usize) -> (r: String)
    requires
        from <= to <= chars@.len(),
    ensures
        r@ == chars@.subrange(from as int, to as int),
{
    let mut out: String = String::new();
    let mut i: usize = from;
    while i < to
        invariant
            from <= i <= to <= chars@.len(),
            out@ == chars@.subrange(from as int, i as int),
        decreases to - i,
    {
        out.push(chars[i]);
        i += 1;
    }
    out
}

/// Whether two strings hold the same characters.
pub fn same(a: &str, b: &str) -> (r: bool)
    ensures
        r == (a@ == b@),
{
    a.to_owned() == b.to_owned()
}

/// `a` followed by `b`.
pub fn cat(a: &str, b: &str) -> (r: String)
    ensures
        r@ == a@ + b@,
{
    let mut out: String = a.to_owned();
    out.append(b);
    out
}

/// `a`, `b` and `c`, one after the other.
pub fn cat3(a: &str, b: &str, c: &str) -> (r: String)
    ensures
        r@ == a@ + b@ + c@,
{
    let mut out: String = cat(a, b);
    out.append(c);
    out
}

/// Whether `needle` stands in `text` at index `i`.
fn matches_at(text: &Vec<char>, needle: &Vec<char>, i: usize) -> (r: bool)
    requires
        i + needle@.len() <= text@.len(),
    ensures
        r == occurs_at(text@, needle@, i as int),
{
    let mut j: usize = 0;
    while j < needle.len()
        invariant
            j <= needle@.len(),
            i + needle@.len() <= text@.len() == text.len(),
            text@.subrange(i as int, i + j) == needle@.take(j as int),
        decreases needle@.len() - j,
    {
        if text[i + j] != needle[j] {
            assert(text@.subrange(i as int, i + needle@.len())[j as int] != needle@[j as int]);
            return false;
        }
        assert(text@.subrange(i as int, i + j + 1) == needle@.take(j + 1));
        j += 1;
    }
    assert(needle@.take(j as int) == needle@);
    true
}

/// Whether `needle` occurs in `text`.
pub fn contains(text: &str, needle: &str) -> (r: bool)
    ensures
        r == has(text@, needle@),
{
    let t: Vec<char> = chars_of(text);
    let n: Vec<char> = chars_of(needle);
    if n.len() > t.len() {
        return false;
    }
    let last: usize = t.len() - n.len();
    let mut i: usize = 0;
    while i <= last
        invariant
            i <= last + 1,
            last + n@.len() == t@.len(),
            t@ == text@,
            n@ == needle@,
            forall|k: int| 0 <= k < i ==> !#[trigger] occurs_at(t@, n@, k),
        decreases last + 1 - i,
    {
        if matches_at(&t, &n, i) {
            return true;
        }
        if i == last {
            return false;
        }
        i += 1;
    }
    false
}

/// Whether `text` begins with `prefix`.
pub fn starts_with(text: &str, prefix: &str) -> (r: bool)
    ensures
        r == begins(text@, prefix@),
{
    let t: Vec<char> = chars_of(text);
    let p: Vec<char> = chars_of(prefix);
    p.len() <= t.len() && matches_at(&t, &p, 0)
}

/// Whether `text` ends with `suffix`.
pub fn ends_with(text: &str, suffix: &str) -> (r: bool)
    ensures
        r == ends(text@, suffix@),
{
    let t: Vec<char> = chars_of(text);
    let s: Vec<char> = chars_of(suffix);
    s.len() <= t.len() && matches_at(&t, &s, t.len() - s.len())
}

/// What is left of `text` after `prefix`, where `text` begins with it.
pub fn after_prefix(text: &str, prefix: &str) -> (r: Option<String>)
    ensures
        r is Some == begins(text@, prefix@),
        r matches Some(rest) ==> text@ == prefix@ + rest@,
{
    let t: Vec<char> = chars_of(text);
    let p: Vec<char> = chars_of(prefix);
    if p.len() <= t.len() && matches_at(&t, &p, 0) {
        let rest: String = text_of(&t, p.len(), t.len());
        assert(text@ == prefix@ + rest@);
        Some(rest)
    } else {
        None
    }
}

/// Whether `a` comes strictly before `b` in the order of their characters.
pub fn precedes(a: &str, b: &str) -> (r: bool)
    ensures
        r == before(a@, b@),
{
    let x: Vec<char> = chars_of(a);
    let y: Vec<char> = chars_of(b);
    let mut i: usize = 0;
    assert(x@.skip(0) == x@ && y@.skip(0) == y@);
    while i < x.len() && i < y.len()
        invariant
            i <= x@.len(),
            i <= y@.len(),
            x@ == a@,
            y@ == b@,
            before(a@, b@) == before(x@.skip(i as int), y@.skip(i as int)),
        decreases x@.len() - i,
    {
        if x[i] != y[i] {
            return x[i] < y[i];
        }
        assert(x@.skip(i as int).drop_first() == x@.skip(i + 1));
        assert(y@.skip(i as int).drop_first() == y@.skip(i + 1));
        i += 1;
    }
    i < y.len()
}

/// The decimal digit `d`.
fn digit_char(d: u64) -> (c: char)
    requires
        d < 10,
    ensures
        c == digit(d as int),
{
    (48u8 + (d as u8)) as char
}

/// The decimal notation of `n`.
pub fn decimal(n: u64) -> (r: String)
    ensures
        r@ == dec(n as nat),
    decreases n,
{
    if n < 10 {
        let mut out: String = String::new();
        out.push(digit_char(n));
        assert(out@ == seq![digit(n as int)]);
        out
    } else {
        let mut out: String = decimal(n / 10);
        out.push(digit_char(n % 10));
        out
    }
}

/// The lowercase form of a text.
pub uninterp spec fn lowercase(s: Seq<char>) -> Seq<char>;

/// `c` with an ASCII capital replaced by its small letter.
pub open spec fn ascii_small(c: char) -> char {
    if 'A' <= c <= 'Z' {
        ((c as int) + 32) as char
    } else {
        c
    }
}

/// `str::to_lowercase`. Of a text of ASCII characters alone it lowers the
/// letters A to Z and keeps the rest.
#[verifier::external_body]
pub(crate) fn lower(s: &str) -> (r: String)
    ensures
        r@ == lowercase(s@),
        vstd::utf8::is_ascii_chars(s@) ==> r@ == s@.map_values(|c: char| ascii_small(c)),
{
    s.to_lowercase()
}

// ---------------------------------------------------------------------------
// Laws
// ---------------------------------------------------------------------------

/// `t` is `x`, `n` and `y`, one after the other.
pub open spec fn is_cut(t: Seq<char>, x: Seq<char>, n: Seq<char>, y: Seq<char>) -> bool {
    t == x + n + y
}

/// A text has another in it exactly where it can be cut into something, that
/// text, and something.
pub proof fn lemma_has_means_cut(t: Seq<char>, n: Seq<char>)
    ensures
        has(t, n) <==> exists|x: Seq<char>, y: Seq<char>| is_cut(t, x, n, y),
{
    if has(t, n) {
        let i = choose|i: int| occurs_at(t, n, i);
        assert(t == t.take(i) + t.subrange(i, i + n.len()) + t.skip(i + n.len()));
        assert(is_cut(t, t.take(i), n, t.skip(i + n.len())));
    }
    if exists|x: Seq<char>, y: Seq<char>| is_cut(t, x, n, y) {
        let (x, y) = choose|x: Seq<char>, y: Seq<char>| is_cut(t, x, n, y);
        assert(t.subrange(x.len() as int, (x.len() + n.len()) as int) == n);
        assert(occurs_at(t, n, x.len() as int));
    }
}

/// A text begins with another exactly where it is that text and something.
pub proof fn lemma_begins_means_cut(t: Seq<char>, n: Seq<char>)
    ensures
        begins(t, n) <==> exists|y: Seq<char>| t == #[trigger] (n + y),
{
    if begins(t, n) {
        assert(t == t.subrange(0, n.len() as int) + t.skip(n.len() as int));
        assert(t == n + t.skip(n.len() as int));
    }
    if exists|y: Seq<char>| t == #[trigger] (n + y) {
        let y = choose|y: Seq<char>| t == #[trigger] (n + y);
        assert(t.subrange(0, n.len() as int) == n);
    }
}

/// A text ends with another exactly where it is something and that text.
pub proof fn lemma_ends_means_cut(t: Seq<char>, n: Seq<char>)
    ensures
        ends(t, n) <==> exists|x: Seq<char>| t == #[trigger] (x + n),
{
    if ends(t, n) {
        let k = t.len() - n.len();
        assert(t == t.take(k) + t.subrange(k, t.len() as int));
        assert(t == t.take(k) + n);
    }
    if exists|x: Seq<char>| t == #[trigger] (x + n) {
        let x = choose|x: Seq<char>| t == #[trigger] (x + n);
        assert(t.subrange(t.len() - n.len(), t.len() as int) == n);
    }
}

/// The first place at which two texts differ decides which comes first: the one
/// with the lower character there, or the one that has ended.
pub proof fn lemma_first_difference_decides(a: Seq<char>, b: Seq<char>, k: int)
    requires
        0 <= k <= a.len(),
        k <= b.len(),
        a.take(k) == b.take(k),
    ensures
        k < a.len() && k < b.len() && (a[k] as int) < (b[k] as int) ==> before(a, b),
        k < a.len() && k < b.len() && (a[k] as int) > (b[k] as int) ==> !before(a, b),
        k == a.len() && k < b.len() ==> before(a, b),
        k == b.len() ==> !before(a, b),
    decreases k,
{
    if k > 0 {
        assert(a[0] == a.take(k)[0] && b[0] == b.take(k)[0]);
        let (c, d) = (a.drop_first(), b.drop_first());
        assert(c.take(k - 1) == a.take(k).drop_first());
        assert(d.take(k - 1) == b.take(k).drop_first());
        lemma_first_difference_decides(c, d, k - 1);
    }
}

/// The number that decimal digits stand for.
pub open spec fn value(s: Seq<char>) -> int
    decreases s.len(),
{
    if s.len() == 0 {
        0
    } else {
        10 * value(s.drop_last()) + (s.last() as int - 48)
    }
}

/// The decimal notation of a number is made of digits, does not begin with a zero
/// (but for zero itself), and stands for that number.
pub proof fn lemma_decimal_stands_for_number(n: nat)
    ensures
        dec(n).len() > 0,
        forall|i: int| 0 <= i < dec(n).len() ==> 48 <= #[trigger] dec(n)[i] as int <= 57,
        n > 0 ==> dec(n)[0] as int != 48,
        value(dec(n)) == n,
    decreases n,
{
    if n < 10 {
        assert(dec(n).drop_last() == Seq::<char>::empty());
        assert(dec(n).last() as int == 48 + n);
        assert(value(dec(n).drop_last()) == 0);
    } else {
        lemma_decimal_stands_for_number(n / 10);
        let head = dec(n / 10);
        assert(dec(n).drop_last() == head);
        assert(dec(n).last() as int == 48 + n % 10);
        assert(dec(n)[0] == head[0]);
        assert forall|i: int| 0 <= i < dec(n).len() implies 48 <= #[trigger] dec(n)[i] as int <= 57 by {
            if i < head.len() {
                assert(dec(n)[i] == head[i]);
            }
        }
    }
}

/// Different numbers have different notations.
pub proof fn lemma_decimal_is_unique(m: nat, n: nat)
    requires
        dec(m) == dec(n),
    ensures
        m == n,
{
    lemma_decimal_stands_for_number(m);
    lemma_decimal_stands_for_number(n);
}

/// The 26 ASCII capitals become the small letters 32 places behind them; every
/// other character stays.
pub proof fn lemma_small_letters(c: char)
    ensures
        65 <= c as int <= 90 ==> ascii_small(c) as int == c as int + 32,
        (c as int) < 65 || c as int > 90 ==> ascii_small(c) == c,
{
}

} // verus!
