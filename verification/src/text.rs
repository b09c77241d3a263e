//! Character-level text handling: the line, whitespace and prefix rules of
//! Rust's `str` methods, stated over `Seq<char>` and implemented over a
//! `Vec<char>` with index ranges.
use vstd::prelude::*;
use vstd::std_specs::iter::IteratorSpec;

verus! {

/// Rust's `char::is_whitespace`: the Unicode `White_Space` property.
pub open spec fn is_whitespace(c: char) -> bool {
    let u = c as u32;
    ||| 0x09 <= u <= 0x0D
    ||| u == 0x20
    ||| u == 0x85
    ||| u == 0xA0
    ||| u == 0x1680
    ||| 0x2000 <= u <= 0x200A
    ||| u == 0x2028
    ||| u == 0x2029
    ||| u == 0x202F
    ||| u == 0x205F
    ||| u == 0x3000
}

pub fn is_whitespace_char(c: char) -> (b: bool)
    ensures
        b == is_whitespace(c),
{
    let u = c as u32;
    (0x09 <= u && u <= 0x0D) || u == 0x20 || u == 0x85 || u == 0xA0 || u == 0x1680 || (0x2000
        <= u && u <= 0x200A) || u == 0x2028 || u == 0x2029 || u == 0x202F || u == 0x205F || u
        == 0x3000
}

/// Index of the first element of `s` that satisfies `p`, or `s.len()`.
pub open spec fn first_index<A>(s: Seq<A>, p: spec_fn(A) -> bool) -> int
    decreases s.len(),
{
    if s.len() == 0 {
        0
    } else if p(s[0]) {
        0
    } else {
        1 + first_index(s.drop_first(), p)
    }
}

pub proof fn lemma_first_index<A>(s: Seq<A>, p: spec_fn(A) -> bool)
    ensures
        0 <= first_index(s, p) <= s.len(),
        forall|j: int| 0 <= j < first_index(s, p) ==> !p(#[trigger] s[j]),
        first_index(s, p) < s.len() ==> p(s[first_index(s, p)]),
    decreases s.len(),
{
    if s.len() > 0 && !p(s[0]) {
        lemma_first_index(s.drop_first(), p);
        assert forall|j: int| 0 <= j < first_index(s, p) implies !p(#[trigger] s[j]) by {
            if j > 0 {
                assert(s[j] == s.drop_first()[j - 1]);
            }
        }
    }
}

pub proof fn lemma_first_index_is<A>(s: Seq<A>, p: spec_fn(A) -> bool, k: int)
    requires
        0 <= k <= s.len(),
        forall|j: int| 0 <= j < k ==> !p(#[trigger] s[j]),
        k < s.len() ==> p(s[k]),
    ensures
        first_index(s, p) == k,
    decreases s.len(),
{
    if s.len() > 0 && k > 0 {
        assert(!p(s[0]));
        assert forall|j: int| 0 <= j < k - 1 implies !p(#[trigger] s.drop_first()[j]) by {
            assert(s.drop_first()[j] == s[j + 1]);
        }
        lemma_first_index_is(s.drop_first(), p, k - 1);
    }
}

pub open spec fn is_newline(c: char) -> bool {
    c == '\n'
}

/// Removes one trailing `'\r'`, as `str::lines` does for a line that ended in `'\n'`.
pub open spec fn strip_cr(l: Seq<char>) -> Seq<char> {
    if l.len() > 0 && l.last() == '\r' {
        l.drop_last()
    } else {
        l
    }
}

/// Rust's `str::lines`: the text split at each `'\n'`, a `'\r'` before the
/// `'\n'` removed, and no empty line after a final `'\n'`.
pub open spec fn lines(s: Seq<char>) -> Seq<Seq<char>>
    decreases s.len(),
{
    if s.len() == 0 {
        Seq::empty()
    } else {
        let k = first_index(s, |c: char| is_newline(c));
        if k >= s.len() {
            seq![s]
        } else {
            proof {
                lemma_first_index(s, |c: char| is_newline(c));
            }
            seq![strip_cr(s.take(k))] + lines(s.skip(k + 1))
        }
    }
}

/// Leading whitespace removed.
pub open spec fn trim_start(s: Seq<char>) -> Seq<char> {
    s.skip(first_index(s, |c: char| !is_whitespace(c)))
}

/// Number of characters left once trailing whitespace is removed.
pub open spec fn trimmed_end_len(s: Seq<char>) -> int
    decreases s.len(),
{
    if s.len() > 0 && is_whitespace(s.last()) {
        trimmed_end_len(s.drop_last())
    } else {
        s.len() as int
    }
}

/// Trailing whitespace removed.
pub open spec fn trim_end(s: Seq<char>) -> Seq<char> {
    s.take(trimmed_end_len(s))
}

/// Rust's `str::trim`.
pub open spec fn trim(s: Seq<char>) -> Seq<char> {
    trim_end(trim_start(s))
}

/// Rust's `str::starts_with` for a string pattern.
pub open spec fn starts_with(s: Seq<char>, p: Seq<char>) -> bool {
    p.len() <= s.len() && s.take(p.len() as int) == p
}

/// Rust's `str::split_whitespace`: the maximal runs of non-whitespace.
pub open spec fn words(s: Seq<char>) -> Seq<Seq<char>>
    decreases s.len(),
{
    let a = first_index(s, |c: char| !is_whitespace(c));
    if a >= s.len() {
        Seq::empty()
    } else {
        let rest = s.skip(a);
        let b = first_index(rest, |c: char| is_whitespace(c));
        proof {
            lemma_first_index(s, |c: char| !is_whitespace(c));
            lemma_first_index(rest, |c: char| is_whitespace(c));
        }
        seq![rest.take(b)] + words(rest.skip(b))
    }
}

pub proof fn lemma_trimmed_end_len_is(s: Seq<char>, k: int)
    requires
        0 <= k <= s.len(),
        forall|j: int| k <= j < s.len() ==> is_whitespace(#[trigger] s[j]),
        k > 0 ==> !is_whitespace(s[k - 1]),
    ensures
        trimmed_end_len(s) == k,
    decreases s.len(),
{
    if s.len() > k {
        assert(is_whitespace(s[s.len() - 1]));
        assert forall|j: int| k <= j < s.drop_last().len() implies is_whitespace(
            #[trigger] s.drop_last()[j],
        ) by {
            assert(s.drop_last()[j] == s[j]);
        }
        if k > 0 {
            assert(s.drop_last()[k - 1] == s[k - 1]);
        }
        lemma_trimmed_end_len_is(s.drop_last(), k);
    } else if s.len() > 0 {
        assert(s.last() == s[k - 1]);
    }
}

/// The characters of a string slice, in order.
pub fn chars_of(s: &str) -> (res: Vec<char>)
    ensures
        res@ == s@,
{
    let mut res: Vec<char> = Vec::new();
    let mut it = s.chars();
    proof {
        broadcast use vstd::string::group_string_axioms;

    }
    loop
        invariant
            res@ + it.remaining() == s@,
            it.obeys_prophetic_iter_laws(),
            it.decrease() is Some,
        decreases it.decrease()->0,
    {
        broadcast use vstd::string::group_string_axioms;

        match it.next() {
            Some(c) => {
                res.push(c);
            },
            None => {
                return res;
            },
        }
    }
}

/// Builds a `String` from a run of characters (std's `FromIterator<&char>` for `String`).
#[verifier::external_body]
pub(crate) fn string_from_chars(cs: &[char]) -> (res: String)
    ensures
        res@ == cs@,
{
    String::from_iter(cs)
}

/// Copies `cs[from..to]` into a new vector.
pub fn sub_chars(cs: &Vec<char>, from: usize, to: usize) -> (res: Vec<char>)
    requires
        from <= to <= cs.len(),
    ensures
        res@ == cs@.subrange(from as int, to as int),
{
    let mut res: Vec<char> = Vec::new();
    let mut i = from;
    while i < to
        invariant
            from <= i <= to <= cs.len(),
            res@ == cs@.subrange(from as int, i as int),
        decreases to - i,
    {
        res.push(cs[i]);
        i = i + 1;
        assert(res@ =~= cs@.subrange(from as int, i as int));
    }
    res
}

/// The string `cs[from..to]`.
pub fn string_of_range(cs: &Vec<char>, from: usize, to: usize) -> (res: String)
    requires
        from <= to <= cs.len(),
    ensures
        res@ == cs@.subrange(from as int, to as int),
{
    let v = sub_chars(cs, from, to);
    string_from_chars(v.as_slice())
}

/// First index in `from..to` holding `'\n'`, or `to`.
fn find_newline(cs: &Vec<char>, from: usize, to: usize) -> (k: usize)
    requires
        from <= to <= cs.len(),
    ensures
        from <= k <= to,
        k - from == first_index(cs@.subrange(from as int, to as int), |c: char| is_newline(c)),
{
    let mut k = from;
    while k < to && cs[k] != '\n'
        invariant
            from <= k <= to <= cs.len(),
            forall|j: int| from <= j < k ==> cs@[j] != '\n',
        decreases to - k,
    {
        k = k + 1;
    }
    proof {
        let t = cs@.subrange(from as int, to as int);
        assert forall|j: int| 0 <= j < k - from implies !is_newline(#[trigger] t[j]) by {
            assert(t[j] == cs@[from + j]);
        }
        lemma_first_index_is(t, |c: char| is_newline(c), k - from);
    }
    k
}

/// The lines of `cs`, as index ranges: `cs[r.0..r.1]` is the `i`-th line of `lines(cs@)`.
pub fn line_ranges(cs: &Vec<char>) -> (res: Vec<(usize, usize)>)
    ensures
        res.len() == lines(cs@).len(),
        forall|i: int|
            0 <= i < res.len() ==> (#[trigger] res[i]).0 <= res[i].1 <= cs.len() && cs@.subrange(
                res[i].0 as int,
                res[i].1 as int,
            ) == lines(cs@)[i],
{
    let n = cs.len();
    let mut res: Vec<(usize, usize)> = Vec::new();
    let mut pos: usize = 0;
    assert(cs@.subrange(0, n as int) =~= cs@);
    while pos < n
        invariant
            n == cs.len(),
            pos <= n,
            lines(cs@) == Seq::new(res.len() as nat, |i: int| cs@.subrange(res[i].0 as int, res[i].1 as int)) + lines(cs@.subrange(pos as int, n as int)),
            forall|i: int| 0 <= i < res.len() ==> (#[trigger] res[i]).0 <= res[i].1 <= n,
        decreases n - pos,
    {
        let ghost t = cs@.subrange(pos as int, n as int);
        let ghost done = Seq::new(res.len() as nat, |i: int| cs@.subrange(res[i].0 as int, res[i].1 as int));
        let k = find_newline(cs, pos, n);
        if k == n {
            res.push((pos, n));
            pos = n;
            proof {
                assert(lines(t) == seq![t]);
                assert(cs@.subrange(n as int, n as int).len() == 0);
                assert(Seq::new(res.len() as nat, |i: int| cs@.subrange(res[i].0 as int, res[i].1 as int)) =~= done.push(t));
                assert(lines(cs@) =~= done + seq![t]);
            }
        } else {
            let end = if k > pos && cs[k - 1] == '\r' {
                k - 1
            } else {
                k
            };
            res.push((pos, end));
            proof {
                assert(t.skip(k - pos + 1) =~= cs@.subrange(k + 1, n as int));
                assert(strip_cr(t.take(k - pos)) =~= cs@.subrange(pos as int, end as int));
                assert(lines(t) == seq![strip_cr(t.take(k - pos))] + lines(t.skip(k - pos + 1)));
                assert(Seq::new(res.len() as nat, |i: int| cs@.subrange(res[i].0 as int, res[i].1 as int)) =~= done.push(cs@.subrange(pos as int, end as int)));
                assert(lines(cs@) =~= Seq::new(res.len() as nat, |i: int| cs@.subrange(res[i].0 as int, res[i].1 as int)) + lines(cs@.subrange(k + 1, n as int)));
            }
            pos = k + 1;
        }
    }
    proof {
        assert(cs@.subrange(n as int, n as int).len() == 0);
        assert(lines(cs@) =~= Seq::new(res.len() as nat, |i: int| cs@.subrange(res[i].0 as int, res[i].1 as int)));
    }
    res
}


/// The trimmed part of `cs[lo..hi]`, as an index range.
pub fn trim_range(cs: &Vec<char>, lo: usize, hi: usize) -> (r: (usize, usize))
    requires
        lo <= hi <= cs.len(),
    ensures
        lo <= r.0 <= r.1 <= hi,
        cs@.subrange(r.0 as int, r.1 as int) == trim(cs@.subrange(lo as int, hi as int)),
{
    let mut a = lo;
    while a < hi && is_whitespace_char(cs[a])
        invariant
            lo <= a <= hi <= cs.len(),
            forall|j: int| lo <= j < a ==> is_whitespace(#[trigger] cs@[j]),
        decreases hi - a,
    {
        a = a + 1;
    }
    let mut b = hi;
    while b > a && is_whitespace_char(cs[b - 1])
        invariant
            lo <= a <= b <= hi <= cs.len(),
            forall|j: int| b <= j < hi ==> is_whitespace(#[trigger] cs@[j]),
        decreases b - a,
    {
        b = b - 1;
    }
    proof {
        let t = cs@.subrange(lo as int, hi as int);
        assert forall|j: int| 0 <= j < a - lo implies !(|c: char| !is_whitespace(c))(#[trigger] t[j]) by {
            assert(t[j] == cs@[lo + j]);
        }
        if a < hi {
            assert(t[a - lo] == cs@[a as int]);
        }
        lemma_first_index_is(t, |c: char| !is_whitespace(c), a - lo);
        let u = t.skip(a - lo);
        assert(u =~= cs@.subrange(a as int, hi as int));
        assert forall|j: int| b - a <= j < u.len() implies is_whitespace(#[trigger] u[j]) by {
            assert(u[j] == cs@[a + j]);
        }
        if b > a {
            assert(u[b - a - 1] == cs@[b - 1]);
        }
        lemma_trimmed_end_len_is(u, b - a);
        assert(trim(t) =~= cs@.subrange(a as int, b as int));
    }
    (a, b)
}

/// The whitespace-separated words of `cs[lo..hi]`, as index ranges.
pub fn word_ranges(cs: &Vec<char>, lo: usize, hi: usize) -> (res: Vec<(usize, usize)>)
    requires
        lo <= hi <= cs.len(),
    ensures
        res.len() == words(cs@.subrange(lo as int, hi as int)).len(),
        forall|i: int|
            0 <= i < res.len() ==> lo <= (#[trigger] res[i]).0 <= res[i].1 <= hi && cs@.subrange(
                res[i].0 as int,
                res[i].1 as int,
            ) == words(cs@.subrange(lo as int, hi as int))[i],
{
    let mut res: Vec<(usize, usize)> = Vec::new();
    let mut pos = lo;
    loop
        invariant
            lo <= pos <= hi <= cs.len(),
            words(cs@.subrange(lo as int, hi as int)) == Seq::new(
                res.len() as nat,
                |i: int| cs@.subrange(res[i].0 as int, res[i].1 as int),
            ) + words(cs@.subrange(pos as int, hi as int)),
            forall|i: int| 0 <= i < res.len() ==> lo <= (#[trigger] res[i]).0 <= res[i].1 <= hi,
        decreases hi - pos,
    {
        let ghost t = cs@.subrange(pos as int, hi as int);
        let ghost done = Seq::new(
            res.len() as nat,
            |i: int| cs@.subrange(res[i].0 as int, res[i].1 as int),
        );
        let mut a = pos;
        while a < hi && is_whitespace_char(cs[a])
            invariant
                pos <= a <= hi <= cs.len(),
                forall|j: int| pos <= j < a ==> is_whitespace(#[trigger] cs@[j]),
            decreases hi - a,
        {
            a = a + 1;
        }
        proof {
            assert forall|j: int| 0 <= j < a - pos implies !(|c: char| !is_whitespace(c))(
                #[trigger] t[j],
            ) by {
                assert(t[j] == cs@[pos + j]);
            }
            if a < hi {
                assert(t[a - pos] == cs@[a as int]);
            }
            lemma_first_index_is(t, |c: char| !is_whitespace(c), a - pos);
        }
        if a == hi {
            proof {
                assert(words(t).len() == 0);
                assert(words(cs@.subrange(lo as int, hi as int)) =~= done);
            }
            return res;
        }
        let mut b = a;
        while b < hi && !is_whitespace_char(cs[b])
            invariant
                a <= b <= hi <= cs.len(),
                forall|j: int| a <= j < b ==> !is_whitespace(#[trigger] cs@[j]),
            decreases hi - b,
        {
            b = b + 1;
        }
        proof {
            let rest = t.skip(a - pos);
            assert(rest =~= cs@.subrange(a as int, hi as int));
            assert forall|j: int| 0 <= j < b - a implies !(|c: char| is_whitespace(c))(
                #[trigger] rest[j],
            ) by {
                assert(rest[j] == cs@[a + j]);
            }
            if b < hi {
                assert(rest[b - a] == cs@[b as int]);
            }
            lemma_first_index_is(rest, |c: char| is_whitespace(c), b - a);
            assert(rest.take(b - a) =~= cs@.subrange(a as int, b as int));
            assert(rest.skip(b - a) =~= cs@.subrange(b as int, hi as int));
            assert(words(t) == seq![rest.take(b - a)] + words(rest.skip(b - a)));
        }
        res.push((a, b));
        proof {
            assert(Seq::new(
                res.len() as nat,
                |i: int| cs@.subrange(res[i].0 as int, res[i].1 as int),
            ) =~= done.push(cs@.subrange(a as int, b as int)));
            assert(words(cs@.subrange(lo as int, hi as int)) =~= Seq::new(
                res.len() as nat,
                |i: int| cs@.subrange(res[i].0 as int, res[i].1 as int),
            ) + words(cs@.subrange(b as int, hi as int)));
        }
        pos = b;
    }
}

/// Whether `cs[lo..hi]` begins with `p`.
pub fn range_starts_with(cs: &Vec<char>, lo: usize, hi: usize, p: &Vec<char>) -> (b: bool)
    requires
        lo <= hi <= cs.len(),
    ensures
        b == starts_with(cs@.subrange(lo as int, hi as int), p@),
{
    if p.len() > hi - lo {
        return false;
    }
    let mut i: usize = 0;
    while i < p.len()
        invariant
            lo <= hi <= cs.len(),
            p.len() <= hi - lo,
            i <= p.len(),
            forall|j: int| 0 <= j < i ==> cs@[lo + j] == p@[j],
        decreases p.len() - i,
    {
        if cs[lo + i] != p[i] {
            proof {
                let t = cs@.subrange(lo as int, hi as int);
                assert(t.take(p.len() as int)[i as int] == cs@[lo + i]);
            }
            return false;
        }
        i = i + 1;
    }
    assert(cs@.subrange(lo as int, hi as int).take(p.len() as int) =~= p@);
    true
}

/// Whether `cs[lo..hi]` is exactly `p`.
pub fn range_equals(cs: &Vec<char>, lo: usize, hi: usize, p: &Vec<char>) -> (b: bool)
    requires
        lo <= hi <= cs.len(),
    ensures
        b == (cs@.subrange(lo as int, hi as int) == p@),
{
    if hi - lo != p.len() {
        return false;
    }
    let b = range_starts_with(cs, lo, hi, p);
    assert(cs@.subrange(lo as int, hi as int).take(p.len() as int) =~= cs@.subrange(
        lo as int,
        hi as int,
    ));
    b
}

pub open spec fn is_digit(c: char) -> bool {
    0x30 <= (c as u32) <= 0x39
}

pub open spec fn digit_value(c: char) -> nat {
    ((c as u32) - 0x30) as nat
}

/// The number that a run of decimal digits denotes.
pub open spec fn digits_value(d: Seq<char>) -> nat
    decreases d.len(),
{
    if d.len() == 0 {
        0
    } else {
        digits_value(d.drop_last()) * 10 + digit_value(d.last())
    }
}

pub open spec fn all_digits(d: Seq<char>) -> bool {
    forall|i: int| 0 <= i < d.len() ==> is_digit(#[trigger] d[i])
}

/// Rust's `str::parse` for an unsigned integer type whose largest value is `max`:
/// an optional `'+'`, then at least one decimal digit, and no overflow.
pub open spec fn parse_unsigned(s: Seq<char>, max: nat) -> Option<nat> {
    let d = if s.len() > 0 && s[0] == '+' {
        s.drop_first()
    } else {
        s
    };
    if d.len() > 0 && all_digits(d) && digits_value(d) <= max {
        Some(digits_value(d))
    } else {
        None
    }
}

proof fn lemma_digits_prefix(d: Seq<char>, i: int)
    requires
        0 <= i <= d.len(),
    ensures
        digits_value(d.take(i)) <= digits_value(d),
    decreases d.len(),
{
    if i < d.len() {
        assert(d.drop_last().take(i) =~= d.take(i));
        lemma_digits_prefix(d.drop_last(), i);
    } else {
        assert(d.take(i) =~= d);
    }
}

/// Parses `cs[lo..hi]` as an unsigned integer no larger than `max`.
pub fn parse_unsigned_range(cs: &Vec<char>, lo: usize, hi: usize, max: u64) -> (res: Option<u64>)
    requires
        lo <= hi <= cs.len(),
        max <= u32::MAX,
    ensures
        match parse_unsigned(cs@.subrange(lo as int, hi as int), max as nat) {
            Some(v) => res == Some(v as u64),
            None => res is None,
        },
{
    let ghost s = cs@.subrange(lo as int, hi as int);
    let start = if lo < hi && cs[lo] == '+' {
        lo + 1
    } else {
        lo
    };
    let ghost d = cs@.subrange(start as int, hi as int);
    assert(d =~= (if s.len() > 0 && s[0] == '+' {
        s.drop_first()
    } else {
        s
    }));
    if start == hi {
        return None;
    }
    let mut v: u64 = 0;
    let mut i = start;
    while i < hi
        invariant
            start <= i <= hi <= cs.len(),
            d == cs@.subrange(start as int, hi as int),
            s == cs@.subrange(lo as int, hi as int),
            d == (if s.len() > 0 && s[0] == '+' {
                s.drop_first()
            } else {
                s
            }),
            d.len() > 0,
            max <= u32::MAX,
            v <= max,
            v == digits_value(d.take(i - start)),
            all_digits(d.take(i - start)),
        decreases hi - i,
    {
        let c = cs[i];
        let u = c as u32;
        if u < 0x30 || u > 0x39 {
            assert(!is_digit(d[i - start]));
            return None;
        }
        let dig = (u - 0x30) as u64;
        proof {
            assert(d.take(i - start + 1).drop_last() =~= d.take(i - start));
            assert(d.take(i - start + 1).last() == c);
        }
        if v * 10 + dig > max {
            proof {
                lemma_digits_prefix(d, i - start + 1);
            }
            return None;
        }
        v = v * 10 + dig;
        i = i + 1;
        assert forall|j: int| 0 <= j < d.take(i - start).len() implies is_digit(
            #[trigger] d.take(i - start)[j],
        ) by {
            if j < i - start - 1 {
                assert(d.take(i - start)[j] == d.take(i - start - 1)[j]);
            }
        }
    }
    assert(d.take(hi - start) =~= d);
    Some(v)
}

/// The decimal digit for `d < 10`.
pub open spec fn digit_char(d: nat) -> char {
    ((d + 0x30) as u32) as char
}

/// Decimal notation of a natural number, as `Display` writes it.
pub open spec fn decimal(n: nat) -> Seq<char>
    decreases n,
{
    if n < 10 {
        seq![digit_char(n)]
    } else {
        decimal(n / 10).push(digit_char(n % 10))
    }
}

/// Decimal notation of an integer, with a leading `'-'` when negative.
pub open spec fn decimal_signed(n: int) -> Seq<char> {
    if n < 0 {
        seq!['-'] + decimal((-n) as nat)
    } else {
        decimal(n as nat)
    }
}

fn digit_to_char(d: u64) -> (c: char)
    requires
        d < 10,
    ensures
        c == digit_char(d as nat),
{
    let b = (0x30 + d) as u8;
    b as char
}

/// Appends the decimal notation of `n` to `out`.
pub fn push_decimal(out: &mut Vec<char>, n: u64)
    ensures
        final(out)@ == old(out)@ + decimal(n as nat),
    decreases n,
{
    if n < 10 {
        out.push(digit_to_char(n));
        assert(decimal(n as nat) =~= seq![digit_char(n as nat)]);
    } else {
        push_decimal(out, n / 10);
        out.push(digit_to_char(n % 10));
        assert(decimal(n as nat) == decimal((n / 10) as nat).push(digit_char((n % 10) as nat)));
    }
}

/// Appends the decimal notation of a signed `n` to `out`.
pub fn push_decimal_signed(out: &mut Vec<char>, n: i64)
    ensures
        final(out)@ == old(out)@ + decimal_signed(n as int),
{
    if n < 0 {
        out.push('-');
        let m: u64 = if n == i64::MIN {
            0x8000_0000_0000_0000u64
        } else {
            (-n) as u64
        };
        push_decimal(out, m);
    } else {
        push_decimal(out, n as u64);
    }
}

/// Every digit of a decimal notation is a digit, and together they denote the number.
pub proof fn lemma_decimal_digits(n: nat)
    ensures
        decimal(n).len() > 0,
        all_digits(decimal(n)),
        digits_value(decimal(n)) == n,
    decreases n,
{
    let s = decimal(n);
    let r = n % 10;
    assert((((r + 0x30) as u32) as char) as u32 == r + 0x30);
    if n >= 10 {
        lemma_decimal_digits(n / 10);
        assert(s.drop_last() =~= decimal(n / 10));
        assert(digit_value(s.last()) == r);
        assert(digits_value(s) == digits_value(s.drop_last()) * 10 + digit_value(s.last()));
        assert((n / 10) * 10 + n % 10 == n) by (nonlinear_arith);
        assert forall|i: int| 0 <= i < s.len() implies is_digit(#[trigger] s[i]) by {
            if i < s.len() - 1 {
                assert(s[i] == decimal(n / 10)[i]);
            }
        }
    } else {
        assert(r == n);
        assert(s.drop_last() =~= Seq::<char>::empty());
        assert(digits_value(s.drop_last()) == 0);
        assert(digit_value(s.last()) == n);
        assert(digits_value(s) == digits_value(s.drop_last()) * 10 + digit_value(s.last()));
        assert(is_digit(s[0]));
    }
}

/// Reading back the decimal notation of a number gives the number: what
/// `decimal` writes, `parse_unsigned` reads, for every value in range.
pub proof fn lemma_decimal_parse_roundtrip(n: nat, max: nat)
    requires
        n <= max,
    ensures
        parse_unsigned(decimal(n), max) == Some(n),
{
    lemma_decimal_digits(n);
    assert(is_digit(decimal(n)[0]));
}


/// Index of the first `ch` in `s`, or `s.len()`.
pub open spec fn is_char(ch: char) -> spec_fn(char) -> bool {
    |c: char| c == ch
}

pub open spec fn index_of_char(s: Seq<char>, ch: char) -> int {
    first_index(s, is_char(ch))
}

/// First index in `from..to` holding `ch`, or `to`.
pub fn find_char(cs: &Vec<char>, from: usize, to: usize, ch: char) -> (k: usize)
    requires
        from <= to <= cs.len(),
    ensures
        from <= k <= to,
        k - from == index_of_char(cs@.subrange(from as int, to as int), ch),
{
    let mut k = from;
    while k < to && cs[k] != ch
        invariant
            from <= k <= to <= cs.len(),
            forall|j: int| from <= j < k ==> cs@[j] != ch,
        decreases to - k,
    {
        k = k + 1;
    }
    proof {
        let t = cs@.subrange(from as int, to as int);
        assert forall|j: int| 0 <= j < k - from implies !is_char(ch)(#[trigger] t[j]) by {
            assert(t[j] == cs@[from + j]);
        }
        if k < to {
            assert(t[k - from] == cs@[k as int]);
        }
        lemma_first_index_is(t, is_char(ch), k - from);
    }
    k
}


/// Whether `p` occurs in `s` at index `i`.
pub open spec fn occurs_at(s: Seq<char>, p: Seq<char>, i: int) -> bool {
    0 <= i && i + p.len() <= s.len() && s.subrange(i, i + p.len()) == p
}

/// Rust's `str::find` for a string pattern: the first index where `p` occurs.
#[verifier::opaque]
pub open spec fn find_str(s: Seq<char>, p: Seq<char>) -> Option<int> {
    if exists|i: int| occurs_at(s, p, i) {
        Some(choose|i: int| occurs_at(s, p, i) && forall|j: int| 0 <= j < i ==> !occurs_at(s, p, j))
    } else {
        None
    }
}

proof fn lemma_occurs_in_range(cs: Seq<char>, lo: int, hi: int, p: Seq<char>, j: int)
    requires
        0 <= lo <= hi <= cs.len(),
        0 <= j,
        j + p.len() <= hi - lo,
    ensures
        occurs_at(cs.subrange(lo, hi), p, j) == (cs.subrange(lo + j, lo + j + p.len()) == p),
{
    assert(cs.subrange(lo, hi).subrange(j, j + p.len()) =~= cs.subrange(lo + j, lo + j + p.len()));
}

proof fn lemma_find_str_is(s: Seq<char>, p: Seq<char>, i: int)
    requires
        occurs_at(s, p, i),
        forall|j: int| 0 <= j < i ==> !#[trigger] occurs_at(s, p, j),
    ensures
        find_str(s, p) == Some(i),
{
    reveal(find_str);
    let c = choose|c: int| occurs_at(s, p, c) && forall|j: int| 0 <= j < c ==> !occurs_at(s, p, j);
    assert(occurs_at(s, p, c) && forall|j: int| 0 <= j < c ==> !occurs_at(s, p, j));
    if c < i {
        assert(!occurs_at(s, p, c));
    } else if c > i {
        assert(!occurs_at(s, p, i));
    }
}

/// The first index in `cs[lo..hi]` where `p` occurs, counted from `lo`.
pub fn find_str_range(cs: &Vec<char>, lo: usize, hi: usize, p: &Vec<char>) -> (res: Option<usize>)
    requires
        lo <= hi <= cs.len(),
    ensures
        match res {
            Some(k) => lo <= k && k + p.len() <= hi && find_str(
                cs@.subrange(lo as int, hi as int),
                p@,
            ) == Some(k - lo),
            None => find_str(cs@.subrange(lo as int, hi as int), p@) is None,
        },
{
    let ghost t = cs@.subrange(lo as int, hi as int);
    if p.len() > hi - lo {
        proof {
            reveal(find_str);
            assert forall|j: int| !occurs_at(t, p@, j) by {}
        }
        return None;
    }
    let last = hi - p.len();
    let mut k = lo;
    loop
        invariant
            lo <= k <= last,
            last + p.len() == hi,
            hi <= cs.len(),
            t == cs@.subrange(lo as int, hi as int),
            forall|j: int| 0 <= j < k - lo ==> !#[trigger] occurs_at(t, p@, j),
        decreases last - k,
    {
        let found = range_equals(cs, k, k + p.len(), p);
        proof {
            lemma_occurs_in_range(cs@, lo as int, hi as int, p@, k - lo);
        }
        if found {
            proof {
                lemma_find_str_is(t, p@, k - lo);
            }
            return Some(k);
        }
        if k == last {
            proof {
                reveal(find_str);
                assert forall|j: int| !occurs_at(t, p@, j) by {
                    if 0 <= j && j + p.len() <= t.len() {
                        assert(j <= k - lo);
                    }
                }
            }
            return None;
        }
        k = k + 1;
    }
}

} // verus!
