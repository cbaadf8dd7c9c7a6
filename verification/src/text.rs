//! Character-level text handling: whitespace, trimming, line splitting,
//! substring search, unsigned parsing and decimal formatting, each stated
//! over `Seq<char>`.

use vstd::prelude::*;

verus! {

broadcast use vstd::string::group_string_axioms;

/// `char::is_whitespace`: the Unicode `White_Space` property.
pub open spec fn is_space(c: char) -> bool {
    let u = c as u32;
    ||| 0x09 <= u <= 0x0d
    ||| u == 0x20
    ||| u == 0x85
    ||| u == 0xa0
    ||| u == 0x1680
    ||| 0x2000 <= u <= 0x200a
    ||| u == 0x2028
    ||| u == 0x2029
    ||| u == 0x202f
    ||| u == 0x205f
    ||| u == 0x3000
}

pub fn is_space_char(c: char) -> (r: bool)
    ensures
        r == is_space(c),
{
    let u = c as u32;
    (0x09 <= u && u <= 0x0d) || u == 0x20 || u == 0x85 || u == 0xa0 || u == 0x1680 || (0x2000
        <= u && u <= 0x200a) || u == 0x2028 || u == 0x2029 || u == 0x202f || u == 0x205f || u
        == 0x3000
}

/// The characters of a string slice, in order.
pub fn chars_of(s: &str) -> (v: Vec<char>)
    ensures
        v@ == s@,
{
    let mut v: Vec<char> = Vec::new();
    for c in it: s.chars()
        invariant
            it.seq() == s@,
            v@ == it.seq().take(it.index() as int),
    {
        v.push(c);
    }
    v
}

/// The characters of `v` from `lo` up to `hi`.
pub fn sub_chars(v: &Vec<char>, lo: usize, hi: usize) -> (r: Vec<char>)
    requires
        lo <= hi <= v.len(),
    ensures
        r@ == v@.subrange(lo as int, hi as int),
{
    let mut r: Vec<char> = Vec::new();
    let mut i = lo;
    while i < hi
        invariant
            lo <= i <= hi <= v.len(),
            r@ == v@.subrange(lo as int, i as int),
        decreases hi - i,
    {
        r.push(v[i]);
        i += 1;
    }
    r
}

/// Equality of two character sequences.
pub fn same_chars(a: &Vec<char>, b: &Vec<char>) -> (r: bool)
    ensures
        r == (a@ == b@),
{
    if a.len() != b.len() {
        return false;
    }
    let mut i: usize = 0;
    while i < a.len()
        invariant
            a.len() == b.len(),
            i <= a.len(),
            forall|j: int| 0 <= j < i ==> a@[j] == b@[j],
        decreases a.len() - i,
    {
        if a[i] != b[i] {
            return false;
        }
        i += 1;
    }
    assert(a@ =~= b@);
    true
}

// ---------------------------------------------------------------------------
// Trimming (`str::trim`)

pub open spec fn trim_start(s: Seq<char>) -> Seq<char>
    decreases s.len(),
{
    if s.len() > 0 && is_space(s[0]) {
        trim_start(s.drop_first())
    } else {
        s
    }
}

pub open spec fn trim_end(s: Seq<char>) -> Seq<char>
    decreases s.len(),
{
    if s.len() > 0 && is_space(s.last()) {
        trim_end(s.drop_last())
    } else {
        s
    }
}

/// `str::trim`: leading and trailing whitespace removed.
pub open spec fn trim(s: Seq<char>) -> Seq<char> {
    trim_end(trim_start(s))
}

pub proof fn lemma_trim_start(s: Seq<char>, k: int)
    requires
        0 <= k <= s.len(),
        forall|j: int| 0 <= j < k ==> is_space(#[trigger] s[j]),
        k == s.len() || !is_space(s[k]),
    ensures
        trim_start(s) == s.skip(k),
    decreases k,
{
    if k == 0 {
        assert(s.skip(0) =~= s);
    } else {
        assert(is_space(s[0]));
        let t = s.drop_first();
        assert forall|j: int| 0 <= j < k - 1 implies is_space(#[trigger] t[j]) by {
            assert(t[j] == s[j + 1]);
        }
        lemma_trim_start(t, k - 1);
        assert(t.skip(k - 1) =~= s.skip(k));
    }
}

pub proof fn lemma_trim_end(s: Seq<char>, k: int)
    requires
        0 <= k <= s.len(),
        forall|j: int| k <= j < s.len() ==> is_space(#[trigger] s[j]),
        k == 0 || !is_space(s[k - 1]),
    ensures
        trim_end(s) == s.take(k),
    decreases s.len() - k,
{
    if k == s.len() {
        assert(s.take(k) =~= s);
    } else {
        assert(is_space(s[s.len() - 1]));
        let t = s.drop_last();
        lemma_trim_end(t, k);
        assert(t.take(k) =~= s.take(k));
    }
}

/// `trim` on a vector of characters.
pub fn trim_chars(v: &Vec<char>) -> (r: Vec<char>)
    ensures
        r@ == trim(v@),
{
    let n = v.len();
    let mut a: usize = 0;
    while a < n && is_space_char(v[a])
        invariant
            a <= n,
            n == v.len(),
            forall|j: int| 0 <= j < a ==> is_space(#[trigger] v@[j]),
        decreases n - a,
    {
        a += 1;
    }
    let mut b: usize = n;
    while b > a && is_space_char(v[b - 1])
        invariant
            a <= b <= n,
            n == v.len(),
            forall|j: int| b <= j < n ==> is_space(#[trigger] v@[j]),
        decreases b,
    {
        b -= 1;
    }
    proof {
        lemma_trim_start(v@, a as int);
        let t = v@.skip(a as int);
        assert forall|j: int| (b - a) <= j < t.len() implies is_space(#[trigger] t[j]) by {
            assert(t[j] == v@[j + a]);
        }
        lemma_trim_end(t, b - a);
        assert(t.take(b - a) =~= v@.subrange(a as int, b as int));
    }
    sub_chars(v, a, b)
}

// ---------------------------------------------------------------------------
// Substring search (`str::split_once`, `str::contains`)

/// `pat` occurs in `s` at position `i`.
pub open spec fn occurs_at(s: Seq<char>, pat: Seq<char>, i: int) -> bool {
    0 <= i && i + pat.len() <= s.len() && s.subrange(i, i + pat.len()) == pat
}

/// The position of the first occurrence of `pat` in `s`.
pub open spec fn find(s: Seq<char>, pat: Seq<char>) -> Option<int>
    decreases s.len(),
{
    if s.len() < pat.len() {
        None
    } else if s.take(pat.len() as int) == pat {
        Some(0)
    } else if s.len() == 0 {
        None
    } else {
        match find(s.drop_first(), pat) {
            Some(i) => Some(i + 1),
            None => None,
        }
    }
}

proof fn lemma_occurs_shift(s: Seq<char>, pat: Seq<char>, j: int)
    requires
        s.len() > 0,
        0 <= j,
    ensures
        occurs_at(s.drop_first(), pat, j) == occurs_at(s, pat, j + 1),
{
    if j + 1 + pat.len() <= s.len() {
        assert(s.drop_first().subrange(j, j + pat.len()) =~= s.subrange(j + 1, j + 1 + pat.len()));
    }
}

/// `find` gives the first position where `pat` occurs, or `None` when there
/// is none.
pub proof fn lemma_find(s: Seq<char>, pat: Seq<char>, i: int)
    requires
        0 <= i,
        forall|j: int| 0 <= j < i ==> !occurs_at(s, pat, j),
        occurs_at(s, pat, i) || i + pat.len() > s.len(),
    ensures
        find(s, pat) == (if occurs_at(s, pat, i) { Some(i) } else { None::<int> }),
    decreases i,
{
    if s.len() < pat.len() {
    } else if i == 0 {
        assert(s.take(pat.len() as int) =~= s.subrange(0, pat.len() as int));
    } else {
        assert(!occurs_at(s, pat, 0));
        assert(s.take(pat.len() as int) =~= s.subrange(0, pat.len() as int));
        if s.len() == 0 {
        } else {
            let t = s.drop_first();
            assert forall|j: int| 0 <= j < i - 1 implies !occurs_at(t, pat, j) by {
                lemma_occurs_shift(s, pat, j);
            }
            lemma_occurs_shift(s, pat, i - 1);
            lemma_find(t, pat, i - 1);
        }
    }
}

/// What `find` returns is a position where `pat` occurs, before which it
/// occurs nowhere.
pub proof fn lemma_find_occurs(s: Seq<char>, pat: Seq<char>)
    ensures
        find(s, pat) matches Some(i) ==> occurs_at(s, pat, i) && forall|j: int|
            0 <= j < i ==> !occurs_at(s, pat, j),
    decreases s.len(),
{
    if s.len() < pat.len() {
    } else if s.take(pat.len() as int) == pat {
        assert(s.take(pat.len() as int) =~= s.subrange(0, pat.len() as int));
    } else if s.len() == 0 {
    } else {
        let t = s.drop_first();
        lemma_find_occurs(t, pat);
        assert(s.take(pat.len() as int) =~= s.subrange(0, pat.len() as int));
        if let Some(i) = find(t, pat) {
            lemma_occurs_shift(s, pat, i);
            assert forall|j: int| 0 <= j < i + 1 implies !occurs_at(s, pat, j) by {
                if j > 0 {
                    lemma_occurs_shift(s, pat, j - 1);
                }
            }
        }
    }
}

/// `find` finds nothing only where `pat` occurs nowhere.
pub proof fn lemma_find_absent(s: Seq<char>, pat: Seq<char>)
    ensures
        find(s, pat) is None ==> forall|j: int| !occurs_at(s, pat, j),
    decreases s.len(),
{
    if s.len() < pat.len() {
    } else if s.take(pat.len() as int) == pat {
    } else if s.len() == 0 {
        assert(s.take(pat.len() as int) =~= pat);
    } else {
        let t = s.drop_first();
        lemma_find_absent(t, pat);
        if find(s, pat) is None {
            assert forall|j: int| !occurs_at(s, pat, j) by {
                if j == 0 {
                    assert(s.take(pat.len() as int) =~= s.subrange(0, pat.len() as int));
                } else if j > 0 {
                    lemma_occurs_shift(s, pat, j - 1);
                }
            }
        }
    }
}

pub fn occurs_at_exec(v: &Vec<char>, pat: &Vec<char>, i: usize) -> (r: bool)
    requires
        i + pat.len() <= v.len(),
    ensures
        r == occurs_at(v@, pat@, i as int),
{
    let mut k: usize = 0;
    while k < pat.len()
        invariant
            i + pat.len() <= v.len(),
            k <= pat.len(),
            forall|j: int| 0 <= j < k ==> v@[i + j] == pat@[j],
        decreases pat.len() - k,
    {
        if v[i + k] != pat[k] {
            assert(v@.subrange(i as int, i + pat.len())[k as int] != pat@[k as int]);
            return false;
        }
        k += 1;
    }
    assert(v@.subrange(i as int, i + pat.len()) =~= pat@);
    true
}

/// The first position at which `pat` occurs in `v`.
pub fn find_chars(v: &Vec<char>, pat: &Vec<char>) -> (r: Option<usize>)
    ensures
        match r {
            Some(i) => find(v@, pat@) == Some(i as int),
            None => find(v@, pat@) == None::<int>,
        },
{
    let n = v.len();
    let p = pat.len();
    if p > n {
        proof {
            lemma_find(v@, pat@, 0);
        }
        return None;
    }
    if p == 0 {
        proof {
            assert(v@.subrange(0, 0) =~= pat@);
            lemma_find(v@, pat@, 0);
        }
        return Some(0);
    }
    let mut i: usize = 0;
    while i <= n - p
        invariant
            n == v.len(),
            p == pat.len(),
            1 <= p <= n,
            i <= n - p + 1,
            forall|j: int| 0 <= j < i ==> !occurs_at(v@, pat@, j),
        decreases n + 1 - i,
    {
        if occurs_at_exec(v, pat, i) {
            proof {
                lemma_find(v@, pat@, i as int);
            }
            return Some(i);
        }
        i += 1;
    }
    proof {
        lemma_find(v@, pat@, i as int);
    }
    None
}

// ---------------------------------------------------------------------------
// Lines (`str::lines`)

pub open spec fn prepend_to_first(c: Seq<char>, ls: Seq<Seq<char>>) -> Seq<Seq<char>> {
    ls.update(0, c + ls[0])
}

/// The pieces of `s` between line feeds.  `str::lines` differs from this
/// only in that it drops a last empty piece and a carriage return at the end
/// of a piece; every use below trims each piece and skips empty ones, which
/// makes the two agree.
pub open spec fn split_lines(s: Seq<char>) -> Seq<Seq<char>>
    decreases s.len(),
{
    if s.len() == 0 {
        seq![Seq::<char>::empty()]
    } else if s[0] == '\n' {
        seq![Seq::<char>::empty()] + split_lines(s.drop_first())
    } else {
        prepend_to_first(seq![s[0]], split_lines(s.drop_first()))
    }
}

pub proof fn lemma_split_lines_nonempty(s: Seq<char>)
    ensures
        split_lines(s).len() >= 1,
    decreases s.len(),
{
    if s.len() > 0 {
        lemma_split_lines_nonempty(s.drop_first());
    }
}

/// A piece without line feed, a line feed, then the rest: the piece is the
/// first line.
pub proof fn lemma_split_lines_cons(a: Seq<char>, b: Seq<char>)
    requires
        forall|i: int| 0 <= i < a.len() ==> a[i] != '\n',
    ensures
        split_lines(a + seq!['\n'] + b) == seq![a] + split_lines(b),
    decreases a.len(),
{
    let s = a + seq!['\n'] + b;
    if a.len() == 0 {
        assert(s.drop_first() =~= b);
        assert(a =~= Seq::<char>::empty());
    } else {
        let a2 = a.drop_first();
        assert(s.drop_first() =~= a2 + seq!['\n'] + b);
        lemma_split_lines_cons(a2, b);
        lemma_split_lines_nonempty(b);
        assert(seq![s[0]] + a2 =~= a);
        assert(prepend_to_first(seq![s[0]], seq![a2] + split_lines(b)) =~= seq![a] + split_lines(
            b,
        ));
    }
}

pub open spec fn views(ls: Seq<Vec<char>>) -> Seq<Seq<char>> {
    ls.map_values(|l: Vec<char>| l@)
}

/// The lines of `v`, as `split_lines` gives them.
pub fn split_lines_exec(v: &Vec<char>) -> (r: Vec<Vec<char>>)
    ensures
        views(r@) == split_lines(v@),
{
    let n = v.len();
    let mut lines: Vec<Vec<char>> = Vec::new();
    let mut cur: Vec<char> = Vec::new();
    let mut i: usize = 0;
    proof {
        assert(v@.skip(0) =~= v@);
        lemma_split_lines_nonempty(v@);
        assert(prepend_to_first(Seq::<char>::empty(), split_lines(v@)) =~= split_lines(v@));
        assert(views(lines@) =~= Seq::<Seq<char>>::empty());
        assert(Seq::<Seq<char>>::empty() + split_lines(v@) =~= split_lines(v@));
    }
    while i < n
        invariant
            n == v.len(),
            i <= n,
            split_lines(v@) == views(lines@) + prepend_to_first(cur@, split_lines(v@.skip(i as int))),
        decreases n - i,
    {
        let c = v[i];
        let ghost rest = v@.skip(i + 1);
        proof {
            assert(v@.skip(i as int).drop_first() =~= rest);
            assert(v@.skip(i as int)[0] == c);
            lemma_split_lines_nonempty(rest);
        }
        if c == '\n' {
            proof {
                let r = split_lines(rest);
                assert(prepend_to_first(cur@, seq![Seq::<char>::empty()] + r) =~= seq![cur@] + r);
                assert(prepend_to_first(Seq::<char>::empty(), r) =~= r);
                assert(views(lines@.push(cur)) =~= views(lines@).push(cur@));
                assert(views(lines@) + (seq![cur@] + r) =~= views(lines@).push(cur@) + r);
            }
            lines.push(cur);
            cur = Vec::new();
        } else {
            proof {
                let r = split_lines(rest);
                assert(cur@ + (seq![c] + r[0]) =~= cur@.push(c) + r[0]);
                assert(prepend_to_first(cur@, prepend_to_first(seq![c], r)) =~= prepend_to_first(
                    cur@.push(c),
                    r,
                ));
            }
            cur.push(c);
        }
        i += 1;
    }
    proof {
        assert(v@.skip(n as int) =~= Seq::<char>::empty());
        assert(prepend_to_first(cur@, seq![Seq::<char>::empty()]) =~= seq![cur@]);
        assert(views(lines@.push(cur)) =~= views(lines@).push(cur@));
        assert(views(lines@) + seq![cur@] =~= views(lines@).push(cur@));
    }
    lines.push(cur);
    lines
}

// ---------------------------------------------------------------------------
// Unsigned parsing (`u32::from_str`) and decimal formatting

pub open spec fn is_digit(c: char) -> bool {
    0x30 <= (c as u32) <= 0x39
}

pub open spec fn digit_value(c: char) -> int {
    (c as u32) - 0x30
}

pub open spec fn all_digits(s: Seq<char>) -> bool {
    forall|i: int| 0 <= i < s.len() ==> is_digit(#[trigger] s[i])
}

/// The number that a string of decimal digits denotes.
pub open spec fn digits_value(s: Seq<char>) -> int
    decreases s.len(),
{
    if s.len() == 0 {
        0
    } else {
        digits_value(s.drop_last()) * 10 + digit_value(s.last())
    }
}

/// `u32::from_str`: an optional `+`, then one or more ASCII digits whose value
/// fits in a `u32`.
pub open spec fn parse_u32(s: Seq<char>) -> Option<u32> {
    let d = if s.len() > 0 && s[0] == '+' {
        s.drop_first()
    } else {
        s
    };
    if d.len() == 0 || !all_digits(d) || digits_value(d) > u32::MAX {
        None
    } else {
        Some(digits_value(d) as u32)
    }
}

pub fn parse_u32_chars(v: &Vec<char>) -> (r: Option<u32>)
    ensures
        r == parse_u32(v@),
{
    let n = v.len();
    let start: usize = if n > 0 && v[0] == '+' {
        1
    } else {
        0
    };
    let ghost d = if v@.len() > 0 && v@[0] == '+' {
        v@.drop_first()
    } else {
        v@
    };
    assert(d =~= v@.skip(start as int));
    if start == n {
        return None;
    }
    let mut acc: u64 = 0;
    let mut i: usize = start;
    let ghost cap: int = u32::MAX + 1;
    assert(d.take(0) =~= Seq::<char>::empty());
    while i < n
        invariant
            start <= i <= n,
            n == v.len(),
            d == v@.skip(start as int),
            d == (if v@.len() > 0 && v@[0] == '+' {
                v@.drop_first()
            } else {
                v@
            }),
            cap == u32::MAX + 1,
            forall|j: int| 0 <= j < i - start ==> is_digit(#[trigger] d[j]),
            acc <= cap,
            acc == (if digits_value(d.take(i - start)) > cap {
                cap
            } else {
                digits_value(d.take(i - start))
            }),
        decreases n - i,
    {
        let c = v[i];
        let u = c as u32;
        assert(d[i - start] == c);
        if u < 0x30 || u > 0x39 {
            assert(!is_digit(d[i - start]));
            assert(!all_digits(d));
            return None;
        }
        let k = i - start;
        proof {
            assert(d.take(k + 1).drop_last() =~= d.take(k as int));
            assert(d.take(k + 1).last() == c);
        }
        let next = acc * 10 + (u - 0x30) as u64;
        acc = if next > 0x1_0000_0000 {
            0x1_0000_0000
        } else {
            next
        };
        i += 1;
    }
    assert(d.take(n - start) =~= d);
    if acc > 0xffff_ffff {
        None
    } else {
        Some(acc as u32)
    }
}

pub open spec fn digit_char(d: int) -> char {
    ((d + 0x30) as u32) as char
}

/// The decimal digits of `n`, most significant first, without leading zeros.
pub open spec fn decimal(n: nat) -> Seq<char>
    decreases n,
{
    if n < 10 {
        seq![digit_char(n as int)]
    } else {
        decimal(n / 10) + seq![digit_char((n % 10) as int)]
    }
}

/// Appends the decimal digits of `n` to `out`.
pub fn push_decimal(out: &mut Vec<char>, n: u128)
    ensures
        final(out)@ == old(out)@ + decimal(n as nat),
    decreases n,
{
    if n >= 10 {
        push_decimal(out, n / 10);
    }
    let d = (n % 10) as u8;
    let c = (0x30u8 + d) as char;
    out.push(c);
}


/// `decimal(n)` is a non-empty string of digits that denotes `n`.
pub proof fn lemma_decimal(n: nat)
    ensures
        decimal(n).len() >= 1,
        all_digits(decimal(n)),
        digits_value(decimal(n)) == n,
    decreases n,
{
    if n >= 10 {
        lemma_decimal(n / 10);
        let d = decimal(n);
        assert(d.drop_last() =~= decimal(n / 10));
        assert((n / 10) * 10 + n % 10 == n);
        assert(digit_value(digit_char((n % 10) as int)) == n % 10);
        assert(d.last() == digit_char((n % 10) as int));
        assert(digits_value(d) == digits_value(decimal(n / 10)) * 10 + digit_value(d.last()));
        assert(digits_value(d) == n);
        assert(is_digit(d.last()));
        assert forall|i: int| 0 <= i < d.len() implies is_digit(#[trigger] d[i]) by {
            if i < d.len() - 1 {
                assert(d[i] == decimal(n / 10)[i]);
            }
        }
    } else {
        let d = decimal(n);
        assert(d.drop_last() =~= Seq::<char>::empty());
        assert(digit_value(digit_char(n as int)) == n);
        assert(digits_value(Seq::<char>::empty()) == 0);
        assert(d.last() == digit_char(n as int));
        assert(digits_value(d) == n);
    }
}

/// Reading back what `decimal` wrote gives the number again.
pub proof fn lemma_parse_decimal(n: u32)
    ensures
        parse_u32(decimal(n as nat)) == Some(n),
{
    lemma_decimal(n as nat);
    assert(is_digit(decimal(n as nat)[0]));
}

/// A text in which `pat` occurs nowhere has no first occurrence of it.
pub proof fn lemma_find_none(s: Seq<char>, pat: Seq<char>)
    requires
        forall|j: int| !occurs_at(s, pat, j),
    ensures
        find(s, pat) == None::<int>,
{
    let i = if s.len() + 1 >= pat.len() {
        s.len() + 1 - pat.len()
    } else {
        0
    };
    lemma_find(s, pat, i);
}

/// How many whitespace characters `s` begins with.
pub open spec fn lead(s: Seq<char>) -> int {
    s.len() - trim_start(s).len()
}

/// Where the whitespace that `s` ends with begins.
pub open spec fn trail(s: Seq<char>) -> int {
    trim_end(s).len() as int
}

pub proof fn lemma_lead(s: Seq<char>)
    ensures
        0 <= lead(s) <= s.len(),
        trim_start(s) == s.skip(lead(s)),
        forall|j: int| 0 <= j < lead(s) ==> is_space(#[trigger] s[j]),
        lead(s) < s.len() ==> !is_space(s[lead(s)]),
    decreases s.len(),
{
    if s.len() > 0 && is_space(s[0]) {
        let t = s.drop_first();
        lemma_lead(t);
        assert(t.skip(lead(t)) =~= s.skip(lead(t) + 1));
        assert forall|j: int| 0 <= j < lead(s) implies is_space(#[trigger] s[j]) by {
            if j > 0 {
                assert(s[j] == t[j - 1]);
            }
        }
    } else {
        assert(s.skip(0) =~= s);
    }
}

pub proof fn lemma_trail(s: Seq<char>)
    ensures
        0 <= trail(s) <= s.len(),
        trim_end(s) == s.take(trail(s)),
        forall|j: int| trail(s) <= j < s.len() ==> is_space(#[trigger] s[j]),
        trail(s) > 0 ==> !is_space(s[trail(s) - 1]),
    decreases s.len(),
{
    if s.len() > 0 && is_space(s.last()) {
        let t = s.drop_last();
        lemma_trail(t);
        assert(t.take(trail(t)) =~= s.take(trail(t)));
        assert forall|j: int| trail(s) <= j < s.len() implies is_space(#[trigger] s[j]) by {
            if j < s.len() - 1 {
                assert(s[j] == t[j]);
            }
        }
    } else {
        assert(s.take(s.len() as int) =~= s);
    }
}

/// Trimming keeps what lies between the leading and the trailing whitespace.
pub proof fn lemma_trim_range(s: Seq<char>, a: int, b: int)
    requires
        0 <= a <= b <= s.len(),
        forall|j: int| 0 <= j < a ==> is_space(#[trigger] s[j]),
        forall|j: int| b <= j < s.len() ==> is_space(#[trigger] s[j]),
        a < b ==> !is_space(s[a]) && !is_space(s[b - 1]),
    ensures
        trim(s) == s.subrange(a, b),
{
    if a < b {
        lemma_trim_start(s, a);
        let t = s.skip(a);
        assert forall|j: int| b - a <= j < t.len() implies is_space(#[trigger] t[j]) by {
            assert(t[j] == s[j + a]);
        }
        assert(t[b - a - 1] == s[b - 1]);
        lemma_trim_end(t, b - a);
        assert(t.take(b - a) =~= s.subrange(a, b));
    } else {
        assert forall|j: int| 0 <= j < s.len() implies is_space(#[trigger] s[j]) by {
            if j >= a {
                assert(j >= b);
            }
        }
        lemma_trim_start(s, s.len() as int);
        assert(s.skip(s.len() as int) =~= Seq::<char>::empty());
        assert(s.subrange(a, b) =~= Seq::<char>::empty());
    }
}

/// `trim` keeps exactly the span from the first to the last non-whitespace
/// character.
pub proof fn lemma_trim_bounds(s: Seq<char>)
    ensures
        ({
            let a = lead(s);
            let b = trail(s);
            &&& a < s.len() ==> a < b && trim(s) == s.subrange(a, b)
            &&& a == s.len() ==> b == 0 && trim(s) == Seq::<char>::empty()
        }),
{
    lemma_lead(s);
    lemma_trail(s);
    let a = lead(s);
    let b = trail(s);
    if a < s.len() {
        if b <= a {
            assert(is_space(s[a]));
        }
        lemma_trim_range(s, a, b);
    } else {
        if b > 0 {
            assert(is_space(s[b - 1]));
        }
        lemma_trim_range(s, a, a);
        assert(s.subrange(a, a) =~= Seq::<char>::empty());
    }
}

} // verus!
