//! Character-level helpers shared by the parsers: whitespace trimming,
//! ASCII case folding, substring search, splitting and decimal numbers.
use vstd::prelude::*;

verus! {

broadcast use vstd::string::group_string_axioms;

/// The characters of an optional string.
pub open spec fn opt_str(o: Option<String>) -> Option<Seq<char>> {
    match o {
        Some(s) => Some(s@),
        None => None,
    }
}

/// The characters of an optional string slice.
pub open spec fn opt_ref_str(o: Option<&str>) -> Option<Seq<char>> {
    match o {
        Some(s) => Some(s@),
        None => None,
    }
}

/// A copy of an optional string.
pub fn clone_opt(o: &Option<String>) -> (r: Option<String>)
    ensures
        opt_str(r) == opt_str(*o),
{
    match o {
        Some(s) => Some(s.clone()),
        None => None,
    }
}

/// An owned copy of a string slice.
pub fn string_from(t: &str) -> (s: String)
    ensures
        s@ == t@,
{
    let mut s = String::new();
    push_str(&mut s, t);
    assert(s@ =~= t@);
    s
}

/// Appends one character to a string (std `String::push`).
#[verifier::external_body]
pub(crate) fn push_char(s: &mut String, c: char)
    ensures
        final(s)@ == old(s)@.push(c),
{
    s.push(c);
}

/// Appends a string slice to a string.
pub(crate) fn push_str(s: &mut String, t: &str)
    ensures
        final(s)@ == old(s)@ + t@,
{
    s.append(t);
}

/// Equality of two string slices (std `<str as PartialEq>::eq`).
#[verifier::external_body]
pub(crate) fn str_eq(a: &str, b: &str) -> (r: bool)
    ensures
        r == (a@ == b@),
{
    a == b
}

/// The characters of `s`, in order.
pub fn chars_of(s: &str) -> (v: Vec<char>)
    ensures
        v@ == s@,
{
    let mut v: Vec<char> = Vec::new();
    for c in it: s.chars()
        invariant
            v@ == it.seq().take(it.index() as int),
            it.seq() == s@,
    {
        v.push(c);
    }
    v
}

/// The string made of the characters of `v`.
pub fn string_of(v: &[char]) -> (s: String)
    ensures
        s@ == v@,
{
    let mut s = String::new();
    let mut i: usize = 0;
    while i < v.len()
        invariant
            i <= v.len(),
            s@ == v@.take(i as int),
        decreases v.len() - i,
    {
        push_char(&mut s, v[i]);
        assert(v@.take(i + 1) =~= v@.take(i as int).push(v@[i as int]));
        i = i + 1;
    }
    assert(v@.take(v.len() as int) =~= v@);
    s
}

/// The string made of the characters `v[lo..hi]`.
pub fn string_of_range(v: &[char], lo: usize, hi: usize) -> (s: String)
    requires
        lo <= hi <= v@.len(),
    ensures
        s@ == v@.subrange(lo as int, hi as int),
{
    let mut s = String::new();
    let mut i: usize = lo;
    while i < hi
        invariant
            lo <= i <= hi <= v@.len(),
            s@ == v@.subrange(lo as int, i as int),
        decreases hi - i,
    {
        push_char(&mut s, v[i]);
        assert(v@.subrange(lo as int, i + 1) =~= v@.subrange(lo as int, i as int).push(v@[i as int]));
        i = i + 1;
    }
    s
}

/// Unicode `White_Space`, as `char::is_whitespace` documents it.
pub open spec fn is_ws(c: char) -> bool {
    ||| '\u{9}' <= c <= '\u{d}'
    ||| c == ' '
    ||| c == '\u{85}'
    ||| c == '\u{a0}'
    ||| c == '\u{1680}'
    ||| '\u{2000}' <= c <= '\u{200a}'
    ||| c == '\u{2028}'
    ||| c == '\u{2029}'
    ||| c == '\u{202f}'
    ||| c == '\u{205f}'
    ||| c == '\u{3000}'
}

pub fn is_whitespace(c: char) -> (r: bool)
    ensures
        r == is_ws(c),
{
    ('\u{9}' <= c && c <= '\u{d}') || c == ' ' || c == '\u{85}' || c == '\u{a0}' || c == '\u{1680}'
        || ('\u{2000}' <= c && c <= '\u{200a}') || c == '\u{2028}' || c == '\u{2029}' || c
        == '\u{202f}' || c == '\u{205f}' || c == '\u{3000}'
}

/// `s` without its leading whitespace (`str::trim_start`).
pub open spec fn trim_start(s: Seq<char>) -> Seq<char>
    decreases s.len(),
{
    if s.len() > 0 && is_ws(s[0]) {
        trim_start(s.drop_first())
    } else {
        s
    }
}

pub proof fn lemma_trim_start_len(s: Seq<char>)
    ensures
        trim_start(s).len() <= s.len(),
    decreases s.len(),
{
    if s.len() > 0 && is_ws(s[0]) {
        lemma_trim_start_len(s.drop_first());
    }
}

/// `s` without its trailing whitespace (`str::trim_end`).
pub open spec fn trim_end(s: Seq<char>) -> Seq<char>
    decreases s.len(),
{
    if s.len() > 0 && is_ws(s.last()) {
        trim_end(s.drop_last())
    } else {
        s
    }
}

/// `s` without leading and trailing whitespace (`str::trim`).
pub open spec fn trim(s: Seq<char>) -> Seq<char> {
    trim_end(trim_start(s))
}

/// `s` without any trailing `c` (`str::trim_end_matches` with one character).
pub open spec fn strip_trailing(s: Seq<char>, c: char) -> Seq<char>
    decreases s.len(),
{
    if s.len() > 0 && s.last() == c {
        strip_trailing(s.drop_last(), c)
    } else {
        s
    }
}

/// Bounds of the trimmed part of `v[lo0..hi0]`.
pub fn trim_bounds(v: &[char], lo0: usize, hi0: usize) -> (r: (usize, usize))
    requires
        lo0 <= hi0 <= v@.len(),
    ensures
        lo0 <= r.0 <= r.1 <= hi0,
        v@.subrange(r.0 as int, r.1 as int) == trim(v@.subrange(lo0 as int, hi0 as int)),
{
    let mut lo = lo0;
    while lo < hi0 && is_whitespace(v[lo])
        invariant
            lo0 <= lo <= hi0 <= v@.len(),
            trim_start(v@.subrange(lo as int, hi0 as int)) == trim_start(
                v@.subrange(lo0 as int, hi0 as int),
            ),
        decreases hi0 - lo,
    {
        assert(v@.subrange(lo as int, hi0 as int).drop_first() =~= v@.subrange(lo + 1, hi0 as int));
        lo = lo + 1;
    }
    let mut hi = hi0;
    while hi > lo && is_whitespace(v[hi - 1])
        invariant
            lo <= hi <= hi0 <= v@.len(),
            trim_end(v@.subrange(lo as int, hi as int)) == trim_end(
                v@.subrange(lo as int, hi0 as int),
            ),
        decreases hi - lo,
    {
        assert(v@.subrange(lo as int, hi as int).drop_last() =~= v@.subrange(lo as int, hi - 1));
        hi = hi - 1;
    }
    (lo, hi)
}

/// `str::trim`, as an owned string.
pub fn trim_string(s: &str) -> (r: String)
    ensures
        r@ == trim(s@),
{
    let v = chars_of(s);
    let (lo, hi) = trim_bounds(&v, 0, v.len());
    assert(v@.subrange(0, v@.len() as int) =~= v@);
    string_of_range(&v, lo, hi)
}

pub open spec fn is_ascii_upper(c: char) -> bool {
    'A' <= c <= 'Z'
}

pub open spec fn is_ascii_lower(c: char) -> bool {
    'a' <= c <= 'z'
}

pub open spec fn is_ascii_digit(c: char) -> bool {
    '0' <= c <= '9'
}

pub open spec fn is_ascii_alpha(c: char) -> bool {
    is_ascii_upper(c) || is_ascii_lower(c)
}

pub open spec fn is_ascii_alnum(c: char) -> bool {
    is_ascii_alpha(c) || is_ascii_digit(c)
}

/// `char::to_ascii_lowercase`.
pub open spec fn ascii_lower(c: char) -> char {
    if is_ascii_upper(c) {
        ((c as u32) + 32) as char
    } else {
        c
    }
}

/// `str::to_ascii_lowercase` on a character sequence.
pub open spec fn lower_seq(s: Seq<char>) -> Seq<char> {
    s.map_values(|c: char| ascii_lower(c))
}

pub fn to_ascii_lower(c: char) -> (r: char)
    ensures
        r == ascii_lower(c),
{
    if 'A' <= c && c <= 'Z' {
        let x: u32 = c as u32;
        let b: u8 = x as u8;
        let l: u8 = b + 32;
        l as char
    } else {
        c
    }
}

pub fn lower_chars(v: &[char]) -> (r: Vec<char>)
    ensures
        r@ == lower_seq(v@),
{
    let mut r: Vec<char> = Vec::new();
    let mut i: usize = 0;
    while i < v.len()
        invariant
            i <= v.len(),
            r@ == lower_seq(v@.take(i as int)),
        decreases v.len() - i,
    {
        r.push(to_ascii_lower(v[i]));
        assert(lower_seq(v@.take(i + 1)) =~= lower_seq(v@.take(i as int)).push(ascii_lower(v@[i as int])));
        i = i + 1;
    }
    assert(v@.take(v.len() as int) =~= v@);
    r
}

/// Lowering a character changes only ASCII capitals, into small letters.
pub proof fn lemma_lower_char(c: char)
    ensures
        is_ascii_upper(c) ==> is_ascii_lower(ascii_lower(c)),
        !is_ascii_upper(c) ==> ascii_lower(c) == c,
        ascii_lower(ascii_lower(c)) == ascii_lower(c),
        is_ws(ascii_lower(c)) == is_ws(c),
        is_ascii_digit(ascii_lower(c)) == is_ascii_digit(c),
        (ascii_lower(c) == ';') == (c == ';'),
        (ascii_lower(c) == ',') == (c == ','),
        (ascii_lower(c) == '*') == (c == '*'),
        (ascii_lower(c) == '+') == (c == '+'),
{
    if is_ascii_upper(c) {
        let u = c as u32;
        assert(65 <= u <= 90);
        assert(97 <= ((u + 32) as char) as u32 <= 122);
    }
}

pub proof fn lemma_lower_lower(s: Seq<char>)
    ensures
        lower_seq(lower_seq(s)) == lower_seq(s),
{
    assert forall|i: int| 0 <= i < s.len() implies lower_seq(lower_seq(s))[i] == lower_seq(s)[i] by {
        lemma_lower_char(s[i]);
    }
    assert(lower_seq(lower_seq(s)) =~= lower_seq(s));
}

pub proof fn lemma_lower_subrange(s: Seq<char>, a: int, b: int)
    requires
        0 <= a <= b <= s.len(),
    ensures
        lower_seq(s.subrange(a, b)) == lower_seq(s).subrange(a, b),
{
    assert(lower_seq(s.subrange(a, b)) =~= lower_seq(s).subrange(a, b));
}

pub proof fn lemma_lower_trim_start(s: Seq<char>)
    ensures
        lower_seq(trim_start(s)) == trim_start(lower_seq(s)),
    decreases s.len(),
{
    if s.len() > 0 {
        lemma_lower_char(s[0]);
        assert(lower_seq(s).drop_first() =~= lower_seq(s.drop_first()));
        if is_ws(s[0]) {
            lemma_lower_trim_start(s.drop_first());
        }
    }
}

pub proof fn lemma_lower_trim_end(s: Seq<char>)
    ensures
        lower_seq(trim_end(s)) == trim_end(lower_seq(s)),
    decreases s.len(),
{
    if s.len() > 0 {
        lemma_lower_char(s.last());
        assert(lower_seq(s).drop_last() =~= lower_seq(s.drop_last()));
        if is_ws(s.last()) {
            lemma_lower_trim_end(s.drop_last());
        }
    }
}

pub proof fn lemma_lower_trim(s: Seq<char>)
    ensures
        lower_seq(trim(s)) == trim(lower_seq(s)),
{
    lemma_lower_trim_start(s);
    lemma_lower_trim_end(trim_start(s));
}

pub proof fn lemma_lower_strip(s: Seq<char>)
    ensures
        lower_seq(strip_trailing(s, ';')) == strip_trailing(lower_seq(s), ';'),
    decreases s.len(),
{
    if s.len() > 0 {
        lemma_lower_char(s.last());
        assert(lower_seq(s).drop_last() =~= lower_seq(s.drop_last()));
        if s.last() == ';' {
            lemma_lower_strip(s.drop_last());
        }
    }
}

/// `k` occurs in `h` at position `i`.
pub open spec fn occurs_at(h: Seq<char>, k: Seq<char>, i: int) -> bool {
    0 <= i && i + k.len() <= h.len() && h.subrange(i, i + k.len()) == k
}

/// Position of the first occurrence of `k` in `h` (`str::find`).
#[verifier::opaque]
pub open spec fn find(h: Seq<char>, k: Seq<char>) -> Option<int> {
    if exists|i: int| occurs_at(h, k, i) {
        Some(choose|i: int| occurs_at(h, k, i) && forall|j: int| 0 <= j < i ==> !occurs_at(h, k, j))
    } else {
        None
    }
}

proof fn lemma_find_first(h: Seq<char>, k: Seq<char>, i: int)
    requires
        occurs_at(h, k, i),
        forall|j: int| 0 <= j < i ==> !occurs_at(h, k, j),
    ensures
        find(h, k) == Some(i),
{
    reveal(find);
    let w = choose|w: int| occurs_at(h, k, w) && forall|j: int| 0 <= j < w ==> !occurs_at(h, k, j);
    assert(occurs_at(h, k, w) && forall|j: int| 0 <= j < w ==> !occurs_at(h, k, j));
    if w < i {
        assert(!occurs_at(h, k, w));
    }
    if i < w {
        assert(!occurs_at(h, k, i));
    }
}

proof fn lemma_min_occurrence(h: Seq<char>, k: Seq<char>, i: int)
    requires
        occurs_at(h, k, i),
    ensures
        exists|m: int| occurs_at(h, k, m) && forall|j: int| 0 <= j < m ==> !occurs_at(h, k, j),
    decreases i,
{
    if exists|j: int| 0 <= j < i && occurs_at(h, k, j) {
        let j = choose|j: int| 0 <= j < i && occurs_at(h, k, j);
        lemma_min_occurrence(h, k, j);
    } else {
        assert(occurs_at(h, k, i) && forall|j: int| 0 <= j < i ==> !occurs_at(h, k, j));
    }
}

/// Where `find` points, `k` occurs.
pub proof fn lemma_find_occurs(h: Seq<char>, k: Seq<char>)
    ensures
        find(h, k) matches Some(i) ==> occurs_at(h, k, i),
{
    reveal(find);
    if exists|i: int| occurs_at(h, k, i) {
        let i = choose|i: int| occurs_at(h, k, i);
        lemma_min_occurrence(h, k, i);
    }
}

fn matches_at(h: &[char], k: &[char], i: usize) -> (r: bool)
    requires
        i + k@.len() <= h@.len(),
    ensures
        r == occurs_at(h@, k@, i as int),
{
    let hl = h.len();
    let mut j: usize = 0;
    while j < k.len()
        invariant
            j <= k@.len(),
            hl == h@.len(),
            i + k@.len() <= h@.len(),
            forall|m: int| 0 <= m < j ==> h@[i + m] == k@[m],
        decreases k.len() - j,
    {
        if h[i + j] != k[j] {
            assert(h@.subrange(i as int, i + k@.len())[j as int] != k@[j as int]);
            return false;
        }
        j = j + 1;
    }
    assert(h@.subrange(i as int, i + k@.len()) =~= k@);
    true
}

/// First position of `k` in `h`.
pub fn find_chars(h: &[char], k: &[char]) -> (r: Option<usize>)
    ensures
        match r {
            Some(i) => find(h@, k@) == Some(i as int) && occurs_at(h@, k@, i as int),
            None => find(h@, k@) is None,
        },
{
    reveal(find);
    if k.len() > h.len() {
        assert forall|i: int| !occurs_at(h@, k@, i) by {}
        return None;
    }
    let mut i: usize = 0;
    let last = h.len() - k.len();
    loop
        invariant
            i <= last,
            last + k@.len() == h@.len(),
            forall|j: int| 0 <= j < i ==> !occurs_at(h@, k@, j),
        ensures
            forall|j: int| 0 <= j <= last ==> !occurs_at(h@, k@, j),
        decreases last - i,
    {
        if matches_at(h, k, i) {
            proof {
                lemma_find_first(h@, k@, i as int);
            }
            return Some(i);
        }
        if i == last {
            break;
        }
        i = i + 1;
    }
    assert forall|j: int| !occurs_at(h@, k@, j) by {
        if 0 <= j <= last {
        }
    }
    None
}

/// The pieces of `s` between occurrences of `sep` (`str::split` with one character).
pub open spec fn split_on(s: Seq<char>, sep: char) -> Seq<Seq<char>>
    decreases s.len(),
{
    if s.len() == 0 {
        seq![Seq::empty()]
    } else {
        let rest = split_on(s.drop_last(), sep);
        if s.last() == sep {
            rest.push(Seq::empty())
        } else {
            rest.update(rest.len() - 1, rest.last().push(s.last()))
        }
    }
}

proof fn lemma_split_on_nonempty(s: Seq<char>, sep: char)
    ensures
        split_on(s, sep).len() >= 1,
    decreases s.len(),
{
    if s.len() > 0 {
        lemma_split_on_nonempty(s.drop_last(), sep);
    }
}

/// Splits `v` at every `sep` (`str::split`).
pub fn split_chars(v: &[char], sep: char) -> (r: Vec<Vec<char>>)
    ensures
        r@.len() == split_on(v@, sep).len(),
        forall|i: int| 0 <= i < r@.len() ==> #[trigger] r@[i]@ == split_on(v@, sep)[i],
{
    let mut r: Vec<Vec<char>> = Vec::new();
    let mut cur: Vec<char> = Vec::new();
    let mut i: usize = 0;
    while i < v.len()
        invariant
            i <= v.len(),
            r@.len() + 1 == split_on(v@.take(i as int), sep).len(),
            forall|j: int| 0 <= j < r@.len() ==> #[trigger] r@[j]@ == split_on(v@.take(i as int), sep)[j],
            cur@ == split_on(v@.take(i as int), sep).last(),
        decreases v.len() - i,
    {
        proof {
            lemma_split_on_nonempty(v@.take(i as int), sep);
            assert(v@.take(i + 1).drop_last() =~= v@.take(i as int));
        }
        if v[i] == sep {
            let done = cur;
            r.push(done);
            cur = Vec::new();
        } else {
            cur.push(v[i]);
        }
        i = i + 1;
    }
    r.push(cur);
    assert(v@.take(v.len() as int) =~= v@);
    r
}

/// The character of a decimal digit.
pub open spec fn digit_char(d: nat) -> char {
    (48 + d) as char
}

/// Decimal rendering of a natural number (`u64::to_string`).
pub open spec fn decimal(n: nat) -> Seq<char>
    decreases n,
{
    if n < 10 {
        seq![digit_char(n)]
    } else {
        decimal(n / 10).push(digit_char(n % 10))
    }
}

fn digit(d: u64) -> (c: char)
    requires
        d < 10,
    ensures
        c == digit_char(d as nat),
{
    let b: u8 = d as u8;
    let c: u8 = b + 48;
    c as char
}

/// Appends the decimal rendering of `n`.
pub fn push_decimal(s: &mut String, n: u64)
    ensures
        final(s)@ == old(s)@ + decimal(n as nat),
    decreases n,
{
    if n >= 10 {
        push_decimal(s, n / 10);
    }
    let ghost mid = s@;
    push_char(s, digit(n % 10));
    assert(old(s)@ + decimal(n as nat) =~= mid.push(digit_char((n % 10) as nat)));
}

/// Decimal rendering of `n`.
pub fn u64_to_string(n: u64) -> (s: String)
    ensures
        s@ == decimal(n as nat),
{
    let mut s = String::new();
    push_decimal(&mut s, n);
    assert(Seq::<char>::empty() + decimal(n as nat) =~= decimal(n as nat));
    s
}

/// Value of a digit character.
pub open spec fn digit_value(c: char) -> nat {
    (c as int - 48) as nat
}

/// Value of a sequence of decimal digits.
pub open spec fn digits_value(s: Seq<char>) -> nat
    decreases s.len(),
{
    if s.len() == 0 {
        0
    } else {
        digits_value(s.drop_last()) * 10 + digit_value(s.last())
    }
}

pub open spec fn all_digits(s: Seq<char>) -> bool {
    forall|i: int| 0 <= i < s.len() ==> is_ascii_digit(#[trigger] s[i])
}

/// The digits of an unsigned number written with an optional leading `+`.
pub open spec fn unsigned_digits(s: Seq<char>) -> Seq<char> {
    if s.len() > 0 && s[0] == '+' {
        s.drop_first()
    } else {
        s
    }
}

/// `str::parse::<usize>`: an optional `+`, then at least one ASCII digit,
/// with a value that fits in `usize`.
pub open spec fn parse_usize(s: Seq<char>) -> Option<nat> {
    let d = unsigned_digits(s);
    if d.len() > 0 && all_digits(d) && digits_value(d) <= usize::MAX {
        Some(digits_value(d))
    } else {
        None
    }
}

proof fn lemma_digits_value_prefix(s: Seq<char>, i: int)
    requires
        0 <= i <= s.len(),
        all_digits(s),
    ensures
        digits_value(s.take(i)) <= digits_value(s),
    decreases s.len() - i,
{
    if i < s.len() {
        lemma_digits_value_prefix(s, i + 1);
        assert(s.take(i + 1).drop_last() =~= s.take(i));
        assert(digits_value(s.take(i + 1)) == digits_value(s.take(i)) * 10 + digit_value(s[i]));
    } else {
        assert(s.take(i) =~= s);
    }
}

/// Parses a decimal `usize` as `str::parse` does.
pub fn parse_usize_chars(v: &[char]) -> (r: Option<usize>)
    ensures
        match r {
            Some(n) => parse_usize(v@) == Some(n as nat),
            None => parse_usize(v@) is None,
        },
{
    let start: usize = if v.len() > 0 && v[0] == '+' { 1 } else { 0 };
    let ghost d = unsigned_digits(v@);
    assert(d =~= v@.subrange(start as int, v@.len() as int));
    if start >= v.len() {
        return None;
    }
    let mut acc: usize = 0;
    let mut i: usize = start;
    while i < v.len()
        invariant
            start <= i <= v@.len(),
            d == unsigned_digits(v@),
            d == v@.subrange(start as int, v@.len() as int),
            forall|j: int| 0 <= j < i - start ==> is_ascii_digit(#[trigger] d[j]),
            acc as nat == digits_value(d.take(i - start)),
        decreases v.len() - i,
    {
        let c = v[i];
        if !('0' <= c && c <= '9') {
            assert(!is_ascii_digit(d[i - start]));
            return None;
        }
        let x: u32 = c as u32;
        let dv: u8 = (x as u8) - 48;
        proof {
            assert(d.take(i - start + 1).drop_last() =~= d.take(i - start));
        }
        match acc.checked_mul(10) {
            Some(m) => match m.checked_add(dv as usize) {
                Some(n) => {
                    acc = n;
                },
                None => {
                    proof {
                        assert(all_digits(d.take(i - start + 1)));
                        if all_digits(d) {
                            lemma_digits_value_prefix(d, i - start + 1);
                        }
                    }
                    return None;
                },
            },
            None => {
                proof {
                    if all_digits(d) {
                        lemma_digits_value_prefix(d, i - start + 1);
                    }
                }
                return None;
            },
        }
        i = i + 1;
    }
    assert(d.take(d.len() as int) =~= d);
    Some(acc)
}

/// Lexicographic order of character sequences (the order of `String`).
pub open spec fn seq_lt(a: Seq<char>, b: Seq<char>) -> bool
    decreases a.len(),
{
    if a.len() == 0 {
        b.len() > 0
    } else if b.len() == 0 {
        false
    } else if a[0] < b[0] {
        true
    } else if a[0] == b[0] {
        seq_lt(a.drop_first(), b.drop_first())
    } else {
        false
    }
}

pub proof fn lemma_seq_lt_trans(a: Seq<char>, b: Seq<char>, c: Seq<char>)
    requires
        seq_lt(a, b),
        seq_lt(b, c),
    ensures
        seq_lt(a, c),
    decreases a.len(),
{
    if a.len() > 0 && b.len() > 0 && c.len() > 0 && a[0] == b[0] && b[0] == c[0] {
        lemma_seq_lt_trans(a.drop_first(), b.drop_first(), c.drop_first());
    }
}

pub proof fn lemma_seq_lt_total(a: Seq<char>, b: Seq<char>)
    ensures
        a == b || seq_lt(a, b) || seq_lt(b, a),
    decreases a.len(),
{
    if a.len() > 0 && b.len() > 0 && a[0] == b[0] {
        lemma_seq_lt_total(a.drop_first(), b.drop_first());
        if a.drop_first() == b.drop_first() {
            assert(a =~= seq![a[0]] + a.drop_first());
            assert(b =~= seq![b[0]] + b.drop_first());
        }
    } else if a.len() == 0 && b.len() == 0 {
        assert(a =~= b);
    }
}

/// Strictly increasing: sorted, and no entry twice.
pub open spec fn sorted_strict(s: Seq<Seq<char>>) -> bool {
    forall|i: int, j: int| 0 <= i < j < s.len() ==> seq_lt(#[trigger] s[i], #[trigger] s[j])
}

/// Whether `a` comes before `b`.
pub fn str_lt(a: &str, b: &str) -> (r: bool)
    ensures
        r == seq_lt(a@, b@),
{
    let x = chars_of(a);
    let y = chars_of(b);
    let mut i: usize = 0;
    assert(x@.skip(0) =~= x@);
    assert(y@.skip(0) =~= y@);
    while i < x.len() && i < y.len() && x[i] == y[i]
        invariant
            i <= x@.len(),
            i <= y@.len(),
            seq_lt(x@, y@) == seq_lt(x@.skip(i as int), y@.skip(i as int)),
        decreases x.len() - i,
    {
        assert(x@.skip(i as int).drop_first() =~= x@.skip(i + 1));
        assert(y@.skip(i as int).drop_first() =~= y@.skip(i + 1));
        i = i + 1;
    }
    if i == x.len() {
        i < y.len()
    } else if i == y.len() {
        false
    } else {
        x[i] < y[i]
    }
}

pub open spec fn strs(v: Seq<String>) -> Seq<Seq<char>> {
    v.map_values(|s: String| s@)
}

proof fn lemma_insert_to_set<A>(s: Seq<A>, p: int, x: A)
    requires
        0 <= p <= s.len(),
    ensures
        s.insert(p, x).to_set() == s.to_set().insert(x),
{
    let t = s.insert(p, x);
    assert forall|e: A| t.to_set().contains(e) <==> s.to_set().insert(x).contains(e) by {
        if t.to_set().contains(e) {
            let k = choose|k: int| 0 <= k < t.len() && t[k] == e;
            if k < p {
                assert(s[k] == e);
            } else if k > p {
                assert(s[k - 1] == e);
            }
        }
        if s.to_set().contains(e) {
            let k = choose|k: int| 0 <= k < s.len() && s[k] == e;
            if k < p {
                assert(t[k] == e);
            } else {
                assert(t[k + 1] == e);
            }
        }
        if e == x {
            assert(t[p] == x);
        }
    }
    assert(t.to_set() =~= s.to_set().insert(x));
}

proof fn lemma_push_to_set<A>(s: Seq<A>, x: A)
    ensures
        s.push(x).to_set() == s.to_set().insert(x),
{
    lemma_insert_to_set(s, s.len() as int, x);
    assert(s.insert(s.len() as int, x) =~= s.push(x));
}

/// The distinct strings of `v`, in increasing order (a sort followed by a dedup).
pub fn sorted_distinct(v: &Vec<String>) -> (r: Vec<String>)
    ensures
        sorted_strict(strs(r@)),
        strs(r@).to_set() == strs(v@).to_set(),
{
    let mut out: Vec<String> = Vec::new();
    let mut i: usize = 0;
    assert(strs(v@).take(0).to_set() =~= Set::<Seq<char>>::empty());
    assert(strs(out@).to_set() =~= Set::<Seq<char>>::empty());
    while i < v.len()
        invariant
            i <= v@.len(),
            sorted_strict(strs(out@)),
            strs(out@).to_set() == strs(v@).take(i as int).to_set(),
        decreases v.len() - i,
    {
        let x = &v[i];
        let mut p: usize = 0;
        while p < out.len() && str_lt(out[p].as_str(), x.as_str())
            invariant
                p <= out@.len(),
                forall|j: int| 0 <= j < p ==> seq_lt(#[trigger] strs(out@)[j], x@),
            decreases out.len() - p,
        {
            p = p + 1;
        }
        assert(strs(v@).take(i + 1) =~= strs(v@).take(i as int).push(x@));
        if p < out.len() && str_eq(out[p].as_str(), x.as_str()) {
            assert(strs(out@)[p as int] == x@);
            assert(strs(out@).to_set() =~= strs(v@).take(i + 1).to_set());
        } else {
            let ghost before = strs(out@);
            proof {
                if p < out@.len() {
                    lemma_seq_lt_total(before[p as int], x@);
                    assert(seq_lt(x@, before[p as int]));
                }
            }
            out.insert(p, x.clone());
            assert(strs(out@) =~= before.insert(p as int, x@));
            assert forall|a: int, b: int| 0 <= a < b < strs(out@).len() implies seq_lt(#[trigger] strs(out@)[a], #[trigger] strs(out@)[b]) by {
                if b < p {
                } else if a < p && b == p {
                } else if a < p && b > p {
                    assert(seq_lt(before[a], x@));
                    if b - 1 > p {
                        lemma_seq_lt_trans(x@, before[p as int], before[b - 1]);
                    }
                    lemma_seq_lt_trans(before[a], x@, before[b - 1]);
                } else if a == p {
                    if b - 1 > p {
                        lemma_seq_lt_trans(x@, before[p as int], before[b - 1]);
                    }
                } else {
                }
            }
            proof {
                lemma_insert_to_set(before, p as int, x@);
                lemma_push_to_set(strs(v@).take(i as int), x@);
            }
            assert(strs(out@).to_set() =~= strs(v@).take(i + 1).to_set());
        }
        i = i + 1;
    }
    assert(strs(v@).take(i as int) =~= strs(v@));
    out
}

/// One step of `Seq::filter` over a growing prefix.
pub proof fn lemma_filter_take_step<A>(s: Seq<A>, p: spec_fn(A) -> bool, i: int)
    requires
        0 <= i < s.len(),
    ensures
        s.take(i + 1).filter(p) == (if p(s[i]) {
            s.take(i).filter(p).push(s[i])
        } else {
            s.take(i).filter(p)
        }),
{
    assert(s.take(i + 1).drop_last() =~= s.take(i));
    assert(s.take(i + 1).last() == s[i]);
    reveal_with_fuel(Seq::filter, 1);
}

pub open spec fn lower_all(ps: Seq<Seq<char>>) -> Seq<Seq<char>> {
    ps.map_values(|p: Seq<char>| lower_seq(p))
}

pub proof fn lemma_lower_split(s: Seq<char>)
    ensures
        split_on(lower_seq(s), ',') == lower_all(split_on(s, ',')),
    decreases s.len(),
{
    assert(lower_seq(Seq::<char>::empty()) =~= Seq::<char>::empty());
    if s.len() == 0 {
        assert(lower_seq(s) =~= s);
        assert(lower_all(split_on(s, ',')) =~= seq![Seq::<char>::empty()]);
    } else {
        let ls = lower_seq(s);
        lemma_lower_char(s.last());
        assert(ls.drop_last() =~= lower_seq(s.drop_last()));
        lemma_lower_split(s.drop_last());
        lemma_split_on_nonempty(s.drop_last(), ',');
        let rest = split_on(s.drop_last(), ',');
        let lrest = lower_all(rest);
        if s.last() == ',' {
            assert(lower_all(rest.push(Seq::empty())) =~= lrest.push(Seq::empty()));
        } else {
            let n = rest.len() - 1;
            assert(lower_seq(rest.last().push(s.last())) =~= lrest.last().push(ls.last()));
            assert(lower_all(rest.update(n, rest.last().push(s.last()))) =~= lrest.update(
                n,
                lrest.last().push(ls.last()),
            ));
        }
    }
}

/// Letter case does not change what a number parses to.
pub proof fn lemma_lower_parse_usize(x: Seq<char>)
    ensures
        parse_usize(lower_seq(x)) == parse_usize(x),
{
    let lx = lower_seq(x);
    if x.len() > 0 {
        lemma_lower_char(x[0]);
    }
    let d = unsigned_digits(x);
    let ld = unsigned_digits(lx);
    assert(ld =~= lower_seq(d));
    assert forall|i: int| 0 <= i < d.len() implies is_ascii_digit(#[trigger] ld[i]) == is_ascii_digit(d[i]) by {
        lemma_lower_char(d[i]);
    }
    if all_digits(d) {
        assert forall|i: int| 0 <= i < d.len() implies ld[i] == d[i] by {
            lemma_lower_char(d[i]);
        }
        assert(ld =~= d);
    } else {
        let i = choose|i: int| 0 <= i < d.len() && !is_ascii_digit(d[i]);
        assert(!is_ascii_digit(ld[i]));
    }
}

/// All characters of `s` are whitespace.
pub open spec fn all_ws(s: Seq<char>) -> bool {
    forall|i: int| 0 <= i < s.len() ==> is_ws(#[trigger] s[i])
}

/// All characters of `s` are `c`.
pub open spec fn all_char(s: Seq<char>, c: char) -> bool {
    forall|i: int| 0 <= i < s.len() ==> #[trigger] s[i] == c
}

pub proof fn lemma_trim_start_append(x: Seq<char>, y: Seq<char>)
    ensures
        trim_start(x).len() > 0 ==> trim_start(x + y) == trim_start(x) + y,
        trim_start(x).len() == 0 ==> trim_start(x + y) == trim_start(y),
    decreases x.len(),
{
    if x.len() == 0 {
        assert(x + y =~= y);
    } else {
        assert((x + y).drop_first() =~= x.drop_first() + y);
        assert((x + y)[0] == x[0]);
        if is_ws(x[0]) {
            lemma_trim_start_append(x.drop_first(), y);
        }
    }
}

pub proof fn lemma_trim_start_fixed(v: Seq<char>)
    requires
        v.len() == 0 || !is_ws(v[0]),
    ensures
        trim_start(v) == v,
{
}

pub proof fn lemma_trim_start_idem(s: Seq<char>)
    ensures
        trim_start(trim_start(s)) == trim_start(s),
        trim_start(s).len() > 0 ==> !is_ws(trim_start(s)[0]),
    decreases s.len(),
{
    if s.len() > 0 && is_ws(s[0]) {
        lemma_trim_start_idem(s.drop_first());
    }
}

pub proof fn lemma_trim_end_ws_suffix(x: Seq<char>, y: Seq<char>)
    requires
        all_ws(y),
    ensures
        trim_end(x + y) == trim_end(x),
    decreases y.len(),
{
    if y.len() == 0 {
        assert(x + y =~= x);
    } else {
        assert((x + y).drop_last() =~= x + y.drop_last());
        assert((x + y).last() == y.last());
        lemma_trim_end_ws_suffix(x, y.drop_last());
    }
}

pub proof fn lemma_trim_end_idem_start(v: Seq<char>)
    ensures
        trim_end(trim_end(v)) == trim_end(v),
        trim_end(v).len() > 0 ==> !is_ws(trim_end(v).last()),
        (v.len() > 0 && !is_ws(v[0])) ==> trim_end(v).len() > 0 && trim_end(v)[0] == v[0],
    decreases v.len(),
{
    if v.len() > 0 && is_ws(v.last()) {
        lemma_trim_end_idem_start(v.drop_last());
        if v.len() > 0 && !is_ws(v[0]) {
            assert(v.len() > 1);
            assert(v.drop_last()[0] == v[0]);
        }
    }
}

pub proof fn lemma_trim_start_all_ws(p: Seq<char>)
    requires
        all_ws(p),
    ensures
        trim_start(p).len() == 0,
    decreases p.len(),
{
    if p.len() > 0 {
        assert(is_ws(p[0]));
        assert forall|i: int| 0 <= i < p.drop_first().len() implies is_ws(#[trigger] p.drop_first()[i]) by {
            assert(p.drop_first()[i] == p[i + 1]);
        }
        lemma_trim_start_all_ws(p.drop_first());
    }
}

pub proof fn lemma_trim_start_last(s: Seq<char>)
    ensures
        trim_start(s).len() > 0 ==> trim_start(s).last() == s.last(),
    decreases s.len(),
{
    if s.len() > 0 && is_ws(s[0]) {
        lemma_trim_start_last(s.drop_first());
    }
}

pub proof fn lemma_strip_suffix(x: Seq<char>, y: Seq<char>)
    requires
        all_char(y, ';'),
    ensures
        strip_trailing(x + y, ';') == strip_trailing(x, ';'),
    decreases y.len(),
{
    if y.len() == 0 {
        assert(x + y =~= x);
    } else {
        assert((x + y).drop_last() =~= x + y.drop_last());
        assert((x + y).last() == y.last());
        lemma_strip_suffix(x, y.drop_last());
    }
}

} // verus!
