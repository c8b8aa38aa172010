//! Character-level text handling shared by the `/proc`, `/sys` and command-output
//! parsers: a model of the `str` operations they rely on (trimming, splitting into
//! lines, words and fields, prefix tests, integer parsing and printing) over `Seq<char>`,
//! with executable versions working on `Vec<char>`.
use vstd::prelude::*;

verus! {

broadcast use vstd::string::group_string_axioms;

// ---------------------------------------------------------------------------
// Whitespace and trimming
// ---------------------------------------------------------------------------

/// A character with the Unicode `White_Space` property, which is what
/// `char::is_whitespace`, `str::trim` and `str::split_whitespace` use.
pub open spec fn is_ws(c: char) -> bool {
    let u = c as u32;
    ||| 0x09 <= u <= 0x0D
    ||| u == 0x20
    ||| u == 0x85
    ||| u == 0xA0
    ||| u == 0x1680
    ||| 0x2000 <= u <= 0x200A
    ||| u == 0x2028
    ||| u == 0x2029
    ||| u == 0x202F
    ||| u == 0x205F
    ||| u == 0x3000
}

pub fn is_ws_char(c: char) -> (b: bool)
    ensures
        b == is_ws(c),
{
    let u = c as u32;
    (0x09 <= u && u <= 0x0D) || u == 0x20 || u == 0x85 || u == 0xA0 || u == 0x1680 || (0x2000
        <= u && u <= 0x200A) || u == 0x2028 || u == 0x2029 || u == 0x202F || u == 0x205F || u
        == 0x3000
}

/// `s` with its leading whitespace removed (`str::trim_start`).
pub open spec fn trim_start(s: Seq<char>) -> Seq<char>
    decreases s.len(),
{
    if s.len() > 0 && is_ws(s[0]) {
        trim_start(s.drop_first())
    } else {
        s
    }
}

/// `s` with its trailing whitespace removed (`str::trim_end`).
pub open spec fn trim_end(s: Seq<char>) -> Seq<char>
    decreases s.len(),
{
    if s.len() > 0 && is_ws(s.last()) {
        trim_end(s.drop_last())
    } else {
        s
    }
}

/// `s` with leading and trailing whitespace removed (`str::trim`).
pub open spec fn trim(s: Seq<char>) -> Seq<char> {
    trim_end(trim_start(s))
}

pub fn trim_start_chars(s: &[char]) -> (r: Vec<char>)
    ensures
        r@ == trim_start(s@),
{
    let mut i: usize = 0;
    assert(s@.skip(0) =~= s@);
    while i < s.len() && is_ws_char(s[i])
        invariant
            i <= s.len(),
            trim_start(s@) == trim_start(s@.skip(i as int)),
        decreases s.len() - i,
    {
        assert(s@.skip(i as int).drop_first() =~= s@.skip(i + 1));
        i = i + 1;
    }
    let mut r: Vec<char> = Vec::new();
    let mut j: usize = i;
    while j < s.len()
        invariant
            i <= j <= s.len(),
            r@ == s@.subrange(i as int, j as int),
        decreases s.len() - j,
    {
        r.push(s[j]);
        j = j + 1;
        assert(r@ =~= s@.subrange(i as int, j as int));
    }
    assert(r@ =~= s@.skip(i as int));
    r
}

pub fn trim_end_chars(s: &[char]) -> (r: Vec<char>)
    ensures
        r@ == trim_end(s@),
{
    let mut n: usize = s.len();
    assert(s@.take(s.len() as int) =~= s@);
    while n > 0 && is_ws_char(s[n - 1])
        invariant
            n <= s.len(),
            trim_end(s@) == trim_end(s@.take(n as int)),
        decreases n,
    {
        assert(s@.take(n as int).drop_last() =~= s@.take(n - 1));
        n = n - 1;
    }
    let r = prefix(s, n);
    r
}

pub fn trim_chars(s: &[char]) -> (r: Vec<char>)
    ensures
        r@ == trim(s@),
{
    let a = trim_start_chars(s);
    trim_end_chars(a.as_slice())
}

// ---------------------------------------------------------------------------
// Copies of pieces
// ---------------------------------------------------------------------------

/// The first `n` characters of `s`.
pub fn prefix(s: &[char], n: usize) -> (r: Vec<char>)
    requires
        n <= s.len(),
    ensures
        r@ == s@.take(n as int),
{
    slice_chars(s, 0, n)
}

/// The characters of `s` from index `a` up to (not including) `b`.
pub fn slice_chars(s: &[char], a: usize, b: usize) -> (r: Vec<char>)
    requires
        a <= b <= s.len(),
    ensures
        r@ == s@.subrange(a as int, b as int),
{
    let mut r: Vec<char> = Vec::new();
    let mut j: usize = a;
    while j < b
        invariant
            a <= j <= b <= s.len(),
            r@ == s@.subrange(a as int, j as int),
        decreases b - j,
    {
        r.push(s[j]);
        j = j + 1;
        assert(r@ =~= s@.subrange(a as int, j as int));
    }
    r
}

/// Builds a `Vec<char>` holding the characters of `s`.
pub fn chars_of(s: &str) -> (v: Vec<char>)
    ensures
        v@ == s@,
{
    let mut v: Vec<char> = Vec::new();
    for c in it: s.chars()
        invariant
            it.seq() == s@,
            v@ == s@.take(it.index() as int),
    {
        v.push(c);
    }
    assert(v@ =~= s@);
    v
}

/// Collects characters into a `String` through `FromIterator<&char> for String`
/// (`Iterator::collect` over the slice's iterator). What is claimed: the string holds exactly the given
/// characters, in order.
#[verifier::external_body]
pub(crate) fn string_of(v: &[char]) -> (s: String)
    ensures
        s@ == v@,
{
    v.iter().collect()
}

/// Appends the characters of `b` to `a`.
pub fn append_chars(a: &mut Vec<char>, b: &[char])
    ensures
        final(a)@ == old(a)@ + b@,
{
    let ghost a0 = a@;
    let mut j: usize = 0;
    while j < b.len()
        invariant
            j <= b.len(),
            a@ == a0 + b@.take(j as int),
        decreases b.len() - j,
    {
        a.push(b[j]);
        j = j + 1;
        assert(a@ =~= a0 + b@.take(j as int));
    }
    assert(b@.take(b.len() as int) =~= b@);
}

/// Whether two character sequences are equal.
pub fn chars_eq(a: &[char], b: &[char]) -> (r: bool)
    ensures
        r == (a@ == b@),
{
    if a.len() != b.len() {
        return false;
    }
    let mut i: usize = 0;
    while i < a.len()
        invariant
            a.len() == b.len(),
            i <= a.len(),
            forall|k: int| 0 <= k < i ==> a@[k] == b@[k],
        decreases a.len() - i,
    {
        if a[i] != b[i] {
            return false;
        }
        i = i + 1;
    }
    assert(a@ =~= b@);
    true
}

/// Whether `s` equals the string `lit`.
pub fn chars_eq_str(s: &[char], lit: &str) -> (r: bool)
    ensures
        r == (s@ == lit@),
{
    let l = chars_of(lit);
    chars_eq(s, l.as_slice())
}

// ---------------------------------------------------------------------------
// Prefixes, suffixes, containment
// ---------------------------------------------------------------------------

/// `str::starts_with` with a string pattern.
pub open spec fn starts_with(s: Seq<char>, p: Seq<char>) -> bool {
    p.len() <= s.len() && s.take(p.len() as int) == p
}

/// `str::ends_with` with a string pattern.
pub open spec fn ends_with(s: Seq<char>, p: Seq<char>) -> bool {
    p.len() <= s.len() && s.skip(s.len() - p.len()) == p
}

/// `sub` occurs in `s` starting at index `i`.
pub open spec fn occurs_at(s: Seq<char>, sub: Seq<char>, i: int) -> bool {
    0 <= i && i + sub.len() <= s.len() && s.subrange(i, i + sub.len()) == sub
}

/// `str::contains` with a string pattern.
#[verifier::opaque]
pub open spec fn contains(s: Seq<char>, sub: Seq<char>) -> bool {
    exists|i: int| occurs_at(s, sub, i)
}

/// Index of the first occurrence of `sub` in `s` (`str::find`).
#[verifier::opaque]
pub open spec fn find(s: Seq<char>, sub: Seq<char>) -> Option<int> {
    if contains(s, sub) {
        Some(
            choose|i: int|
                occurs_at(s, sub, i) && forall|j: int| 0 <= j < i ==> !occurs_at(s, sub, j),
        )
    } else {
        None
    }
}

pub fn starts_with_chars(s: &[char], p: &[char]) -> (r: bool)
    ensures
        r == starts_with(s@, p@),
{
    if p.len() > s.len() {
        return false;
    }
    let mut i: usize = 0;
    while i < p.len()
        invariant
            p.len() <= s.len(),
            i <= p.len(),
            forall|k: int| 0 <= k < i ==> s@[k] == p@[k],
        decreases p.len() - i,
    {
        if s[i] != p[i] {
            assert(s@.take(p.len() as int)[i as int] != p@[i as int]);
            return false;
        }
        i = i + 1;
    }
    assert(s@.take(p.len() as int) =~= p@);
    true
}

pub fn starts_with_str(s: &[char], lit: &str) -> (r: bool)
    ensures
        r == starts_with(s@, lit@),
{
    let p = chars_of(lit);
    starts_with_chars(s, p.as_slice())
}

pub fn ends_with_chars(s: &[char], p: &[char]) -> (r: bool)
    ensures
        r == ends_with(s@, p@),
{
    if p.len() > s.len() {
        return false;
    }
    let off = s.len() - p.len();
    let mut i: usize = 0;
    while i < p.len()
        invariant
            p.len() <= s.len(),
            off == s.len() - p.len(),
            i <= p.len(),
            forall|k: int| 0 <= k < i ==> s@[off + k] == p@[k],
        decreases p.len() - i,
    {
        if s[off + i] != p[i] {
            assert(s@.skip(off as int)[i as int] != p@[i as int]);
            return false;
        }
        i = i + 1;
    }
    assert(s@.skip(off as int) =~= p@);
    true
}

/// Whether `sub` occurs at index `i` of `s`.
pub fn occurs_at_chars(s: &[char], sub: &[char], i: usize) -> (r: bool)
    ensures
        r == occurs_at(s@, sub@, i as int),
{
    if i > s.len() || sub.len() > s.len() - i {
        return false;
    }
    let mut k: usize = 0;
    while k < sub.len()
        invariant
            i + sub.len() <= s.len(),
            k <= sub.len(),
            forall|m: int| 0 <= m < k ==> s@[i + m] == sub@[m],
        decreases sub.len() - k,
    {
        if s[i + k] != sub[k] {
            assert(s@.subrange(i as int, i + sub.len())[k as int] != sub@[k as int]);
            return false;
        }
        k = k + 1;
    }
    assert(s@.subrange(i as int, i + sub.len()) =~= sub@);
    true
}

/// Index of the first occurrence of `sub` in `s`.
pub fn find_chars(s: &[char], sub: &[char]) -> (r: Option<usize>)
    ensures
        r matches Some(i) ==> find(s@, sub@) == Some(i as int) && occurs_at(s@, sub@, i as int)
            && contains(s@, sub@),
        r is None ==> find(s@, sub@) is None && !contains(s@, sub@),
{
    reveal(find);
    reveal(contains);
    if sub.len() > s.len() {
        assert forall|j: int| !occurs_at(s@, sub@, j) by {}
        return None;
    }
    let last = s.len() - sub.len();
    let mut i: usize = 0;
    loop
        invariant
            last == s.len() - sub.len(),
            i <= last,
            forall|j: int| 0 <= j < i ==> !occurs_at(s@, sub@, j),
        decreases last - i,
    {
        let b = occurs_at_chars(s, sub, i);
        if b {
            proof {
                reveal(find);
                reveal(contains);
                let w = choose|w: int|
                    occurs_at(s@, sub@, w) && forall|j: int| 0 <= j < w ==> !occurs_at(
                        s@,
                        sub@,
                        j,
                    );
                assert(contains(s@, sub@));
                assert(occurs_at(s@, sub@, w));
                if w > i {
                    assert(!occurs_at(s@, sub@, i as int));
                }
            }
            return Some(i);
        }
        if i == last {
            proof {
                reveal(find);
                reveal(contains);
                assert forall|j: int| !occurs_at(s@, sub@, j) by {
                    if 0 <= j && j + sub@.len() <= s@.len() {
                        assert(j <= i);
                    }
                }
            }
            return None;
        }
        i = i + 1;
    }
}

pub fn contains_chars(s: &[char], sub: &[char]) -> (r: bool)
    ensures
        r == contains(s@, sub@),
{
    match find_chars(s, sub) {
        Some(i) => true,
        None => false,
    }
}

pub fn contains_str(s: &[char], lit: &str) -> (r: bool)
    ensures
        r == contains(s@, lit@),
{
    let p = chars_of(lit);
    contains_chars(s, p.as_slice())
}

// ---------------------------------------------------------------------------
// Splitting
// ---------------------------------------------------------------------------

/// The views of a sequence of character vectors.
pub open spec fn views(v: Seq<Vec<char>>) -> Seq<Seq<char>> {
    Seq::new(v.len(), |i: int| v[i]@)
}

/// The pieces of `s` between occurrences of `c` (`str::split` with a `char`):
/// always at least one piece, empty pieces included.
pub open spec fn split_char(s: Seq<char>, c: char) -> Seq<Seq<char>>
    decreases s.len(),
{
    if s.len() == 0 {
        seq![Seq::empty()]
    } else {
        let p = split_char(s.drop_last(), c);
        if s.last() == c {
            p.push(Seq::empty())
        } else {
            p.update(p.len() - 1, p.last().push(s.last()))
        }
    }
}

pub proof fn lemma_split_char_nonempty(s: Seq<char>, c: char)
    ensures
        split_char(s, c).len() >= 1,
    decreases s.len(),
{
    if s.len() > 0 {
        lemma_split_char_nonempty(s.drop_last(), c);
    }
}

/// The `n`-th piece of `s` split at `c` (`s.split(c).nth(n)`).
pub open spec fn split_nth(s: Seq<char>, c: char, n: int) -> Option<Seq<char>> {
    if 0 <= n < split_char(s, c).len() {
        Some(split_char(s, c)[n])
    } else {
        None
    }
}

/// A line without the `'\r'` of a `"\r\n"` ending.
pub open spec fn strip_cr(l: Seq<char>) -> Seq<char> {
    if l.len() > 0 && l.last() == '\r' {
        l.drop_last()
    } else {
        l
    }
}

/// The lines of `s` (`str::lines`): split at `'\n'`, a `'\r'` before the `'\n'` is
/// dropped, and a final line ending adds no empty line.
pub open spec fn lines(s: Seq<char>) -> Seq<Seq<char>> {
    let p = split_char(s, '\n');
    let body = if p.last().len() == 0 {
        p.drop_last()
    } else {
        p
    };
    Seq::new(
        body.len(),
        |i: int|
            if i < p.len() - 1 {
                strip_cr(body[i])
            } else {
                body[i]
            },
    )
}

/// The whitespace-separated words of `s` (`str::split_whitespace`).
pub open spec fn tokens(s: Seq<char>) -> Seq<Seq<char>>
    decreases s.len(),
{
    if s.len() == 0 {
        seq![]
    } else {
        let t = tokens(s.drop_last());
        let c = s.last();
        if is_ws(c) {
            t
        } else if s.len() >= 2 && !is_ws(s[s.len() - 2]) {
            t.update(t.len() - 1, t.last().push(c))
        } else {
            t.push(seq![c])
        }
    }
}

pub proof fn lemma_tokens_nonempty(s: Seq<char>)
    requires
        s.len() > 0,
        !is_ws(s.last()),
    ensures
        tokens(s).len() >= 1,
    decreases s.len(),
{
    if s.len() >= 2 && !is_ws(s[s.len() - 2]) {
        lemma_tokens_nonempty(s.drop_last());
    }
}

/// `s.split_whitespace().nth(n)`.
pub open spec fn token_nth(s: Seq<char>, n: int) -> Option<Seq<char>> {
    if 0 <= n < tokens(s).len() {
        Some(tokens(s)[n])
    } else {
        None
    }
}

pub fn split_chars(s: &[char], c: char) -> (r: Vec<Vec<char>>)
    ensures
        views(r@) == split_char(s@, c),
{
    let mut done: Vec<Vec<char>> = Vec::new();
    let mut cur: Vec<char> = Vec::new();
    let mut i: usize = 0;
    assert(s@.take(0) =~= Seq::<char>::empty());
    assert(views(done@).push(cur@) =~= split_char(s@.take(0), c));
    while i < s.len()
        invariant
            i <= s.len(),
            views(done@).push(cur@) == split_char(s@.take(i as int), c),
        decreases s.len() - i,
    {
        let ghost prev = s@.take(i as int);
        assert(s@.take(i + 1).drop_last() =~= prev);
        proof {
            lemma_split_char_nonempty(prev, c);
        }
        if s[i] == c {
            let mut fresh: Vec<char> = Vec::new();
            std::mem::swap(&mut cur, &mut fresh);
            done.push(fresh);
            assert(views(done@).push(cur@) =~= split_char(s@.take(i + 1), c));
        } else {
            cur.push(s[i]);
            assert(views(done@).push(cur@) =~= split_char(s@.take(i + 1), c));
        }
        i = i + 1;
    }
    assert(s@.take(s.len() as int) =~= s@);
    done.push(cur);
    assert(views(done@) =~= split_char(s@, c));
    done
}

pub fn strip_cr_chars(l: Vec<char>) -> (r: Vec<char>)
    ensures
        r@ == strip_cr(l@),
{
    let mut l = l;
    if l.len() > 0 && l[l.len() - 1] == '\r' {
        l.pop();
    }
    l
}

pub fn split_lines(s: &[char]) -> (r: Vec<Vec<char>>)
    ensures
        views(r@) == lines(s@),
{
    let mut p = split_chars(s, '\n');
    proof {
        lemma_split_char_nonempty(s@, '\n');
    }
    let ghost p0 = views(p@);
    let n = p.len();
    if p[n - 1].len() == 0 {
        p.pop();
    }
    let ghost body = views(p@);
    assert(body =~= (if p0.last().len() == 0 {
        p0.drop_last()
    } else {
        p0
    }));
    let mut out: Vec<Vec<char>> = Vec::new();
    let mut k: usize = 0;
    while k < p.len()
        invariant
            k <= p.len(),
            body == views(p@),
            body.len() <= p0.len(),
            n == p0.len(),
            views(out@) == Seq::new(
                k as nat,
                |i: int|
                    if i < p0.len() - 1 {
                        strip_cr(body[i])
                    } else {
                        body[i]
                    },
            ),
        decreases p.len() - k,
    {
        let piece = copy_chars(p[k].as_slice());
        assert(piece@ == body[k as int]);
        let ghost prev_out = views(out@);
        if k + 1 < n {
            let stripped = strip_cr_chars(piece);
            out.push(stripped);
            assert(views(out@) =~= prev_out.push(strip_cr(body[k as int])));
        } else {
            out.push(piece);
            assert(views(out@) =~= prev_out.push(body[k as int]));
        }
        k = k + 1;
        assert(views(out@) =~= Seq::new(
            k as nat,
            |i: int|
                if i < p0.len() - 1 {
                    strip_cr(body[i])
                } else {
                    body[i]
                },
        ));
    }
    assert(views(out@) =~= lines(s@));
    out
}

/// A copy of `s`.
pub fn copy_chars(s: &[char]) -> (r: Vec<char>)
    ensures
        r@ == s@,
{
    let r = slice_chars(s, 0, s.len());
    assert(s@.subrange(0, s.len() as int) =~= s@);
    r
}

pub fn split_tokens(s: &[char]) -> (r: Vec<Vec<char>>)
    ensures
        views(r@) == tokens(s@),
{
    let mut done: Vec<Vec<char>> = Vec::new();
    let mut cur: Vec<char> = Vec::new();
    let mut in_tok = false;
    let mut i: usize = 0;
    assert(s@.take(0) =~= Seq::<char>::empty());
    while i < s.len()
        invariant
            i <= s.len(),
            in_tok == (i > 0 && !is_ws(s@[i - 1])),
            in_tok ==> cur@.len() > 0,
            !in_tok ==> cur@.len() == 0,
            tokens(s@.take(i as int)) == (if in_tok {
                views(done@).push(cur@)
            } else {
                views(done@)
            }),
        decreases s.len() - i,
    {
        let ghost prev = s@.take(i as int);
        let ghost next = s@.take(i + 1);
        assert(next.drop_last() =~= prev);
        assert(next.last() == s@[i as int]);
        if is_ws_char(s[i]) {
            if in_tok {
                let mut fresh: Vec<char> = Vec::new();
                std::mem::swap(&mut cur, &mut fresh);
                done.push(fresh);
                assert(views(done@) =~= tokens(prev));
            }
            in_tok = false;
        } else {
            if in_tok {
                assert(next[next.len() - 2] == s@[i - 1]);
                let ghost t = views(done@).push(cur@);
                cur.push(s[i]);
                assert(views(done@).push(cur@) =~= t.update(t.len() - 1, t.last().push(s@[i as int])));
            } else {
                cur.push(s[i]);
                assert(cur@ =~= seq![s@[i as int]]);
            }
            in_tok = true;
        }
        i = i + 1;
    }
    assert(s@.take(s.len() as int) =~= s@);
    if in_tok {
        done.push(cur);
    }
    assert(views(done@) =~= tokens(s@));
    done
}

// ---------------------------------------------------------------------------
// Integers
// ---------------------------------------------------------------------------

pub open spec fn is_digit(c: char) -> bool {
    48 <= (c as u32) <= 57
}

pub open spec fn digit_val(c: char) -> nat {
    ((c as u32) - 48) as nat
}

pub open spec fn all_digits(s: Seq<char>) -> bool {
    forall|i: int| 0 <= i < s.len() ==> is_digit(#[trigger] s[i])
}

/// The number written in decimal by the digits `s`.
pub open spec fn digits_value(s: Seq<char>) -> nat
    decreases s.len(),
{
    if s.len() == 0 {
        0
    } else {
        digits_value(s.drop_last()) * 10 + digit_val(s.last())
    }
}

/// The digits of an unsigned number, after an optional `'+'`.
pub open spec fn unsigned_body(s: Seq<char>) -> Seq<char> {
    if s.len() > 0 && s[0] == '+' {
        s.drop_first()
    } else {
        s
    }
}

/// The value that `str::parse` gives for an unsigned integer type, before the range
/// check: an optional `'+'` followed by at least one decimal digit, nothing else.
pub open spec fn parse_nat(s: Seq<char>) -> Option<nat> {
    let b = unsigned_body(s);
    if b.len() > 0 && all_digits(b) {
        Some(digits_value(b))
    } else {
        None
    }
}

/// `str::parse` for an unsigned integer type whose largest value is `max`.
pub open spec fn parse_upto(s: Seq<char>, max: nat) -> Option<nat> {
    match parse_nat(s) {
        Some(v) => if v <= max {
            Some(v)
        } else {
            None
        },
        None => None,
    }
}

/// `str::parse::<u64>`.
pub open spec fn parse_u64(s: Seq<char>) -> Option<u64> {
    match parse_upto(s, u64::MAX as nat) {
        Some(v) => Some(v as u64),
        None => None,
    }
}

/// `str::parse::<usize>`.
pub open spec fn parse_usize(s: Seq<char>) -> Option<usize> {
    match parse_upto(s, usize::MAX as nat) {
        Some(v) => Some(v as usize),
        None => None,
    }
}

/// `str::parse::<u32>`.
pub open spec fn parse_u32(s: Seq<char>) -> Option<u32> {
    match parse_upto(s, u32::MAX as nat) {
        Some(v) => Some(v as u32),
        None => None,
    }
}

/// The value that `str::parse` gives for a signed integer type, before the range
/// check: an optional `'+'` or `'-'` followed by at least one decimal digit.
pub open spec fn parse_int(s: Seq<char>) -> Option<int> {
    if s.len() > 0 && s[0] == '-' {
        let b = s.drop_first();
        if b.len() > 0 && all_digits(b) {
            Some(-(digits_value(b) as int))
        } else {
            None
        }
    } else {
        match parse_nat(s) {
            Some(v) => Some(v as int),
            None => None,
        }
    }
}

/// `str::parse::<i64>`.
pub open spec fn parse_i64(s: Seq<char>) -> Option<i64> {
    match parse_int(s) {
        Some(v) => if i64::MIN <= v <= i64::MAX {
            Some(v as i64)
        } else {
            None
        },
        None => None,
    }
}

/// `str::parse::<i32>`.
pub open spec fn parse_i32(s: Seq<char>) -> Option<i32> {
    match parse_int(s) {
        Some(v) => if i32::MIN <= v <= i32::MAX {
            Some(v as i32)
        } else {
            None
        },
        None => None,
    }
}

pub proof fn lemma_digits_prefix_le(s: Seq<char>, k: int)
    requires
        0 <= k <= s.len(),
    ensures
        digits_value(s.take(k)) <= digits_value(s),
    decreases s.len(),
{
    if k < s.len() {
        assert(s.drop_last().take(k) =~= s.take(k));
        lemma_digits_prefix_le(s.drop_last(), k);
    } else {
        assert(s.take(k) =~= s);
    }
}

pub fn is_digit_char(c: char) -> (b: bool)
    ensures
        b == is_digit(c),
{
    let u = c as u32;
    48 <= u && u <= 57
}

/// The value of the decimal digits `s` if it is at most `max`.
fn digits_upto(s: &[char], max: u64) -> (r: Option<u64>)
    requires
        s.len() > 0,
    ensures
        r matches Some(v) ==> all_digits(s@) && v == digits_value(s@) && v <= max,
        r is None ==> !all_digits(s@) || digits_value(s@) > max,
{
    let mut acc: u64 = 0;
    let mut i: usize = 0;
    assert(s@.take(0) =~= Seq::<char>::empty());
    while i < s.len()
        invariant
            i <= s.len(),
            all_digits(s@.take(i as int)),
            acc == digits_value(s@.take(i as int)),
            acc <= max,
        decreases s.len() - i,
    {
        let c = s[i];
        if !is_digit_char(c) {
            return None;
        }
        let d = (c as u32 - 48) as u64;
        assert(s@.take(i + 1).drop_last() =~= s@.take(i as int));
        assert(s@.take(i + 1).last() == c);
        if d > max {
            proof {
                if all_digits(s@) {
                    lemma_digits_prefix_le(s@, i + 1);
                }
            }
            return None;
        }
        if acc > (max - d) / 10 {
            proof {
                assert(acc * 10 + d > max) by (nonlinear_arith)
                    requires
                        acc > (max - d) / 10,
                        d <= 9,
                        d <= max,
                ;
                if all_digits(s@) {
                    lemma_digits_prefix_le(s@, i + 1);
                }
            }
            return None;
        }
        assert(acc * 10 + d <= max) by (nonlinear_arith)
            requires
                acc <= (max - d) / 10,
                d <= max,
        ;
        acc = acc * 10 + d;
        i = i + 1;
        assert forall|k: int| 0 <= k < i implies is_digit(#[trigger] s@.take(i as int)[k]) by {
            if k < i - 1 {
                assert(s@.take(i as int)[k] == s@.take(i - 1)[k]);
            }
        }
    }
    assert(s@.take(s.len() as int) =~= s@);
    Some(acc)
}

/// `str::parse` for an unsigned integer type whose largest value is `max`.
pub fn parse_upto_chars(s: &[char], max: u64) -> (r: Option<u64>)
    ensures
        r matches Some(v) ==> parse_upto(s@, max as nat) == Some(v as nat),
        r is None ==> parse_upto(s@, max as nat) is None,
{
    if s.len() > 0 && s[0] == '+' {
        let b = slice_chars(s, 1, s.len());
        assert(b@ =~= s@.drop_first());
        if b.len() == 0 {
            return None;
        }
        digits_upto(b.as_slice(), max)
    } else {
        if s.len() == 0 {
            return None;
        }
        digits_upto(s, max)
    }
}

pub fn parse_u64_chars(s: &[char]) -> (r: Option<u64>)
    ensures
        r == parse_u64(s@),
{
    parse_upto_chars(s, u64::MAX)
}

pub fn parse_usize_chars(s: &[char]) -> (r: Option<usize>)
    ensures
        r == parse_usize(s@),
{
    match parse_upto_chars(s, usize::MAX as u64) {
        Some(v) => Some(v as usize),
        None => None,
    }
}

pub fn parse_u32_chars(s: &[char]) -> (r: Option<u32>)
    ensures
        r == parse_u32(s@),
{
    match parse_upto_chars(s, u32::MAX as u64) {
        Some(v) => Some(v as u32),
        None => None,
    }
}

/// Sign and magnitude of a signed decimal, the magnitude at most `neg_max` when
/// negative and `pos_max` otherwise.
fn parse_signed_parts(s: &[char], neg_max: u64, pos_max: u64) -> (r: Option<(bool, u64)>)
    ensures
        r matches Some((neg, m)) ==> parse_int(s@) == Some(if neg {
            -(m as int)
        } else {
            m as int
        }) && (if neg {
            m <= neg_max
        } else {
            m <= pos_max
        }),
        r is None ==> parse_int(s@) is None || parse_int(s@)->0 < -(neg_max as int)
            || parse_int(s@)->0 > pos_max as int,
{
    if s.len() > 0 && s[0] == '-' {
        let b = slice_chars(s, 1, s.len());
        assert(b@ =~= s@.drop_first());
        if b.len() == 0 {
            return None;
        }
        match digits_upto(b.as_slice(), neg_max) {
            Some(m) => Some((true, m)),
            None => None,
        }
    } else {
        match parse_upto_chars(s, pos_max) {
            Some(m) => Some((false, m)),
            None => None,
        }
    }
}

pub fn parse_i64_chars(s: &[char]) -> (r: Option<i64>)
    ensures
        r == parse_i64(s@),
{
    match parse_signed_parts(s, 0x8000_0000_0000_0000u64, 0x7fff_ffff_ffff_ffffu64) {
        Some((neg, m)) => {
            if neg {
                if m == 0x8000_0000_0000_0000u64 {
                    Some(i64::MIN)
                } else {
                    Some(-(m as i64))
                }
            } else {
                Some(m as i64)
            }
        },
        None => None,
    }
}

pub fn parse_i32_chars(s: &[char]) -> (r: Option<i32>)
    ensures
        r == parse_i32(s@),
{
    match parse_signed_parts(s, 0x8000_0000u64, 0x7fff_ffffu64) {
        Some((neg, m)) => {
            if neg {
                if m == 0x8000_0000u64 {
                    Some(i32::MIN)
                } else {
                    Some(-(m as i32))
                }
            } else {
                Some(m as i32)
            }
        },
        None => None,
    }
}

/// The decimal digit character for `d < 10`.
pub open spec fn digit_char(d: nat) -> char {
    ((d + 48) as u32) as char
}

/// The decimal numeral of `n`, without leading zeros (`u64::to_string`).
pub open spec fn decimal(n: nat) -> Seq<char>
    decreases n,
{
    if n < 10 {
        seq![digit_char(n)]
    } else {
        decimal(n / 10).push(digit_char(n % 10))
    }
}

pub fn decimal_chars(n: u64) -> (r: Vec<char>)
    ensures
        r@ == decimal(n as nat),
    decreases n,
{
    let d = (n % 10) as u8;
    let c = (48u8 + d) as char;
    assert(c == digit_char((n % 10) as nat));
    if n < 10 {
        let mut v: Vec<char> = Vec::new();
        v.push(c);
        assert(v@ =~= seq![digit_char(n as nat)]);
        v
    } else {
        let mut v = decimal_chars(n / 10);
        v.push(c);
        v
    }
}

/// The decimal numeral of a signed number (`i32::to_string`).
pub open spec fn signed_decimal(n: int) -> Seq<char> {
    if n < 0 {
        seq!['-'] + decimal((-n) as nat)
    } else {
        decimal(n as nat)
    }
}

pub fn signed_decimal_chars(n: i32) -> (r: Vec<char>)
    ensures
        r@ == signed_decimal(n as int),
{
    if n < 0 {
        let m: u64 = (-(n as i64)) as u64;
        let d = decimal_chars(m);
        let mut v: Vec<char> = Vec::new();
        v.push('-');
        append_chars(&mut v, d.as_slice());
        assert(v@ =~= seq!['-'] + decimal((-n) as nat));
        v
    } else {
        decimal_chars(n as u64)
    }
}

// ---------------------------------------------------------------------------
// First match, splitting at a string, lowercase
// ---------------------------------------------------------------------------

/// Index of the first element of `s` satisfying `p`.
pub open spec fn first_index<T>(s: Seq<T>, p: spec_fn(T) -> bool) -> Option<int> {
    if exists|i: int| 0 <= i < s.len() && p(s[i]) {
        Some(choose|i: int| 0 <= i < s.len() && p(s[i]) && forall|j: int| 0 <= j < i ==> !p(s[j]))
    } else {
        None
    }
}

pub proof fn lemma_first_index_at<T>(s: Seq<T>, p: spec_fn(T) -> bool, i: int)
    requires
        0 <= i < s.len(),
        p(s[i]),
        forall|j: int| 0 <= j < i ==> !p(s[j]),
    ensures
        first_index(s, p) == Some(i),
{
    let w = choose|w: int| 0 <= w < s.len() && p(s[w]) && forall|j: int| 0 <= j < w ==> !p(s[j]);
    assert(0 <= w < s.len() && p(s[w]) && forall|j: int| 0 <= j < w ==> !p(s[j]));
    if w < i {
    } else if w > i {
        assert(!p(s[i]));
    }
}

pub proof fn lemma_first_index_none<T>(s: Seq<T>, p: spec_fn(T) -> bool)
    requires
        forall|j: int| 0 <= j < s.len() ==> !p(s[j]),
    ensures
        first_index(s, p) is None,
{
}

/// The pieces of `s` between the non-overlapping occurrences of `pat`, found from
/// left to right (`str::split` with a string pattern).
pub open spec fn split_str(s: Seq<char>, pat: Seq<char>) -> Seq<Seq<char>>
    recommends
        pat.len() > 0,
    decreases s.len(),
{
    match find(s, pat) {
        Some(i) => if pat.len() > 0 && 0 <= i && i + pat.len() <= s.len() {
            seq![s.take(i)] + split_str(s.skip(i + pat.len()), pat)
        } else {
            seq![s]
        },
        None => seq![s],
    }
}

pub fn split_str_chars(s: &[char], pat: &[char]) -> (r: Vec<Vec<char>>)
    requires
        pat.len() > 0,
    ensures
        views(r@) == split_str(s@, pat@),
{
    let mut done: Vec<Vec<char>> = Vec::new();
    let mut rest = copy_chars(s);
    loop
        invariant
            pat.len() > 0,
            split_str(s@, pat@) == views(done@) + split_str(rest@, pat@),
        decreases rest@.len(),
    {
        let ghost cur = rest@;
        match find_chars(rest.as_slice(), pat) {
            Some(i) => {
                assert(occurs_at(cur, pat@, i as int));
                assert(i + pat@.len() <= cur.len());
                assert(i + pat.len() <= rest.len());
                assert(split_str(cur, pat@) == seq![cur.take(i as int)] + split_str(
                    cur.skip(i + pat@.len()),
                    pat@,
                ));
                let piece = prefix(rest.as_slice(), i);
                let tail = slice_chars(rest.as_slice(), i + pat.len(), rest.len());
                assert(tail@ =~= cur.skip(i + pat.len()));
                let ghost before = views(done@);
                done.push(piece);
                assert(views(done@) =~= before.push(cur.take(i as int)));
                assert(views(done@) + split_str(tail@, pat@) =~= before + split_str(cur, pat@));
                rest = tail;
            },
            None => {
                assert(split_str(cur, pat@) == seq![cur]);
                let ghost before = views(done@);
                done.push(rest);
                assert(views(done@) =~= before + seq![cur]);
                return done;
            },
        }
    }
}

/// A name for what `str::to_lowercase` returns for `s`.
pub uninterp spec fn lowercase(s: Seq<char>) -> Seq<char>;

/// Every character is ASCII.
pub open spec fn all_ascii(s: Seq<char>) -> bool {
    forall|i: int| 0 <= i < s.len() ==> (#[trigger] s[i] as u32) < 128
}

/// `s` with the ASCII capitals `A`-`Z` replaced by `a`-`z`, other characters kept.
pub open spec fn ascii_lower(s: Seq<char>) -> Seq<char> {
    Seq::new(
        s.len(),
        |i: int|
            if 'A' <= s[i] && s[i] <= 'Z' {
                ((s[i] as u32) + 32) as char
            } else {
                s[i]
            },
    )
}

/// The lowercase form of `s`, by `str::to_lowercase`. What is claimed: the result is
/// a function of the characters of `s` alone, named `lowercase`, and for ASCII text
/// it is the text with its capitals lowercased letter by letter (the Unicode lowercase
/// mapping of ASCII); the mapping of other characters is left unsaid.
#[verifier::external_body]
pub(crate) fn to_lowercase_of(s: &str) -> (r: String)
    ensures
        r@ == lowercase(s@),
        all_ascii(s@) ==> r@ == ascii_lower(s@),
{
    s.to_lowercase()
}

/// Lowercase form of a character vector.
pub fn lowercase_chars(s: &[char]) -> (r: Vec<char>)
    ensures
        r@ == lowercase(s@),
        all_ascii(s@) ==> r@ == ascii_lower(s@),
{
    let st = string_of(s);
    let low = to_lowercase_of(st.as_str());
    chars_of(low.as_str())
}

/// Index of the first line of `ls` that starts with `key`.
pub open spec fn line_starting(ls: Seq<Seq<char>>, key: Seq<char>) -> Option<int> {
    first_index(ls, |l: Seq<char>| starts_with(l, key))
}

pub fn line_starting_exec(ls: &Vec<Vec<char>>, key: &str) -> (r: Option<usize>)
    ensures
        r matches Some(i) ==> line_starting(views(ls@), key@) == Some(i as int) && i < ls@.len()
            && starts_with(ls@[i as int]@, key@),
        r is None ==> line_starting(views(ls@), key@) is None,
{
    let ghost p = |l: Seq<char>| starts_with(l, key@);
    let mut i: usize = 0;
    while i < ls.len()
        invariant
            i <= ls.len(),
            p == (|l: Seq<char>| starts_with(l, key@)),
            forall|j: int| 0 <= j < i ==> !p(#[trigger] views(ls@)[j]),
        decreases ls.len() - i,
    {
        assert(views(ls@)[i as int] == ls@[i as int]@);
        if starts_with_str(ls[i].as_slice(), key) {
            proof {
                lemma_first_index_at(views(ls@), p, i as int);
            }
            return Some(i);
        }
        i = i + 1;
    }
    proof {
        lemma_first_index_none(views(ls@), p);
    }
    None
}

/// `s.split(c).nth(n)`.
pub fn split_nth_chars(s: &[char], c: char, n: usize) -> (r: Option<Vec<char>>)
    ensures
        r matches Some(v) ==> split_nth(s@, c, n as int) == Some(v@),
        r is None ==> split_nth(s@, c, n as int) is None,
{
    let pieces = split_chars(s, c);
    if n < pieces.len() {
        assert(views(pieces@)[n as int] == pieces@[n as int]@);
        Some(copy_chars(pieces[n].as_slice()))
    } else {
        None
    }
}

/// `s.split_whitespace().nth(n)`.
pub fn token_nth_chars(s: &[char], n: usize) -> (r: Option<Vec<char>>)
    ensures
        r matches Some(v) ==> token_nth(s@, n as int) == Some(v@),
        r is None ==> token_nth(s@, n as int) is None,
{
    let toks = split_tokens(s);
    if n < toks.len() {
        assert(views(toks@)[n as int] == toks@[n as int]@);
        Some(copy_chars(toks[n].as_slice()))
    } else {
        None
    }
}

/// The trimmed text after the first `':'` of the first line of `content` that starts
/// with `key` (`lines().find(starts_with(key)).and_then(split(':').nth(1)).map(trim)`).
pub open spec fn colon_value(content: Seq<char>, key: Seq<char>) -> Option<Seq<char>> {
    match line_starting(lines(content), key) {
        Some(i) => match split_nth(lines(content)[i], ':', 1) {
            Some(v) => Some(trim(v)),
            None => None,
        },
        None => None,
    }
}

pub fn colon_value_exec(content: &[char], key: &str) -> (r: Option<Vec<char>>)
    ensures
        r matches Some(v) ==> colon_value(content@, key@) == Some(v@),
        r is None ==> colon_value(content@, key@) is None,
{
    let ls = split_lines(content);
    match line_starting_exec(&ls, key) {
        Some(i) => {
            assert(views(ls@)[i as int] == ls@[i as int]@);
            match split_nth_chars(ls[i].as_slice(), ':', 1) {
                Some(v) => Some(trim_chars(v.as_slice())),
                None => None,
            }
        },
        None => None,
    }
}

/// `a` sorts before `b` (`String` order: character by character, a prefix first).
pub open spec fn lex_lt(a: Seq<char>, b: Seq<char>) -> bool
    decreases a.len(),
{
    if a.len() == 0 {
        b.len() > 0
    } else if b.len() == 0 {
        false
    } else if a[0] != b[0] {
        (a[0] as u32) < (b[0] as u32)
    } else {
        lex_lt(a.drop_first(), b.drop_first())
    }
}

/// Whether `a` sorts before `b`.
pub fn lex_lt_exec(a: &[char], b: &[char]) -> (r: bool)
    ensures
        r == lex_lt(a@, b@),
{
    let mut i: usize = 0;
    assert(a@.skip(0) =~= a@);
    assert(b@.skip(0) =~= b@);
    loop
        invariant
            i <= a.len(),
            i <= b.len(),
            lex_lt(a@, b@) == lex_lt(a@.skip(i as int), b@.skip(i as int)),
        decreases a.len() - i,
    {
        if i == a.len() {
            return i < b.len();
        }
        if i == b.len() {
            return false;
        }
        if a[i] != b[i] {
            return (a[i] as u32) < (b[i] as u32);
        }
        assert(a@.skip(i as int).drop_first() =~= a@.skip(i + 1));
        assert(b@.skip(i as int).drop_first() =~= b@.skip(i + 1));
        i = i + 1;
    }
}

/// The views of a list of strings.
pub open spec fn string_seq(v: Seq<String>) -> Seq<Seq<char>> {
    Seq::new(v.len(), |i: int| v[i]@)
}

/// Number of leading names that do not sort after `x`.
pub open spec fn count_not_after(s: Seq<Seq<char>>, x: Seq<char>) -> nat
    decreases s.len(),
{
    if s.len() == 0 || lex_lt(x, s[0]) {
        0
    } else {
        1 + count_not_after(s.drop_first(), x)
    }
}

/// `s` in `String` order, equal names keeping their order (a stable insertion sort).
pub open spec fn sort_names_spec(s: Seq<Seq<char>>) -> Seq<Seq<char>>
    decreases s.len(),
{
    if s.len() == 0 {
        seq![]
    } else {
        let r = sort_names_spec(s.drop_last());
        let k = count_not_after(r, s.last()) as int;
        r.take(k).push(s.last()) + r.skip(k)
    }
}

fn name_insert_position(sorted: &Vec<String>, x: &str) -> (r: usize)
    ensures
        r == count_not_after(string_seq(sorted@), x@),
        r <= sorted@.len(),
{
    let ghost s = string_seq(sorted@);
    let xc = chars_of(x);
    let mut j: usize = 0;
    assert(s.skip(0) =~= s);
    loop
        invariant
            j <= sorted@.len(),
            s == string_seq(sorted@),
            xc@ == x@,
            count_not_after(s, x@) == j + count_not_after(s.skip(j as int), x@),
        decreases sorted@.len() - j,
    {
        if j == sorted.len() {
            return j;
        }
        let e = chars_of(sorted[j].as_str());
        assert(s.skip(j as int)[0] == sorted@[j as int]@);
        if lex_lt_exec(xc.as_slice(), e.as_slice()) {
            return j;
        }
        assert(s.skip(j as int).drop_first() =~= s.skip(j + 1));
        j = j + 1;
    }
}

/// The names in `String` order (as `sort` orders them).
pub fn sort_names(names: Vec<String>) -> (r: Vec<String>)
    ensures
        string_seq(r@) == sort_names_spec(string_seq(names@)),
{
    let ghost input = string_seq(names@);
    let mut names = names;
    let mut rev: Vec<String> = Vec::new();
    while names.len() > 0
        invariant
            string_seq(names@) + string_seq(rev@).reverse() == input,
        decreases names.len(),
    {
        let ghost before_n = string_seq(names@);
        let ghost before_r = string_seq(rev@);
        let x = names.pop().unwrap();
        rev.push(x);
        assert(string_seq(names@) =~= before_n.drop_last());
        assert(string_seq(rev@) =~= before_r.push(x@));
        assert(string_seq(names@) + string_seq(rev@).reverse() =~= before_n + before_r.reverse());
    }
    assert(string_seq(rev@).reverse() =~= input);
    let mut out: Vec<String> = Vec::new();
    let ghost total = rev@.len();
    assert(input.take(0) =~= Seq::<Seq<char>>::empty());
    while rev.len() > 0
        invariant
            total == input.len(),
            rev@.len() <= total,
            string_seq(rev@).reverse() == input.skip(total - rev@.len()),
            string_seq(out@) == sort_names_spec(input.take(total - rev@.len())),
        decreases rev.len(),
    {
        let ghost done = total - rev@.len();
        let ghost before_r = string_seq(rev@);
        let x = rev.pop().unwrap();
        assert(x@ == input[done]) by {
            assert(before_r.reverse()[0] == before_r[before_r.len() - 1]);
        }
        assert(string_seq(rev@) =~= before_r.drop_last());
        assert(string_seq(rev@).reverse() =~= input.skip(done + 1)) by {
            assert forall|k: int| 0 <= k < string_seq(rev@).len() implies string_seq(rev@).reverse()[k] == input.skip(done + 1)[k] by {
                assert(before_r.reverse()[k + 1] == input.skip(done)[k + 1]);
            }
        }
        let pos = name_insert_position(&out, x.as_str());
        let ghost before_o = string_seq(out@);
        out.insert(pos, x);
        assert(input.take(done + 1).drop_last() =~= input.take(done));
        assert(input.take(done + 1).last() == input[done]);
        assert(string_seq(out@) =~= before_o.take(pos as int).push(x@) + before_o.skip(pos as int));
    }
    assert(input.take(total as int) =~= input);
    out
}

pub proof fn lemma_lex_irreflexive(a: Seq<char>)
    ensures
        !lex_lt(a, a),
    decreases a.len(),
{
    if a.len() > 0 {
        lemma_lex_irreflexive(a.drop_first());
    }
}

pub proof fn lemma_lex_total(a: Seq<char>, b: Seq<char>)
    ensures
        a != b ==> lex_lt(a, b) || lex_lt(b, a),
        !(lex_lt(a, b) && lex_lt(b, a)),
    decreases a.len(),
{
    if a.len() > 0 && b.len() > 0 {
        lemma_lex_total(a.drop_first(), b.drop_first());
        if a != b && a[0] == b[0] {
            assert(a.drop_first() != b.drop_first()) by {
                if a.drop_first() == b.drop_first() {
                    assert(a =~= seq![a[0]] + a.drop_first());
                    assert(b =~= seq![b[0]] + b.drop_first());
                }
            }
        }
        if a[0] != b[0] {
            vstd::utf8::char_u32_cast(a[0], a[0] as u32);
            vstd::utf8::char_u32_cast(b[0], b[0] as u32);
            assert((a[0] as u32) != (b[0] as u32));
        }
    } else if a.len() == 0 && b.len() == 0 {
        assert(a =~= b);
    }
}

pub proof fn lemma_lex_transitive(a: Seq<char>, b: Seq<char>, c: Seq<char>)
    requires
        lex_lt(a, b),
        lex_lt(b, c),
    ensures
        lex_lt(a, c),
    decreases a.len(),
{
    if a.len() > 0 && b.len() > 0 && c.len() > 0 && a[0] == b[0] && b[0] == c[0] {
        lemma_lex_transitive(a.drop_first(), b.drop_first(), c.drop_first());
    }
}

/// `s` is in `String` order.
pub open spec fn names_sorted(s: Seq<Seq<char>>) -> bool {
    forall|i: int, j: int| 0 <= i < j < s.len() ==> !lex_lt(#[trigger] s[j], #[trigger] s[i])
}

proof fn lemma_count_not_after_bounds(s: Seq<Seq<char>>, x: Seq<char>)
    requires
        names_sorted(s),
    ensures
        count_not_after(s, x) <= s.len(),
        forall|i: int| 0 <= i < count_not_after(s, x) ==> !lex_lt(x, #[trigger] s[i]),
        forall|i: int| count_not_after(s, x) <= i < s.len() ==> lex_lt(x, #[trigger] s[i]),
    decreases s.len(),
{
    if s.len() > 0 {
        let t = s.drop_first();
        assert(names_sorted(t)) by {
            assert forall|i: int, j: int| 0 <= i < j < t.len() implies !lex_lt(#[trigger] t[j], #[trigger] t[i]) by {
                assert(t[i] == s[i + 1] && t[j] == s[j + 1]);
            }
        }
        lemma_count_not_after_bounds(t, x);
        if lex_lt(x, s[0]) {
            assert forall|i: int| 0 <= i < s.len() implies lex_lt(x, #[trigger] s[i]) by {
                if i > 0 {
                    lemma_lex_total(s[0], s[i]);
                    if s[0] != s[i] {
                        lemma_lex_transitive(x, s[0], s[i]);
                    }
                }
            }
        } else {
            assert forall|i: int| 0 <= i < count_not_after(s, x) implies !lex_lt(x, #[trigger] s[i]) by {
                if i > 0 {
                    assert(s[i] == t[i - 1]);
                }
            }
            assert forall|i: int| count_not_after(s, x) <= i < s.len() implies lex_lt(x, #[trigger] s[i]) by {
                assert(s[i] == t[i - 1]);
            }
        }
    }
}

proof fn lemma_insert_name(s: Seq<Seq<char>>, x: Seq<char>)
    requires
        names_sorted(s),
    ensures
        names_sorted(s.take(count_not_after(s, x) as int).push(x) + s.skip(count_not_after(s, x) as int)),
        (s.take(count_not_after(s, x) as int).push(x) + s.skip(count_not_after(s, x) as int)).to_multiset()
            == s.to_multiset().insert(x),
{
    let k = count_not_after(s, x) as int;
    lemma_count_not_after_bounds(s, x);
    let r = s.take(k).push(x) + s.skip(k);
    assert forall|i: int, j: int| 0 <= i < j < r.len() implies !lex_lt(#[trigger] r[j], #[trigger] r[i]) by {
        if j < k {
            assert(r[i] == s[i] && r[j] == s[j]);
        } else if j == k {
            assert(r[j] == x && r[i] == s[i]);
        } else {
            assert(r[j] == s[j - 1]);
            if i < k {
                assert(r[i] == s[i]);
            } else if i == k {
                assert(r[i] == x);
                lemma_lex_total(x, s[j - 1]);
            } else {
                assert(r[i] == s[i - 1]);
            }
        }
    }
    broadcast use vstd::seq_lib::group_to_multiset_ensures;
    vstd::seq_lib::lemma_multiset_commutative(s.take(k).push(x), s.skip(k));
    vstd::seq_lib::lemma_multiset_commutative(s.take(k), s.skip(k));
    assert(s.take(k) + s.skip(k) =~= s);
    assert(r.to_multiset() =~= s.to_multiset().insert(x));
}

/// `sort_names` keeps every name, each as often as given, and puts them in `String`
/// order (equal names are indistinguishable, so stability is not at stake).
pub proof fn law_sorted_names(s: Seq<Seq<char>>)
    ensures
        sort_names_spec(s).to_multiset() == s.to_multiset(),
        names_sorted(sort_names_spec(s)),
    decreases s.len(),
{
    broadcast use vstd::seq_lib::group_to_multiset_ensures;
    if s.len() == 0 {
        assert(sort_names_spec(s).to_multiset() =~= s.to_multiset());
    } else {
        law_sorted_names(s.drop_last());
        lemma_insert_name(sort_names_spec(s.drop_last()), s.last());
        assert(s.drop_last().push(s.last()) =~= s);
    }
}

} // verus!
