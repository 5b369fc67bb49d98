use vstd::prelude::*;

verus! {

/// The characters that `char::is_whitespace` accepts (the Unicode White_Space property).
pub open spec fn is_ws(c: char) -> bool {
    let u = c as u32;
    ||| 0x09 <= u <= 0x0D
    ||| u == 0x20
    ||| u == 0x85
    ||| u == 0xA0
    ||| u == 0x1680
    ||| 0x2000 <= u <= 0x200A
    ||| u == 0x2028
    ||| u == 0x2029
    ||| u == 0x202F
    ||| u == 0x205F
    ||| u == 0x3000
}

pub fn is_whitespace(c: char) -> (b: bool)
    ensures
        b == is_ws(c),
{
    let u = c as u32;
    (0x09 <= u && u <= 0x0D) || u == 0x20 || u == 0x85 || u == 0xA0 || u == 0x1680 || (0x2000
        <= u && u <= 0x200A) || u == 0x2028 || u == 0x2029 || u == 0x202F || u == 0x205F || u
        == 0x3000
}

/// The characters of a string, in order.
pub fn to_chars(s: &str) -> (v: Vec<char>)
    ensures
        v@ == s@,
{
    broadcast use vstd::string::group_string_axioms;

    let mut v: Vec<char> = Vec::new();
    for c in it: s.chars()
        invariant
            v@ == it.seq().take(it.index()),
    {
        v.push(c);
        assert(v@ =~= it.seq().take(it.index() + 1));
    }
    v
}


/// Calls `String::from_iter` on the characters: the string made of them, in order.
#[verifier::external_body]
pub(crate) fn from_chars(v: &Vec<char>) -> (s: String)
    ensures
        s@ == v@,
{
    String::from_iter(v)
}

/// `s` with the leading characters removed that `char::is_whitespace` accepts.
pub open spec fn trim_start(s: Seq<char>) -> Seq<char>
    decreases s.len(),
{
    if s.len() > 0 && is_ws(s[0]) {
        trim_start(s.drop_first())
    } else {
        s
    }
}

/// `s` with the trailing characters removed that `char::is_whitespace` accepts.
pub open spec fn trim_end(s: Seq<char>) -> Seq<char>
    decreases s.len(),
{
    if s.len() > 0 && is_ws(s.last()) {
        trim_end(s.drop_last())
    } else {
        s
    }
}

/// What `str::trim` gives back.
pub open spec fn trim(s: Seq<char>) -> Seq<char> {
    trim_end(trim_start(s))
}

proof fn lemma_trim_start_edge(s: Seq<char>)
    ensures
        trim_start(s).len() == 0 || !is_ws(trim_start(s)[0]),
        trim_start(s).len() <= s.len(),
    decreases s.len(),
{
    if s.len() > 0 && is_ws(s[0]) {
        lemma_trim_start_edge(s.drop_first());
    }
}

proof fn lemma_trim_end_edge(s: Seq<char>)
    ensures
        trim_end(s).len() == 0 || !is_ws(trim_end(s).last()),
        trim_end(s).len() <= s.len(),
        trim_end(s) == s.subrange(0, trim_end(s).len() as int),
    decreases s.len(),
{
    if s.len() > 0 && is_ws(s.last()) {
        lemma_trim_end_edge(s.drop_last());
        let t = trim_end(s.drop_last());
        assert(s.drop_last().subrange(0, t.len() as int) =~= s.subrange(0, t.len() as int));
    } else {
        assert(s.subrange(0, s.len() as int) =~= s);
    }
}

/// Trimming twice is trimming once: a trimmed text neither starts nor ends with
/// whitespace.
pub proof fn lemma_trim_idempotent(s: Seq<char>)
    ensures
        trim(trim(s)) == trim(s),
        trim(s).len() == 0 || (!is_ws(trim(s)[0]) && !is_ws(trim(s).last())),
{
    let a = trim_start(s);
    lemma_trim_start_edge(s);
    lemma_trim_end_edge(a);
    let t = trim_end(a);
    if t.len() > 0 {
        assert(a.subrange(0, t.len() as int)[0] == a[0]);
        assert(t[0] == a[0]);
    }
    // t starts and ends with non-whitespace, so trimming leaves it as it is
    if t.len() > 0 {
        assert(trim_start(t) == t);
        assert(trim_end(t) == t);
    } else {
        assert(trim_start(t) == t);
        assert(trim_end(t) == t);
    }
}

/// `str::trim` on a sequence of characters.
pub fn trim_chars(s: &Vec<char>) -> (r: Vec<char>)
    ensures
        r@ == trim(s@),
{
    let n = s.len();
    let mut i: usize = 0;
    assert(s@.subrange(0, n as int) =~= s@);
    while i < n && is_whitespace(s[i])
        invariant
            i <= n == s@.len(),
            trim_start(s@) == trim_start(s@.subrange(i as int, n as int)),
        decreases n - i,
    {
        assert(s@.subrange(i as int, n as int).drop_first() =~= s@.subrange(i + 1, n as int));
        i = i + 1;
    }
    assert(trim_start(s@) == s@.subrange(i as int, n as int));
    let mut j: usize = n;
    while j > i && is_whitespace(s[j - 1])
        invariant
            i <= j <= n == s@.len(),
            trim_start(s@) == s@.subrange(i as int, n as int),
            trim(s@) == trim_end(s@.subrange(i as int, j as int)),
        decreases j,
    {
        assert(s@.subrange(i as int, j as int).drop_last() =~= s@.subrange(i as int, j - 1));
        j = j - 1;
    }
    let mut r: Vec<char> = Vec::new();
    let mut k: usize = i;
    while k < j
        invariant
            i <= k <= j <= n == s@.len(),
            r@ == s@.subrange(i as int, k as int),
        decreases j - k,
    {
        r.push(s[k]);
        assert(r@ =~= s@.subrange(i as int, k + 1));
        k = k + 1;
    }
    r
}

/// `str::trim` on a string.
pub fn trim_str(s: &str) -> (r: Vec<char>)
    ensures
        r@ == trim(s@),
{
    let v = to_chars(s);
    trim_chars(&v)
}

/// `p` occurs in `s` at position `i`.
pub open spec fn occurs_at(s: Seq<char>, p: Seq<char>, i: int) -> bool {
    0 <= i && i + p.len() <= s.len() && s.subrange(i, i + p.len()) == p
}

/// What `str::starts_with` gives back.
pub open spec fn starts_with(s: Seq<char>, p: Seq<char>) -> bool {
    occurs_at(s, p, 0)
}

/// What `str::ends_with` gives back.
pub open spec fn ends_with(s: Seq<char>, p: Seq<char>) -> bool {
    occurs_at(s, p, s.len() - p.len())
}

/// What `str::contains` gives back for a string pattern.
pub open spec fn contains(s: Seq<char>, p: Seq<char>) -> bool {
    exists|i: int| occurs_at(s, p, i)
}

fn occurs_at_exec(s: &Vec<char>, p: &Vec<char>, i: usize) -> (b: bool)
    ensures
        b == occurs_at(s@, p@, i as int),
{
    if i > s.len() || p.len() > s.len() - i {
        return false;
    }
    let mut k: usize = 0;
    while k < p.len()
        invariant
            i + p@.len() <= s.len(),
            k <= p@.len(),
            forall|m: int| 0 <= m < k ==> s@[i + m] == p@[m],
        decreases p@.len() - k,
    {
        if s[i + k] != p[k] {
            assert(s@.subrange(i as int, i + p@.len())[k as int] != p@[k as int]);
            return false;
        }
        k = k + 1;
    }
    assert(s@.subrange(i as int, i + p@.len()) =~= p@);
    true
}

pub fn starts_with_chars(s: &Vec<char>, p: &str) -> (b: bool)
    ensures
        b == starts_with(s@, p@),
{
    let pv = to_chars(p);
    occurs_at_exec(s, &pv, 0)
}

pub fn ends_with_chars(s: &Vec<char>, p: &str) -> (b: bool)
    ensures
        b == ends_with(s@, p@),
{
    let pv = to_chars(p);
    if pv.len() > s.len() {
        return false;
    }
    occurs_at_exec(s, &pv, s.len() - pv.len())
}

pub fn contains_chars(s: &Vec<char>, p: &Vec<char>) -> (b: bool)
    ensures
        b == contains(s@, p@),
{
    if p.len() > s.len() {
        return false;
    }
    let lim = s.len() - p.len();
    let mut i: usize = 0;
    loop
        invariant
            lim == s@.len() - p@.len(),
            i <= lim,
            forall|m: int| 0 <= m < i ==> !occurs_at(s@, p@, m),
        decreases lim - i,
    {
        if occurs_at_exec(s, p, i) {
            return true;
        }
        if i == lim {
            assert forall|m: int| #[trigger] occurs_at(s@, p@, m) implies false by {
                assert(0 <= m <= lim);
            }
            return false;
        }
        i = i + 1;
    }
}

pub fn contains_str(s: &Vec<char>, p: &str) -> (b: bool)
    ensures
        b == contains(s@, p@),
{
    let pv = to_chars(p);
    contains_chars(s, &pv)
}

/// Two character sequences are equal.
pub fn eq_chars(a: &Vec<char>, b: &Vec<char>) -> (r: bool)
    ensures
        r == (a@ == b@),
{
    if a.len() != b.len() {
        return false;
    }
    let mut k: usize = 0;
    while k < a.len()
        invariant
            a@.len() == b@.len(),
            k <= a@.len(),
            forall|m: int| 0 <= m < k ==> a@[m] == b@[m],
        decreases a@.len() - k,
    {
        if a[k] != b[k] {
            return false;
        }
        k = k + 1;
    }
    assert(a@ =~= b@);
    true
}

pub fn eq_str(a: &Vec<char>, p: &str) -> (r: bool)
    ensures
        r == (a@ == p@),
{
    let pv = to_chars(p);
    eq_chars(a, &pv)
}


/// The views of a sequence of character vectors.
pub open spec fn views(v: Seq<Vec<char>>) -> Seq<Seq<char>> {
    v.map_values(|x: Vec<char>| x@)
}

/// The characters of `s` from `a` up to `b`.
pub fn slice_of(s: &Vec<char>, a: usize, b: usize) -> (r: Vec<char>)
    requires
        a <= b <= s@.len(),
    ensures
        r@ == s@.subrange(a as int, b as int),
{
    let mut r: Vec<char> = Vec::new();
    let mut k: usize = a;
    while k < b
        invariant
            a <= k <= b <= s@.len(),
            r@ == s@.subrange(a as int, k as int),
        decreases b - k,
    {
        r.push(s[k]);
        assert(r@ =~= s@.subrange(a as int, k + 1));
        k = k + 1;
    }
    r
}

/// The first position at or after `i` that holds `c`, or the length of `s`.
pub open spec fn find_from(s: Seq<char>, c: char, i: int) -> int
    decreases s.len() - i,
{
    if i >= s.len() {
        s.len() as int
    } else if s[i] == c {
        i
    } else {
        find_from(s, c, i + 1)
    }
}

pub proof fn lemma_find_from(s: Seq<char>, c: char, i: int)
    requires
        0 <= i <= s.len(),
    ensures
        i <= find_from(s, c, i) <= s.len(),
        find_from(s, c, i) < s.len() ==> s[find_from(s, c, i)] == c,
        forall|k: int| i <= k < find_from(s, c, i) ==> s[k] != c,
    decreases s.len() - i,
{
    if i < s.len() && s[i] != c {
        lemma_find_from(s, c, i + 1);
    }
}

pub fn find_from_exec(s: &Vec<char>, c: char, i: usize) -> (r: usize)
    requires
        i <= s@.len(),
    ensures
        r == find_from(s@, c, i as int),
{
    let mut k = i;
    while k < s.len() && s[k] != c
        invariant
            i <= k <= s@.len(),
            find_from(s@, c, i as int) == find_from(s@, c, k as int),
        decreases s@.len() - k,
    {
        k = k + 1;
    }
    k
}

/// What `s.splitn(2, c).nth(1)` gives back: the text after the first `c`.
pub open spec fn after_char(s: Seq<char>, c: char) -> Option<Seq<char>> {
    let k = find_from(s, c, 0);
    if k < s.len() {
        Some(s.subrange(k + 1, s.len() as int))
    } else {
        None
    }
}

pub fn after_char_exec(s: &Vec<char>, c: char) -> (r: Option<Vec<char>>)
    ensures
        r matches Some(v) ==> after_char(s@, c) == Some(v@),
        r is None ==> after_char(s@, c) is None,
{
    proof {
        lemma_find_from(s@, c, 0);
    }
    let k = find_from_exec(s, c, 0);
    if k < s.len() {
        Some(slice_of(s, k + 1, s.len()))
    } else {
        None
    }
}

/// The pieces that `str::split` with a character separator hands out, from a piece
/// that began at `start`, while looking at position `i`.
pub open spec fn split_acc(s: Seq<char>, c: char, start: int, i: int) -> Seq<Seq<char>>
    decreases s.len() - i,
{
    if i >= s.len() {
        seq![s.subrange(start, s.len() as int)]
    } else if s[i] == c {
        seq![s.subrange(start, i)] + split_acc(s, c, i + 1, i + 1)
    } else {
        split_acc(s, c, start, i + 1)
    }
}

/// What `str::split` with a character separator hands out.
pub open spec fn split(s: Seq<char>, c: char) -> Seq<Seq<char>> {
    split_acc(s, c, 0, 0)
}

pub fn split_exec(s: &Vec<char>, c: char) -> (r: Vec<Vec<char>>)
    ensures
        views(r@) == split(s@, c),
{
    let n = s.len();
    let mut r: Vec<Vec<char>> = Vec::new();
    let mut start: usize = 0;
    let mut i: usize = 0;
    while i < n
        invariant
            n == s@.len(),
            start <= i <= n,
            views(r@) + split_acc(s@, c, start as int, i as int) == split(s@, c),
        decreases n - i,
    {
        if s[i] == c {
            let piece = slice_of(s, start, i);
            let ghost old_r = r@;
            r.push(piece);
            assert(views(r@) =~= views(old_r) + seq![s@.subrange(start as int, i as int)]);
            assert(views(r@) + split_acc(s@, c, i + 1, i + 1) =~= views(old_r) + split_acc(
                s@,
                c,
                start as int,
                i as int,
            ));
            start = i + 1;
        }
        i = i + 1;
    }
    let piece = slice_of(s, start, n);
    let ghost old_r = r@;
    r.push(piece);
    assert(views(r@) =~= views(old_r) + split_acc(s@, c, start as int, i as int));
    r
}

/// The pieces that `str::splitn` hands out when at most `n` pieces remain.
pub open spec fn splitn_acc(s: Seq<char>, c: char, n: nat, start: int, i: int) -> Seq<Seq<char>>
    decreases s.len() - i,
{
    if n <= 1 || i >= s.len() {
        seq![s.subrange(start, s.len() as int)]
    } else if s[i] == c {
        seq![s.subrange(start, i)] + splitn_acc(s, c, (n - 1) as nat, i + 1, i + 1)
    } else {
        splitn_acc(s, c, n, start, i + 1)
    }
}

/// What `str::splitn(n, c)` hands out: nothing for `n == 0`, else at most `n` pieces.
pub open spec fn splitn(s: Seq<char>, n: nat, c: char) -> Seq<Seq<char>> {
    if n == 0 {
        seq![]
    } else {
        splitn_acc(s, c, n, 0, 0)
    }
}

pub fn splitn_exec(s: &Vec<char>, n: usize, c: char) -> (r: Vec<Vec<char>>)
    ensures
        views(r@) == splitn(s@, n as nat, c),
{
    if n == 0 {
        let r: Vec<Vec<char>> = Vec::new();
        assert(views(r@) =~= seq![]);
        return r;
    }
    let len = s.len();
    let mut r: Vec<Vec<char>> = Vec::new();
    let mut left: usize = n;
    let mut start: usize = 0;
    let mut i: usize = 0;
    while i < len && left > 1
        invariant
            len == s@.len(),
            start <= i <= len,
            1 <= left <= n,
            views(r@) + splitn_acc(s@, c, left as nat, start as int, i as int) == splitn(
                s@,
                n as nat,
                c,
            ),
        decreases len - i,
    {
        if s[i] == c {
            let piece = slice_of(s, start, i);
            let ghost old_r = r@;
            r.push(piece);
            assert(views(r@) =~= views(old_r) + seq![s@.subrange(start as int, i as int)]);
            assert(views(r@) + splitn_acc(s@, c, (left - 1) as nat, i + 1, i + 1) =~= views(old_r)
                + splitn_acc(s@, c, left as nat, start as int, i as int));
            start = i + 1;
            left = left - 1;
        }
        i = i + 1;
    }
    let piece = slice_of(s, start, len);
    let ghost old_r = r@;
    r.push(piece);
    assert(views(r@) =~= views(old_r) + splitn_acc(s@, c, left as nat, start as int, i as int));
    r
}

/// The words that `str::split_whitespace` hands out, the current one having begun at `start`.
pub open spec fn words_acc(s: Seq<char>, start: int, i: int) -> Seq<Seq<char>>
    decreases s.len() - i,
{
    if i >= s.len() {
        if start < i {
            seq![s.subrange(start, i)]
        } else {
            seq![]
        }
    } else if is_ws(s[i]) {
        (if start < i {
            seq![s.subrange(start, i)]
        } else {
            seq![]
        }) + words_acc(s, i + 1, i + 1)
    } else {
        words_acc(s, start, i + 1)
    }
}

/// What `str::split_whitespace` hands out.
pub open spec fn words(s: Seq<char>) -> Seq<Seq<char>> {
    words_acc(s, 0, 0)
}

pub fn words_exec(s: &Vec<char>) -> (r: Vec<Vec<char>>)
    ensures
        views(r@) == words(s@),
{
    let n = s.len();
    let mut r: Vec<Vec<char>> = Vec::new();
    let mut start: usize = 0;
    let mut i: usize = 0;
    while i < n
        invariant
            n == s@.len(),
            start <= i <= n,
            views(r@) + words_acc(s@, start as int, i as int) == words(s@),
        decreases n - i,
    {
        if is_whitespace(s[i]) {
            let ghost old_r = r@;
            if start < i {
                let piece = slice_of(s, start, i);
                r.push(piece);
                assert(views(r@) =~= views(old_r) + seq![s@.subrange(start as int, i as int)]);
            }
            assert(views(r@) + words_acc(s@, i + 1, i + 1) =~= views(old_r) + words_acc(
                s@,
                start as int,
                i as int,
            ));
            start = i + 1;
        }
        i = i + 1;
    }
    if start < n {
        let piece = slice_of(s, start, n);
        let ghost old_r = r@;
        r.push(piece);
        assert(views(r@) =~= views(old_r) + words_acc(s@, start as int, i as int));
    } else {
        assert(views(r@) =~= views(r@) + words_acc(s@, start as int, i as int));
    }
    r
}

/// A line piece without the carriage return that ends it, if one does.
pub open spec fn strip_cr(t: Seq<char>) -> Seq<char> {
    if t.len() > 0 && t.last() == '\r' {
        t.drop_last()
    } else {
        t
    }
}

/// The lines that `str::lines` hands out, the current one having begun at `start`.
pub open spec fn lines_acc(s: Seq<char>, start: int, i: int) -> Seq<Seq<char>>
    decreases s.len() - i,
{
    if i >= s.len() {
        if start < s.len() {
            seq![s.subrange(start, s.len() as int)]
        } else {
            seq![]
        }
    } else if s[i] == '\n' {
        seq![strip_cr(s.subrange(start, i))] + lines_acc(s, i + 1, i + 1)
    } else {
        lines_acc(s, start, i + 1)
    }
}

/// What `str::lines` hands out.
pub open spec fn lines(s: Seq<char>) -> Seq<Seq<char>> {
    lines_acc(s, 0, 0)
}

pub fn lines_exec(s: &Vec<char>) -> (r: Vec<Vec<char>>)
    ensures
        views(r@) == lines(s@),
{
    let n = s.len();
    let mut r: Vec<Vec<char>> = Vec::new();
    let mut start: usize = 0;
    let mut i: usize = 0;
    while i < n
        invariant
            n == s@.len(),
            start <= i <= n,
            views(r@) + lines_acc(s@, start as int, i as int) == lines(s@),
        decreases n - i,
    {
        if s[i] == '\n' {
            let end = if i > start && s[i - 1] == '\r' {
                i - 1
            } else {
                i
            };
            let piece = slice_of(s, start, end);
            assert(piece@ == strip_cr(s@.subrange(start as int, i as int)));
            let ghost old_r = r@;
            r.push(piece);
            assert(views(r@) =~= views(old_r) + seq![strip_cr(s@.subrange(start as int, i as int))]);
            assert(views(r@) + lines_acc(s@, i + 1, i + 1) =~= views(old_r) + lines_acc(
                s@,
                start as int,
                i as int,
            ));
            start = i + 1;
        }
        i = i + 1;
    }
    if start < n {
        let piece = slice_of(s, start, n);
        let ghost old_r = r@;
        r.push(piece);
        assert(views(r@) =~= views(old_r) + lines_acc(s@, start as int, i as int));
    } else {
        assert(views(r@) =~= views(r@) + lines_acc(s@, start as int, i as int));
    }
    r
}


pub open spec fn is_digit(c: char) -> bool {
    '0' <= c <= '9'
}

pub open spec fn digit_val(c: char) -> nat {
    (c as int - '0' as int) as nat
}

pub open spec fn all_digits(d: Seq<char>) -> bool {
    forall|k: int| 0 <= k < d.len() ==> is_digit(#[trigger] d[k])
}

/// The number that a run of decimal digits writes.
pub open spec fn digits_value(d: Seq<char>) -> nat
    decreases d.len(),
{
    if d.len() == 0 {
        0
    } else {
        digits_value(d.drop_last()) * 10 + digit_val(d.last())
    }
}

/// The digits that `u64::from_str` reads: the text after an optional leading `+`.
pub open spec fn unsigned_digits(s: Seq<char>) -> Seq<char> {
    if s.len() > 0 && s[0] == '+' {
        s.drop_first()
    } else {
        s
    }
}

/// The number that `from_str` of an unsigned integer type reads, before its range is checked.
pub open spec fn parse_nat(s: Seq<char>) -> Option<nat> {
    let d = unsigned_digits(s);
    if d.len() == 0 || !all_digits(d) {
        None
    } else {
        Some(digits_value(d))
    }
}

/// What `s.parse::<u64>().ok()` gives back.
pub open spec fn parse_u64(s: Seq<char>) -> Option<u64> {
    match parse_nat(s) {
        Some(v) => if v <= u64::MAX {
            Some(v as u64)
        } else {
            None
        },
        None => None,
    }
}

/// What `s.parse::<u32>().ok()` gives back.
pub open spec fn parse_u32(s: Seq<char>) -> Option<u32> {
    match parse_nat(s) {
        Some(v) => if v <= u32::MAX {
            Some(v as u32)
        } else {
            None
        },
        None => None,
    }
}

proof fn lemma_digits_value_prefix(d: Seq<char>, k: int)
    requires
        0 <= k <= d.len(),
        all_digits(d),
    ensures
        digits_value(d.take(k)) <= digits_value(d),
    decreases d.len(),
{
    if k < d.len() {
        assert(d.drop_last().take(k) =~= d.take(k));
        lemma_digits_value_prefix(d.drop_last(), k);
    } else {
        assert(d.take(k) =~= d);
    }
}

/// `parse_u64` on a sequence of characters.
pub fn parse_u64_chars(s: &Vec<char>) -> (r: Option<u64>)
    ensures
        r == parse_u64(s@),
{
    let n = s.len();
    let off: usize = if n > 0 && s[0] == '+' {
        1
    } else {
        0
    };
    let ghost d = unsigned_digits(s@);
    assert(d =~= s@.subrange(off as int, n as int));
    if off == n {
        return None;
    }
    let mut v: u64 = 0;
    let mut k: usize = off;
    while k < n
        invariant
            n == s@.len(),
            off <= k <= n,
            d == s@.subrange(off as int, n as int),
            d == unsigned_digits(s@),
            forall|m: int| 0 <= m < k - off ==> is_digit(#[trigger] d[m]),
            v as nat == digits_value(d.take(k - off)),
        decreases n - k,
    {
        let c = s[k];
        assert(d[k - off] == c);
        if !('0' <= c && c <= '9') {
            assert(!is_digit(d[k - off]));
            assert(!all_digits(d));
            return None;
        }
        let dv = (c as u32 - '0' as u32) as u64;
        assert(dv == digit_val(c));
        assert(d.take(k - off + 1).drop_last() =~= d.take(k - off));
        assert(d.take(k - off + 1).last() == c);
        assert(digits_value(d.take(k - off + 1)) == v * 10 + dv);
        if v > (u64::MAX - dv) / 10 {
            proof {
                if all_digits(d) {
                    lemma_digits_value_prefix(d, k - off + 1);
                    assert(digits_value(d) > u64::MAX);
                }
            }
            return None;
        }
        v = v * 10 + dv;
        k = k + 1;
    }
    assert(d.take(n - off) =~= d);
    Some(v)
}

/// `parse_u32` on a sequence of characters.
pub fn parse_u32_chars(s: &Vec<char>) -> (r: Option<u32>)
    ensures
        r == parse_u32(s@),
{
    match parse_u64_chars(s) {
        Some(v) => if v <= u32::MAX as u64 {
            Some(v as u32)
        } else {
            None
        },
        None => {
            proof {
                match parse_nat(s@) {
                    Some(v) => assert(v > u64::MAX),
                    None => {},
                }
            }
            None
        },
    }
}

pub open spec fn digit_char(d: nat) -> char {
    (d + '0' as nat) as char
}

/// The decimal digits of `n`, as `Display` writes an unsigned integer.
pub open spec fn dec(n: nat) -> Seq<char>
    decreases n,
{
    if n < 10 {
        seq![digit_char(n)]
    } else {
        dec(n / 10) + seq![digit_char(n % 10)]
    }
}

fn digit_to_char(d: u64) -> (c: char)
    requires
        d < 10,
    ensures
        c == digit_char(d as nat),
{
    if d == 0 { '0' }
    else if d == 1 { '1' }
    else if d == 2 { '2' }
    else if d == 3 { '3' }
    else if d == 4 { '4' }
    else if d == 5 { '5' }
    else if d == 6 { '6' }
    else if d == 7 { '7' }
    else if d == 8 { '8' }
    else { '9' }
}

/// The decimal text of `n`.
pub fn dec_chars(n: u64) -> (r: Vec<char>)
    ensures
        r@ == dec(n as nat),
    decreases n,
{
    if n < 10 {
        let mut r: Vec<char> = Vec::new();
        r.push(digit_to_char(n));
        assert(r@ =~= dec(n as nat));
        r
    } else {
        let mut r = dec_chars(n / 10);
        r.push(digit_to_char(n % 10));
        assert(r@ =~= dec(n as nat));
        r
    }
}

/// Appends the characters of `b` to `a`.
pub fn push_all(a: &mut Vec<char>, b: &Vec<char>)
    ensures
        final(a)@ == old(a)@ + b@,
{
    let ghost a0 = a@;
    let mut k: usize = 0;
    while k < b.len()
        invariant
            k <= b@.len(),
            a@ == a0 + b@.take(k as int),
        decreases b@.len() - k,
    {
        a.push(b[k]);
        assert(a@ =~= a0 + b@.take(k + 1));
        k = k + 1;
    }
    assert(b@.take(b@.len() as int) =~= b@);
}

/// Appends the characters of `b` to `a`.
pub fn push_str(a: &mut Vec<char>, b: &str)
    ensures
        final(a)@ == old(a)@ + b@,
{
    let v = to_chars(b);
    push_all(a, &v);
}

/// Reading back the decimal text of a number gives the number.
pub proof fn lemma_parse_dec(n: u64)
    ensures
        parse_u64(dec(n as nat)) == Some(n),
{
    lemma_dec_digits(n as nat);
}

pub proof fn lemma_dec_digits(n: nat)
    ensures
        dec(n).len() > 0,
        all_digits(dec(n)),
        digits_value(dec(n)) == n,
        dec(n)[0] != '+',
    decreases n,
{
    if n >= 10 {
        lemma_dec_digits(n / 10);
        let d = dec(n);
        assert(d.drop_last() =~= dec(n / 10));
        assert forall|k: int| 0 <= k < d.len() implies is_digit(#[trigger] d[k]) by {
            if k < d.len() - 1 {
                assert(d[k] == dec(n / 10)[k]);
            }
        }
    } else {
        assert(digits_value(dec(n)) == digits_value(dec(n).drop_last()) * 10 + digit_val(dec(n).last()));
        assert(dec(n).drop_last().len() == 0);
    }
}


/// What `str::to_lowercase` gives back (the Unicode lower-case mapping).
pub uninterp spec fn lowercase(s: Seq<char>) -> Seq<char>;

/// What `str::to_uppercase` gives back (the Unicode upper-case mapping).
pub uninterp spec fn uppercase(s: Seq<char>) -> Seq<char>;

/// Calls `str::to_lowercase`; its result is named `lowercase` of the string handed in.
#[verifier::external_body]
fn lowercase_str(s: &str) -> (r: String)
    ensures
        r@ == lowercase(s@),
{
    s.to_lowercase()
}

/// Calls `str::to_uppercase`; its result is named `uppercase` of the string handed in.
#[verifier::external_body]
fn uppercase_str(s: &str) -> (r: String)
    ensures
        r@ == uppercase(s@),
{
    s.to_uppercase()
}

/// The lower-case form of some characters, as `str::to_lowercase` gives it.
pub fn to_lowercase_chars(s: &Vec<char>) -> (r: Vec<char>)
    ensures
        r@ == lowercase(s@),
{
    to_chars(lowercase_str(from_chars(s).as_str()).as_str())
}

/// The upper-case form of some characters, as `str::to_uppercase` gives it.
pub fn to_uppercase_chars(s: &Vec<char>) -> (r: Vec<char>)
    ensures
        r@ == uppercase(s@),
{
    to_chars(uppercase_str(from_chars(s).as_str()).as_str())
}

/// What `str::strip_suffix` gives back.
pub open spec fn strip_suffix(s: Seq<char>, p: Seq<char>) -> Option<Seq<char>> {
    if ends_with(s, p) {
        Some(s.subrange(0, s.len() - p.len()))
    } else {
        None
    }
}

pub fn strip_suffix_exec(s: &Vec<char>, p: &str) -> (r: Option<Vec<char>>)
    ensures
        r matches Some(v) ==> strip_suffix(s@, p@) == Some(v@),
        r is None ==> strip_suffix(s@, p@) is None,
{
    let pv = to_chars(p);
    if pv.len() <= s.len() && occurs_at_exec(s, &pv, s.len() - pv.len()) {
        Some(slice_of(s, 0, s.len() - pv.len()))
    } else {
        None
    }
}

/// What `str::trim_start_matches` gives back for a non-empty string pattern.
pub open spec fn trim_start_matches(s: Seq<char>, p: Seq<char>) -> Seq<char>
    decreases s.len(),
{
    if p.len() > 0 && starts_with(s, p) {
        trim_start_matches(s.subrange(p.len() as int, s.len() as int), p)
    } else {
        s
    }
}

pub fn trim_start_matches_exec(s: &Vec<char>, p: &str) -> (r: Vec<char>)
    ensures
        r@ == trim_start_matches(s@, p@),
{
    let pv = to_chars(p);
    let n = s.len();
    let mut i: usize = 0;
    assert(s@.subrange(0, n as int) =~= s@);
    if pv.len() == 0 {
        return slice_of(s, 0, n);
    }
    while pv.len() <= n - i && occurs_at_exec(s, &pv, i)
        invariant
            n == s@.len(),
            i <= n,
            pv@ == p@,
            pv@.len() > 0,
            trim_start_matches(s@, p@) == trim_start_matches(s@.subrange(i as int, n as int), p@),
        decreases n - i,
    {
        assert(s@.subrange(i as int, n as int).subrange(pv@.len() as int, n - i) =~= s@.subrange(
            i + pv@.len(),
            n as int,
        ));
        assert(s@.subrange(i as int, n as int).subrange(0, pv@.len() as int) =~= s@.subrange(
            i as int,
            i + pv@.len(),
        ));
        i = i + pv.len();
    }
    proof {
        let t = s@.subrange(i as int, n as int);
        if starts_with(t, p@) {
            assert(t.subrange(0, p@.len() as int) =~= s@.subrange(i as int, i + p@.len()));
        }
    }
    slice_of(s, i, n)
}

/// What `str::trim_end_matches(c)` gives back for a character `c`.
pub open spec fn trim_end_char(s: Seq<char>, c: char) -> Seq<char>
    decreases s.len(),
{
    if s.len() > 0 && s.last() == c {
        trim_end_char(s.drop_last(), c)
    } else {
        s
    }
}

/// What `str::trim_start_matches(c)` gives back for a character `c`.
pub open spec fn trim_start_char(s: Seq<char>, c: char) -> Seq<char>
    decreases s.len(),
{
    if s.len() > 0 && s[0] == c {
        trim_start_char(s.drop_first(), c)
    } else {
        s
    }
}

/// What `str::trim_matches(c)` gives back for a character `c`.
pub open spec fn trim_char(s: Seq<char>, c: char) -> Seq<char> {
    trim_end_char(trim_start_char(s, c), c)
}

pub fn trim_end_char_exec(s: &Vec<char>, c: char) -> (r: Vec<char>)
    ensures
        r@ == trim_end_char(s@, c),
{
    let n = s.len();
    let mut j: usize = n;
    assert(s@.subrange(0, n as int) =~= s@);
    while j > 0 && s[j - 1] == c
        invariant
            j <= n == s@.len(),
            trim_end_char(s@, c) == trim_end_char(s@.subrange(0, j as int), c),
        decreases j,
    {
        assert(s@.subrange(0, j as int).drop_last() =~= s@.subrange(0, j - 1));
        j = j - 1;
    }
    slice_of(s, 0, j)
}

pub fn trim_char_exec(s: &Vec<char>, c: char) -> (r: Vec<char>)
    ensures
        r@ == trim_char(s@, c),
{
    let n = s.len();
    let mut i: usize = 0;
    assert(s@.subrange(0, n as int) =~= s@);
    while i < n && s[i] == c
        invariant
            i <= n == s@.len(),
            trim_start_char(s@, c) == trim_start_char(s@.subrange(i as int, n as int), c),
        decreases n - i,
    {
        assert(s@.subrange(i as int, n as int).drop_first() =~= s@.subrange(i + 1, n as int));
        i = i + 1;
    }
    let t = slice_of(s, i, n);
    trim_end_char_exec(&t, c)
}

} // verus!
