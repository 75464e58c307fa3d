//! Text utilities over the character sequences that strings view as.

use vstd::prelude::*;

verus! {

/// The character of a decimal digit `d < 10`.
pub open spec fn digit_char(d: nat) -> char {
    (d + 48) as char
}

/// The decimal representation of `n`, without sign or leading zeros.
pub open spec fn decimal(n: nat) -> Seq<char>
    decreases n,
{
    if n < 10 {
        seq![digit_char(n)]
    } else {
        decimal(n / 10).push(digit_char(n % 10))
    }
}

/// Appends `c` to `s` (`String::push`).
#[verifier::external_body]
pub(crate) fn push_char(s: &mut String, c: char)
    ensures
        final(s)@ == old(s)@.push(c),
{
    s.push(c);
}

fn digit(d: usize) -> (c: char)
    requires
        d < 10,
    ensures
        c == digit_char(d as nat),
{
    match d {
        0 => '0',
        1 => '1',
        2 => '2',
        3 => '3',
        4 => '4',
        5 => '5',
        6 => '6',
        7 => '7',
        8 => '8',
        _ => '9',
    }
}

/// The decimal representation of `n`, as `format!("{}", n)` writes it.
pub fn decimal_text(n: usize) -> (s: String)
    ensures
        s@ == decimal(n as nat),
    decreases n,
{
    if n < 10 {
        let mut s = String::new();
        push_char(&mut s, digit(n));
        s
    } else {
        let mut s = decimal_text(n / 10);
        push_char(&mut s, digit(n % 10));
        s
    }
}

} // verus!

verus! {

/// The characters of `s`, in order.
pub fn chars_of(s: &str) -> (v: Vec<char>)
    ensures
        v@ == s@,
{
    broadcast use vstd::string::group_string_axioms;
    let mut v: Vec<char> = Vec::new();
    for c in it: s.chars()
        invariant
            v@ == it.seq().take(it.index() as int),
    {
        v.push(c);
    }
    v
}

} // verus!

verus! {

/// The string whose characters are `v@[from..to]`.
pub fn string_of_range(v: &[char], from: usize, to: usize) -> (s: String)
    requires
        from <= to <= v@.len(),
    ensures
        s@ == v@.subrange(from as int, to as int),
{
    let mut s = String::new();
    let mut i: usize = from;
    while i < to
        invariant
            from <= i <= to <= v@.len(),
            s@ == v@.subrange(from as int, i as int),
        decreases to - i,
    {
        push_char(&mut s, v[i]);
        i = i + 1;
        assert(v@.subrange(from as int, i as int) == v@.subrange(from as int, i - 1).push(
            v@[i - 1],
        ));
    }
    s
}

/// What Unicode calls `White_Space`, the set that `char::is_whitespace`
/// and `str::trim` go by.
pub open spec fn is_space(c: char) -> bool {
    ||| ('\u{9}' <= c && c <= '\u{d}')
    ||| c == ' '
    ||| c == '\u{85}'
    ||| c == '\u{a0}'
    ||| c == '\u{1680}'
    ||| ('\u{2000}' <= c && c <= '\u{200a}')
    ||| c == '\u{2028}'
    ||| c == '\u{2029}'
    ||| c == '\u{202f}'
    ||| c == '\u{205f}'
    ||| c == '\u{3000}'
}

pub fn space(c: char) -> (b: bool)
    ensures
        b == is_space(c),
{
    ('\u{9}' <= c && c <= '\u{d}') || c == ' ' || c == '\u{85}' || c == '\u{a0}' || c
        == '\u{1680}' || ('\u{2000}' <= c && c <= '\u{200a}') || c == '\u{2028}' || c
        == '\u{2029}' || c == '\u{202f}' || c == '\u{205f}' || c == '\u{3000}'
}

/// `s` without its leading white space.
pub open spec fn trim_start(s: Seq<char>) -> Seq<char>
    decreases s.len(),
{
    if s.len() > 0 && is_space(s[0]) {
        trim_start(s.drop_first())
    } else {
        s
    }
}

/// `s` without its trailing white space.
pub open spec fn trim_end(s: Seq<char>) -> Seq<char>
    decreases s.len(),
{
    if s.len() > 0 && is_space(s.last()) {
        trim_end(s.drop_last())
    } else {
        s
    }
}

/// `s` without leading and trailing white space, as `str::trim` gives it.
pub open spec fn trimmed(s: Seq<char>) -> Seq<char> {
    trim_end(trim_start(s))
}

proof fn lemma_trim_start_from(s: Seq<char>, i: int)
    requires
        0 <= i <= s.len(),
        forall|k: int| 0 <= k < i ==> is_space(#[trigger] s[k]),
    ensures
        trim_start(s) == trim_start(s.subrange(i, s.len() as int)),
    decreases i,
{
    if i == 0 {
        assert(s.subrange(0, s.len() as int) == s);
    } else {
        assert(is_space(s[0]));
        assert(s.drop_first() == s.subrange(1, s.len() as int));
        lemma_trim_start_from(s.drop_first(), i - 1);
        assert(s.drop_first().subrange(i - 1, s.drop_first().len() as int) == s.subrange(
            i,
            s.len() as int,
        ));
    }
}

proof fn lemma_trim_end_to(s: Seq<char>, j: int)
    requires
        0 <= j <= s.len(),
        forall|k: int| j <= k < s.len() ==> is_space(#[trigger] s[k]),
    ensures
        trim_end(s) == trim_end(s.subrange(0, j)),
    decreases s.len() - j,
{
    if j == s.len() {
        assert(s.subrange(0, j) == s);
    } else {
        assert(is_space(s[s.len() - 1]));
        assert(s.drop_last() == s.subrange(0, s.len() - 1));
        lemma_trim_end_to(s.drop_last(), j);
        assert(s.drop_last().subrange(0, j) == s.subrange(0, j));
    }
}

/// `s` without leading and trailing white space (`str::trim`).
pub fn trim(s: &str) -> (t: String)
    ensures
        t@ == trimmed(s@),
{
    let v = chars_of(s);
    let n = v.len();
    let mut i: usize = 0;
    while i < n && space(v[i])
        invariant
            i <= n == v@.len(),
            forall|k: int| 0 <= k < i ==> is_space(#[trigger] v@[k]),
        decreases n - i,
    {
        i = i + 1;
    }
    proof {
        lemma_trim_start_from(v@, i as int);
    }
    let ghost rest = v@.subrange(i as int, n as int);
    let mut j: usize = n;
    while j > i && space(v[j - 1])
        invariant
            i <= j <= n == v@.len(),
            forall|k: int| j <= k < n ==> is_space(#[trigger] v@[k]),
        decreases j,
    {
        j = j - 1;
    }
    proof {
        assert forall|k: int| j - i <= k < rest.len() implies is_space(#[trigger] rest[k]) by {
            assert(rest[k] == v@[k + i]);
        }
        lemma_trim_end_to(rest, j - i);
        assert(rest.subrange(0, j - i) == v@.subrange(i as int, j as int));
        if i < j {
            assert(v@.subrange(i as int, j as int).len() > 0);
        }
    }
    string_of_range(v.as_slice(), i, j)
}

} // verus!

verus! {

/// `q` occurs in `s` at position `i`.
pub open spec fn occurs_at<T>(s: Seq<T>, q: Seq<T>, i: int) -> bool {
    0 <= i && i + q.len() <= s.len() && s.subrange(i, i + q.len()) == q
}

/// `q` occurs somewhere in `s` (`str::contains`).
pub open spec fn contains_text<T>(s: Seq<T>, q: Seq<T>) -> bool {
    exists|i: int| occurs_at(s, q, i)
}

/// The first position at or after `from` where `q` occurs in `s`.
pub open spec fn first_occurrence<T>(s: Seq<T>, q: Seq<T>, from: int) -> Option<int>
    decreases s.len() + 1 - from,
{
    if from < 0 || from + q.len() > s.len() {
        None
    } else if occurs_at(s, q, from) {
        Some(from)
    } else {
        first_occurrence(s, q, from + 1)
    }
}

/// `s` begins with `p`.
pub open spec fn starts_with<T>(s: Seq<T>, p: Seq<T>) -> bool {
    p.len() <= s.len() && s.subrange(0, p.len() as int) == p
}

/// `s` ends with `p`.
pub open spec fn ends_with<T>(s: Seq<T>, p: Seq<T>) -> bool {
    p.len() <= s.len() && s.subrange(s.len() - p.len(), s.len() as int) == p
}

pub proof fn lemma_first_occurrence<T>(s: Seq<T>, q: Seq<T>, from: int)
    requires
        0 <= from,
    ensures
        first_occurrence(s, q, from) matches Some(i) ==> from <= i && occurs_at(s, q, i) && (
        forall|k: int| from <= k < i ==> !occurs_at(s, q, k)),
        first_occurrence(s, q, from) is None ==> forall|k: int|
            from <= k ==> !occurs_at(s, q, k),
    decreases s.len() + 1 - from,
{
    if from + q.len() <= s.len() && !occurs_at(s, q, from) {
        lemma_first_occurrence(s, q, from + 1);
    }
}

fn matches_at(s: &[char], q: &[char], i: usize) -> (b: bool)
    requires
        i + q@.len() <= s@.len(),
    ensures
        b == occurs_at(s@, q@, i as int),
{
    let n = s.len();
    let mut k: usize = 0;
    while k < q.len()
        invariant
            n == s@.len(),
            i + q@.len() <= s@.len(),
            k <= q@.len(),
            forall|m: int| 0 <= m < k ==> s@[i + m] == q@[m],
        decreases q@.len() - k,
    {
        if s[i + k] != q[k] {
            assert(s@.subrange(i as int, i + q@.len())[k as int] != q@[k as int]);
            return false;
        }
        k = k + 1;
    }
    assert(s@.subrange(i as int, i + q@.len()) == q@);
    true
}

/// The first position at or after `from` where `q` occurs in `s`.
pub fn find_chars(s: &[char], q: &[char], from: usize) -> (r: Option<usize>)
    ensures
        r == (match first_occurrence(s@, q@, from as int) {
            Some(i) => Some(i as usize),
            None => None::<usize>,
        }),
{
    if q.len() > s.len() {
        return None;
    }
    let last = s.len() - q.len();
    let mut i: usize = from;
    loop
        invariant
            last + q@.len() == s@.len(),
            from <= i,
            first_occurrence(s@, q@, from as int) == first_occurrence(s@, q@, i as int),
        decreases last + 1 - i,
    {
        if i > last {
            return None;
        }
        if matches_at(s, q, i) {
            return Some(i);
        }
        if i == last {
            assert(first_occurrence(s@, q@, i + 1) is None);
            return None;
        }
        i = i + 1;
    }
}

/// Whether `q` occurs in `s`.
pub fn contains_chars(s: &[char], q: &[char]) -> (b: bool)
    ensures
        b == contains_text(s@, q@),
{
    proof {
        lemma_first_occurrence(s@, q@, 0);
    }
    find_chars(s, q, 0).is_some()
}

/// Whether `q` occurs in `s` (`str::contains`).
pub fn text_contains(s: &str, q: &str) -> (b: bool)
    ensures
        b == contains_text(s@, q@),
{
    let sv = chars_of(s);
    let qv = chars_of(q);
    contains_chars(sv.as_slice(), qv.as_slice())
}

/// Whether `s` begins with `p`.
pub fn text_starts_with(s: &[char], p: &[char]) -> (b: bool)
    ensures
        b == starts_with(s@, p@),
{
    if p.len() > s.len() {
        return false;
    }
    let b = matches_at(s, p, 0);
    b
}

/// Whether `s` ends with `p`.
pub fn text_ends_with(s: &[char], p: &[char]) -> (b: bool)
    ensures
        b == ends_with(s@, p@),
{
    if p.len() > s.len() {
        return false;
    }
    matches_at(s, p, s.len() - p.len())
}

/// Whether the texts are equal.
pub fn text_eq(a: &str, b: &str) -> (r: bool)
    ensures
        r == (a@ == b@),
{
    let av = chars_of(a);
    let bv = chars_of(b);
    if av.len() != bv.len() {
        return false;
    }
    let r = matches_at(av.as_slice(), bv.as_slice(), 0);
    assert(av@.subrange(0, bv@.len() as int) == av@);
    r
}

} // verus!

verus! {

/// `s@[from..]` with every occurrence of `q` replaced by `r`, matches taken
/// left to right without overlap; this is `str::replace` for a non-empty `q`.
pub open spec fn replace_from(s: Seq<char>, q: Seq<char>, r: Seq<char>, from: int) -> Seq<char>
    decreases s.len() - from,
{
    if from < 0 || from >= s.len() {
        seq![]
    } else if q.len() > 0 && occurs_at(s, q, from) {
        r + replace_from(s, q, r, from + q.len())
    } else {
        seq![s[from]] + replace_from(s, q, r, from + 1)
    }
}

/// `s` with every occurrence of `q` replaced by `r` (`str::replace`, for a
/// non-empty `q`).
pub open spec fn replaced(s: Seq<char>, q: Seq<char>, r: Seq<char>) -> Seq<char> {
    replace_from(s, q, r, 0)
}

/// Appends the characters of `v` to `s`.
pub(crate) fn push_chars(s: &mut String, v: &[char])
    ensures
        final(s)@ == old(s)@ + v@,
{
    let mut i: usize = 0;
    while i < v.len()
        invariant
            i <= v@.len(),
            s@ == old(s)@ + v@.take(i as int),
        decreases v@.len() - i,
    {
        push_char(s, v[i]);
        i = i + 1;
        assert(v@.take(i as int) == v@.take(i - 1).push(v@[i - 1]));
    }
    assert(v@.take(v@.len() as int) == v@);
}

/// `s` with every occurrence of `q` replaced by `r` (`str::replace`).
pub fn replace_text(s: &str, q: &str, r: &str) -> (t: String)
    requires
        q@.len() > 0,
    ensures
        t@ == replaced(s@, q@, r@),
{
    let sv = chars_of(s);
    let qv = chars_of(q);
    let rv = chars_of(r);
    let n = sv.len();
    let mut out = String::new();
    let mut i: usize = 0;
    while i < n
        invariant
            n == sv@.len(),
            qv@.len() > 0,
            i <= n,
            out@ + replace_from(sv@, qv@, rv@, i as int) == replace_from(sv@, qv@, rv@, 0),
        decreases n - i,
    {
        if qv.len() <= n - i && matches_at(sv.as_slice(), qv.as_slice(), i) {
            push_chars(&mut out, rv.as_slice());
            i = i + qv.len();
        } else {
            push_char(&mut out, sv[i]);
            i = i + 1;
        }
    }
    assert(out@ + replace_from(sv@, qv@, rv@, i as int) == out@);
    out
}

/// How two values compare.
#[derive(PartialEq, Eq, Structural, Clone, Copy, Debug)]
pub enum Order {
    Less,
    Equal,
    Greater,
}

/// The order that `str`'s `Ord` gives: lexicographic over the characters,
/// each taken by its code point (which is the order of their UTF-8 bytes).
pub open spec fn text_order(a: Seq<char>, b: Seq<char>) -> Order
    decreases a.len(),
{
    if a.len() == 0 {
        if b.len() == 0 {
            Order::Equal
        } else {
            Order::Less
        }
    } else if b.len() == 0 {
        Order::Greater
    } else if (a[0] as u32) < (b[0] as u32) {
        Order::Less
    } else if (a[0] as u32) > (b[0] as u32) {
        Order::Greater
    } else {
        text_order(a.drop_first(), b.drop_first())
    }
}

/// Compares two texts as `str`'s `Ord` does.
pub fn compare_chars(a: &[char], b: &[char]) -> (o: Order)
    ensures
        o == text_order(a@, b@),
{
    let mut i: usize = 0;
    assert(a@.skip(0) == a@);
    assert(b@.skip(0) == b@);
    while i < a.len() && i < b.len()
        invariant
            i <= a@.len(),
            i <= b@.len(),
            text_order(a@, b@) == text_order(a@.skip(i as int), b@.skip(i as int)),
        decreases a@.len() - i,
    {
        let x = a[i] as u32;
        let y = b[i] as u32;
        assert(a@.skip(i as int)[0] == a@[i as int]);
        assert(b@.skip(i as int)[0] == b@[i as int]);
        if x < y {
            return Order::Less;
        }
        if x > y {
            return Order::Greater;
        }
        assert(a@.skip(i as int).drop_first() == a@.skip(i + 1));
        assert(b@.skip(i as int).drop_first() == b@.skip(i + 1));
        i = i + 1;
    }
    if i < a.len() {
        Order::Greater
    } else if i < b.len() {
        Order::Less
    } else {
        Order::Equal
    }
}

} // verus!

verus! {

/// What `str::to_lowercase` gives for `s` (Unicode's full lower-case
/// mapping, where one character may become several).
pub uninterp spec fn lowercase(s: Seq<char>) -> Seq<char>;

/// `str::to_lowercase`; the contract names its result `lowercase(s@)` and
/// states nothing more of it.
#[verifier::external_body]
pub(crate) fn to_lowercase(s: &str) -> (r: String)
    ensures
        r@ == lowercase(s@),
{
    s.to_lowercase()
}

/// The parts joined with `sep` between each two (`[String]::join`).
pub open spec fn joined(parts: Seq<Seq<char>>, sep: Seq<char>) -> Seq<char>
    decreases parts.len(),
{
    if parts.len() == 0 {
        seq![]
    } else if parts.len() == 1 {
        parts[0]
    } else {
        joined(parts.drop_last(), sep) + sep + parts.last()
    }
}

/// The parts joined with `sep` between each two (`[String]::join`).
pub fn join_text(parts: &Vec<String>, sep: &str) -> (s: String)
    ensures
        s@ == joined(parts.deep_view(), sep@),
{
    let sepv = chars_of(sep);
    let mut s = String::new();
    let mut i: usize = 0;
    while i < parts.len()
        invariant
            i <= parts@.len(),
            sepv@ == sep@,
            s@ == joined(parts.deep_view().take(i as int), sep@),
        decreases parts@.len() - i,
    {
        let pv = chars_of(parts[i].as_str());
        if i > 0 {
            push_chars(&mut s, sepv.as_slice());
        }
        push_chars(&mut s, pv.as_slice());
        i = i + 1;
        assert(parts.deep_view().take(i as int).drop_last() == parts.deep_view().take(i - 1));
    }
    assert(parts.deep_view().take(parts@.len() as int) == parts.deep_view());
    s
}

} // verus!

verus! {

/// Appends the text `t` to `s`.
pub fn append_str(s: &mut String, t: &str)
    ensures
        final(s)@ == old(s)@ + t@,
{
    let v = chars_of(t);
    push_chars(s, v.as_slice());
}

/// `a` followed by `b`.
pub fn concat2(a: &str, b: &str) -> (s: String)
    ensures
        s@ == a@ + b@,
{
    let mut s = a.to_owned();
    append_str(&mut s, b);
    s
}

/// `a`, `b` and `c` one after the other.
pub fn concat3(a: &str, b: &str, c: &str) -> (s: String)
    ensures
        s@ == a@ + b@ + c@,
{
    let mut s = a.to_owned();
    append_str(&mut s, b);
    append_str(&mut s, c);
    s
}

/// `s` without its last character, where it has one (`String::pop`).
pub fn drop_last_char(s: &str) -> (t: String)
    ensures
        t@ == (if s@.len() == 0 {
            s@
        } else {
            s@.drop_last()
        }),
{
    let v = chars_of(s);
    if v.len() == 0 {
        String::new()
    } else {
        string_of_range(v.as_slice(), 0, v.len() - 1)
    }
}

} // verus!

verus! {

fn bytes_match_at(s: &[u8], q: &[u8], i: usize) -> (b: bool)
    requires
        i + q@.len() <= s@.len(),
    ensures
        b == occurs_at(s@, q@, i as int),
{
    let n = s.len();
    let mut k: usize = 0;
    while k < q.len()
        invariant
            n == s@.len(),
            i + q@.len() <= s@.len(),
            k <= q@.len(),
            forall|m: int| 0 <= m < k ==> s@[i + m] == q@[m],
        decreases q@.len() - k,
    {
        if s[i + k] != q[k] {
            assert(s@.subrange(i as int, i + q@.len())[k as int] != q@[k as int]);
            return false;
        }
        k = k + 1;
    }
    assert(s@.subrange(i as int, i + q@.len()) == q@);
    true
}

/// The first position at or after `from` where the bytes `q` occur in `s`.
pub fn find_bytes(s: &[u8], q: &[u8], from: usize) -> (r: Option<usize>)
    ensures
        r == (match first_occurrence(s@, q@, from as int) {
            Some(i) => Some(i as usize),
            None => None::<usize>,
        }),
{
    if q.len() > s.len() {
        return None;
    }
    let last = s.len() - q.len();
    let mut i: usize = from;
    loop
        invariant
            last + q@.len() == s@.len(),
            from <= i,
            first_occurrence(s@, q@, from as int) == first_occurrence(s@, q@, i as int),
        decreases last + 1 - i,
    {
        if i > last {
            return None;
        }
        if bytes_match_at(s, q, i) {
            return Some(i);
        }
        if i == last {
            assert(first_occurrence(s@, q@, i + 1) is None);
            return None;
        }
        i = i + 1;
    }
}

} // verus!

verus! {

/// Each character of `c` preceded by `'a'`.
pub open spec fn marked_chars(c: Seq<char>) -> Seq<char>
    decreases c.len(),
{
    if c.len() == 0 {
        seq![]
    } else {
        seq!['a', c[0]] + marked_chars(c.skip(1))
    }
}

/// A cell's text in a form that says where it ends: each character
/// preceded by `'a'`, then `"bb"`.
pub open spec fn cell_code(c: Seq<char>) -> Seq<char> {
    marked_chars(c) + seq!['b', 'b']
}

/// A row's cells as one text from which they can be read back: their
/// `cell_code`s one after another.
pub open spec fn cells_key(r: Seq<Seq<char>>) -> Seq<char>
    decreases r.len(),
{
    if r.len() == 0 {
        seq![]
    } else {
        cell_code(r[0]) + cells_key(r.skip(1))
    }
}

proof fn lemma_marked_push(c: Seq<char>, ch: char)
    ensures
        marked_chars(c.push(ch)) == marked_chars(c) + seq!['a', ch],
    decreases c.len(),
{
    if c.len() == 0 {
        assert(c.push(ch).skip(1) =~= Seq::<char>::empty());
        assert(marked_chars(c.push(ch).skip(1)) == Seq::<char>::empty());
        assert(marked_chars(c.push(ch)) =~= seq!['a', ch]);
    } else {
        assert(c.push(ch).skip(1) =~= c.skip(1).push(ch));
        lemma_marked_push(c.skip(1), ch);
        assert(marked_chars(c.push(ch)) =~= marked_chars(c) + seq!['a', ch]);
    }
}

proof fn lemma_key_push(r: Seq<Seq<char>>, c: Seq<char>)
    ensures
        cells_key(r.push(c)) == cells_key(r) + cell_code(c),
    decreases r.len(),
{
    if r.len() == 0 {
        assert(r.push(c).skip(1) =~= Seq::<Seq<char>>::empty());
        assert(cells_key(r.push(c).skip(1)) == Seq::<char>::empty());
        assert(cells_key(r.push(c)) =~= cell_code(c));
    } else {
        assert(r.push(c).skip(1) =~= r.skip(1).push(c));
        lemma_key_push(r.skip(1), c);
        assert(cells_key(r.push(c)) =~= cells_key(r) + cell_code(c));
    }
}

proof fn lemma_cell_code_prefix(c1: Seq<char>, c2: Seq<char>, x: Seq<char>, y: Seq<char>)
    requires
        cell_code(c1) + x == cell_code(c2) + y,
    ensures
        c1 == c2,
        x == y,
    decreases c1.len(),
{
    let s = cell_code(c1) + x;
    if c1.len() == 0 {
        assert(s[0] == 'b');
        if c2.len() > 0 {
            assert((cell_code(c2) + y)[0] == 'a');
        }
        assert(c1 =~= c2);
        assert(x =~= s.skip(2));
        assert(y =~= (cell_code(c2) + y).skip(2));
    } else {
        assert(s[0] == 'a');
        if c2.len() == 0 {
            assert((cell_code(c2) + y)[0] == 'b');
        }
        assert(s[1] == c1[0]);
        assert((cell_code(c2) + y)[1] == c2[0]);
        assert(s.skip(2) =~= cell_code(c1.skip(1)) + x);
        assert((cell_code(c2) + y).skip(2) =~= cell_code(c2.skip(1)) + y);
        lemma_cell_code_prefix(c1.skip(1), c2.skip(1), x, y);
        assert(c1 =~= seq![c1[0]] + c1.skip(1));
        assert(c2 =~= seq![c2[0]] + c2.skip(1));
    }
}

/// Rows with the same key hold the same cells.
pub proof fn lemma_cells_key_injective(r1: Seq<Seq<char>>, r2: Seq<Seq<char>>)
    requires
        cells_key(r1) == cells_key(r2),
    ensures
        r1 == r2,
    decreases r1.len(),
{
    if r1.len() == 0 {
        if r2.len() > 0 {
            assert(cells_key(r2).len() >= 2);
        }
        assert(r1 =~= r2);
    } else {
        if r2.len() == 0 {
            assert(cells_key(r1).len() >= 2);
        }
        lemma_cell_code_prefix(r1[0], r2[0], cells_key(r1.skip(1)), cells_key(r2.skip(1)));
        lemma_cells_key_injective(r1.skip(1), r2.skip(1));
        assert(r1 =~= seq![r1[0]] + r1.skip(1));
        assert(r2 =~= seq![r2[0]] + r2.skip(1));
    }
}

/// The key of a row's cells (see `cells_key`).
pub fn cells_key_text(row: &Vec<String>) -> (s: String)
    ensures
        s@ == cells_key(row.deep_view()),
{
    let mut s = String::new();
    let mut k: usize = 0;
    assert(row.deep_view().take(0) =~= Seq::<Seq<char>>::empty());
    while k < row.len()
        invariant
            k <= row@.len(),
            s@ == cells_key(row.deep_view().take(k as int)),
        decreases row@.len() - k,
    {
        let cv = chars_of(row[k].as_str());
        let ghost before = s@;
        let mut j: usize = 0;
        assert(cv@.take(0) =~= Seq::<char>::empty());
        while j < cv.len()
            invariant
                j <= cv@.len(),
                s@ == before + marked_chars(cv@.take(j as int)),
            decreases cv@.len() - j,
        {
            push_char(&mut s, 'a');
            push_char(&mut s, cv[j]);
            proof {
                lemma_marked_push(cv@.take(j as int), cv@[j as int]);
                assert(cv@.take(j + 1) =~= cv@.take(j as int).push(cv@[j as int]));
            }
            j = j + 1;
        }
        push_char(&mut s, 'b');
        push_char(&mut s, 'b');
        proof {
            assert(cv@.take(j as int) =~= cv@);
            lemma_key_push(row.deep_view().take(k as int), row.deep_view()[k as int]);
            assert(row.deep_view().take(k + 1) =~= row.deep_view().take(k as int).push(
                row.deep_view()[k as int],
            ));
            assert(s@ =~= cells_key(row.deep_view().take(k + 1)));
        }
        k = k + 1;
    }
    assert(row.deep_view().take(k as int) =~= row.deep_view());
    s
}

} // verus!
