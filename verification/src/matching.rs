//! Whether a cell matches a search, and what replacing the match makes
//! of it.

use vstd::prelude::*;

use crate::pattern::{compile, regex_is_match, regex_replaced, regex_valid};
use crate::text::{
    append_str, chars_of, contains_chars, contains_text, lowercase, replace_text, replaced,
    text_eq, to_lowercase,
};

verus! {

/// The pattern a regex search compiles: the query, prefixed with `(?i)`
/// unless the search is case-sensitive.
pub open spec fn search_pattern(q: Seq<char>, case_sensitive: bool) -> Seq<char> {
    if case_sensitive {
        q
    } else {
        "(?i)"@ + q
    }
}

/// A cell's text matches the query: by the regular expression in regex
/// mode (one that does not compile matches nothing), and otherwise by
/// containing it, both taken in lower case unless the search is
/// case-sensitive.
pub open spec fn text_matches(cell: Seq<char>, q: Seq<char>, case_sensitive: bool, regex: bool) -> bool {
    if regex {
        regex_valid(search_pattern(q, case_sensitive)) && regex_is_match(
            search_pattern(q, case_sensitive),
            cell,
        )
    } else if case_sensitive {
        contains_text(cell, q)
    } else {
        contains_text(lowercase(cell), lowercase(q))
    }
}

/// Whether `cell` holds the query, taken in lower case unless the match is
/// case-sensitive (`lq` is the query in lower case).
pub fn plain_match(cell: &str, q: &Vec<char>, lq: &Vec<char>, case_sensitive: bool) -> (b: bool)
    requires
        lq@ == lowercase(q@),
    ensures
        b == text_matches(cell@, q@, case_sensitive, false),
{
    if case_sensitive {
        let cv = chars_of(cell);
        contains_chars(cv.as_slice(), q.as_slice())
    } else {
        let lower = to_lowercase(cell);
        let lv = chars_of(lower.as_str());
        contains_chars(lv.as_slice(), lq.as_slice())
    }
}

} // verus!

verus! {

/// The length of the shortest start of `t`, `m` characters long or longer
/// and at most as long as `lq`, whose lower case is `lq`, if there is one.
pub open spec fn ci_match_len(t: Seq<char>, lq: Seq<char>, m: nat) -> Option<nat>
    decreases lq.len() + 1 - m,
{
    if m == 0 || m > lq.len() || m > t.len() {
        None
    } else if lowercase(t.take(m as int)) == lq {
        Some(m)
    } else {
        ci_match_len(t, lq, m + 1)
    }
}

/// `t` with every case-insensitive match of `lq` (a query in lower case)
/// replaced by `rep`, left to right and without overlap: a match is a
/// stretch of the text, as short as can be, whose lower case is `lq`.
pub open spec fn ci_replaced(t: Seq<char>, lq: Seq<char>, rep: Seq<char>) -> Seq<char>
    decreases t.len(),
{
    if t.len() == 0 {
        seq![]
    } else {
        match ci_match_len(t, lq, 1) {
            Some(m) => if 1 <= m <= t.len() {
                rep + ci_replaced(t.skip(m as int), lq, rep)
            } else {
                seq![]
            },
            None => seq![t[0]] + ci_replaced(t.skip(1), lq, rep),
        }
    }
}

proof fn lemma_match_len_bounds(t: Seq<char>, lq: Seq<char>, m: nat)
    ensures
        ci_match_len(t, lq, m) matches Some(k) ==> m <= k && k >= 1 && k <= t.len() && k
            <= lq.len() && lowercase(t.take(k as int)) == lq,
    decreases lq.len() + 1 - m,
{
    if m == 0 || m > lq.len() || m > t.len() {
    } else if lowercase(t.take(m as int)) == lq {
    } else {
        lemma_match_len_bounds(t, lq, m + 1);
    }
}

/// The length of the case-insensitive match of `lq` at character `i` of
/// `cv` (see `ci_match_len`); `lq_len` is the length of `lq` in characters.
fn match_len_at(cv: &Vec<char>, i: usize, lq: &str, lq_len: usize) -> (r: Option<usize>)
    requires
        i < cv@.len(),
        lq_len == lq@.len(),
    ensures
        match ci_match_len(cv@.skip(i as int), lq@, 1) {
            Some(k) => r == Some(k as usize),
            None => r is None,
        },
{
    let ghost t = cv@.skip(i as int);
    let mut m: usize = 0;
    while m < lq_len && m < cv.len() - i
        invariant
            t == cv@.skip(i as int),
            i < cv@.len(),
            lq_len == lq@.len(),
            ci_match_len(t, lq@, 1) == ci_match_len(t, lq@, (m + 1) as nat),
        decreases lq_len - m,
    {
        let piece = crate::text::string_of_range(cv.as_slice(), i, i + m + 1);
        let low = to_lowercase(piece.as_str());
        assert(piece@ =~= t.take(m + 1));
        if text_eq(low.as_str(), lq) {
            return Some(m + 1);
        }
        m = m + 1;
    }
    None
}

/// Replaces every case-insensitive match of `lq` in `cell` with `rep`
/// (see `ci_replaced`).
pub fn ci_replace_text(cell: &str, lq: &str, rep: &str) -> (r: String)
    ensures
        r@ == ci_replaced(cell@, lq@, rep@),
{
    let cv = chars_of(cell);
    let lq_len = chars_of(lq).len();
    let mut result = String::new();
    let mut i: usize = 0;
    assert(cv@.skip(0) =~= cv@);
    assert(result@ + ci_replaced(cell@, lq@, rep@) =~= ci_replaced(cell@, lq@, rep@));
    while i < cv.len()
        invariant
            cv@ == cell@,
            lq_len == lq@.len(),
            i <= cv@.len(),
            ci_replaced(cell@, lq@, rep@) == result@ + ci_replaced(cv@.skip(i as int), lq@, rep@),
        decreases cv@.len() - i,
    {
        let ghost t = cv@.skip(i as int);
        proof {
            lemma_match_len_bounds(t, lq@, 1);
        }
        match match_len_at(&cv, i, lq, lq_len) {
            Some(m) => {
                let ghost before = result@;
                append_str(&mut result, rep);
                proof {
                    assert(t.skip(m as int) =~= cv@.skip(i + m));
                    assert(before + ci_replaced(t, lq@, rep@) =~= result@ + ci_replaced(
                        cv@.skip(i + m),
                        lq@,
                        rep@,
                    ));
                }
                i = i + m;
            },
            None => {
                let ghost before = result@;
                crate::text::push_char(&mut result, cv[i]);
                proof {
                    assert(t.skip(1) =~= cv@.skip(i + 1));
                    assert(t[0] == cv@[i as int]);
                    assert(before + ci_replaced(t, lq@, rep@) =~= result@ + ci_replaced(
                        cv@.skip(i + 1),
                        lq@,
                        rep@,
                    ));
                }
                i = i + 1;
            },
        }
    }
    proof {
        assert(cv@.skip(i as int) =~= Seq::<char>::empty());
        assert(result@ + Seq::<char>::empty() =~= result@);
    }
    result
}

} // verus!

verus! {

/// What replacing the query `q` with `rep` makes of a matching cell (in
/// every mode there is one, so the result is never `None`): in regex mode
/// `Regex::replace_all` (the replacement alone where the pattern does not
/// compile); case-sensitive, `str::replace`; otherwise every
/// case-insensitive match replaced (see `ci_replaced`).
pub open spec fn replacement(
    cell: Seq<char>,
    q: Seq<char>,
    rep: Seq<char>,
    case_sensitive: bool,
    regex: bool,
) -> Option<Seq<char>> {
    if regex {
        let p = search_pattern(q, case_sensitive);
        if regex_valid(p) {
            Some(regex_replaced(p, cell, rep))
        } else {
            Some(rep)
        }
    } else if case_sensitive {
        Some(replaced(cell, q, rep))
    } else {
        Some(ci_replaced(cell, lowercase(q), rep))
    }
}

/// Replaces the query `q` with `rep` in a matching cell (see
/// `replacement`).
pub fn replacement_text(cell: &str, q: &str, rep: &str, case_sensitive: bool, regex: bool) -> (r:
    Option<String>)
    requires
        q@.len() > 0,
    ensures
        match replacement(cell@, q@, rep@, case_sensitive, regex) {
            Some(t) => r matches Some(s) && s@ == t,
            None => r is None,
        },
{
    if regex {
        let pattern = if case_sensitive {
            q.to_owned()
        } else {
            crate::text::concat2("(?i)", q)
        };
        match compile(pattern.as_str()) {
            Some(re) => Some(re.replace_all(cell, rep)),
            None => Some(rep.to_owned()),
        }
    } else if case_sensitive {
        Some(replace_text(cell, q, rep))
    } else {
        let lq = to_lowercase(q);
        Some(ci_replace_text(cell, lq.as_str(), rep))
    }
}

/// Whether `cell` matches the query `q` with the given options (see
/// `text_matches`).
pub fn cell_matches(cell: &str, q: &str, case_sensitive: bool, regex: bool) -> (b: bool)
    ensures
        b == text_matches(cell@, q@, case_sensitive, regex),
{
    if regex {
        let pattern = if case_sensitive {
            q.to_owned()
        } else {
            crate::text::concat2("(?i)", q)
        };
        match compile(pattern.as_str()) {
            Some(re) => re.is_match(cell),
            None => false,
        }
    } else {
        let qv = chars_of(q);
        let lower = to_lowercase(q);
        let lq = chars_of(lower.as_str());
        plain_match(cell, &qv, &lq, case_sensitive)
    }
}

} // verus!
