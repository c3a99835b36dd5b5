//! Character classes and substring-scanning primitives that the line grammar
//! is built from. Everything here works on sequences of characters; the
//! executable functions are proved equal to the spec-level scans.
use vstd::prelude::*;

verus! {

// ---------------------------------------------------------------------------
// Character classes of the grammar.
//
// A "word" character is an ASCII letter, digit or underscore, or any
// character outside ASCII: names in any script are accepted, and the class
// deliberately admits every non-ASCII character, punctuation and spaces of
// other scripts included.
// ---------------------------------------------------------------------------

pub open spec fn is_word_char(c: char) -> bool {
    let u = c as u32;
    (48 <= u && u <= 57) || (65 <= u && u <= 90) || (97 <= u && u <= 122) || u == 95 || u > 127
}

pub open spec fn is_space_char(c: char) -> bool {
    c == ' ' || c == '\t'
}

pub open spec fn is_digit_char(c: char) -> bool {
    let u = c as u32;
    48 <= u && u <= 57
}

/// Characters allowed in a numeric cost ("4" or "4.99").
pub open spec fn is_cost_char(c: char) -> bool {
    is_digit_char(c) || c == '.'
}

/// Characters allowed in a currency token ("divine", "awakened-sextant").
pub open spec fn is_currency_char(c: char) -> bool {
    is_word_char(c) || c == '-'
}

/// Characters allowed in an item name ("The Pandemonius, Jade Amulet").
pub open spec fn is_item_char(c: char) -> bool {
    is_word_char(c) || is_space_char(c) || c == ','
}

/// Characters allowed in a bartered second item name (no commas).
pub open spec fn is_item2_char(c: char) -> bool {
    is_word_char(c) || is_space_char(c)
}

pub fn word_char(c: char) -> (r: bool)
    ensures
        r == is_word_char(c),
{
    let u: u32 = c as u32;
    (48 <= u && u <= 57) || (65 <= u && u <= 90) || (97 <= u && u <= 122) || u == 95 || u > 127
}

pub fn space_char(c: char) -> (r: bool)
    ensures
        r == is_space_char(c),
{
    c == ' ' || c == '\t'
}

pub fn digit_char(c: char) -> (r: bool)
    ensures
        r == is_digit_char(c),
{
    let u: u32 = c as u32;
    48 <= u && u <= 57
}

pub fn cost_char(c: char) -> (r: bool)
    ensures
        r == is_cost_char(c),
{
    digit_char(c) || c == '.'
}

pub fn currency_char(c: char) -> (r: bool)
    ensures
        r == is_currency_char(c),
{
    word_char(c) || c == '-'
}

pub fn item_char(c: char) -> (r: bool)
    ensures
        r == is_item_char(c),
{
    word_char(c) || space_char(c) || c == ','
}

pub fn item2_char(c: char) -> (r: bool)
    ensures
        r == is_item2_char(c),
{
    word_char(c) || space_char(c)
}

/// The view of an optional owned string.
pub open spec fn view_opt(o: Option<String>) -> Option<Seq<char>> {
    match o {
        Some(s) => Some(s@),
        None => None,
    }
}

// ---------------------------------------------------------------------------
// Substring matching and searching.
// ---------------------------------------------------------------------------

/// `pat` occurs in `s` starting at index `i`.
pub open spec fn match_at(s: Seq<char>, pat: Seq<char>, i: int) -> bool {
    &&& 0 <= i
    &&& i + pat.len() <= s.len()
    &&& s.subrange(i, i + pat.len() as int) == pat
}

/// Index of the first occurrence of `pat` in `s` at or after `i`.
pub open spec fn find_from(s: Seq<char>, pat: Seq<char>, i: int) -> Option<int>
    decreases s.len() - i + 1,
{
    if 0 <= i && i + pat.len() <= s.len() {
        if match_at(s, pat, i) {
            Some(i)
        } else {
            find_from(s, pat, i + 1)
        }
    } else {
        None
    }
}

pub proof fn lemma_find_from_props(s: Seq<char>, pat: Seq<char>, i: int)
    requires
        0 <= i,
    ensures
        match find_from(s, pat, i) {
            Some(j) => i <= j && match_at(s, pat, j) && forall|k: int|
                i <= k < j ==> !match_at(s, pat, k),
            None => forall|k: int| i <= k ==> !match_at(s, pat, k),
        },
    decreases s.len() - i + 1,
{
    if i + pat.len() <= s.len() {
        if !match_at(s, pat, i) {
            lemma_find_from_props(s, pat, i + 1);
        }
    } else {
        assert forall|k: int| i <= k implies !match_at(s, pat, k) by {
            assert(k + pat.len() > s.len());
        }
    }
}

/// Index of the last occurrence of `pat` in `s` that starts in `[lo, hi]`.
pub open spec fn find_last_in(s: Seq<char>, pat: Seq<char>, lo: int, hi: int) -> Option<int>
    decreases hi - lo + 1,
{
    if hi < lo {
        None
    } else if match_at(s, pat, hi) {
        Some(hi)
    } else {
        find_last_in(s, pat, lo, hi - 1)
    }
}

pub proof fn lemma_find_last_in_props(s: Seq<char>, pat: Seq<char>, lo: int, hi: int)
    ensures
        match find_last_in(s, pat, lo, hi) {
            Some(j) => lo <= j <= hi && match_at(s, pat, j) && forall|k: int|
                j < k <= hi ==> !match_at(s, pat, k),
            None => forall|k: int| lo <= k <= hi ==> !match_at(s, pat, k),
        },
    decreases hi - lo + 1,
{
    if hi >= lo && !match_at(s, pat, hi) {
        lemma_find_last_in_props(s, pat, lo, hi - 1);
    }
}

/// End of the longest run of characters satisfying `p` that starts at `i`.
pub open spec fn run_end(s: Seq<char>, i: int, p: spec_fn(char) -> bool) -> int
    decreases s.len() - i,
{
    if 0 <= i && i < s.len() && p(s[i]) {
        run_end(s, i + 1, p)
    } else {
        i
    }
}

/// If every character in `[i, e)` satisfies `p` and the run cannot be
/// extended past `e`, then `e` is exactly the end of the run at `i`.
pub proof fn lemma_run_end_value(s: Seq<char>, i: int, e: int, p: spec_fn(char) -> bool)
    requires
        0 <= i <= e <= s.len(),
        forall|k: int| i <= k < e ==> p(s[k]),
        e < s.len() ==> !p(s[e]),
    ensures
        run_end(s, i, p) == e,
    decreases e - i,
{
    if i < e {
        lemma_run_end_value(s, i + 1, e, p);
    }
}

// Named runs, one per character class of the grammar.

pub open spec fn word_run_end(s: Seq<char>, i: int) -> int {
    run_end(s, i, |c: char| is_word_char(c))
}

pub open spec fn space_run_end(s: Seq<char>, i: int) -> int {
    run_end(s, i, |c: char| is_space_char(c))
}

pub open spec fn digit_run_end(s: Seq<char>, i: int) -> int {
    run_end(s, i, |c: char| is_digit_char(c))
}

pub open spec fn cost_run_end(s: Seq<char>, i: int) -> int {
    run_end(s, i, |c: char| is_cost_char(c))
}

pub open spec fn currency_run_end(s: Seq<char>, i: int) -> int {
    run_end(s, i, |c: char| is_currency_char(c))
}

pub open spec fn item_run_end(s: Seq<char>, i: int) -> int {
    run_end(s, i, |c: char| is_item_char(c))
}

pub open spec fn item2_run_end(s: Seq<char>, i: int) -> int {
    run_end(s, i, |c: char| is_item2_char(c))
}

// ---------------------------------------------------------------------------
// Executable counterparts.
// ---------------------------------------------------------------------------

/// `pat` compared against `s` at position `i`, character by character.
pub fn eq_at(s: &Vec<char>, pat: &Vec<char>, i: usize) -> (r: bool)
    requires
        i + pat.len() <= s.len(),
    ensures
        r == match_at(s@, pat@, i as int),
{
    let mut k: usize = 0;
    while k < pat.len()
        invariant
            i + pat.len() <= s.len(),
            k <= pat.len(),
            forall|m: int| 0 <= m < k ==> s@[i + m] == pat@[m],
        decreases pat.len() - k,
    {
        if s[i + k] != pat[k] {
            assert(s@.subrange(i as int, i + pat@.len() as int)[k as int] != pat@[k as int]);
            return false;
        }
        k += 1;
    }
    assert(s@.subrange(i as int, i + pat@.len() as int) =~= pat@);
    true
}

/// First occurrence of `pat` in `s` at or after `from`.
pub fn find_sub(s: &Vec<char>, pat: &Vec<char>, from: usize) -> (r: Option<usize>)
    ensures
        match r {
            Some(j) => find_from(s@, pat@, from as int) == Some(j as int),
            None => find_from(s@, pat@, from as int) is None,
        },
{
    if pat.len() > s.len() {
        return None;
    }
    if pat.len() == 0 {
        if from <= s.len() {
            assert(s@.subrange(from as int, from as int) =~= pat@);
            return Some(from);
        }
        return None;
    }
    let mut j: usize = from;
    while j <= s.len() - pat.len()
        invariant
            from <= j,
            0 < pat.len() <= s.len(),
            find_from(s@, pat@, from as int) == find_from(s@, pat@, j as int),
        decreases s.len() - j,
    {
        if eq_at(s, pat, j) {
            return Some(j);
        }
        j += 1;
    }
    None
}

/// Last occurrence of `pat` in `s` that starts in `[lo, hi]`.
pub fn find_last_sub(s: &Vec<char>, pat: &Vec<char>, lo: usize, hi: usize) -> (r: Option<
    usize,
>)
    ensures
        match r {
            Some(j) => find_last_in(s@, pat@, lo as int, hi as int) == Some(j as int),
            None => find_last_in(s@, pat@, lo as int, hi as int) is None,
        },
{
    let mut j: usize = hi;
    loop
        invariant
            j <= hi,
            find_last_in(s@, pat@, lo as int, hi as int) == find_last_in(
                s@,
                pat@,
                lo as int,
                j as int,
            ),
        decreases j + 1,
    {
        if j < lo {
            return None;
        }
        let hit: bool = if pat.len() <= s.len() && j <= s.len() - pat.len() {
            eq_at(s, pat, j)
        } else {
            false
        };
        if hit {
            return Some(j);
        }
        assert(!match_at(s@, pat@, j as int));
        assert(find_last_in(s@, pat@, lo as int, j as int) == find_last_in(
            s@,
            pat@,
            lo as int,
            (j as int) - 1,
        ));
        if j == 0 {
            assert(find_last_in(s@, pat@, lo as int, -1) is None);
            return None;
        }
        j -= 1;
    }
}

/// End of the run of word characters starting at `from`.
pub fn word_run(s: &Vec<char>, from: usize) -> (r: usize)
    requires
        from <= s.len(),
    ensures
        from <= r <= s.len(),
        r as int == word_run_end(s@, from as int),
{
    let mut j: usize = from;
    loop
        invariant
            from <= j <= s.len(),
            word_run_end(s@, from as int) == word_run_end(s@, j as int),
        ensures
            from <= j <= s.len(),
            word_run_end(s@, from as int) == j as int,
        decreases s.len() - j,
    {
        if j == s.len() {
            break ;
        }
        if !word_char(s[j]) {
            break ;
        }
        j += 1;
    }
    j
}

/// End of the run of spaces and tabs starting at `from`.
pub fn space_run(s: &Vec<char>, from: usize) -> (r: usize)
    requires
        from <= s.len(),
    ensures
        from <= r <= s.len(),
        r as int == space_run_end(s@, from as int),
{
    let mut j: usize = from;
    loop
        invariant
            from <= j <= s.len(),
            space_run_end(s@, from as int) == space_run_end(s@, j as int),
        ensures
            from <= j <= s.len(),
            space_run_end(s@, from as int) == j as int,
        decreases s.len() - j,
    {
        if j == s.len() {
            break ;
        }
        if !space_char(s[j]) {
            break ;
        }
        j += 1;
    }
    j
}

/// End of the run of decimal digits starting at `from`.
pub fn digit_run(s: &Vec<char>, from: usize) -> (r: usize)
    requires
        from <= s.len(),
    ensures
        from <= r <= s.len(),
        r as int == digit_run_end(s@, from as int),
{
    let mut j: usize = from;
    loop
        invariant
            from <= j <= s.len(),
            digit_run_end(s@, from as int) == digit_run_end(s@, j as int),
        ensures
            from <= j <= s.len(),
            digit_run_end(s@, from as int) == j as int,
        decreases s.len() - j,
    {
        if j == s.len() {
            break ;
        }
        if !digit_char(s[j]) {
            break ;
        }
        j += 1;
    }
    j
}

/// End of the run of cost characters starting at `from`.
pub fn cost_run(s: &Vec<char>, from: usize) -> (r: usize)
    requires
        from <= s.len(),
    ensures
        from <= r <= s.len(),
        r as int == cost_run_end(s@, from as int),
{
    let mut j: usize = from;
    loop
        invariant
            from <= j <= s.len(),
            cost_run_end(s@, from as int) == cost_run_end(s@, j as int),
        ensures
            from <= j <= s.len(),
            cost_run_end(s@, from as int) == j as int,
        decreases s.len() - j,
    {
        if j == s.len() {
            break ;
        }
        if !cost_char(s[j]) {
            break ;
        }
        j += 1;
    }
    j
}

/// End of the run of currency characters starting at `from`.
pub fn currency_run(s: &Vec<char>, from: usize) -> (r: usize)
    requires
        from <= s.len(),
    ensures
        from <= r <= s.len(),
        r as int == currency_run_end(s@, from as int),
{
    let mut j: usize = from;
    loop
        invariant
            from <= j <= s.len(),
            currency_run_end(s@, from as int) == currency_run_end(s@, j as int),
        ensures
            from <= j <= s.len(),
            currency_run_end(s@, from as int) == j as int,
        decreases s.len() - j,
    {
        if j == s.len() {
            break ;
        }
        if !currency_char(s[j]) {
            break ;
        }
        j += 1;
    }
    j
}

/// End of the run of item-name characters starting at `from`.
pub fn item_run(s: &Vec<char>, from: usize) -> (r: usize)
    requires
        from <= s.len(),
    ensures
        from <= r <= s.len(),
        r as int == item_run_end(s@, from as int),
{
    let mut j: usize = from;
    loop
        invariant
            from <= j <= s.len(),
            item_run_end(s@, from as int) == item_run_end(s@, j as int),
        ensures
            from <= j <= s.len(),
            item_run_end(s@, from as int) == j as int,
        decreases s.len() - j,
    {
        if j == s.len() {
            break ;
        }
        if !item_char(s[j]) {
            break ;
        }
        j += 1;
    }
    j
}

/// End of the run of second-item characters starting at `from`.
pub fn item2_run(s: &Vec<char>, from: usize) -> (r: usize)
    requires
        from <= s.len(),
    ensures
        from <= r <= s.len(),
        r as int == item2_run_end(s@, from as int),
{
    let mut j: usize = from;
    loop
        invariant
            from <= j <= s.len(),
            item2_run_end(s@, from as int) == item2_run_end(s@, j as int),
        ensures
            from <= j <= s.len(),
            item2_run_end(s@, from as int) == j as int,
        decreases s.len() - j,
    {
        if j == s.len() {
            break ;
        }
        if !item2_char(s[j]) {
            break ;
        }
        j += 1;
    }
    j
}

/// The characters of `s`, one by one.
pub fn chars_vec(s: &str) -> (r: Vec<char>)
    ensures
        r@ == s@,
{
    let n: usize = s.unicode_len();
    let mut r: Vec<char> = Vec::new();
    let mut i: usize = 0;
    while i < n
        invariant
            n == s@.len(),
            i <= n,
            r@ == s@.subrange(0, i as int),
        decreases n - i,
    {
        let c = s.get_char(i);
        r.push(c);
        assert(r@ =~= s@.subrange(0, i + 1));
        i += 1;
    }
    assert(r@ =~= s@);
    r
}

} // verus!
