use vstd::prelude::*;

verus! {

/// Relies on `String::push`: the character is appended at the end.
#[verifier::external_body]
pub(crate) fn push_char(s: &mut String, c: char)
    ensures
        final(s)@ == old(s)@.push(c),
{
    s.push(c)
}

/// Unicode's White_Space property, which `char::is_whitespace` tests.
pub open spec fn is_space(c: char) -> bool {
    let u = c as u32;
    (0x9 <= u && u <= 0xd) || u == 0x20 || u == 0x85 || u == 0xa0 || u == 0x1680 || (0x2000
        <= u && u <= 0x200a) || u == 0x2028 || u == 0x2029 || u == 0x202f || u == 0x205f || u
        == 0x3000
}

/// Whether `c` is white space.
pub fn is_whitespace(c: char) -> (r: bool)
    ensures
        r == is_space(c),
{
    let u = c as u32;
    (0x9 <= u && u <= 0xd) || u == 0x20 || u == 0x85 || u == 0xa0 || u == 0x1680 || (0x2000 <= u
        && u <= 0x200a) || u == 0x2028 || u == 0x2029 || u == 0x202f || u == 0x205f || u == 0x3000
}

/// The length of `s[0..n]` once the white space at its end is cut off.
pub open spec fn trim_end_len(s: Seq<char>, n: int) -> int
    decreases n,
{
    if n <= 0 {
        0
    } else if is_space(s[n - 1]) {
        trim_end_len(s, n - 1)
    } else {
        n
    }
}

/// Where the word that ends at `n` starts: the position after the last white
/// space before `n`, or 0.
pub open spec fn word_start(s: Seq<char>, n: int) -> int
    decreases n,
{
    if n <= 0 {
        0
    } else if is_space(s[n - 1]) {
        n
    } else {
        word_start(s, n - 1)
    }
}

/// `s` without its last word and the white space around that word; empty
/// when `s` holds at most one word.
pub open spec fn without_last_word(s: Seq<char>) -> Seq<char> {
    s.subrange(0, trim_end_len(s, word_start(s, trim_end_len(s, s.len() as int))))
}

/// Cutting white space off `s[0..n]` leaves between 0 and `n` characters.
pub proof fn lemma_trim_end_len_bounds(s: Seq<char>, n: int)
    requires
        0 <= n,
    ensures
        0 <= trim_end_len(s, n) <= n,
    decreases n,
{
    if n > 0 && is_space(s[n - 1]) {
        lemma_trim_end_len_bounds(s, n - 1);
    }
}

/// The word that ends at `n` starts between 0 and `n`.
pub proof fn lemma_word_start_bounds(s: Seq<char>, n: int)
    requires
        0 <= n,
    ensures
        0 <= word_start(s, n) <= n,
    decreases n,
{
    if n > 0 && !is_space(s[n - 1]) {
        lemma_word_start_bounds(s, n - 1);
    }
}

/// `trim_end_len` computed by a backward scan of `s`.
fn trim_end(s: &str, n: usize) -> (k: usize)
    requires
        n <= s@.len(),
    ensures
        k == trim_end_len(s@, n as int),
{
    let mut k: usize = n;
    while k > 0
        invariant_except_break
            k <= n <= s@.len(),
            trim_end_len(s@, k as int) == trim_end_len(s@, n as int),
        ensures
            k == trim_end_len(s@, n as int),
        decreases k,
    {
        if !is_whitespace(s.get_char(k - 1)) {
            break;
        }
        k -= 1;
    }
    k
}

/// `word_start` computed by a backward scan of `s`.
fn find_word_start(s: &str, n: usize) -> (k: usize)
    requires
        n <= s@.len(),
    ensures
        k == word_start(s@, n as int),
{
    let mut k: usize = n;
    while k > 0
        invariant_except_break
            k <= n <= s@.len(),
            word_start(s@, k as int) == word_start(s@, n as int),
        ensures
            k == word_start(s@, n as int),
        decreases k,
    {
        if is_whitespace(s.get_char(k - 1)) {
            break;
        }
        k -= 1;
    }
    k
}

/// `s` without its last word (see `without_last_word`).
pub fn drop_last_word(s: &str) -> (r: String)
    ensures
        r@ == without_last_word(s@),
{
    let len = s.unicode_len();
    let end = trim_end(s, len);
    proof {
        lemma_trim_end_len_bounds(s@, len as int);
    }
    let start = find_word_start(s, end);
    proof {
        lemma_word_start_bounds(s@, end as int);
    }
    let cut = trim_end(s, start);
    proof {
        lemma_trim_end_len_bounds(s@, start as int);
    }
    String::from_str(s.substring_char(0, cut))
}

} // verus!
