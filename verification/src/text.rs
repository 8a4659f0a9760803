//! Character-level building blocks: whitespace, tokens, trimming, the
//! separator of name and value in a header line, and the way from bytes to
//! text.

use vstd::prelude::*;
use vstd::std_specs::iter::IteratorSpec;
use vstd::utf8::{decode_utf8, valid_utf8};

verus! {

/// The characters that carry the Unicode `White_Space` property.
pub open spec fn is_whitespace(c: char) -> bool {
    let u = c as u32;
    ||| 0x09 <= u <= 0x0D
    ||| u == 0x20
    ||| u == 0x85
    ||| u == 0xA0
    ||| u == 0x1680
    ||| 0x2000 <= u <= 0x200A
    ||| u == 0x2028
    ||| u == 0x2029
    ||| u == 0x202F
    ||| u == 0x205F
    ||| u == 0x3000
}

/// Decides whether `c` is a whitespace character.
pub fn char_is_whitespace(c: char) -> (b: bool)
    ensures
        b == is_whitespace(c),
{
    let u: u32 = c as u32;
    (0x09 <= u && u <= 0x0D) || u == 0x20 || u == 0x85 || u == 0xA0 || u == 0x1680 || (0x2000 <= u
        && u <= 0x200A) || u == 0x2028 || u == 0x2029 || u == 0x202F || u == 0x205F || u == 0x3000
}

/// The first position at or after `i` that holds no whitespace, or the
/// length of `s` where only whitespace follows.
pub open spec fn skip_whitespace(s: Seq<char>, i: int) -> int
    decreases s.len() - i,
{
    if 0 <= i < s.len() && is_whitespace(s[i]) {
        skip_whitespace(s, i + 1)
    } else {
        i
    }
}

/// What `skip_whitespace` skips is whitespace, and it stops at the first
/// character that is not.
pub proof fn lemma_skip_whitespace(s: Seq<char>, i: int)
    requires
        0 <= i <= s.len(),
    ensures
        i <= skip_whitespace(s, i) <= s.len(),
        forall|k: int| i <= k < skip_whitespace(s, i) ==> is_whitespace(#[trigger] s[k]),
        skip_whitespace(s, i) < s.len() ==> !is_whitespace(s[skip_whitespace(s, i)]),
    decreases s.len() - i,
{
    if i < s.len() && is_whitespace(s[i]) {
        lemma_skip_whitespace(s, i + 1);
    }
}

/// The end of the run of non-whitespace characters that begins at `i`.
pub open spec fn token_end(s: Seq<char>, i: int) -> int
    decreases s.len() - i,
{
    if 0 <= i < s.len() && !is_whitespace(s[i]) {
        token_end(s, i + 1)
    } else {
        i
    }
}

/// A run never ends before it begins, nor beyond the text.
pub proof fn lemma_token_end_bounds(s: Seq<char>, i: int)
    requires
        0 <= i <= s.len(),
    ensures
        i <= token_end(s, i) <= s.len(),
        i < s.len() && !is_whitespace(s[i]) ==> i < token_end(s, i),
        token_end(s, i) < s.len() ==> is_whitespace(s[token_end(s, i)]),
        forall|k: int| i <= k < token_end(s, i) ==> !is_whitespace(#[trigger] s[k]),
    decreases s.len() - i,
{
    if i < s.len() && !is_whitespace(s[i]) {
        lemma_token_end_bounds(s, i + 1);
    }
}

/// The maximal runs of non-whitespace characters of `s` that begin at or
/// after `i`, in order.
pub open spec fn tokens_from(s: Seq<char>, i: int) -> Seq<Seq<char>>
    decreases s.len() - i,
    via tokens_from_decreases
{
    if i < 0 || i >= s.len() {
        Seq::empty()
    } else if is_whitespace(s[i]) {
        tokens_from(s, i + 1)
    } else {
        seq![s.subrange(i, token_end(s, i))] + tokens_from(s, token_end(s, i))
    }
}

#[via_fn]
proof fn tokens_from_decreases(s: Seq<char>, i: int) {
    if 0 <= i < s.len() && !is_whitespace(s[i]) {
        lemma_token_end_bounds(s, i);
    }
}

/// The whitespace-separated tokens of `s`.
pub open spec fn tokens(s: Seq<char>) -> Seq<Seq<char>> {
    tokens_from(s, 0)
}

/// The `n`-th token of `s`, where there is one.
pub open spec fn nth_token(s: Seq<char>, n: int) -> Option<Seq<char>> {
    if 0 <= n < tokens(s).len() {
        Some(tokens(s)[n])
    } else {
        None
    }
}

/// Finds the next token at or after `from`, as the range it occupies.
pub fn next_token(s: &[char], from: usize) -> (r: Option<(usize, usize)>)
    ensures
        match r {
            None => tokens_from(s@, from as int) =~= Seq::<Seq<char>>::empty(),
            Some((a, b)) => {
                &&& from <= a < b <= s@.len()
                &&& a == skip_whitespace(s@, from as int)
                &&& b == token_end(s@, a as int)
                &&& tokens_from(s@, from as int) == seq![s@.subrange(a as int, b as int)]
                    + tokens_from(s@, b as int)
            },
        },
{
    let n = s.len();
    let mut a: usize = from;
    while a < n && char_is_whitespace(s[a])
        invariant
            from <= a,
            a <= n || a == from,
            n == s@.len(),
            tokens_from(s@, a as int) == tokens_from(s@, from as int),
            skip_whitespace(s@, a as int) == skip_whitespace(s@, from as int),
        decreases n - a,
    {
        a += 1;
    }
    if a >= n {
        return None;
    }
    let mut b: usize = a + 1;
    proof {
        lemma_token_end_bounds(s@, a as int);
    }
    while b < n && !char_is_whitespace(s[b])
        invariant
            a < b <= n,
            n == s@.len(),
            token_end(s@, b as int) == token_end(s@, a as int),
        decreases n - b,
    {
        b += 1;
    }
    Some((a, b))
}

/// The position just behind the last character before `j` that is no
/// whitespace, or 0 where only whitespace precedes.
pub open spec fn skip_whitespace_back(s: Seq<char>, j: int) -> int
    decreases j,
{
    if 0 < j <= s.len() && is_whitespace(s[j - 1]) {
        skip_whitespace_back(s, j - 1)
    } else {
        j
    }
}

/// Where the trimmed text begins.
pub open spec fn trim_start(s: Seq<char>) -> int {
    skip_whitespace(s, 0)
}

/// Where the trimmed text ends; equal to `trim_start` where `s` is blank.
pub open spec fn trim_end(s: Seq<char>) -> int {
    let a = trim_start(s);
    let b = skip_whitespace_back(s, s.len() as int);
    if b < a {
        a
    } else {
        b
    }
}

/// `s` without its leading and trailing whitespace.
pub open spec fn trim(s: Seq<char>) -> Seq<char> {
    s.subrange(trim_start(s), trim_end(s))
}

/// What `skip_whitespace_back` skips is whitespace, and it stops behind the
/// last character that is not.
pub proof fn lemma_skip_whitespace_back(s: Seq<char>, j: int)
    requires
        0 <= j <= s.len(),
    ensures
        0 <= skip_whitespace_back(s, j) <= j,
        forall|k: int| skip_whitespace_back(s, j) <= k < j ==> is_whitespace(#[trigger] s[k]),
        0 < skip_whitespace_back(s, j) ==> !is_whitespace(s[skip_whitespace_back(s, j) - 1]),
    decreases j,
{
    if 0 < j && is_whitespace(s[j - 1]) {
        lemma_skip_whitespace_back(s, j - 1);
    }
}

/// Trimming removes whitespace only, and all of it at both ends: the
/// trimmed text neither begins nor ends with whitespace.
pub proof fn lemma_trim_is_tight(s: Seq<char>)
    ensures
        0 <= trim_start(s) <= trim_end(s) <= s.len(),
        forall|k: int| 0 <= k < trim_start(s) ==> is_whitespace(#[trigger] s[k]),
        forall|k: int| trim_end(s) <= k < s.len() ==> is_whitespace(#[trigger] s[k]),
        trim(s).len() > 0 ==> !is_whitespace(trim(s).first()) && !is_whitespace(trim(s).last()),
{
    lemma_skip_whitespace(s, 0);
    lemma_skip_whitespace_back(s, s.len() as int);
}

/// Text that neither begins nor ends with whitespace is left as it is.
pub proof fn lemma_trim_keeps_tight_text(s: Seq<char>)
    requires
        s.len() > 0 ==> !is_whitespace(s.first()) && !is_whitespace(s.last()),
    ensures
        trim(s) == s,
{
    assert(trim(s) =~= s);
}

/// Finds the range that `trim` keeps.
pub fn trim_bounds(s: &[char]) -> (r: (usize, usize))
    ensures
        r.0 == trim_start(s@),
        r.1 == trim_end(s@),
        r.0 <= r.1 <= s@.len(),
{
    let n = s.len();
    let mut a: usize = 0;
    while a < n && char_is_whitespace(s[a])
        invariant
            a <= n,
            n == s@.len(),
            skip_whitespace(s@, a as int) == skip_whitespace(s@, 0),
        decreases n - a,
    {
        a += 1;
    }
    let mut b: usize = n;
    while b > a && char_is_whitespace(s[b - 1])
        invariant
            a <= b <= n,
            n == s@.len(),
            skip_whitespace_back(s@, b as int) == skip_whitespace_back(s@, n as int),
        decreases b,
    {
        b -= 1;
    }
    proof {
        lemma_skip_whitespace_back(s@, b as int);
    }
    (a, b)
}

/// Whether the separator of name and value, a colon and a space, stands at
/// `i`.
pub open spec fn separator_at(s: Seq<char>, i: int) -> bool {
    0 <= i && i + 1 < s.len() && s[i] == ':' && s[i + 1] == ' '
}

/// The first position at or after `i` where the separator stands.
pub open spec fn find_separator(s: Seq<char>, i: int) -> Option<int>
    decreases s.len() - i,
{
    if i < 0 || i + 1 >= s.len() {
        None
    } else if separator_at(s, i) {
        Some(i)
    } else {
        find_separator(s, i + 1)
    }
}

/// `find_separator` gives the least position of a separator.
pub proof fn lemma_find_separator(s: Seq<char>, i: int)
    requires
        0 <= i,
    ensures
        match find_separator(s, i) {
            Some(p) => i <= p && separator_at(s, p) && forall|k: int|
                i <= k < p ==> !separator_at(s, k),
            None => forall|k: int| i <= k ==> !separator_at(s, k),
        },
    decreases s.len() - i,
{
    if i + 1 < s.len() && !separator_at(s, i) {
        lemma_find_separator(s, i + 1);
    }
}

/// Finds the first separator of name and value in `s`.
pub fn first_separator(s: &[char]) -> (r: Option<usize>)
    ensures
        match r {
            Some(p) => find_separator(s@, 0) == Some(p as int) && p + 1 < s@.len(),
            None => find_separator(s@, 0) is None,
        },
{
    let n = s.len();
    let mut i: usize = 0;
    while i < n && i + 1 < n
        invariant
            i <= n,
            n == s@.len(),
            find_separator(s@, i as int) == find_separator(s@, 0),
        decreases n - i,
    {
        if s[i] == ':' && s[i + 1] == ' ' {
            return Some(i);
        }
        i += 1;
    }
    None
}

/// The characters of `s`, one by one.
pub fn chars_of(s: &str) -> (v: Vec<char>)
    ensures
        v@ == s@,
{
    broadcast use vstd::string::group_string_axioms;

    let mut v: Vec<char> = Vec::new();
    let mut it = s.chars();
    loop
        invariant
            it.obeys_prophetic_iter_laws(),
            it.decrease() is Some,
            v@ + it.remaining() == s@,
        ensures
            v@ == s@,
        decreases it.decrease()->0,
    {
        let ghost before = it.remaining();
        match it.next() {
            Some(c) => {
                v.push(c);
                assert(v@ + it.remaining() =~= s@) by {
                    assert(before =~= seq![c] + before.drop_first());
                }
            },
            None => {
                assert(v@ + it.remaining() =~= v@);
                break ;
            },
        }
    }
    v
}

/// The text of an optional string.
pub open spec fn opt_text(o: Option<String>) -> Option<Seq<char>> {
    match o {
        Some(s) => Some(s@),
        None => None,
    }
}

/// The text of an optional field as it is written out: an absent field is
/// written as nothing.
pub open spec fn text_or_empty(o: Option<Seq<char>>) -> Seq<char> {
    match o {
        Some(s) => s,
        None => Seq::empty(),
    }
}

/// What `String::from_utf8_lossy` makes of bytes that are not well-formed
/// UTF-8: the characters that can be decoded, with U+FFFD in place of each
/// ill-formed sequence.
pub uninterp spec fn utf8_lossy(bytes: Seq<u8>) -> Seq<char>;

/// The text that a run of bytes stands for: the text it encodes where it
/// is well-formed UTF-8, and what lossy decoding makes of it where not.
pub open spec fn lossy_text(bytes: Seq<u8>) -> Seq<char> {
    if valid_utf8(bytes) {
        decode_utf8(bytes)
    } else {
        utf8_lossy(bytes)
    }
}

/// Decodes `bytes` as UTF-8 without ever failing, by
/// `String::from_utf8_lossy`.
///
/// Trusted: bytes that are well-formed UTF-8 come back as the text they
/// encode; for any others the result depends on the bytes alone, and is
/// named `utf8_lossy`.
#[verifier::external_body]
pub(crate) fn decode_lossy(bytes: &[u8]) -> (s: String)
    ensures
        valid_utf8(bytes@) ==> s@ == decode_utf8(bytes@),
        !valid_utf8(bytes@) ==> s@ == utf8_lossy(bytes@),
{
    String::from_utf8_lossy(bytes).into_owned()
}

/// A copy of the characters of `s` in the range from `from` to `to`.
pub(crate) fn substring(s: &str, from: usize, to: usize) -> (r: String)
    requires
        from <= to <= s@.len(),
    ensures
        r@ == s@.subrange(from as int, to as int),
{
    s.substring_char(from, to).to_owned()
}

} // verus!
