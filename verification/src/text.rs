//! Small text operations shared by the rest of the library: Unicode
//! whitespace trimming and ASCII case folding, stated over the characters
//! of a string.

use vstd::prelude::*;

verus! {

/// The characters with the Unicode `White_Space` property, which is what
/// `char::is_whitespace` tests.
pub open spec fn is_space(c: char) -> bool {
    let v = c as u32;
    ||| 0x09 <= v <= 0x0D
    ||| v == 0x20
    ||| v == 0x85
    ||| v == 0xA0
    ||| v == 0x1680
    ||| 0x2000 <= v <= 0x200A
    ||| v == 0x2028
    ||| v == 0x2029
    ||| v == 0x202F
    ||| v == 0x205F
    ||| v == 0x3000
}

/// The index of the first character that is not whitespace at or after
/// `i`, or the length when there is none.
pub open spec fn first_non_space_from(s: Seq<char>, i: int) -> int
    decreases s.len() - i,
{
    if i >= s.len() {
        s.len() as int
    } else if !is_space(s[i]) {
        i
    } else {
        first_non_space_from(s, i + 1)
    }
}

/// One past the last character that is not whitespace before `j`, or zero
/// when there is none.
pub open spec fn last_non_space_before(s: Seq<char>, j: int) -> int
    decreases j,
{
    if j <= 0 {
        0
    } else if !is_space(s[j - 1]) {
        j
    } else {
        last_non_space_before(s, j - 1)
    }
}

/// The string without its leading whitespace.
pub open spec fn trim_start_spec(s: Seq<char>) -> Seq<char> {
    s.subrange(first_non_space_from(s, 0), s.len() as int)
}

/// The string without its leading and trailing whitespace.
pub open spec fn trim_spec(s: Seq<char>) -> Seq<char> {
    let a = first_non_space_from(s, 0);
    let b = last_non_space_before(s, s.len() as int);
    if a >= b { Seq::empty() } else { s.subrange(a, b) }
}

/// ASCII uppercase letters to lowercase; every other character unchanged.
pub open spec fn ascii_lower_char(c: char) -> char {
    if 'A' <= c && c <= 'Z' { ((c as u32) + 32) as char } else { c }
}

/// The string with ASCII uppercase letters lowered.
pub open spec fn ascii_lower(s: Seq<char>) -> Seq<char> {
    s.map_values(|c: char| ascii_lower_char(c))
}

/// Where the scan for the first non-whitespace character stops: in range,
/// on a character that is not whitespace, past only whitespace.
pub proof fn lemma_first_non_space_bounds(s: Seq<char>, i: int)
    requires
        0 <= i <= s.len(),
    ensures
        i <= first_non_space_from(s, i) <= s.len(),
        first_non_space_from(s, i) < s.len() ==> !is_space(s[first_non_space_from(s, i)]),
        forall|k: int| i <= k < first_non_space_from(s, i) ==> is_space(#[trigger] s[k]),
    decreases s.len() - i,
{
    if i < s.len() && is_space(s[i]) {
        lemma_first_non_space_bounds(s, i + 1);
    }
}

/// Where the scan back for the last non-whitespace character stops: in
/// range, just after a character that is not whitespace, before only
/// whitespace.
pub proof fn lemma_last_non_space_bounds(s: Seq<char>, j: int)
    requires
        0 <= j <= s.len(),
    ensures
        0 <= last_non_space_before(s, j) <= j,
        last_non_space_before(s, j) > 0 ==> !is_space(s[last_non_space_before(s, j) - 1]),
        forall|k: int| last_non_space_before(s, j) <= k < j ==> is_space(#[trigger] s[k]),
    decreases j,
{
    if j > 0 && is_space(s[j - 1]) {
        lemma_last_non_space_bounds(s, j - 1);
    }
}

/// Whether a character is whitespace, as `char::is_whitespace` says.
pub fn is_space_char(c: char) -> (r: bool)
    ensures
        r == is_space(c),
{
    let v = c as u32;
    (0x09 <= v && v <= 0x0D) || v == 0x20 || v == 0x85 || v == 0xA0 || v == 0x1680 || (0x2000
        <= v && v <= 0x200A) || v == 0x2028 || v == 0x2029 || v == 0x202F || v == 0x205F || v
        == 0x3000
}

/// The index of the first character of `s` that is not whitespace.
fn first_non_space(s: &str) -> (r: usize)
    ensures
        r == first_non_space_from(s@, 0),
{
    let n = s.unicode_len();
    let mut i: usize = 0;
    proof {
        lemma_first_non_space_bounds(s@, 0);
    }
    while i < n && is_space_char(s.get_char(i))
        invariant
            n == s@.len(),
            0 <= i <= n,
            first_non_space_from(s@, i as int) == first_non_space_from(s@, 0),
        decreases n - i,
    {
        i = i + 1;
    }
    i
}

/// One past the last character of `s` that is not whitespace.
fn end_of_non_space(s: &str) -> (r: usize)
    ensures
        r == last_non_space_before(s@, s@.len() as int),
{
    let n = s.unicode_len();
    let mut j: usize = n;
    while j > 0 && is_space_char(s.get_char(j - 1))
        invariant
            n == s@.len(),
            0 <= j <= n,
            last_non_space_before(s@, j as int) == last_non_space_before(s@, n as int),
        decreases j,
    {
        j = j - 1;
    }
    j
}

/// `s` without leading and trailing whitespace, as `str::trim` gives it.
pub fn trim(s: &str) -> (r: String)
    ensures
        r@ == trim_spec(s@),
{
    let a = first_non_space(s);
    let b = end_of_non_space(s);
    proof {
        lemma_first_non_space_bounds(s@, 0);
        lemma_last_non_space_bounds(s@, s@.len() as int);
    }
    if a >= b {
        String::new()
    } else {
        s.substring_char(a, b).to_owned()
    }
}

/// `s` without leading whitespace, as `str::trim_start` gives it.
pub fn trim_start(s: &str) -> (r: String)
    ensures
        r@ == trim_start_spec(s@),
{
    let a = first_non_space(s);
    proof {
        lemma_first_non_space_bounds(s@, 0);
    }
    let n = s.unicode_len();
    s.substring_char(a, n).to_owned()
}

/// Whether two characters are equal once ASCII letters are lowered.
pub fn eq_ignore_ascii_case_char(a: char, b: char) -> (r: bool)
    ensures
        r == (ascii_lower_char(a) == ascii_lower_char(b)),
{
    let la = if 'A' <= a && a <= 'Z' { ((a as u32) + 32) as u32 } else { a as u32 };
    let lb = if 'A' <= b && b <= 'Z' { ((b as u32) + 32) as u32 } else { b as u32 };
    proof {
        assert(ascii_lower_char(a) as u32 == la);
        assert(ascii_lower_char(b) as u32 == lb);
    }
    la == lb
}


/// Whether two strings hold the same characters.
pub fn text_eq(a: &str, b: &str) -> (r: bool)
    ensures
        r == (a@ == b@),
{
    let n = a.unicode_len();
    if n != b.unicode_len() {
        return false;
    }
    let mut i: usize = 0;
    while i < n
        invariant
            n == a@.len(),
            n == b@.len(),
            0 <= i <= n,
            forall|k: int| 0 <= k < i ==> a@[k] == b@[k],
        decreases n - i,
    {
        if a.get_char(i) != b.get_char(i) {
            return false;
        }
        i = i + 1;
    }
    assert(a@ =~= b@);
    true
}


/// Trimming twice is trimming once: a trimmed string has no whitespace
/// left at either end.
pub proof fn lemma_trim_idempotent(s: Seq<char>)
    ensures
        trim_spec(trim_spec(s)) == trim_spec(s),
{
    let t = trim_spec(s);
    let a = first_non_space_from(s, 0);
    let b = last_non_space_before(s, s.len() as int);
    lemma_first_non_space_bounds(s, 0);
    lemma_last_non_space_bounds(s, s.len() as int);
    if a >= b {
        assert(t =~= Seq::<char>::empty());
        assert(first_non_space_from(t, 0) == 0);
        assert(last_non_space_before(t, 0) == 0);
        assert(trim_spec(t) =~= t);
    } else {
        assert(t == s.subrange(a, b));
        assert(t[0] == s[a]);
        assert(!is_space(t[0]));
        assert(first_non_space_from(t, 0) == 0);
        assert(t[t.len() - 1] == s[b - 1]);
        assert(last_non_space_before(t, t.len() as int) == t.len());
        assert(trim_spec(t) =~= t);
    }
}

} // verus!
