//! Character-level scanning primitives: finding a delimiter at or after a
//! position, and trimming surrounding whitespace.

use vstd::prelude::*;
use vstd::string::*;

verus! {

/// The least index at or after `from` where `c` occurs in `s`, if any.
pub open spec fn find_from(s: Seq<char>, from: int, c: char) -> Option<int>
    decreases s.len() - from,
{
    if from < 0 || from >= s.len() {
        None
    } else if s[from] == c {
        Some(from)
    } else {
        find_from(s, from + 1, c)
    }
}

/// What a successful or failed search means for the characters of `s`.
pub proof fn lemma_find_from(s: Seq<char>, from: int, c: char)
    requires
        0 <= from <= s.len(),
    ensures
        match find_from(s, from, c) {
            Some(i) => {
                &&& from <= i < s.len()
                &&& s[i] == c
                &&& forall|m: int| from <= m < i ==> s[m] != c
            },
            None => forall|m: int| from <= m < s.len() ==> s[m] != c,
        },
    decreases s.len() - from,
{
    if from < s.len() && s[from] != c {
        lemma_find_from(s, from + 1, c);
    }
}

/// A position known to hold the first occurrence of `c` is what the search
/// returns.
pub proof fn lemma_find_from_is(s: Seq<char>, from: int, i: int, c: char)
    requires
        0 <= from <= i < s.len(),
        s[i] == c,
        forall|m: int| from <= m < i ==> s[m] != c,
    ensures
        find_from(s, from, c) == Some(i),
    decreases i - from,
{
    if from < i {
        lemma_find_from_is(s, from + 1, i, c);
    }
}

/// Finds the first occurrence of `c` at or after character position `from`.
pub fn find_char_from(s: &str, from: usize, c: char) -> (r: Option<usize>)
    requires
        from <= s@.len(),
    ensures
        match r {
            Some(i) => find_from(s@, from as int, c) == Some(i as int),
            None => find_from(s@, from as int, c) is None,
        },
{
    let n = s.unicode_len();
    let mut i = from;
    while i < n
        invariant
            from <= i <= n,
            n == s@.len(),
            find_from(s@, from as int, c) == find_from(s@, i as int, c),
        decreases n - i,
    {
        if s.get_char(i) == c {
            return Some(i);
        }
        i = i + 1;
    }
    None
}

/// The whitespace characters stripped from metadata keys and values and
/// from comment text: the Unicode white-space set, the same characters
/// that `str::trim` strips.
pub open spec fn is_ws(c: char) -> bool {
    ||| c == '\u{0009}'
    ||| c == '\u{000A}'
    ||| c == '\u{000B}'
    ||| c == '\u{000C}'
    ||| c == '\u{000D}'
    ||| c == ' '
    ||| c == '\u{0085}'
    ||| c == '\u{00A0}'
    ||| c == '\u{1680}'
    ||| c == '\u{2000}'
    ||| c == '\u{2001}'
    ||| c == '\u{2002}'
    ||| c == '\u{2003}'
    ||| c == '\u{2004}'
    ||| c == '\u{2005}'
    ||| c == '\u{2006}'
    ||| c == '\u{2007}'
    ||| c == '\u{2008}'
    ||| c == '\u{2009}'
    ||| c == '\u{200A}'
    ||| c == '\u{2028}'
    ||| c == '\u{2029}'
    ||| c == '\u{202F}'
    ||| c == '\u{205F}'
    ||| c == '\u{3000}'
}

fn is_ws_char(c: char) -> (r: bool)
    ensures
        r == is_ws(c),
{
    c == '\u{0009}' || c == '\u{000A}' || c == '\u{000B}' || c == '\u{000C}' || c == '\u{000D}'
        || c == ' ' || c == '\u{0085}' || c == '\u{00A0}' || c == '\u{1680}' || c == '\u{2000}'
        || c == '\u{2001}' || c == '\u{2002}' || c == '\u{2003}' || c == '\u{2004}' || c
        == '\u{2005}' || c == '\u{2006}' || c == '\u{2007}' || c == '\u{2008}' || c == '\u{2009}'
        || c == '\u{200A}' || c == '\u{2028}' || c == '\u{2029}' || c == '\u{202F}' || c
        == '\u{205F}' || c == '\u{3000}'
}

/// The first index at or after `from` holding a non-whitespace character, or
/// the length of `s` when only whitespace remains.
pub open spec fn ws_prefix_end(s: Seq<char>, from: int) -> int
    decreases s.len() - from,
{
    if from < 0 || from >= s.len() {
        s.len() as int
    } else if is_ws(s[from]) {
        ws_prefix_end(s, from + 1)
    } else {
        from
    }
}

/// The least index such that only whitespace stands between it and `upto`.
pub open spec fn ws_suffix_start(s: Seq<char>, upto: int) -> int
    decreases upto,
{
    if upto <= 0 {
        0
    } else if 0 <= upto - 1 < s.len() && is_ws(s[upto - 1]) {
        ws_suffix_start(s, upto - 1)
    } else {
        upto
    }
}

/// `s` with leading and trailing whitespace removed.
pub open spec fn trim_spec(s: Seq<char>) -> Seq<char> {
    let a = ws_prefix_end(s, 0);
    let b = ws_suffix_start(s, s.len() as int);
    if a <= b {
        s.subrange(a, b)
    } else {
        Seq::empty()
    }
}

/// Strips leading and trailing whitespace, leaving the first through last
/// non-whitespace character.
pub fn trim_str(s: &str) -> (r: &str)
    ensures
        r@ == trim_spec(s@),
{
    let n = s.unicode_len();
    let mut a: usize = 0;
    while a < n && is_ws_char(s.get_char(a))
        invariant
            0 <= a <= n,
            n == s@.len(),
            ws_prefix_end(s@, 0) == ws_prefix_end(s@, a as int),
        decreases n - a,
    {
        a = a + 1;
    }
    let mut b: usize = n;
    while b > 0 && is_ws_char(s.get_char(b - 1))
        invariant
            0 <= b <= n,
            n == s@.len(),
            ws_suffix_start(s@, n as int) == ws_suffix_start(s@, b as int),
        decreases b,
    {
        b = b - 1;
    }
    if a <= b {
        s.substring_char(a, b)
    } else {
        let empty = s.substring_char(0, 0);
        proof {
            assert(empty@ =~= trim_spec(s@));
        }
        empty
    }
}

} // verus!
