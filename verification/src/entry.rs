//! The entry tokenizer and the entry itself: one line of text holding
//!
//! ```text
//! <traditional> <simplified> [<pinyin>] /<def1>/<def2>/.../
//! ```
//!
//! is scanned left to right for its five structural delimiters, and the four
//! fields are kept as character ranges into that line.

use vstd::prelude::*;
use vstd::string::*;
use crate::defs::join_defs;
use crate::defs::lemma_join_push;
use crate::defs::lemma_split_join;
use crate::defs::split_blob;
use crate::defs::split_definitions;
use crate::defs::trim_blob;
use crate::scan::find_from;
use crate::scan::find_char_from;
use crate::scan::lemma_find_from;
use crate::scan::lemma_find_from_is;

verus! {

/// The three delimiter positions that shape a well-formed entry line: the
/// space after the traditional field, the space after the simplified field,
/// and the `]` closing the pinyin field. `None` when the line is empty,
/// opens a comment, or misses a required delimiter.
///
/// With `Some((i, j, k))` the line reads: traditional over `[0, i)`, a space
/// at `i`, simplified over `[i + 1, j)`, a space at `j`, a `[` at `j + 1`,
/// pinyin over `[j + 2, k)`, then `] `, then the `/` opening the definitions
/// blob, which runs from `k + 3` to the end of the line and is never empty:
/// at least one character must follow that `/`.
pub open spec fn entry_delims(s: Seq<char>) -> Option<(int, int, int)> {
    if s.len() == 0 || s[0] == '#' {
        None
    } else {
        match find_from(s, 0, ' ') {
            None => None,
            Some(i) => match find_from(s, i + 1, ' ') {
                None => None,
                Some(j) => if j + 1 < s.len() && s[j + 1] == '[' {
                    match find_from(s, j + 2, ']') {
                        None => None,
                        Some(k) => if k + 3 < s.len() && s[k + 1] == ' ' && s[k + 2] == '/' {
                            Some((i, j, k))
                        } else {
                            None
                        },
                    }
                } else {
                    None
                },
            },
        }
    }
}

/// What the delimiter positions of a well-formed entry line satisfy.
pub proof fn lemma_entry_delims(s: Seq<char>)
    requires
        entry_delims(s) is Some,
    ensures
        ({
            let (i, j, k) = entry_delims(s)->0;
            &&& 0 <= i
            &&& i < j
            &&& j + 2 <= k
            &&& k + 3 < s.len()
            &&& s[i] == ' '
            &&& s[j] == ' '
            &&& s[j + 1] == '['
            &&& s[k] == ']'
            &&& s[k + 1] == ' '
            &&& s[k + 2] == '/'
            &&& s[0] != '#'
            &&& forall|m: int| 0 <= m < i ==> s[m] != ' '
            &&& forall|m: int| i + 1 <= m < j ==> s[m] != ' '
            &&& forall|m: int| j + 2 <= m < k ==> s[m] != ']'
        }),
{
    let (i, j, k) = entry_delims(s)->0;
    lemma_find_from(s, 0, ' ');
    lemma_find_from(s, i + 1, ' ');
    lemma_find_from(s, j + 2, ']');
}

/// The four fields of a well-formed entry line, each a sequence of the
/// line's own characters.
#[verifier::ext_equal]
pub struct EntryView {
    pub traditional: Seq<char>,
    pub simplified: Seq<char>,
    pub pinyin: Seq<char>,
    pub definitions: Seq<Seq<char>>,
}

/// The fields that the delimiter positions of `s` carve out of it.
pub open spec fn entry_of_line(s: Seq<char>) -> EntryView
    recommends
        entry_delims(s) is Some,
{
    let (i, j, k) = entry_delims(s)->0;
    EntryView {
        traditional: s.subrange(0, i),
        simplified: s.subrange(i + 1, j),
        pinyin: s.subrange(j + 2, k),
        definitions: split_definitions(s.subrange(k + 3, s.len() as int)),
    }
}

/// A character range into the backing line.
#[derive(Clone, Copy, Debug, PartialEq, Eq, PartialOrd, Ord, Hash)]
struct Span {
    start: usize,
    end: usize,
}

/// One dictionary entry: the line it was read from, and the four fields as
/// character ranges into that line.
#[derive(Debug, PartialEq, Eq, PartialOrd, Ord, Hash)]
pub struct DictEntry {
    line: String,
    traditional: Span,
    simplified: Span,
    pinyin: Span,
    definitions: Span,
}

impl View for DictEntry {
    type V = EntryView;

    closed spec fn view(&self) -> EntryView {
        entry_of_line(self.line@)
    }
}

impl Clone for DictEntry {
    /// A clone is the same entry: same backing text, same fields.
    fn clone(&self) -> (r: Self)
        ensures
            r == *self,
    {
        proof {
            use_type_invariant(&*self);
        }
        DictEntry {
            line: self.line.clone(),
            traditional: self.traditional,
            simplified: self.simplified,
            pinyin: self.pinyin,
            definitions: self.definitions,
        }
    }
}

impl DictEntry {
    /// The backing line: canonical text that re-tokenizes to this entry.
    pub closed spec fn text(self) -> Seq<char> {
        self.line@
    }

    #[verifier::type_invariant]
    spec fn inv(self) -> bool {
        match entry_delims(self.line@) {
            Some(d) => {
                &&& self.traditional.start == 0 && self.traditional.end as int == d.0
                &&& self.simplified.start as int == d.0 + 1 && self.simplified.end as int == d.1
                &&& self.pinyin.start as int == d.1 + 2 && self.pinyin.end as int == d.2
                &&& self.definitions.start as int == d.2 + 3 && self.definitions.end as int
                    == self.line@.len()
            },
            None => false,
        }
    }

    /// The traditional characters of the entry.
    pub fn traditional(&self) -> (r: &str)
        ensures
            r@ == self@.traditional,
    {
        proof {
            use_type_invariant(&*self);
            lemma_entry_delims(self.line@);
        }
        self.line.as_str().substring_char(self.traditional.start, self.traditional.end)
    }

    /// The simplified characters of the entry.
    pub fn simplified(&self) -> (r: &str)
        ensures
            r@ == self@.simplified,
    {
        proof {
            use_type_invariant(&*self);
            lemma_entry_delims(self.line@);
        }
        self.line.as_str().substring_char(self.simplified.start, self.simplified.end)
    }

    /// The pinyin of the entry, without its enclosing brackets.
    pub fn pinyin(&self) -> (r: &str)
        ensures
            r@ == self@.pinyin,
    {
        proof {
            use_type_invariant(&*self);
            lemma_entry_delims(self.line@);
        }
        self.line.as_str().substring_char(self.pinyin.start, self.pinyin.end)
    }

    /// The definitions of the entry, in order, one owned string each. Each
    /// call splits the definitions blob afresh; the entry itself never
    /// changes.
    pub fn definitions(&self) -> (r: Vec<String>)
        ensures
            r.deep_view() == self@.definitions,
    {
        proof {
            use_type_invariant(&*self);
            lemma_entry_delims(self.line@);
        }
        let blob = self.line.as_str().substring_char(
            self.definitions.start,
            self.definitions.end,
        );
        split_blob(blob)
    }

    /// The canonical text of the entry: the backing line itself, verbatim.
    /// It is always a well-formed entry line, and tokenizing it again gives
    /// back exactly this entry's fields.
    pub fn to_text(&self) -> (r: &str)
        ensures
            r@ == self.text(),
            entry_delims(r@) is Some,
            entry_of_line(r@) == self@,
    {
        proof {
            use_type_invariant(&*self);
        }
        self.line.as_str()
    }
}

/// Tokenizes one line as a dictionary entry. Succeeds exactly on the
/// well-formed entry lines: nonempty, not opening a comment, and carrying
/// the five delimiters in order. On success the entry keeps the whole line
/// as its backing text and its fields are the ones the line carries; on any
/// malformed line there is no partial result.
pub fn parse_dict_entry(line: &str) -> (r: Option<DictEntry>)
    ensures
        r is Some <==> entry_delims(line@) is Some,
        r matches Some(e) ==> e.text() == line@ && e@ == entry_of_line(line@),
{
    let n = line.unicode_len();
    if n == 0 {
        return None;
    }
    if line.get_char(0) == '#' {
        return None;
    }
    let i = match find_char_from(line, 0, ' ') {
        Some(i) => i,
        None => {
            return None;
        },
    };
    proof {
        lemma_find_from(line@, 0, ' ');
    }
    let j = match find_char_from(line, i + 1, ' ') {
        Some(j) => j,
        None => {
            return None;
        },
    };
    proof {
        lemma_find_from(line@, i + 1, ' ');
    }
    if j + 1 >= n || line.get_char(j + 1) != '[' {
        return None;
    }
    let k = match find_char_from(line, j + 2, ']') {
        Some(k) => k,
        None => {
            return None;
        },
    };
    proof {
        lemma_find_from(line@, j + 2, ']');
    }
    if k >= n - 3 || line.get_char(k + 1) != ' ' || line.get_char(k + 2) != '/' {
        return None;
    }
    Some(
        DictEntry {
            line: line.to_owned(),
            traditional: Span { start: 0, end: i },
            simplified: Span { start: i + 1, end: j },
            pinyin: Span { start: j + 2, end: k },
            definitions: Span { start: k + 3, end: n },
        },
    )
}

/// The canonical text of four components:
/// `<traditional> <simplified> [<pinyin>] /<def1>/<def2>/.../`.
pub open spec fn canonical(
    t: Seq<char>,
    s: Seq<char>,
    p: Seq<char>,
    ds: Seq<Seq<char>>,
) -> Seq<char> {
    t + seq![' '] + s + seq![' ', '['] + p + seq![']', ' ', '/'] + join_defs(ds) + seq!['/']
}

/// Builds an entry from its four components by writing their canonical text
/// and running that text back through the tokenizer, so that every
/// constructed entry is representable by the same tokenizer that reads
/// files. Components that break the grammar — an embedded delimiter, say —
/// fail exactly as the malformed line they would have written.
pub fn from_components(
    traditional: &str,
    simplified: &str,
    pinyin: &str,
    definitions: &Vec<String>,
) -> (r: Option<DictEntry>)
    ensures
        ({
            let c = canonical(traditional@, simplified@, pinyin@, definitions.deep_view());
            &&& r is Some <==> entry_delims(c) is Some
            &&& (r matches Some(e) ==> e.text() == c && e@ == entry_of_line(c))
        }),
{
    let ghost dv = definitions.deep_view();
    let mut text = String::new();
    text.append(traditional);
    text.append(" ");
    text.append(simplified);
    text.append(" [");
    text.append(pinyin);
    text.append("] /");
    proof {
        reveal_strlit(" ");
        reveal_strlit(" [");
        reveal_strlit("] /");
    }
    let ghost pre = traditional@ + seq![' '] + simplified@ + seq![' ', '['] + pinyin@ + seq![
        ']',
        ' ',
        '/',
    ];
    proof {
        assert(text@ =~= pre);
        assert(dv.take(0) =~= Seq::<Seq<char>>::empty());
        assert(text@ =~= pre + join_defs(dv.take(0)));
    }
    let mut idx: usize = 0;
    while idx < definitions.len()
        invariant
            0 <= idx <= definitions.len(),
            dv == definitions.deep_view(),
            text@ == pre + join_defs(dv.take(idx as int)),
        decreases definitions.len() - idx,
    {
        if idx > 0 {
            text.append("/");
        }
        text.append(definitions[idx].as_str());
        proof {
            reveal_strlit("/");
            assert(dv.take(idx + 1) =~= dv.take(idx as int).push(dv[idx as int]));
            lemma_join_push(dv.take(idx as int), dv[idx as int]);
            assert(dv[idx as int] == definitions@[idx as int]@);
            assert(text@ =~= pre + join_defs(dv.take(idx + 1)));
        }
        idx = idx + 1;
    }
    text.append("/");
    proof {
        reveal_strlit("/");
        assert(dv.take(dv.len() as int) =~= dv);
        assert(text@ =~= canonical(traditional@, simplified@, pinyin@, dv));
    }
    parse_dict_entry(text.as_str())
}

/// Round trip: for components free of the grammar's delimiters — no space,
/// `[`, `]` or `/` in the first three, no `/` inside any definition — whose
/// traditional field opens no comment and whose first definition, if any,
/// is nonempty, writing canonical text and tokenizing it again yields
/// exactly the components.
pub proof fn lemma_round_trip(t: Seq<char>, s: Seq<char>, p: Seq<char>, ds: Seq<Seq<char>>)
    requires
        forall|m: int|
            0 <= m < t.len() ==> t[m] != ' ' && t[m] != '[' && t[m] != ']' && t[m] != '/',
        forall|m: int|
            0 <= m < s.len() ==> s[m] != ' ' && s[m] != '[' && s[m] != ']' && s[m] != '/',
        forall|m: int|
            0 <= m < p.len() ==> p[m] != ' ' && p[m] != '[' && p[m] != ']' && p[m] != '/',
        forall|i: int, m: int|
            0 <= i < ds.len() && 0 <= m < ds[i].len() ==> #[trigger] ds[i][m] != '/',
        t.len() > 0 ==> t[0] != '#',
        ds.len() > 0 ==> ds[0].len() > 0,
    ensures
        entry_delims(canonical(t, s, p, ds)) is Some,
        entry_of_line(canonical(t, s, p, ds)) == (EntryView {
            traditional: t,
            simplified: s,
            pinyin: p,
            definitions: ds,
        }),
{
    let c = canonical(t, s, p, ds);
    let jd = join_defs(ds);
    let i = t.len() as int;
    let j = i + 1 + s.len();
    let k = j + 2 + p.len();
    let n = c.len() as int;
    assert(n == k + 4 + jd.len());
    assert(forall|x: int| 0 <= x < i ==> c[x] == t[x]);
    assert(c[i] == ' ');
    assert(forall|x: int| i + 1 <= x < j ==> c[x] == s[x - i - 1]);
    assert(c[j] == ' ');
    assert(c[j + 1] == '[');
    assert(forall|x: int| j + 2 <= x < k ==> c[x] == p[x - j - 2]);
    assert(c[k] == ']');
    assert(c[k + 1] == ' ');
    assert(c[k + 2] == '/');
    assert(forall|x: int| k + 3 <= x < n - 1 ==> c[x] == jd[x - k - 3]);
    assert(c[n - 1] == '/');
    if t.len() == 0 {
        assert(c[0] == ' ');
    }
    assert(c[0] != '#');
    lemma_find_from_is(c, 0, i, ' ');
    lemma_find_from_is(c, i + 1, j, ' ');
    lemma_find_from_is(c, j + 2, k, ']');
    assert(entry_delims(c) == Some((i, j, k)));
    assert(c.subrange(0, i) =~= t);
    assert(c.subrange(i + 1, j) =~= s);
    assert(c.subrange(j + 2, k) =~= p);
    let blob = c.subrange(k + 3, n);
    assert(blob =~= jd + seq!['/']);
    if ds.len() == 0 {
        assert(jd =~= Seq::<char>::empty());
        assert(blob[0] == '/');
        assert(blob.drop_first() =~= Seq::<char>::empty());
        assert(trim_blob(blob).len() == 0);
        assert(split_definitions(blob) =~= ds);
    } else {
        assert(jd.len() >= ds[0].len());
        assert(jd[0] == ds[0][0]);
        assert(blob[0] == jd[0]);
        assert(blob[0] != '/');
        assert(blob[blob.len() - 1] == '/');
        assert(blob.drop_last() =~= jd);
        assert(trim_blob(blob) == jd);
        lemma_split_join(ds);
        assert(split_definitions(blob) =~= ds);
    }
    assert(entry_of_line(c) =~= EntryView {
        traditional: t,
        simplified: s,
        pinyin: p,
        definitions: ds,
    });
}

} // verus!
