//! The definition splitter: turning a definitions blob — the `/`-delimited
//! text that follows the pinyin bracket — into the individual definitions,
//! and joining definitions back into canonical form.

use vstd::prelude::*;
use vstd::string::*;
use crate::scan::find_char_from;
use crate::scan::lemma_find_from;

verus! {

/// Splits `b` on every `/`, keeping empty pieces, so that a blob with `n`
/// slashes yields `n + 1` pieces.
pub open spec fn split_on_slash(b: Seq<char>) -> Seq<Seq<char>>
    decreases b.len(),
{
    if b.len() == 0 {
        seq![Seq::<char>::empty()]
    } else if b[0] == '/' {
        seq![Seq::<char>::empty()].add(split_on_slash(b.drop_first()))
    } else {
        let rest = split_on_slash(b.drop_first());
        seq![seq![b[0]].add(rest[0])].add(rest.drop_first())
    }
}

/// A blob without any `/` is a single piece.
pub proof fn lemma_split_no_slash(b: Seq<char>)
    requires
        forall|m: int| 0 <= m < b.len() ==> b[m] != '/',
    ensures
        split_on_slash(b) =~= seq![b],
    decreases b.len(),
{
    if b.len() > 0 {
        lemma_split_no_slash(b.drop_first());
        let rest = split_on_slash(b.drop_first());
        assert(rest =~= seq![b.drop_first()]);
        assert(rest.drop_first() =~= Seq::<Seq<char>>::empty());
        assert(seq![b[0]].add(rest[0]) =~= b);
        assert(split_on_slash(b) =~= seq![b]);
    } else {
        assert(b =~= Seq::<char>::empty());
        assert(split_on_slash(b) =~= seq![b]);
    }
}

/// Splitting starts over after the first `/`: with no `/` in `pre`, the
/// pieces of `pre + "/" + rest` are `pre` followed by the pieces of `rest`.
pub proof fn lemma_split_step(pre: Seq<char>, rest: Seq<char>)
    requires
        forall|m: int| 0 <= m < pre.len() ==> pre[m] != '/',
    ensures
        split_on_slash(pre + seq!['/'] + rest) =~= seq![pre] + split_on_slash(rest),
    decreases pre.len(),
{
    let b = pre + seq!['/'] + rest;
    if pre.len() == 0 {
        assert(pre =~= Seq::<char>::empty());
        assert(b =~= seq!['/'] + rest);
        assert(b[0] == '/');
        assert(b.drop_first() =~= rest);
        assert(split_on_slash(b) =~= seq![pre] + split_on_slash(rest));
    } else {
        assert(pre[0] != '/');
        assert(forall|m: int| 0 <= m < pre.drop_first().len() ==> pre.drop_first()[m] != '/');
        lemma_split_step(pre.drop_first(), rest);
        assert(b.drop_first() =~= pre.drop_first() + seq!['/'] + rest);
        let inner = split_on_slash(b.drop_first());
        assert(inner =~= seq![pre.drop_first()] + split_on_slash(rest));
        assert(inner[0] == pre.drop_first());
        assert(b[0] == pre[0]);
        assert(seq![b[0]].add(inner[0]) =~= pre);
        assert(inner.drop_first() =~= split_on_slash(rest));
        assert(split_on_slash(b) =~= seq![pre] + split_on_slash(rest));
    }
}

/// `b` with one leading and one trailing `/` removed, where present.
pub open spec fn trim_blob(b: Seq<char>) -> Seq<char> {
    let inner = if b.len() > 0 && b[0] == '/' {
        b.drop_first()
    } else {
        b
    };
    if inner.len() > 0 && inner[inner.len() - 1] == '/' {
        inner.drop_last()
    } else {
        inner
    }
}

/// The definitions carried by a blob: one leading and one trailing `/` are
/// trimmed, the remainder is split on `/`. A blob that is empty after
/// trimming holds no definitions at all, not one empty definition.
pub open spec fn split_definitions(b: Seq<char>) -> Seq<Seq<char>> {
    let t = trim_blob(b);
    if t.len() == 0 {
        Seq::empty()
    } else {
        split_on_slash(t)
    }
}

/// Splits a definitions blob into its definitions, one owned string each.
pub fn split_blob(b: &str) -> (r: Vec<String>)
    ensures
        r.deep_view() == split_definitions(b@),
{
    let n = b.unicode_len();
    let lo: usize = if n > 0 && b.get_char(0) == '/' {
        1
    } else {
        0
    };
    let hi: usize = if n > lo && b.get_char(n - 1) == '/' {
        n - 1
    } else {
        n
    };
    let ghost t = trim_blob(b@);
    proof {
        assert(t =~= b@.subrange(lo as int, hi as int));
    }
    let mut out: Vec<String> = Vec::new();
    if lo == hi {
        proof {
            assert(out.deep_view() =~= split_definitions(b@));
        }
        return out;
    }
    let mut cur: usize = lo;
    proof {
        assert(t.subrange(0, t.len() as int) =~= t);
        assert(out.deep_view() =~= Seq::<Seq<char>>::empty());
    }
    loop
        invariant
            lo <= cur < hi <= n,
            n == b@.len(),
            t == trim_blob(b@),
            t == b@.subrange(lo as int, hi as int),
            t.len() == hi - lo,
            split_on_slash(t) =~= out.deep_view() + split_on_slash(
                t.subrange(cur - lo, t.len() as int),
            ),
        decreases hi - cur,
    {
        let ghost rest = t.subrange(cur - lo, t.len() as int);
        proof {
            lemma_find_from(b@, cur as int, '/');
        }
        let mut cut: usize = hi;
        let mut found = false;
        if let Some(m) = find_char_from(b, cur, '/') {
            if m < hi {
                cut = m;
                found = true;
            }
        }
        if !found {
            let seg = b.substring_char(cur, hi);
            proof {
                assert(seg@ =~= rest);
                lemma_split_no_slash(rest);
            }
            let owned = seg.to_owned();
            out.push(owned);
            proof {
                assert(out.deep_view() =~= split_definitions(b@));
            }
            return out;
        }
        let seg = b.substring_char(cur, cut);
        let ghost rest2 = t.subrange(cut + 1 - lo, t.len() as int);
        proof {
            assert(rest =~= seg@ + seq!['/'] + rest2);
            lemma_split_step(seg@, rest2);
        }
        let owned = seg.to_owned();
        out.push(owned);
        cur = cut + 1;
        proof {
            assert(split_on_slash(t) =~= out.deep_view() + split_on_slash(
                t.subrange(cur - lo, t.len() as int),
            ));
        }
        if cur == hi {
            proof {
                assert(t.subrange(cur - lo, t.len() as int) =~= Seq::<char>::empty());
                lemma_split_no_slash(t.subrange(cur - lo, t.len() as int));
            }
            let one = String::new();
            out.push(one);
            proof {
                assert(out.deep_view() =~= split_definitions(b@));
            }
            return out;
        }
    }
}

/// The definitions joined with `/` between consecutive ones.
pub open spec fn join_defs(ds: Seq<Seq<char>>) -> Seq<char>
    decreases ds.len(),
{
    if ds.len() == 0 {
        Seq::empty()
    } else if ds.len() == 1 {
        ds[0]
    } else {
        ds[0] + seq!['/'] + join_defs(ds.drop_first())
    }
}

/// Joining grows one definition at a time from the back.
pub proof fn lemma_join_push(ds: Seq<Seq<char>>, d: Seq<char>)
    ensures
        join_defs(ds.push(d)) =~= if ds.len() == 0 {
            d
        } else {
            join_defs(ds) + seq!['/'] + d
        },
    decreases ds.len(),
{
    let whole = ds.push(d);
    if ds.len() == 0 {
        assert(whole.len() == 1);
        assert(whole[0] == d);
    } else {
        lemma_join_push(ds.drop_first(), d);
        assert(whole.drop_first() =~= ds.drop_first().push(d));
        assert(whole[0] == ds[0]);
        if ds.len() == 1 {
            assert(join_defs(whole) =~= ds[0] + seq!['/'] + d);
            assert(join_defs(ds) == ds[0]);
        } else {
            assert(join_defs(whole) =~= ds[0] + seq!['/'] + join_defs(ds.drop_first().push(d)));
            assert(join_defs(ds.drop_first().push(d)) =~= join_defs(ds.drop_first()) + seq![
                '/',
            ] + d);
            assert(join_defs(ds) =~= ds[0] + seq!['/'] + join_defs(ds.drop_first()));
        }
    }
}

/// Splitting undoes joining, as long as no definition holds a `/` of its own.
pub proof fn lemma_split_join(ds: Seq<Seq<char>>)
    requires
        ds.len() >= 1,
        forall|i: int, m: int|
            0 <= i < ds.len() && 0 <= m < ds[i].len() ==> #[trigger] ds[i][m] != '/',
    ensures
        split_on_slash(join_defs(ds)) =~= ds,
    decreases ds.len(),
{
    if ds.len() == 1 {
        lemma_split_no_slash(ds[0]);
    } else {
        lemma_split_join(ds.drop_first());
        lemma_split_step(ds[0], join_defs(ds.drop_first()));
    }
}

} // verus!
