//! The text form of vectors, `[a, b, c]`: splitting it into component
//! texts, and writing component texts back into it. The components'
//! numbers are read and written elsewhere.

use vstd::prelude::*;
use vstd::string::StringExecFns;
use crate::text::{
    chars_of, copy_chars, is_ws, lemma_split_on_nonempty, push_char, split_chars, split_on,
    string_from_chars, trim, trim_bounds, trim_end, trim_start,
};

verus! {

/// The component texts of a vector written `[a, b, c]`: once trimmed, the
/// text must start with `[` and end with `]`; a blank inside gives no
/// components, else the inside is split at each `,` and each part trimmed.
pub open spec fn vector_parts(s: Seq<char>) -> Option<Seq<Seq<char>>> {
    let t = trim(s);
    if t.len() >= 2 && t[0] == '[' && t.last() == ']' {
        let inner = t.subrange(1, t.len() - 1);
        if trim(inner).len() == 0 {
            Some(Seq::empty())
        } else {
            Some(split_on(inner, ',').map_values(|p: Seq<char>| trim(p)))
        }
    } else {
        None
    }
}

/// The component texts of `s` (see `vector_parts`).
pub fn vector_str_parts(s: &str) -> (r: Option<Vec<String>>)
    ensures
        match vector_parts(s@) {
            None => r is None,
            Some(ps) => r matches Some(v) && v@.len() == ps.len() && forall|k: int|
                0 <= k < ps.len() ==> #[trigger] v@[k]@ == ps[k],
        },
{
    let cs = chars_of(s);
    let (a, b) = trim_bounds(cs.as_slice());
    let t = copy_chars(cs.as_slice(), a, b);
    let n = t.len();
    if n < 2 || t[0] != '[' || t[n - 1] != ']' {
        return None;
    }
    let inner = copy_chars(t.as_slice(), 1, n - 1);
    let (ia, ib) = trim_bounds(inner.as_slice());
    if ia == ib {
        return Some(Vec::new());
    }
    let parts = split_chars(inner.as_slice(), ',');
    let ghost ps = split_on(inner@, ',').map_values(|p: Seq<char>| trim(p));
    let mut out: Vec<String> = Vec::new();
    let mut k: usize = 0;
    while k < parts.len()
        invariant
            parts@.len() == split_on(inner@, ',').len(),
            forall|j: int| 0 <= j < parts@.len() ==> #[trigger] parts@[j]@ == split_on(inner@, ',')[j],
            ps == split_on(inner@, ',').map_values(|p: Seq<char>| trim(p)),
            k <= parts@.len(),
            out@.len() == k,
            forall|j: int| 0 <= j < k ==> #[trigger] out@[j]@ == ps[j],
        decreases parts@.len() - k,
    {
        let (pa, pb) = trim_bounds(parts[k].as_slice());
        let p = copy_chars(parts[k].as_slice(), pa, pb);
        out.push(string_from_chars(p.as_slice()));
        k = k + 1;
    }
    Some(out)
}

/// The texts `ps` one after another with `sep` between each two.
pub open spec fn joined(ps: Seq<Seq<char>>, sep: Seq<char>) -> Seq<char>
    decreases ps.len(),
{
    if ps.len() == 0 {
        Seq::empty()
    } else if ps.len() == 1 {
        ps[0]
    } else {
        joined(ps.drop_last(), sep) + sep + ps.last()
    }
}

/// The views of a list of strings.
pub open spec fn strings_view(v: Seq<String>) -> Seq<Seq<char>> {
    v.map_values(|s: String| s@)
}

/// `[`, the component texts separated by `, `, then `]`.
pub fn bracket_list(items: &[String]) -> (r: String)
    ensures
        r@ == seq!['['] + joined(strings_view(items@), ", "@) + seq![']'],
{
    let mut out = String::new();
    push_char(&mut out, '[');
    let mut k: usize = 0;
    while k < items.len()
        invariant
            k <= items@.len(),
            out@ == seq!['['] + joined(strings_view(items@.subrange(0, k as int)), ", "@),
        decreases items@.len() - k,
    {
        let ghost before = out@;
        if k > 0 {
            out.append(", ");
        }
        out.append(items[k].as_str());
        proof {
            let prev = strings_view(items@.subrange(0, k as int));
            let next = strings_view(items@.subrange(0, k + 1));
            assert(next.drop_last() =~= prev);
            assert(next.last() == items@[k as int]@);
            if k == 0 {
                assert(next =~= seq![items@[0]@]);
            }
        }
        k = k + 1;
    }
    assert(items@.subrange(0, items@.len() as int) =~= items@);
    push_char(&mut out, ']');
    out
}


/// Splitting `s` followed by text without `sep` extends the last piece.
proof fn lemma_split_append_plain(s: Seq<char>, w: Seq<char>, sep: char)
    requires
        forall|i: int| 0 <= i < w.len() ==> w[i] != sep,
    ensures
        split_on(s + w, sep) == split_on(s, sep).update(
            split_on(s, sep).len() - 1,
            split_on(s, sep).last() + w,
        ),
    decreases w.len(),
{
    lemma_split_on_nonempty(s, sep);
    let p = split_on(s, sep);
    if w.len() == 0 {
        assert(s + w =~= s);
        assert(p.last() + w =~= p.last());
        assert(p.update(p.len() - 1, p.last() + w) =~= p);
    } else {
        let w0 = w.drop_last();
        lemma_split_append_plain(s, w0, sep);
        assert((s + w).drop_last() =~= s + w0);
        assert((s + w).last() == w.last());
        assert((p.last() + w0).push(w.last()) =~= p.last() + w);
        assert(p.update(p.len() - 1, p.last() + w0).update(p.len() - 1, p.last() + w) =~= p.update(
            p.len() - 1,
            p.last() + w,
        ));
    }
}

/// The pieces of `joined(items, ", ")` split at commas: the first item,
/// then each further item after a space.
spec fn comma_pieces(items: Seq<Seq<char>>) -> Seq<Seq<char>> {
    Seq::new(items.len(), |k: int| if k == 0 { items[0] } else { seq![' '] + items[k] })
}

proof fn lemma_split_joined(items: Seq<Seq<char>>)
    requires
        items.len() >= 1,
        forall|k: int, i: int| 0 <= k < items.len() && 0 <= i < items[k].len() ==> items[k][i] != ',',
    ensures
        split_on(joined(items, ", "@), ',') == comma_pieces(items),
    decreases items.len(),
{
    reveal_strlit(", ");
    if items.len() == 1 {
        lemma_split_append_plain(Seq::empty(), items[0], ',');
        assert(Seq::<char>::empty() + items[0] =~= items[0]);
        assert(comma_pieces(items) =~= seq![items[0]]);
    } else {
        let init = items.drop_last();
        lemma_split_joined(init);
        let j0 = joined(init, ", "@);
        let tail = seq![' '] + items.last();
        assert(j0 + ", "@ + items.last() =~= j0.push(',') + tail);
        lemma_split_append_plain(j0.push(','), tail, ',');
        assert(j0.push(',').drop_last() =~= j0);
        assert(split_on(joined(items, ", "@), ',') =~= comma_pieces(items));
    }
}

/// A non-empty text that neither starts nor ends with whitespace is its
/// own trim, also after a leading space.
proof fn lemma_trim_item(x: Seq<char>)
    requires
        x.len() >= 1,
        !is_ws(x[0]),
        !is_ws(x.last()),
    ensures
        trim(x) == x,
        trim(seq![' '] + x) == x,
{
    let y = seq![' '] + x;
    assert(y.drop_first() =~= x);
    assert(trim_start(y) == trim_start(x));
}

/// The joined items begin with the first item's first character and end
/// with the last item's last character.
proof fn lemma_joined_ends(items: Seq<Seq<char>>)
    requires
        items.len() >= 1,
        forall|k: int| 0 <= k < items.len() ==> #[trigger] items[k].len() >= 1,
    ensures
        joined(items, ", "@).len() >= 1,
        joined(items, ", "@)[0] == items[0][0],
        joined(items, ", "@).last() == items.last().last(),
    decreases items.len(),
{
    if items.len() > 1 {
        let init = items.drop_last();
        assert(init[0] == items[0]);
        lemma_joined_ends(init);
        assert(items[items.len() - 1].len() >= 1);
    }
}

/// Component texts written by `bracket_list` are split back by
/// `vector_str_parts`, where there is at least one and each is non-empty,
/// neither starts nor ends with whitespace, and holds no comma.
pub proof fn lemma_parts_of_bracket_list(items: Seq<Seq<char>>)
    requires
        items.len() >= 1,
        forall|k: int| 0 <= k < items.len() ==> #[trigger] items[k].len() >= 1,
        forall|k: int| 0 <= k < items.len() ==> !is_ws(#[trigger] items[k][0]),
        forall|k: int| 0 <= k < items.len() ==> !is_ws(#[trigger] items[k].last()),
        forall|k: int, i: int| 0 <= k < items.len() && 0 <= i < items[k].len() ==> items[k][i] != ',',
    ensures
        vector_parts(seq!['['] + joined(items, ", "@) + seq![']']) == Some(items),
{
    let j = joined(items, ", "@);
    let s = seq!['['] + j + seq![']'];
    assert(trim_start(s) == s);
    assert(trim_end(s) == s);
    assert(s.subrange(1, s.len() - 1) =~= j);
    lemma_joined_ends(items);
    assert(trim_start(j) == j);
    assert(trim_end(j) == j);
    lemma_split_joined(items);
    assert forall|k: int| 0 <= k < items.len() implies trim(#[trigger] comma_pieces(items)[k])
        == items[k] by {
        lemma_trim_item(items[k]);
    }
    assert(comma_pieces(items).map_values(|p: Seq<char>| trim(p)) =~= items);
}

} // verus!
