//! Splitting a delimited text into segments and dropping repeated segments,
//! with the laws that pin both operations down.
use vstd::prelude::*;
use crate::text::views;

verus! {

/// Length of the longest prefix of `s` that holds no `sep`.
pub open spec fn head_len(s: Seq<char>, sep: char) -> nat
    decreases s.len(),
{
    if s.len() == 0 || s[0] == sep {
        0
    } else {
        1 + head_len(s.skip(1), sep)
    }
}

/// The segments of `s` between occurrences of `sep`: the text before the
/// first separator, then the segments of what follows that separator. A text
/// without a separator is its own single segment.
pub open spec fn split(s: Seq<char>, sep: char) -> Seq<Seq<char>>
    decreases s.len(),
{
    let k = head_len(s, sep) as int;
    if k >= s.len() {
        seq![s]
    } else {
        seq![s.take(k)] + split(s.skip(k + 1), sep)
    }
}

/// The segments written one after another with `sep` between neighbours.
pub open spec fn join(parts: Seq<Seq<char>>, sep: char) -> Seq<char>
    decreases parts.len(),
{
    if parts.len() == 0 {
        Seq::empty()
    } else if parts.len() == 1 {
        parts[0]
    } else {
        parts[0] + seq![sep] + join(parts.skip(1), sep)
    }
}

/// The first occurrences of `items`, in their order: an item is kept exactly
/// when no equal item stands before it.
pub open spec fn dedup<A>(items: Seq<A>) -> Seq<A>
    decreases items.len(),
{
    if items.len() == 0 {
        Seq::empty()
    } else {
        let init = items.drop_last();
        if init.contains(items.last()) {
            dedup(init)
        } else {
            dedup(init).push(items.last())
        }
    }
}

/// Position `p` holds the first occurrence of `v` in `items`.
pub open spec fn is_first_at<A>(items: Seq<A>, v: A, p: int) -> bool {
    &&& 0 <= p < items.len()
    &&& items[p] == v
    &&& forall|q: int| 0 <= q < p ==> items[q] != v
}

/// The position of the first occurrence of `v` in `items`.
pub open spec fn first_index<A>(items: Seq<A>, v: A) -> int {
    choose|p: int| is_first_at(items, v, p)
}

/// `head_len` is the position of the first separator, or the length of the
/// text where it holds none.
pub proof fn lemma_head_len(s: Seq<char>, sep: char, k: int)
    requires
        0 <= k <= s.len(),
        forall|j: int| 0 <= j < k ==> s[j] != sep,
        k == s.len() || s[k] == sep,
    ensures
        head_len(s, sep) == k,
    decreases k,
{
    if k > 0 {
        let rest = s.skip(1);
        assert(s[0] != sep);
        assert forall|j: int| 0 <= j < k - 1 implies rest[j] != sep by {
            assert(rest[j] == s[j + 1]);
        }
        lemma_head_len(rest, sep, k - 1);
    }
}

/// The prefix measured by `head_len` lies inside the text and holds no
/// separator, and a separator follows it unless the text ends there.
pub proof fn lemma_head_len_bounds(s: Seq<char>, sep: char)
    ensures
        head_len(s, sep) <= s.len(),
        forall|j: int| 0 <= j < head_len(s, sep) ==> s[j] != sep,
        head_len(s, sep) < s.len() ==> s[head_len(s, sep) as int] == sep,
    decreases s.len(),
{
    if s.len() != 0 && s[0] != sep {
        let rest = s.skip(1);
        lemma_head_len_bounds(rest, sep);
        assert forall|j: int| 0 <= j < head_len(s, sep) implies s[j] != sep by {
            if j > 0 {
                assert(rest[j - 1] == s[j]);
            }
        }
        if head_len(s, sep) < s.len() {
            assert(rest[head_len(rest, sep) as int] == s[head_len(s, sep) as int]);
        }
    }
}

/// Splitting always yields at least one segment, and no segment holds the
/// separator.
pub proof fn lemma_split_segments(s: Seq<char>, sep: char)
    ensures
        split(s, sep).len() >= 1,
        forall|i: int| 0 <= i < split(s, sep).len() ==> !(#[trigger] split(s, sep)[i]).contains(sep),
    decreases s.len(),
{
    let k = head_len(s, sep) as int;
    lemma_head_len_bounds(s, sep);
    if k >= s.len() {
        assert(split(s, sep) =~= seq![s]);
    } else {
        let rest = split(s.skip(k + 1), sep);
        lemma_split_segments(s.skip(k + 1), sep);
        assert forall|i: int| 0 <= i < split(s, sep).len() implies !(#[trigger] split(
            s,
            sep,
        )[i]).contains(sep) by {
            if i > 0 {
                assert(split(s, sep)[i] == rest[i - 1]);
            }
        }
    }
}

/// Joining the segments of a text with the separator gives the text back.
pub proof fn lemma_join_split(s: Seq<char>, sep: char)
    ensures
        join(split(s, sep), sep) == s,
    decreases s.len(),
{
    let k = head_len(s, sep) as int;
    lemma_head_len_bounds(s, sep);
    if k < s.len() {
        let tail = s.skip(k + 1);
        let parts = split(s, sep);
        lemma_join_split(tail, sep);
        lemma_split_segments(tail, sep);
        assert(parts.skip(1) =~= split(tail, sep));
        assert(parts[0] == s.take(k));
        assert(s.take(k) + seq![sep] + tail =~= s);
    }
}

/// Splitting the join of separator-free segments gives the segments back.
/// Together with `lemma_join_split` this makes `split` the inverse of `join`
/// on such segments.
pub proof fn lemma_split_join(parts: Seq<Seq<char>>, sep: char)
    requires
        parts.len() >= 1,
        forall|i: int| 0 <= i < parts.len() ==> !(#[trigger] parts[i]).contains(sep),
    ensures
        split(join(parts, sep), sep) == parts,
    decreases parts.len(),
{
    let s = join(parts, sep);
    let head = parts[0];
    assert(!head.contains(sep));
    if parts.len() == 1 {
        assert forall|j: int| 0 <= j < s.len() implies s[j] != sep by {
            assert(head.contains(s[j]));
        }
        lemma_head_len(s, sep, s.len() as int);
        assert(split(s, sep) =~= parts);
    } else {
        let rest = parts.skip(1);
        let k = head.len() as int;
        assert forall|i: int| 0 <= i < rest.len() implies !(#[trigger] rest[i]).contains(sep) by {
            assert(rest[i] == parts[i + 1]);
        }
        lemma_split_join(rest, sep);
        assert forall|j: int| 0 <= j < k implies s[j] != sep by {
            assert(s[j] == head[j]);
            assert(head.contains(s[j]));
        }
        assert(s[k] == sep);
        lemma_head_len(s, sep, k);
        assert(s.take(k) =~= head);
        assert(s.skip(k + 1) =~= join(rest, sep));
        assert(split(s, sep) =~= parts);
    }
}

/// A text that holds no separator is its own single segment; so is the empty
/// text.
pub proof fn lemma_split_whole(s: Seq<char>, sep: char)
    requires
        !s.contains(sep),
    ensures
        split(s, sep) == seq![s],
{
    assert forall|j: int| 0 <= j < s.len() implies s[j] != sep by {
        assert(s.contains(s[j]));
    }
    lemma_head_len(s, sep, s.len() as int);
}

/// A separator-free text put in front of another text, with a separator
/// between them, becomes the first segment, and the segments of the other
/// text follow it.
pub proof fn lemma_split_prepend(head: Seq<char>, tail: Seq<char>, sep: char)
    requires
        !head.contains(sep),
    ensures
        split(head + seq![sep] + tail, sep) == seq![head] + split(tail, sep),
{
    let s = head + seq![sep] + tail;
    let k = head.len() as int;
    assert forall|j: int| 0 <= j < k implies s[j] != sep by {
        assert(s[j] == head[j]);
        assert(head.contains(head[j]));
    }
    assert(s[k] == sep);
    lemma_head_len(s, sep, k);
    assert(s.take(k) =~= head);
    assert(s.skip(k + 1) =~= tail);
}

/// The first item is always kept, and stays first.
pub proof fn lemma_dedup_first<A>(items: Seq<A>)
    requires
        items.len() > 0,
    ensures
        dedup(items).len() > 0,
        dedup(items)[0] == items[0],
    decreases items.len(),
{
    let init = items.drop_last();
    if init.len() > 0 {
        lemma_dedup_first(init);
    } else {
        assert(dedup(init) =~= Seq::<A>::empty());
    }
}

/// `dedup` keeps the members of `items`: nothing is lost but repetitions, and
/// nothing is added.
pub proof fn lemma_dedup_members<A>(items: Seq<A>)
    ensures
        forall|v: A| dedup(items).contains(v) <==> items.contains(v),
    decreases items.len(),
{
    if items.len() > 0 {
        let init = items.drop_last();
        let last = items.last();
        lemma_dedup_members(init);
        assert forall|v: A| dedup(items).contains(v) <==> items.contains(v) by {
            if items.contains(v) {
                let p = choose|p: int| 0 <= p < items.len() && items[p] == v;
                if p < init.len() {
                    assert(init[p] == v);
                    assert(init.contains(v));
                    assert(dedup(init).contains(v));
                }
                if init.contains(last) {
                    assert(dedup(init).contains(last));
                }
                if !init.contains(last) && dedup(init).contains(v) {
                    let q = choose|q: int| 0 <= q < dedup(init).len() && dedup(init)[q] == v;
                    assert(dedup(items)[q] == v);
                }
                if !init.contains(last) && p == init.len() {
                    assert(dedup(items)[dedup(init).len() as int] == v);
                }
            }
            if dedup(items).contains(v) {
                let q = choose|q: int| 0 <= q < dedup(items).len() && dedup(items)[q] == v;
                if q < dedup(init).len() {
                    assert(dedup(init)[q] == v);
                    assert(dedup(init).contains(v));
                    assert(init.contains(v));
                    let p = choose|p: int| 0 <= p < init.len() && init[p] == v;
                    assert(items[p] == v);
                } else {
                    assert(v == last);
                    assert(items[items.len() - 1] == v);
                }
            }
        }
    }
}

/// `dedup` holds no value twice.
pub proof fn lemma_dedup_no_duplicates<A>(items: Seq<A>)
    ensures
        dedup(items).no_duplicates(),
    decreases items.len(),
{
    if items.len() > 0 {
        let init = items.drop_last();
        lemma_dedup_no_duplicates(init);
        lemma_dedup_members(init);
        if !init.contains(items.last()) {
            assert forall|i: int, j: int|
                0 <= i < dedup(items).len() && 0 <= j < dedup(items).len() && i != j implies dedup(
                items,
            )[i] != dedup(items)[j] by {
                if i < dedup(init).len() {
                    assert(dedup(init).contains(dedup(init)[i]));
                }
                if j < dedup(init).len() {
                    assert(dedup(init).contains(dedup(init)[j]));
                }
            }
        }
    }
}

/// A member of `items` has a first occurrence, and `first_index` names it.
pub proof fn lemma_first_index<A>(items: Seq<A>, v: A)
    requires
        items.contains(v),
    ensures
        is_first_at(items, v, first_index(items, v)),
    decreases items.len(),
{
    let init = items.drop_last();
    if init.contains(v) {
        lemma_first_index(init, v);
        let p = first_index(init, v);
        assert(init[p] == items[p]);
        assert forall|q: int| 0 <= q < p implies items[q] != v by {
            assert(init[q] == items[q]);
        }
        assert(is_first_at(items, v, p));
    } else {
        let p = items.len() - 1;
        let w = choose|w: int| 0 <= w < items.len() && items[w] == v;
        assert forall|q: int| 0 <= q < p implies items[q] != v by {
            assert(init[q] == items[q]);
            if items[q] == v {
                assert(init.contains(v));
            }
        }
        assert(w == p);
        assert(is_first_at(items, v, p));
    }
}

/// The first occurrence of a value in a prefix is its first occurrence in
/// the whole sequence.
pub proof fn lemma_first_index_prefix<A>(items: Seq<A>, n: int, v: A)
    requires
        0 <= n <= items.len(),
        items.take(n).contains(v),
    ensures
        items.contains(v),
        first_index(items, v) == first_index(items.take(n), v),
        first_index(items, v) < n,
{
    let init = items.take(n);
    lemma_first_index(init, v);
    let p = first_index(init, v);
    assert(items[p] == init[p]);
    assert(items.contains(v));
    lemma_first_index(items, v);
    let r = first_index(items, v);
    assert forall|q: int| 0 <= q < p implies items[q] != v by {
        assert(init[q] == items[q]);
    }
    if r < p {
        assert(init[r] == items[r]);
    }
}

/// `dedup` keeps first-occurrence order: of two kept values, the one that
/// comes first in the result is the one whose first occurrence in `items`
/// comes first.
pub proof fn lemma_dedup_order<A>(items: Seq<A>)
    ensures
        forall|i: int, j: int|
            0 <= i < j < dedup(items).len() ==> first_index(items, #[trigger] dedup(items)[i])
                < first_index(items, #[trigger] dedup(items)[j]),
    decreases items.len(),
{
    if items.len() > 0 {
        let init = items.drop_last();
        let last = items.last();
        let d = dedup(items);
        lemma_dedup_order(init);
        lemma_dedup_members(init);
        assert(init =~= items.take(items.len() - 1));
        assert forall|i: int, j: int| 0 <= i < j < d.len() implies first_index(
            items,
            #[trigger] d[i],
        ) < first_index(items, #[trigger] d[j]) by {
            assert(dedup(init)[i] == d[i]);
            assert(dedup(init).contains(d[i]));
            lemma_first_index_prefix(items, items.len() - 1, d[i]);
            if j < dedup(init).len() {
                assert(dedup(init)[j] == d[j]);
                assert(dedup(init).contains(d[j]));
                lemma_first_index_prefix(items, items.len() - 1, d[j]);
            } else {
                assert(d[j] == last);
                assert(items[items.len() - 1] == last);
                assert(items.contains(last));
                lemma_first_index(items, last);
                let r = first_index(items, last);
                if r < items.len() - 1 {
                    assert(init[r] == last);
                    assert(init.contains(last));
                }
            }
        }
    }
}

/// Tells whether `items` holds a string equal to `word`.
pub fn holds(items: &Vec<String>, word: &String) -> (r: bool)
    ensures
        r == views(items@).contains(word@),
{
    let mut i: usize = 0;
    while i < items.len()
        invariant
            i <= items.len(),
            forall|k: int| 0 <= k < i ==> views(items@)[k] != word@,
        decreases items.len() - i,
    {
        if items[i] == *word {
            assert(views(items@)[i as int] == word@);
            return true;
        }
        i += 1;
    }
    false
}

/// Splits `raw` at every `sep`, keeping empty segments.
pub fn split_segments(raw: &str, sep: char) -> (out: Vec<String>)
    ensures
        views(out@) == split(raw@, sep),
{
    let chars = crate::text::chars_of(raw);
    let mut out: Vec<String> = Vec::new();
    let mut start: usize = 0;
    let mut i: usize = 0;
    proof {
        assert(raw@.skip(0) =~= raw@);
        assert(views(out@) + split(raw@, sep) =~= split(raw@, sep));
    }
    while i < chars.len()
        invariant
            chars@ == raw@,
            start <= i <= chars.len(),
            forall|j: int| start <= j < i ==> chars@[j] != sep,
            split(raw@, sep) == views(out@) + split(raw@.skip(start as int), sep),
        decreases chars.len() - i,
    {
        if chars[i] == sep {
            let segment = raw.substring_char(start, i);
            let ghost before = views(out@);
            out.push(String::from_str(segment));
            proof {
                let tail = raw@.skip(start as int);
                lemma_head_len(tail, sep, i - start);
                assert(tail.take(i - start) =~= segment@);
                assert(tail.skip(i - start + 1) =~= raw@.skip(i + 1));
                assert(views(out@) =~= before.push(segment@));
                assert(views(out@) + split(raw@.skip(i + 1), sep) =~= before + split(tail, sep));
            }
            start = i + 1;
        }
        i += 1;
    }
    let segment = raw.substring_char(start, i);
    let ghost before = views(out@);
    out.push(String::from_str(segment));
    proof {
        let tail = raw@.skip(start as int);
        lemma_head_len(tail, sep, i - start);
        assert(tail =~= segment@);
        assert(views(out@) =~= before.push(segment@));
        assert(views(out@) =~= before + split(tail, sep));
    }
    out
}

/// Keeps the first occurrence of every string of `items`, in order.
pub fn dedup_strings(items: &Vec<String>) -> (out: Vec<String>)
    ensures
        views(out@) == dedup(views(items@)),
{
    let mut out: Vec<String> = Vec::new();
    let mut i: usize = 0;
    while i < items.len()
        invariant
            i <= items.len(),
            views(out@) == dedup(views(items@).take(i as int)),
        decreases items.len() - i,
    {
        let ghost seen = views(items@).take(i as int);
        let ghost next = views(items@).take(i + 1);
        let ghost before = views(out@);
        proof {
            lemma_dedup_members(seen);
            assert(next.drop_last() =~= seen);
            assert(next.last() == items@[i as int]@);
        }
        if !holds(&out, &items[i]) {
            out.push(items[i].clone());
            assert(views(out@) =~= before.push(items@[i as int]@));
        }
        i += 1;
    }
    assert(views(items@).take(i as int) =~= views(items@));
    out
}

} // verus!
