//! Breaking text into tokens at the matches of the markup's tags.
use vstd::prelude::*;
use vstd::utf8::*;

use crate::pattern::{regex_find_iter, valid_match_range};
use crate::tags::{all_tags, all_tags_vec, patterns_compile, tag_source, Tag, TagPatterns};
use crate::text::{
    byte_slice, byte_substring, flatten, is_byte_range, lemma_byte_slice_concat, lemma_byte_slice_whole,
    lemma_flatten_append,
    lemma_flatten_single,
    utf8, views,
};

verus! {

/// A byte range `start..end` of a text.
#[derive(Clone, Copy)]
pub struct MDBounds {
    pub start: usize,
    pub end: usize,
}

impl MDBounds {
    /// The range `start..end`.
    pub fn new(start: usize, end: usize) -> (res: MDBounds)
        ensures
            res.start == start,
            res.end == end,
    {
        MDBounds { start, end }
    }
}

/// The range of a match that `regex` reports.
pub open spec fn bounds_of(r: (usize, usize)) -> MDBounds {
    MDBounds { start: r.0, end: r.1 }
}

/// Where `x` goes among `sorted` so that it follows every range that starts
/// no later than it does.
pub open spec fn insert_position(sorted: Seq<MDBounds>, x: MDBounds) -> int
    decreases sorted.len(),
{
    if sorted.len() == 0 || sorted.last().start <= x.start {
        sorted.len() as int
    } else {
        insert_position(sorted.drop_last(), x)
    }
}

/// `sorted` with `x` inserted at its `insert_position`.
pub open spec fn insert_by_start(sorted: Seq<MDBounds>, x: MDBounds) -> Seq<MDBounds> {
    let k = insert_position(sorted, x);
    sorted.take(k) + seq![x] + sorted.skip(k)
}

/// The ranges ordered by their start, ranges with equal starts staying in their
/// given order (a stable sort, as `slice::sort_by` performs).
pub open spec fn sort_by_start(s: Seq<MDBounds>) -> Seq<MDBounds>
    decreases s.len(),
{
    if s.len() == 0 {
        s
    } else {
        insert_by_start(sort_by_start(s.drop_last()), s.last())
    }
}

/// The ranges are ordered by their start.
pub open spec fn sorted_by_start(s: Seq<MDBounds>) -> bool {
    forall|i: int, j: int| 0 <= i < j < s.len() ==> s[i].start <= s[j].start
}

/// Each range ends no later than the next one starts.
pub open spec fn chained(s: Seq<MDBounds>) -> bool {
    forall|i: int| #![trigger s[i]] 0 <= i < s.len() - 1 ==> s[i].end <= s[i + 1].start
}

/// The ranges cut `text`, from byte `index` on, into consecutive pieces: every
/// range is a byte range of `text` on character boundaries, the first starts at
/// or after `index`, and each ends no later than the next one starts.
pub open spec fn bounds_fit(text: Seq<char>, bounds: Seq<MDBounds>, index: int) -> bool {
    &&& is_byte_range(text, index, utf8(text).len() as int)
    &&& forall|i: int| 0 <= i < bounds.len() ==> is_byte_range(text, (#[trigger] bounds[i]).start as int, bounds[i].end as int)
    &&& bounds.len() > 0 ==> index <= bounds[0].start
    &&& chained(bounds)
}

/// The pieces of `text` from byte `index` on: for each range, the text before it
/// (when there is any) and the text it covers, then the text after the last range
/// (when there is any).
pub open spec fn split_at_bounds(text: Seq<char>, bounds: Seq<MDBounds>, index: int) -> Seq<Seq<char>>
    decreases bounds.len(),
{
    if bounds.len() == 0 {
        if index != utf8(text).len() {
            seq![byte_slice(text, index, utf8(text).len() as int)]
        } else {
            seq![]
        }
    } else {
        let b = bounds[0];
        (if index != b.start {
            seq![byte_slice(text, index, b.start as int)]
        } else {
            seq![]
        }) + seq![byte_slice(text, b.start as int, b.end as int)] + split_at_bounds(
            text,
            bounds.drop_first(),
            b.end as int,
        )
    }
}

/// The ranges of the matches of each tag's expression in `text`, tag by tag.
pub open spec fn tag_bounds(text: Seq<char>, tags: Seq<Tag>) -> Seq<MDBounds>
    decreases tags.len(),
{
    if tags.len() == 0 {
        seq![]
    } else {
        tag_bounds(text, tags.drop_last()) + regex_find_iter(tag_source(tags.last()), text).map_values(
            |r: (usize, usize)| bounds_of(r),
        )
    }
}

/// The ranges of all tags in `text`, ordered by start.
pub open spec fn sorted_tag_bounds(text: Seq<char>) -> Seq<MDBounds> {
    sort_by_start(tag_bounds(text, all_tags()))
}

proof fn lemma_insert_position_bounds(sorted: Seq<MDBounds>, x: MDBounds)
    ensures
        0 <= insert_position(sorted, x) <= sorted.len(),
        forall|i: int| insert_position(sorted, x) <= i < sorted.len() ==> sorted[i].start > x.start,
        insert_position(sorted, x) > 0 ==> sorted[insert_position(sorted, x) - 1].start <= x.start,
    decreases sorted.len(),
{
    if sorted.len() > 0 && sorted.last().start > x.start {
        let shorter = sorted.drop_last();
        lemma_insert_position_bounds(shorter, x);
        assert forall|i: int| insert_position(sorted, x) <= i < sorted.len() implies sorted[i].start
            > x.start by {
            if i < shorter.len() {
                assert(sorted[i] == shorter[i]);
            }
        }
    }
}

/// Inserting keeps a sorted sequence sorted and adds exactly `x`.
proof fn lemma_insert_sorted(sorted: Seq<MDBounds>, x: MDBounds)
    requires
        sorted_by_start(sorted),
    ensures
        sorted_by_start(insert_by_start(sorted, x)),
        insert_by_start(sorted, x).len() == sorted.len() + 1,
        insert_by_start(sorted, x).to_multiset() == sorted.to_multiset().insert(x),
{
    let k = insert_position(sorted, x);
    lemma_insert_position_bounds(sorted, x);
    let r = insert_by_start(sorted, x);
    assert forall|i: int, j: int| 0 <= i < j < r.len() implies r[i].start <= r[j].start by {
        if j < k {
        } else if j == k {
            if i < k - 1 {
                assert(sorted[i].start <= sorted[k - 1].start);
            }
        } else if i < k {
            assert(r[j] == sorted[j - 1]);
        } else if i == k {
            assert(r[j] == sorted[j - 1]);
        } else {
            assert(r[i] == sorted[i - 1]);
            assert(r[j] == sorted[j - 1]);
        }
    }
    vstd::seq_lib::lemma_seq_union_to_multiset_commutative(sorted.take(k), seq![x]);
    assert(sorted.take(k) + sorted.skip(k) =~= sorted);
    vstd::seq_lib::lemma_multiset_commutative(sorted.take(k), sorted.skip(k));
    vstd::seq_lib::lemma_multiset_commutative(sorted.take(k) + seq![x], sorted.skip(k));
    vstd::seq_lib::lemma_multiset_commutative(sorted.take(k), seq![x]);
    assert(seq![x].to_multiset() =~= vstd::multiset::Multiset::empty().insert(x)) by {
        broadcast use vstd::seq_lib::group_to_multiset_ensures;
        assert(seq![x] =~= Seq::<MDBounds>::empty().push(x));
    }
}

/// Sorting by start gives a sorted permutation of the ranges.
pub proof fn lemma_sort_by_start(s: Seq<MDBounds>)
    ensures
        sorted_by_start(sort_by_start(s)),
        sort_by_start(s).len() == s.len(),
        sort_by_start(s).to_multiset() == s.to_multiset(),
    decreases s.len(),
{
    broadcast use vstd::seq_lib::group_to_multiset_ensures;

    if s.len() > 0 {
        lemma_sort_by_start(s.drop_last());
        lemma_insert_sorted(sort_by_start(s.drop_last()), s.last());
        assert(s =~= s.drop_last().push(s.last()));
    }
}

/// Every range of the sorted sequence is one of the given ranges.
pub proof fn lemma_sort_elements(s: Seq<MDBounds>)
    ensures
        forall|i: int| 0 <= i < sort_by_start(s).len() ==> s.contains(#[trigger] sort_by_start(s)[i]),
{
    broadcast use vstd::seq_lib::group_to_multiset_ensures;

    lemma_sort_by_start(s);
    let t = sort_by_start(s);
    assert forall|i: int| 0 <= i < t.len() implies s.contains(#[trigger] t[i]) by {
        assert(t.to_multiset().count(t[i]) > 0);
    }
}

/// Inserts `x` into `sorted` after every range that starts no later than it.
fn insert_bounds(sorted: &mut Vec<MDBounds>, x: MDBounds)
    ensures
        final(sorted)@ == insert_by_start(old(sorted)@, x),
{
    let mut k = sorted.len();
    assert(sorted@.take(k as int) =~= sorted@);
    while k > 0 && sorted[k - 1].start > x.start
        invariant
            k <= sorted@.len(),
            insert_position(sorted@, x) == insert_position(sorted@.take(k as int), x),
        decreases k,
    {
        assert(sorted@.take(k as int).drop_last() =~= sorted@.take(k - 1));
        k = k - 1;
    }
    let ghost before = sorted@;
    sorted.insert(k, x);
    assert(sorted@ =~= before.take(k as int) + seq![x] + before.skip(k as int));
}

/// The ranges ordered by start, stably (`sort_by` on the start).
pub fn sort_bounds(v: &Vec<MDBounds>) -> (res: Vec<MDBounds>)
    ensures
        res@ == sort_by_start(v@),
{
    let mut res: Vec<MDBounds> = Vec::new();
    let mut i: usize = 0;
    while i < v.len()
        invariant
            i <= v@.len(),
            res@ == sort_by_start(v@.take(i as int)),
        decreases v@.len() - i,
    {
        assert(v@.take(i + 1).drop_last() =~= v@.take(i as int));
        insert_bounds(&mut res, v[i]);
        i = i + 1;
    }
    assert(v@.take(v@.len() as int) =~= v@);
    res
}

/// Whether each range ends no later than the next one starts.
pub fn is_chained(v: &Vec<MDBounds>) -> (res: bool)
    ensures
        res == chained(v@),
{
    if v.len() == 0 {
        return true;
    }
    let mut i: usize = 0;
    while i < v.len() - 1
        invariant
            v@.len() > 0,
            forall|j: int| #![trigger v@[j]] 0 <= j < i ==> v@[j].end <= v@[j + 1].start,
        decreases v@.len() - i,
    {
        if v[i].end > v[i + 1].start {
            return false;
        }
        i = i + 1;
    }
    true
}

/// The pieces of a text cut by fitting ranges, put back together, give the text
/// again from byte `index` on: no text is lost or repeated.
pub proof fn lemma_split_flatten(text: Seq<char>, bounds: Seq<MDBounds>, index: int)
    requires
        bounds_fit(text, bounds, index),
    ensures
        flatten(split_at_bounds(text, bounds, index)) == byte_slice(text, index, utf8(text).len() as int),
    decreases bounds.len(),
{
    let len = utf8(text).len() as int;
    if bounds.len() == 0 {
        if index != len {
            lemma_flatten_single(byte_slice(text, index, len));
        } else {
            assert(utf8(text).subrange(index, len) =~= Seq::<u8>::empty());
            assert(decode_utf8(Seq::<u8>::empty()) =~= Seq::<char>::empty());
        }
    } else {
        let b = bounds[0];
        lemma_bounds_fit_tail(text, bounds, index);
        lemma_split_flatten(text, bounds.drop_first(), b.end as int);
        let gap: Seq<Seq<char>> = if index != b.start {
            seq![byte_slice(text, index, b.start as int)]
        } else {
            seq![]
        };
        let tok = seq![byte_slice(text, b.start as int, b.end as int)];
        let rest = split_at_bounds(text, bounds.drop_first(), b.end as int);
        lemma_flatten_append(gap + tok, rest);
        lemma_flatten_append(gap, tok);
        lemma_flatten_single(byte_slice(text, b.start as int, b.end as int));
        if index != b.start {
            lemma_flatten_single(byte_slice(text, index, b.start as int));
            lemma_byte_slice_concat(text, index, b.start as int, b.end as int);
        } else {
            assert(flatten(gap) =~= Seq::<char>::empty());
        }
        assert(is_byte_range(text, b.end as int, len));
        lemma_byte_slice_concat(text, index, b.end as int, len);
    }
}

/// Cutting off the first range keeps the rest fitting, from the end of that range on.
proof fn lemma_bounds_fit_tail(text: Seq<char>, bounds: Seq<MDBounds>, index: int)
    requires
        bounds_fit(text, bounds, index),
        bounds.len() > 0,
    ensures
        bounds_fit(text, bounds.drop_first(), bounds[0].end as int),
        is_byte_range(text, index, bounds[0].start as int),
        is_byte_range(text, bounds[0].start as int, bounds[0].end as int),
{
    let next = bounds.drop_first();
    assert(is_byte_range(text, bounds[0].start as int, bounds[0].end as int));
    assert forall|j: int| 0 <= j < next.len() implies is_byte_range(
        text,
        (#[trigger] next[j]).start as int,
        next[j].end as int,
    ) by {
        assert(next[j] == bounds[j + 1]);
    }
    if next.len() > 0 {
        assert(next[0] == bounds[1]);
    }
    assert forall|j: int| #![trigger next[j]] 0 <= j < next.len() - 1 implies next[j].end
        <= next[j + 1].start by {
        assert(next[j] == bounds[j + 1]);
        assert(next[j + 1] == bounds[j + 2]);
    }
}

/// Breaks `text` into the pieces that `bounds` cut it into (`split_at_bounds`):
/// the text before each range, the range itself, and the text after the last.
#[verifier::rlimit(40)]
pub fn split_text(text: &str, bounds: &Vec<MDBounds>) -> (res: Vec<String>)
    requires
        bounds_fit(text@, bounds@, 0),
    ensures
        views(res@) == split_at_bounds(text@, bounds@, 0),
{
    let len = text.as_bytes().len();
    let mut out: Vec<String> = Vec::new();
    let mut index: usize = 0;
    let mut i: usize = 0;
    assert(bounds@.skip(0) =~= bounds@);
    assert(views(out@) =~= Seq::<Seq<char>>::empty());
    while i < bounds.len()
        invariant
            len == utf8(text@).len(),
            i <= bounds@.len(),
            bounds_fit(text@, bounds@.skip(i as int), index as int),
            views(out@) + split_at_bounds(text@, bounds@.skip(i as int), index as int)
                == split_at_bounds(text@, bounds@, 0),
        decreases bounds@.len() - i,
    {
        let b = bounds[i];
        let ghost rest = bounds@.skip(i as int);
        proof {
            assert(rest[0] == b);
            assert(rest.drop_first() =~= bounds@.skip(i + 1));
            lemma_bounds_fit_tail(text@, rest, index as int);
        }
        let ghost old_views = views(out@);
        if index != b.start {
            let piece = byte_substring(text, index, b.start);
            out.push(piece);
        }
        let piece = byte_substring(text, b.start, b.end);
        out.push(piece);
        assert(views(out@) + split_at_bounds(text@, bounds@.skip(i + 1), b.end as int)
            =~= old_views + split_at_bounds(text@, rest, index as int));
        index = b.end;
        i = i + 1;
    }
    let ghost old_views = views(out@);
    if index != len {
        out.push(byte_substring(text, index, len));
    }
    assert(views(out@) =~= old_views + split_at_bounds(text@, bounds@.skip(i as int), index as int));
    out
}


/// `text` is broken into tokens at its tags: it is not empty, the expressions
/// compile, and the matches of all tags, ordered by start, do not overlap.
pub open spec fn tokenizes(text: Seq<char>) -> bool {
    &&& text.len() > 0
    &&& patterns_compile()
    &&& chained(sorted_tag_bounds(text))
}

/// The ranges of the matches of every tag in `text`, tag by tag.
fn collect_tag_bounds(patterns: &TagPatterns, text: &str) -> (res: Vec<MDBounds>)
    ensures
        res@ == tag_bounds(text@, all_tags()),
        forall|k: int| 0 <= k < res@.len() ==> is_byte_range(text@, (#[trigger] res@[k]).start as int, res@[k].end as int),
{
    let all = all_tags_vec();
    let mut bounds: Vec<MDBounds> = Vec::new();
    let mut i: usize = 0;
    assert(all_tags().take(0) =~= Seq::<Tag>::empty());
    while i < all.len()
        invariant
            all@ == all_tags(),
            i <= all@.len(),
            bounds@ == tag_bounds(text@, all_tags().take(i as int)),
            forall|k: int| 0 <= k < bounds@.len() ==> is_byte_range(text@, (#[trigger] bounds@[k]).start as int, bounds@[k].end as int),
        decreases all@.len() - i,
    {
        let found = patterns.find_tags(all[i], text);
        let ghost before = bounds@;
        let mut j: usize = 0;
        while j < found.len()
            invariant
                j <= found@.len(),
                bounds@ == before + found@.take(j as int).map_values(|r: (usize, usize)| bounds_of(r)),
                forall|k: int| 0 <= k < found@.len() ==> crate::pattern::valid_match_range(text@, #[trigger] found@[k]),
                forall|k: int| 0 <= k < bounds@.len() ==> is_byte_range(text@, (#[trigger] bounds@[k]).start as int, bounds@[k].end as int),
            decreases found@.len() - j,
        {
            let (start, end) = found[j];
            bounds.push(MDBounds { start, end });
            assert(found@.take(j + 1).map_values(|r: (usize, usize)| bounds_of(r)) =~= found@.take(j as int).map_values(|r: (usize, usize)| bounds_of(r)).push(bounds_of(found@[j as int])));
            j = j + 1;
        }
        assert(found@.take(found@.len() as int) =~= found@);
        assert(all_tags().take(i + 1).drop_last() =~= all_tags().take(i as int));
        assert(all_tags().take(i + 1).last() == all[i as int]);
        i = i + 1;
    }
    assert(all_tags().take(all@.len() as int) =~= all_tags());
    bounds
}

/// Breaks `text` into tokens at the matches of the markup's tags: the text
/// between tags, and each tag. `None` when `text` is not broken up
/// (`tokenizes`). The tokens put back together give `text` again.
pub fn tag_tokens(text: &str) -> (res: Option<Vec<String>>)
    ensures
        res is Some <==> tokenizes(text@),
        res matches Some(v) ==> views(v@) == split_at_bounds(text@, sorted_tag_bounds(text@), 0),
        res matches Some(v) ==> flatten(views(v@)) == text@,
{
    if text.is_empty() {
        return None;
    }
    let patterns = match TagPatterns::compile() {
        Some(p) => p,
        None => {
            return None;
        },
    };
    let bounds = collect_tag_bounds(&patterns, text);
    let sorted = sort_bounds(&bounds);
    if !is_chained(&sorted) {
        return None;
    }
    proof {
        lemma_sort_elements(bounds@);
        lemma_byte_slice_whole(text@);
        assert forall|k: int| 0 <= k < sorted@.len() implies is_byte_range(
            text@,
            (#[trigger] sorted@[k]).start as int,
            sorted@[k].end as int,
        ) by {
            let j = choose|j: int| 0 <= j < bounds@.len() && bounds@[j] == sorted@[k];
            assert(bounds@[j] == sorted@[k]);
        }
        assert(bounds_fit(text@, sorted@, 0));
        lemma_split_flatten(text@, sorted@, 0);
    }
    Some(split_text(text, &sorted))
}

} // verus!
