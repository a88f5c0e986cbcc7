//! Operations on text, stated over sequences of characters.
use vstd::prelude::*;
use vstd::string::*;
use vstd::utf8::*;

verus! {

/// The characters of `s`, in order.
pub fn chars_of(s: &str) -> (res: Vec<char>)
    ensures
        res@ == s@,
{
    let mut res: Vec<char> = Vec::new();
    for c in it: s.chars()
        invariant
            it.seq() == s@,
            res@ == it.seq().take(it.index() as int),
    {
        res.push(c);
    }
    res
}


/// Appends one character to a string, with `String::push`.
///
/// Trusted: the string's characters grow by exactly `c`.
#[verifier::external_body]
pub(crate) fn push_char(s: &mut String, c: char)
    ensures
        final(s)@ == old(s)@.push(c),
{
    s.push(c);
}

/// The lowercase form of a string, as `str::to_lowercase` computes it
/// (Unicode's lowercase mapping).
pub uninterp spec fn lowercase(s: Seq<char>) -> Seq<char>;

/// Lowercases `s` with `str::to_lowercase`.
///
/// Trusted: the result is the named result `lowercase` of `s`.
#[verifier::external_body]
pub(crate) fn to_lowercase(s: &str) -> (res: String)
    ensures
        res@ == lowercase(s@),
{
    s.to_lowercase()
}

/// `w` occurs in `s` starting at index `i`.
pub open spec fn occurs_at(s: Seq<char>, w: Seq<char>, i: int) -> bool {
    0 <= i && i + w.len() <= s.len() && s.subrange(i, i + w.len()) == w
}

/// `w` occurs somewhere in `s`.
pub open spec fn contains(s: Seq<char>, w: Seq<char>) -> bool {
    exists|i: int| occurs_at(s, w, i)
}

/// `s` ends with `w`.
pub open spec fn ends_with(s: Seq<char>, w: Seq<char>) -> bool {
    w.len() <= s.len() && s.skip(s.len() - w.len()) == w
}

/// `s` with every occurrence of `from` replaced by `to`, where occurrences are
/// found from left to right and do not overlap (as `str::replace` does for a
/// non-empty pattern).
pub open spec fn replace_all(s: Seq<char>, from: Seq<char>, to: Seq<char>) -> Seq<char>
    decreases s.len(),
{
    if from.len() == 0 || s.len() == 0 {
        s
    } else if occurs_at(s, from, 0) {
        to + replace_all(s.skip(from.len() as int), from, to)
    } else {
        seq![s[0]] + replace_all(s.skip(1), from, to)
    }
}

/// The number of occurrences of `w` in `s`, found from left to right without
/// overlap (as `str::matches(..).count()` does for a non-empty pattern).
pub open spec fn count_matches(s: Seq<char>, w: Seq<char>) -> nat
    decreases s.len(),
{
    if w.len() == 0 || s.len() == 0 {
        0
    } else if occurs_at(s, w, 0) {
        1 + count_matches(s.skip(w.len() as int), w)
    } else {
        count_matches(s.skip(1), w)
    }
}

/// `s` with leading copies of `w` removed for as long as `s` starts with `w`.
pub open spec fn strip_leading(s: Seq<char>, w: Seq<char>) -> Seq<char>
    decreases s.len(),
{
    if w.len() > 0 && occurs_at(s, w, 0) {
        strip_leading(s.skip(w.len() as int), w)
    } else {
        s
    }
}

/// `c` does not occur in `s`.
pub open spec fn no_char(s: Seq<char>, c: char) -> bool {
    forall|i: int| 0 <= i < s.len() ==> s[i] != c
}

/// Replacing never brings in a character that neither the text nor the
/// replacement holds.
pub proof fn lemma_replace_keeps_absent(s: Seq<char>, from: Seq<char>, to: Seq<char>, c: char)
    requires
        no_char(s, c),
        no_char(to, c),
    ensures
        no_char(replace_all(s, from, to), c),
    decreases s.len(),
{
    if from.len() == 0 || s.len() == 0 {
    } else if occurs_at(s, from, 0) {
        lemma_replace_keeps_absent(s.skip(from.len() as int), from, to, c);
    } else {
        lemma_replace_keeps_absent(s.skip(1), from, to, c);
    }
}

/// Replacing every `c` by a text without `c` leaves no `c`.
pub proof fn lemma_replace_removes(s: Seq<char>, c: char, to: Seq<char>)
    requires
        no_char(to, c),
    ensures
        no_char(replace_all(s, seq![c], to), c),
    decreases s.len(),
{
    if s.len() == 0 {
    } else if occurs_at(s, seq![c], 0) {
        lemma_replace_removes(s.skip(1), c, to);
    } else {
        assert(s.subrange(0, 1) =~= seq![s[0]]);
        lemma_replace_removes(s.skip(1), c, to);
    }
}

/// A pattern holding a character that the text lacks never occurs in it, so
/// replacing it changes nothing.
pub proof fn lemma_replace_absent_pattern(s: Seq<char>, from: Seq<char>, to: Seq<char>, k: int)
    requires
        0 <= k < from.len(),
        no_char(s, from[k]),
    ensures
        replace_all(s, from, to) == s,
    decreases s.len(),
{
    if s.len() == 0 {
    } else {
        if occurs_at(s, from, 0) {
            assert(s.subrange(0, from.len() as int)[k] == s[k]);
        }
        lemma_replace_absent_pattern(s.skip(1), from, to, k);
        assert(seq![s[0]] + s.skip(1) =~= s);
    }
}

/// The decimal digit for `d < 10`.
pub open spec fn digit(d: nat) -> char {
    (('0' as u32) + d) as char
}

/// The decimal representation of `n`, without leading zeros.
pub open spec fn decimal(n: nat) -> Seq<char>
    decreases n,
{
    if n < 10 {
        seq![digit(n)]
    } else {
        decimal(n / 10).push(digit(n % 10))
    }
}

/// The character sequences of a sequence of strings.
pub open spec fn views(v: Seq<String>) -> Seq<Seq<char>> {
    v.map_values(|s: String| s@)
}

/// The concatenation of a sequence of strings.
pub open spec fn flatten(parts: Seq<Seq<char>>) -> Seq<char>
    decreases parts.len(),
{
    if parts.len() == 0 {
        seq![]
    } else {
        flatten(parts.drop_last()) + parts.last()
    }
}

/// Whether `w` occurs in `s` at index `i`.
pub fn occurs_at_exec(s: &Vec<char>, w: &Vec<char>, i: usize) -> (res: bool)
    ensures
        res == occurs_at(s@, w@, i as int),
{
    if i > s.len() || w.len() > s.len() - i {
        return false;
    }
    let mut j: usize = 0;
    while j < w.len()
        invariant
            i + w@.len() <= s@.len(),
            s@.len() == s.len(),
            w@.len() == w.len(),
            j <= w@.len(),
            forall|k: int| 0 <= k < j ==> s@[i + k] == w@[k],
        decreases w@.len() - j,
    {
        if s[i + j] != w[j] {
            assert(s@.subrange(i as int, i + w@.len())[j as int] != w@[j as int]);
            return false;
        }
        j = j + 1;
    }
    assert(s@.subrange(i as int, i + w@.len()) =~= w@);
    true
}

/// Replaces every occurrence of `from` in `s` by `to` (`str::replace`).
pub fn replace_str(s: &str, from: &str, to: &str) -> (res: String)
    requires
        from@.len() > 0,
    ensures
        res@ == replace_all(s@, from@, to@),
{
    let cs = chars_of(s);
    let fs = chars_of(from);
    let n = cs.len();
    let mut res = String::new();
    let mut i: usize = 0;
    assert(cs@.skip(0) =~= cs@);
    while i < n
        invariant
            i <= n,
            n == cs@.len(),
            cs@ == s@,
            fs@ == from@,
            fs@.len() > 0,
            res@ + replace_all(cs@.skip(i as int), fs@, to@) == replace_all(s@, from@, to@),
        decreases n - i,
    {
        let ghost rest = cs@.skip(i as int);
        if occurs_at_exec(&cs, &fs, i) {
            assert(occurs_at(rest, fs@, 0)) by {
                assert(rest.subrange(0, fs@.len() as int) =~= cs@.subrange(i as int, i + fs@.len()));
            }
            assert(rest.skip(fs@.len() as int) =~= cs@.skip(i + fs@.len()));
            res.append(to);
            i = i + fs.len();
        } else {
            assert(!occurs_at(rest, fs@, 0)) by {
                if rest.len() >= fs@.len() {
                    assert(rest.subrange(0, fs@.len() as int) =~= cs@.subrange(i as int, i + fs@.len()));
                }
            }
            assert(rest.skip(1) =~= cs@.skip(i + 1));
            push_char(&mut res, cs[i]);
            i = i + 1;
        }
    }
    assert(cs@.skip(n as int) =~= Seq::<char>::empty());
    res
}

/// Whether `w` occurs in `s` (`str::contains`).
pub fn contains_str(s: &str, w: &str) -> (res: bool)
    ensures
        res == contains(s@, w@),
{
    let cs = chars_of(s);
    let ws = chars_of(w);
    let n = cs.len();
    let mut i: usize = 0;
    while i < n
        invariant
            i <= n,
            n == cs@.len(),
            cs@ == s@,
            ws@ == w@,
            forall|k: int| 0 <= k < i ==> !occurs_at(s@, w@, k),
        decreases n - i,
    {
        if occurs_at_exec(&cs, &ws, i) {
            return true;
        }
        i = i + 1;
    }
    if occurs_at_exec(&cs, &ws, n) {
        return true;
    }
    assert forall|k: int| !occurs_at(s@, w@, k) by {
        if k > n as int {
        }
    }
    false
}

/// The number of non-overlapping occurrences of `w` in `s` (`str::matches(..).count()`).
pub fn count_str(s: &str, w: &str) -> (res: usize)
    requires
        w@.len() > 0,
    ensures
        res == count_matches(s@, w@),
{
    let cs = chars_of(s);
    let ws = chars_of(w);
    let n = cs.len();
    let mut count: usize = 0;
    let mut i: usize = 0;
    assert(cs@.skip(0) =~= cs@);
    while i < n
        invariant
            i <= n,
            n == cs@.len(),
            cs@ == s@,
            ws@ == w@,
            ws@.len() > 0,
            count <= i,
            count + count_matches(cs@.skip(i as int), ws@) == count_matches(s@, w@),
        decreases n - i,
    {
        let ghost rest = cs@.skip(i as int);
        if occurs_at_exec(&cs, &ws, i) {
            assert(occurs_at(rest, ws@, 0)) by {
                assert(rest.subrange(0, ws@.len() as int) =~= cs@.subrange(i as int, i + ws@.len()));
            }
            assert(rest.skip(ws@.len() as int) =~= cs@.skip(i + ws@.len()));
            count = count + 1;
            i = i + ws.len();
        } else {
            assert(!occurs_at(rest, ws@, 0)) by {
                if rest.len() >= ws@.len() {
                    assert(rest.subrange(0, ws@.len() as int) =~= cs@.subrange(i as int, i + ws@.len()));
                }
            }
            assert(rest.skip(1) =~= cs@.skip(i + 1));
            i = i + 1;
        }
    }
    assert(cs@.skip(n as int) =~= Seq::<char>::empty());
    count
}

/// `s` with leading copies of `w` removed.
pub fn strip_leading_str(s: &str, w: &str) -> (res: String)
    requires
        w@.len() > 0,
    ensures
        res@ == strip_leading(s@, w@),
{
    let cs = chars_of(s);
    let ws = chars_of(w);
    let n = cs.len();
    let mut i: usize = 0;
    assert(cs@.skip(0) =~= cs@);
    while occurs_at_exec(&cs, &ws, i)
        invariant
            i <= n,
            n == cs@.len(),
            cs@ == s@,
            ws@ == w@,
            ws@.len() > 0,
            strip_leading(cs@.skip(i as int), ws@) == strip_leading(s@, w@),
        decreases n - i,
    {
        let ghost rest = cs@.skip(i as int);
        assert(occurs_at(rest, ws@, 0)) by {
            assert(rest.subrange(0, ws@.len() as int) =~= cs@.subrange(i as int, i + ws@.len()));
        }
        assert(rest.skip(ws@.len() as int) =~= cs@.skip(i + ws@.len()));
        i = i + ws.len();
    }
    let ghost rest = cs@.skip(i as int);
    assert(!occurs_at(rest, ws@, 0)) by {
        if rest.len() >= ws@.len() {
            assert(rest.subrange(0, ws@.len() as int) =~= cs@.subrange(i as int, i + ws@.len()));
        }
    }
    let mut res = String::new();
    let mut j: usize = i;
    while j < n
        invariant
            i <= j <= n,
            n == cs@.len(),
            res@ == cs@.subrange(i as int, j as int),
        decreases n - j,
    {
        push_char(&mut res, cs[j]);
        j = j + 1;
        assert(res@ =~= cs@.subrange(i as int, j as int));
    }
    assert(res@ =~= rest);
    res
}

/// Whether `s` ends with `w` (`str::ends_with`).
pub fn ends_with_str(s: &str, w: &str) -> (res: bool)
    ensures
        res == ends_with(s@, w@),
{
    let cs = chars_of(s);
    let ws = chars_of(w);
    if ws.len() > cs.len() {
        return false;
    }
    let start = cs.len() - ws.len();
    let r = occurs_at_exec(&cs, &ws, start);
    assert(cs@.skip(start as int) =~= cs@.subrange(start as int, start + ws@.len()));
    r
}

/// The decimal representation of `n` (as `usize`'s `Display` writes it).
pub fn decimal_string(n: usize) -> (res: String)
    ensures
        res@ == decimal(n as nat),
    decreases n,
{
    let d = n % 10;
    let c = if d == 0 {
        '0'
    } else if d == 1 {
        '1'
    } else if d == 2 {
        '2'
    } else if d == 3 {
        '3'
    } else if d == 4 {
        '4'
    } else if d == 5 {
        '5'
    } else if d == 6 {
        '6'
    } else if d == 7 {
        '7'
    } else if d == 8 {
        '8'
    } else {
        '9'
    };
    assert(c == digit(d as nat));
    if n < 10 {
        let mut res = String::new();
        push_char(&mut res, c);
        res
    } else {
        let mut res = decimal_string(n / 10);
        push_char(&mut res, c);
        res
    }
}


/// The UTF-8 bytes of a character sequence.
pub open spec fn utf8(s: Seq<char>) -> Seq<u8> {
    encode_utf8(s)
}

/// The text whose UTF-8 encoding is the byte range `start..end` of `s`'s encoding.
pub open spec fn byte_slice(s: Seq<char>, start: int, end: int) -> Seq<char> {
    decode_utf8(utf8(s).subrange(start, end))
}

/// `start..end` is a range of `s`'s encoding that ends on character boundaries.
pub open spec fn is_byte_range(s: Seq<char>, start: int, end: int) -> bool {
    &&& 0 <= start <= end <= utf8(s).len()
    &&& is_char_boundary(utf8(s), start)
    &&& is_char_boundary(utf8(s), end)
}

/// A character boundary of a valid encoding, seen from a later character boundary,
/// is still a character boundary of the rest.
pub proof fn lemma_boundary_of_suffix(bytes: Seq<u8>, a: int, c: int)
    requires
        valid_utf8(bytes),
        0 <= a <= c <= bytes.len(),
        is_char_boundary(bytes, a),
        is_char_boundary(bytes, c),
    ensures
        valid_utf8(bytes.subrange(a, bytes.len() as int)),
        is_char_boundary(bytes.subrange(a, bytes.len() as int), c - a),
{
    let rest = bytes.subrange(a, bytes.len() as int);
    valid_utf8_split(bytes, a);
    if c == bytes.len() {
        is_char_boundary_start_end_of_seq(rest);
    } else {
        is_char_boundary_iff_not_is_continuation_byte(bytes, c);
        is_char_boundary_iff_not_is_continuation_byte(rest, c - a);
    }
}

/// The encoding of a sequence of characters splits at every character boundary
/// into the encodings of the two parts.
pub proof fn lemma_decode_range(s: Seq<char>, start: int, end: int)
    requires
        is_byte_range(s, start, end),
    ensures
        utf8(byte_slice(s, start, end)) == utf8(s).subrange(start, end),
{
    let bytes = utf8(s);
    encode_utf8_valid_utf8(s);
    lemma_boundary_of_suffix(bytes, start, end);
    let rest = bytes.subrange(start, bytes.len() as int);
    valid_utf8_split(rest, end - start);
    assert(rest.subrange(0, end - start) =~= bytes.subrange(start, end));
    decode_utf8_encode_utf8(bytes.subrange(start, end));
}

/// A character boundary of a valid encoding is also one of every prefix that
/// reaches it.
pub proof fn lemma_boundary_of_prefix(bytes: Seq<u8>, m: int, k: int)
    requires
        valid_utf8(bytes),
        0 <= m <= k <= bytes.len(),
        is_char_boundary(bytes, m),
        is_char_boundary(bytes, k),
    ensures
        valid_utf8(bytes.subrange(0, k)),
        is_char_boundary(bytes.subrange(0, k), m),
{
    let prefix = bytes.subrange(0, k);
    valid_utf8_split(bytes, k);
    if m == k {
        is_char_boundary_start_end_of_seq(prefix);
    } else {
        is_char_boundary_iff_not_is_continuation_byte(bytes, m);
        is_char_boundary_iff_not_is_continuation_byte(prefix, m);
    }
}

/// Adjacent byte ranges on character boundaries decode to adjacent text.
pub proof fn lemma_byte_slice_concat(s: Seq<char>, i: int, j: int, k: int)
    requires
        is_byte_range(s, i, j),
        is_byte_range(s, j, k),
    ensures
        byte_slice(s, i, j) + byte_slice(s, j, k) == byte_slice(s, i, k),
{
    let bytes = utf8(s);
    encode_utf8_valid_utf8(s);
    lemma_boundary_of_suffix(bytes, i, j);
    lemma_boundary_of_suffix(bytes, i, k);
    let suffix = bytes.subrange(i, bytes.len() as int);
    lemma_boundary_of_prefix(suffix, j - i, k - i);
    let sub = suffix.subrange(0, k - i);
    assert(sub =~= bytes.subrange(i, k));
    decode_utf8_split(sub, j - i);
    assert(sub.subrange(0, j - i) =~= bytes.subrange(i, j));
    assert(sub.subrange(j - i, sub.len() as int) =~= bytes.subrange(j, k));
}

/// The whole byte range of a text decodes to the text.
pub proof fn lemma_byte_slice_whole(s: Seq<char>)
    ensures
        is_byte_range(s, 0, utf8(s).len() as int),
        byte_slice(s, 0, utf8(s).len() as int) == s,
{
    encode_utf8_valid_utf8(s);
    is_char_boundary_start_end_of_seq(utf8(s));
    assert(utf8(s).subrange(0, utf8(s).len() as int) =~= utf8(s));
    encode_utf8_decode_utf8(s);
}

/// The concatenation of a single string is that string.
pub proof fn lemma_flatten_single(x: Seq<char>)
    ensures
        flatten(seq![x]) == x,
{
    assert(seq![x].drop_last() =~= Seq::<Seq<char>>::empty());
    assert(flatten(Seq::<Seq<char>>::empty()) + x =~= x);
}

/// The concatenation of two sequences of strings is the concatenation of their
/// concatenations.
pub proof fn lemma_flatten_append(a: Seq<Seq<char>>, b: Seq<Seq<char>>)
    ensures
        flatten(a + b) == flatten(a) + flatten(b),
    decreases b.len(),
{
    if b.len() == 0 {
        assert(a + b =~= a);
        assert(flatten(b) =~= Seq::<char>::empty());
    } else {
        lemma_flatten_append(a, b.drop_last());
        assert((a + b).drop_last() =~= a + b.drop_last());
        assert(flatten(a) + flatten(b) =~= flatten(a) + flatten(b.drop_last()) + b.last());
    }
}

/// The text in the byte range `start..end` of `s` (`&s[start..end]`).
pub fn byte_substring(s: &str, start: usize, end: usize) -> (res: String)
    requires
        is_byte_range(s@, start as int, end as int),
    ensures
        res@ == byte_slice(s@, start as int, end as int),
{
    let ghost bytes = utf8(s@);
    proof {
        encode_utf8_valid_utf8(s@);
        lemma_boundary_of_suffix(bytes, start as int, end as int);
    }
    let (_, rest) = s.split_at(start);
    assert(rest.spec_bytes() =~= bytes.subrange(start as int, bytes.len() as int));
    let (piece, _) = rest.split_at(end - start);
    assert(piece.spec_bytes() =~= bytes.subrange(start as int, end as int));
    proof {
        encode_utf8_decode_utf8(piece@);
    }
    piece.to_owned()
}

} // verus!
