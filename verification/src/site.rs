//! Putting documents together into a site: the files to read, the table of
//! contents, the appendix of definitions, and links between directories.
use vstd::prelude::*;

use crate::fmd::{definition_view, definition_views, FmdFile, FmdView, DEFINITION, FMD};
use crate::render::string_equals;
use crate::text::{
    byte_slice, byte_substring, count_matches, count_str, ends_with, ends_with_str, flatten, is_byte_range,
    lowercase, replace_all, replace_str, to_lowercase, utf8, views,
};

verus! {

/// The entries among `args` that name a markup file: those whose lowercase
/// form ends with `.fmd`, as given.
pub open spec fn fmd_arguments(args: Seq<Seq<char>>) -> Seq<Seq<char>>
    decreases args.len(),
{
    if args.len() == 0 {
        seq![]
    } else {
        fmd_arguments(args.drop_last()) + if ends_with(lowercase(args.last()), ".fmd"@) {
            seq![args.last()]
        } else {
            seq![]
        }
    }
}

/// The lowercase forms of the `paths` that end with `.fmd`.
pub open spec fn fmd_paths(paths: Seq<Seq<char>>) -> Seq<Seq<char>>
    decreases paths.len(),
{
    if paths.len() == 0 {
        seq![]
    } else {
        fmd_paths(paths.drop_last()) + if ends_with(lowercase(paths.last()), ".fmd"@) {
            seq![lowercase(paths.last())]
        } else {
            seq![]
        }
    }
}

/// The arguments selected as markup files are exactly those, in order, whose
/// lowercase form ends with `.fmd`: every such argument is kept, none other is.
pub proof fn law_fmd_arguments_selects_every_fmd(args: Seq<Seq<char>>)
    ensures
        fmd_arguments(args) == args.filter(|a: Seq<char>| ends_with(lowercase(a), ".fmd"@)),
        forall|i: int| 0 <= i < args.len() && ends_with(lowercase(args[i]), ".fmd"@)
            ==> #[trigger] fmd_arguments(args).contains(args[i]),
        forall|i: int| 0 <= i < fmd_arguments(args).len()
            ==> ends_with(lowercase(#[trigger] fmd_arguments(args)[i]), ".fmd"@),
    decreases args.len(),
{
    let pred = |a: Seq<char>| ends_with(lowercase(a), ".fmd"@);
    reveal(Seq::filter);
    if args.len() > 0 {
        law_fmd_arguments_selects_every_fmd(args.drop_last());
        assert(fmd_arguments(args) =~= args.filter(pred));
    } else {
        assert(fmd_arguments(args) =~= args.filter(pred));
    }
    assert forall|i: int| 0 <= i < args.len() && ends_with(lowercase(args[i]), ".fmd"@) implies #[trigger] fmd_arguments(
        args,
    ).contains(args[i]) by {
        args.lemma_filter_contains(pred, i);
    }
    assert forall|i: int| 0 <= i < fmd_arguments(args).len() implies ends_with(
        lowercase(#[trigger] fmd_arguments(args)[i]),
        ".fmd"@,
    ) by {
        args.lemma_filter_pred(pred, i);
    }
}

/// The paths selected as markup files are the lowercase forms of the paths, kept
/// exactly when they end with `.fmd`.
pub proof fn law_fmd_paths_selects_every_fmd(paths: Seq<Seq<char>>)
    ensures
        fmd_paths(paths) == paths.map_values(|p: Seq<char>| lowercase(p)).filter(
            |a: Seq<char>| ends_with(a, ".fmd"@),
        ),
    decreases paths.len(),
{
    let pred = |a: Seq<char>| ends_with(a, ".fmd"@);
    let low = paths.map_values(|p: Seq<char>| lowercase(p));
    reveal(Seq::filter);
    if paths.len() > 0 {
        law_fmd_paths_selects_every_fmd(paths.drop_last());
        assert(low.drop_last() =~= paths.drop_last().map_values(|p: Seq<char>| lowercase(p)));
        assert(fmd_paths(paths) =~= low.filter(pred));
    } else {
        assert(fmd_paths(paths) =~= low.filter(pred));
    }
}

/// The entries of `args` that name a markup file (`fmd_arguments`).
pub fn select_fmd_arguments(args: &Vec<String>) -> (res: Vec<String>)
    ensures
        views(res@) == fmd_arguments(views(args@)),
{
    let ghost a = views(args@);
    let mut out: Vec<String> = Vec::new();
    let mut i: usize = 0;
    while i < args.len()
        invariant
            a == views(args@),
            i <= a.len(),
            views(out@) == fmd_arguments(a.take(i as int)),
        decreases a.len() - i,
    {
        assert(a.take(i + 1).drop_last() =~= a.take(i as int));
        assert(a.take(i + 1).last() == args@[i as int]@);
        let lower = to_lowercase(args[i].as_str());
        if ends_with_str(lower.as_str(), ".fmd") {
            let s = args[i].as_str().to_owned();
            let ghost before = views(out@);
            out.push(s);
            assert(views(out@) =~= before + seq![s@]);
        } else {
            assert(fmd_arguments(a.take(i + 1)) =~= fmd_arguments(a.take(i as int)));
        }
        i = i + 1;
    }
    assert(a.take(a.len() as int) =~= a);
    out
}

/// The lowercase forms of the `paths` that end with `.fmd` (`fmd_paths`).
pub fn select_fmd_paths(paths: &Vec<String>) -> (res: Vec<String>)
    ensures
        views(res@) == fmd_paths(views(paths@)),
{
    let ghost a = views(paths@);
    let mut out: Vec<String> = Vec::new();
    let mut i: usize = 0;
    while i < paths.len()
        invariant
            a == views(paths@),
            i <= a.len(),
            views(out@) == fmd_paths(a.take(i as int)),
        decreases a.len() - i,
    {
        assert(a.take(i + 1).drop_last() =~= a.take(i as int));
        assert(a.take(i + 1).last() == paths@[i as int]@);
        let lower = to_lowercase(paths[i].as_str());
        if ends_with_str(lower.as_str(), ".fmd") {
            let ghost before = views(out@);
            let ghost l = lower@;
            out.push(lower);
            assert(views(out@) =~= before + seq![l]);
        } else {
            assert(fmd_paths(a.take(i + 1)) =~= fmd_paths(a.take(i as int)));
        }
        i = i + 1;
    }
    assert(a.take(a.len() as int) =~= a);
    out
}

/// The command line of the site builder: its arguments and the markup files it
/// is to build.
pub struct CommandLineArguments {
    _args: Vec<String>,
    pub fmd_files: Vec<String>,
}

impl CommandLineArguments {
    /// The arguments as given.
    pub closed spec fn args(&self) -> Seq<Seq<char>> {
        views(self._args@)
    }

    /// The markup files to build.
    pub closed spec fn files(&self) -> Seq<Seq<char>> {
        views(self.fmd_files@)
    }

    /// The markup files named among `args`; when there are none, those among
    /// `listing`, the paths in the working directory (lowercased).
    pub fn new(args: Vec<String>, listing: Vec<String>) -> (res: CommandLineArguments)
        ensures
            res.args() == views(args@),
            res.files() == if fmd_arguments(views(args@)).len() > 0 {
                fmd_arguments(views(args@))
            } else {
                fmd_paths(views(listing@))
            },
    {
        let mut out = select_fmd_arguments(&args);
        if out.len() == 0 {
            out = select_fmd_paths(&listing);
        }
        CommandLineArguments { _args: args, fmd_files: out }
    }

    /// The markup files named among the program's arguments `args`.
    pub fn getFMDFiles(self, args: Vec<String>) -> (res: Vec<String>)
        ensures
            views(res@) == fmd_arguments(views(args@)),
    {
        select_fmd_arguments(&args)
    }
}

/// Whether any of the arguments names a markup file.
pub fn has_fmd_argument(args: &Vec<String>) -> (res: bool)
    ensures
        res == (fmd_arguments(views(args@)).len() > 0),
{
    select_fmd_arguments(args).len() > 0
}

/// A directory entry is a markup file: not a directory, with a name longer than
/// four bytes whose last four bytes are `.fmd`.
pub open spec fn is_fmd_entry(is_dir: bool, file_name: Seq<char>) -> bool {
    &&& !is_dir
    &&& utf8(file_name).len() > 4
    &&& byte_slice(file_name, utf8(file_name).len() - 4, utf8(file_name).len() as int) == ".fmd"@
}

/// The last four bytes of a name longer than four bytes start on a character boundary.
pub open spec fn extension_readable(file_name: Seq<char>) -> bool {
    utf8(file_name).len() > 4 ==> is_byte_range(file_name, utf8(file_name).len() - 4, utf8(file_name).len() as int)
}

/// Whether a directory entry is a markup file (`is_fmd_entry`).
pub fn is_fmd_file(is_dir: bool, file_name: &str) -> (res: bool)
    requires
        !is_dir ==> extension_readable(file_name@),
    ensures
        res == is_fmd_entry(is_dir, file_name@),
{
    if is_dir {
        return false;
    }
    let l = file_name.as_bytes().len();
    if l <= 4 {
        return false;
    }
    let ext = byte_substring(file_name, l - 4, l);
    string_equals(ext.as_str(), ".fmd")
}

/// The state of a build.
pub enum JOB_STATE {
    S0_Init,
    S1_Parsing,
    S2_ResolveDef,
    S3_BuildTOC,
}

/// The documents of a build, with how many there are and how many remain.
pub struct JOBS {
    state: JOB_STATE,
    jobs_total: usize,
    jobs_remaining: usize,
    jobs: Vec<FMD>,
}

impl JOBS {
    /// The state of the build.
    pub closed spec fn state(&self) -> JOB_STATE {
        self.state
    }

    /// The number of documents added.
    pub closed spec fn total(&self) -> nat {
        self.jobs_total as nat
    }

    /// The number of documents not yet processed.
    pub closed spec fn remaining(&self) -> nat {
        self.jobs_remaining as nat
    }

    /// The documents.
    pub closed spec fn documents(&self) -> Seq<FmdView> {
        self.jobs@.map_values(|f: FMD| f@)
    }

    /// A build with no documents.
    pub fn new() -> (res: JOBS)
        ensures
            res.state() == JOB_STATE::S0_Init,
            res.total() == 0,
            res.remaining() == 0,
            res.documents() == Seq::<FmdView>::empty(),
    {
        let res = JOBS { state: JOB_STATE::S0_Init, jobs_total: 0, jobs_remaining: 0, jobs: Vec::new() };
        assert(res.documents() =~= Seq::<FmdView>::empty());
        res
    }

    /// The build with one more document, an empty one coming from `filename`.
    pub fn addJob(self, filename: FmdFile) -> (res: JOBS)
        requires
            self.total() < usize::MAX,
            self.remaining() < usize::MAX,
        ensures
            res.state() == self.state(),
            res.total() == self.total() + 1,
            res.remaining() == self.remaining() + 1,
            res.documents() == self.documents().push(
                FmdView {
                    tokens: seq![],
                    pyscript: false,
                    definitions: seq![],
                    file: Some((filename.path@, filename.file_name@)),
                    title: seq![],
                },
            ),
    {
        let mut job = self.jobs;
        let mut fmd = FMD::new();
        fmd = fmd.set_filename(filename);
        let ghost before = job@.map_values(|f: FMD| f@);
        job.push(fmd);
        let res = JOBS {
            state: self.state,
            jobs_total: self.jobs_total + 1,
            jobs_remaining: self.jobs_remaining + 1,
            jobs: job,
        };
        assert(res.documents() =~= before.push(fmd@));
        res
    }
}

/// The entry of the table of contents for a document with title `t` in file
/// `f` (without extension): a link to `f.html` labelled with the title, or with
/// the file when the title is empty.
pub open spec fn toc_entry(t: Seq<char>, f: Seq<char>) -> Seq<char> {
    "<li class=\"toc-content\">"@ + "<a href=\""@ + f + ".html\">"@ + (if t.len() == 0 {
        f
    } else {
        t
    }) + "</a></li>"@
}

/// The entries of the table of contents, in order.
pub open spec fn toc_entries(titles: Seq<(Seq<char>, Seq<char>)>) -> Seq<char>
    decreases titles.len(),
{
    if titles.len() == 0 {
        seq![]
    } else {
        toc_entries(titles.drop_last()) + toc_entry(titles.last().0, titles.last().1)
    }
}

/// The table of contents: an ordered list of the entries, in a navigation element.
pub open spec fn toc(titles: Seq<(Seq<char>, Seq<char>)>) -> Seq<char> {
    "<nav class=\"table-of-contents\">\n    <ol>"@ + toc_entries(titles) + "    </ol>\n    </nav>"@
}

/// The titles and files of pairs of strings.
pub open spec fn pair_views(v: Seq<(String, String)>) -> Seq<(Seq<char>, Seq<char>)> {
    v.map_values(|p: (String, String)| (p.0@, p.1@))
}

/// The table of contents for documents given by (title, file) (`toc`).
pub fn generate_toc(toc_titles: Vec<(String, String)>) -> (res: String)
    ensures
        res@ == toc(pair_views(toc_titles@)),
{
    let ghost titles = pair_views(toc_titles@);
    let mut out = String::new();
    out.append("<nav class=\"table-of-contents\">\n    <ol>");
    let mut i: usize = 0;
    while i < toc_titles.len()
        invariant
            titles == pair_views(toc_titles@),
            i <= titles.len(),
            out@ == "<nav class=\"table-of-contents\">\n    <ol>"@ + toc_entries(titles.take(i as int)),
        decreases titles.len() - i,
    {
        let t = toc_titles[i].0.as_str();
        let f = toc_titles[i].1.as_str();
        assert(titles.take(i + 1).drop_last() =~= titles.take(i as int));
        assert(titles.take(i + 1).last() == (t@, f@));
        let ghost before = out@;
        out.append("<li class=\"toc-content\">");
        out.append("<a href=\"");
        out.append(f);
        out.append(".html\">");
        if t.is_empty() {
            out.append(f);
        } else {
            out.append(t);
        }
        out.append("</a></li>");
        assert(out@ =~= before + toc_entry(t@, f@));
        i = i + 1;
    }
    assert(titles.take(titles.len() as int) =~= titles);
    out.append("    </ol>\n    </nav>");
    out
}

/// Code points compare `a` before or equal to `b`, lexicographically (the
/// order of `String`'s `cmp`, since UTF-8 keeps code point order).
pub open spec fn text_le(a: Seq<char>, b: Seq<char>) -> bool
    decreases a.len(),
{
    if a.len() == 0 {
        true
    } else if b.len() == 0 {
        false
    } else if a[0] != b[0] {
        (a[0] as u32) < (b[0] as u32)
    } else {
        text_le(a.drop_first(), b.drop_first())
    }
}

/// Whether `a` comes before or equals `b` in code point order (`text_le`).
pub fn text_le_exec(a: &Vec<char>, b: &Vec<char>) -> (res: bool)
    ensures
        res == text_le(a@, b@),
{
    let mut i: usize = 0;
    assert(a@.skip(0) =~= a@);
    assert(b@.skip(0) =~= b@);
    while i < a.len() && i < b.len() && a[i] == b[i]
        invariant
            i <= a@.len(),
            i <= b@.len(),
            text_le(a@, b@) == text_le(a@.skip(i as int), b@.skip(i as int)),
        decreases a@.len() - i,
    {
        assert(a@.skip(i as int).drop_first() =~= a@.skip(i + 1));
        assert(b@.skip(i as int).drop_first() =~= b@.skip(i + 1));
        i = i + 1;
    }
    if i == a.len() {
        true
    } else if i == b.len() {
        false
    } else {
        (a[i] as u32) < (b[i] as u32)
    }
}

/// Where `x` goes among `sorted` (by file) so that it follows every entry whose
/// file is ordered before or equal to its own.
pub open spec fn toc_insert_position(sorted: Seq<(Seq<char>, Seq<char>)>, x: (Seq<char>, Seq<char>)) -> int
    decreases sorted.len(),
{
    if sorted.len() == 0 || text_le(sorted.last().1, x.1) {
        sorted.len() as int
    } else {
        toc_insert_position(sorted.drop_last(), x)
    }
}

/// The entries ordered by file, entries with equal files staying in their
/// given order (a stable sort, as `slice::sort_by` performs).
pub open spec fn sort_by_file(s: Seq<(Seq<char>, Seq<char>)>) -> Seq<(Seq<char>, Seq<char>)>
    decreases s.len(),
{
    if s.len() == 0 {
        s
    } else {
        let sorted = sort_by_file(s.drop_last());
        let k = toc_insert_position(sorted, s.last());
        sorted.take(k) + seq![s.last()] + sorted.skip(k)
    }
}

/// The order of texts is `String`'s: a prefix comes first (the empty text
/// before every text), a text never comes before its proper prefix, and two
/// texts each ordered before the other are equal.
pub proof fn law_text_order_is_lexicographic(a: Seq<char>, b: Seq<char>)
    ensures
        a.len() <= b.len() && b.take(a.len() as int) == a ==> text_le(a, b),
        b.len() < a.len() && a.take(b.len() as int) == b ==> !text_le(a, b),
        text_le(a, b) && text_le(b, a) ==> a == b,
    decreases a.len(),
{
    if a.len() > 0 && b.len() > 0 {
        law_text_order_is_lexicographic(a.drop_first(), b.drop_first());
        if a.len() <= b.len() && b.take(a.len() as int) == a {
            assert(b.take(a.len() as int)[0] == b[0]);
            assert(b.drop_first().take(a.drop_first().len() as int) =~= a.drop_first());
        }
        if b.len() < a.len() && a.take(b.len() as int) == b {
            assert(a.take(b.len() as int)[0] == a[0]);
            assert(a.drop_first().take(b.drop_first().len() as int) =~= b.drop_first());
        }
        if text_le(a, b) && text_le(b, a) {
            if a[0] == b[0] {
                assert(a =~= seq![a[0]] + a.drop_first());
                assert(b =~= seq![b[0]] + b.drop_first());
            } else {
                vstd::utf8::char_u32_cast(a[0], a[0] as u32);
                vstd::utf8::char_u32_cast(b[0], b[0] as u32);
            }
        }
    } else if a.len() == 0 && b.len() > 0 {
    } else if a.len() > 0 && b.len() == 0 {
        assert(a.take(0) =~= b);
    } else {
        assert(a =~= b);
    }
}

/// Any two texts are ordered one way or the other.
pub proof fn lemma_text_le_total(a: Seq<char>, b: Seq<char>)
    ensures
        text_le(a, b) || text_le(b, a),
    decreases a.len(),
{
    if a.len() > 0 && b.len() > 0 {
        if a[0] == b[0] {
            lemma_text_le_total(a.drop_first(), b.drop_first());
        } else {
            vstd::utf8::char_u32_cast(a[0], a[0] as u32);
            vstd::utf8::char_u32_cast(b[0], b[0] as u32);
        }
    }
}

/// The order of texts is transitive.
pub proof fn lemma_text_le_transitive(a: Seq<char>, b: Seq<char>, c: Seq<char>)
    requires
        text_le(a, b),
        text_le(b, c),
    ensures
        text_le(a, c),
    decreases a.len(),
{
    if a.len() > 0 && b.len() > 0 && c.len() > 0 && a[0] == b[0] && b[0] == c[0] {
        lemma_text_le_transitive(a.drop_first(), b.drop_first(), c.drop_first());
    }
}

/// The entries are ordered by file.
pub open spec fn sorted_by_file(s: Seq<(Seq<char>, Seq<char>)>) -> bool {
    forall|i: int, j: int| 0 <= i < j < s.len() ==> text_le(s[i].1, s[j].1)
}

proof fn lemma_toc_insert_position(sorted: Seq<(Seq<char>, Seq<char>)>, x: (Seq<char>, Seq<char>))
    ensures
        0 <= toc_insert_position(sorted, x) <= sorted.len(),
        forall|i: int| toc_insert_position(sorted, x) <= i < sorted.len() ==> text_le(x.1, sorted[i].1),
        toc_insert_position(sorted, x) > 0 ==> text_le(sorted[toc_insert_position(sorted, x) - 1].1, x.1),
    decreases sorted.len(),
{
    if sorted.len() > 0 && !text_le(sorted.last().1, x.1) {
        let shorter = sorted.drop_last();
        lemma_toc_insert_position(shorter, x);
        lemma_text_le_total(sorted.last().1, x.1);
        assert forall|i: int| toc_insert_position(sorted, x) <= i < sorted.len() implies text_le(
            x.1,
            sorted[i].1,
        ) by {
            if i < shorter.len() {
                assert(sorted[i] == shorter[i]);
            }
        }
    }
}

/// The table of contents lists the documents ordered by file, whatever their
/// titles: sorting gives an ordering of the same entries.
pub proof fn law_toc_sorted_by_file(titles: Seq<(Seq<char>, Seq<char>)>)
    ensures
        sorted_by_file(sort_by_file(titles)),
        sort_by_file(titles).to_multiset() == titles.to_multiset(),
    decreases titles.len(),
{
    broadcast use vstd::seq_lib::group_to_multiset_ensures;

    if titles.len() > 0 {
        let prev = sort_by_file(titles.drop_last());
        let x = titles.last();
        law_toc_sorted_by_file(titles.drop_last());
        lemma_toc_insert_position(prev, x);
        let k = toc_insert_position(prev, x);
        let r = sort_by_file(titles);
        assert(r == prev.take(k) + seq![x] + prev.skip(k));
        assert(sorted_by_file(prev));
        assert forall|i: int, j: int| 0 <= i < j < r.len() implies text_le(r[i].1, r[j].1) by {
            if i < k - 1 && k - 1 < prev.len() {
                assert(text_le(prev[i].1, prev[k - 1].1));
            }
            if j < k {
            } else if j == k {
                if i < k - 1 {
                    lemma_text_le_transitive(prev[i].1, prev[k - 1].1, x.1);
                }
            } else if i < k {
                assert(r[j] == prev[j - 1]);
                if i < k - 1 {
                    lemma_text_le_transitive(prev[i].1, prev[k - 1].1, x.1);
                }
                lemma_text_le_transitive(prev[i].1, x.1, prev[j - 1].1);
            } else if i == k {
                assert(r[j] == prev[j - 1]);
            } else {
                assert(r[i] == prev[i - 1]);
                assert(r[j] == prev[j - 1]);
            }
        }
        vstd::seq_lib::lemma_multiset_commutative(prev.take(k), seq![x]);
        vstd::seq_lib::lemma_multiset_commutative(prev.take(k) + seq![x], prev.skip(k));
        vstd::seq_lib::lemma_multiset_commutative(prev.take(k), prev.skip(k));
        assert(prev.take(k) + prev.skip(k) =~= prev);
        assert(seq![x] =~= Seq::<(Seq<char>, Seq<char>)>::empty().push(x));
        assert(titles =~= titles.drop_last().push(x));
    }
}

/// The entries of the table of contents ordered by file (`sort_by_file`).
pub fn sort_toc_titles(titles: Vec<(String, String)>) -> (res: Vec<(String, String)>)
    ensures
        pair_views(res@) == sort_by_file(pair_views(titles@)),
{
    let ghost all = pair_views(titles@);
    let mut sorted: Vec<(String, String)> = Vec::new();
    let mut keys: Vec<Vec<char>> = Vec::new();
    let mut i: usize = 0;
    while i < titles.len()
        invariant
            all == pair_views(titles@),
            i <= all.len(),
            pair_views(sorted@) == sort_by_file(all.take(i as int)),
            keys@.len() == sorted@.len(),
            forall|j: int| 0 <= j < keys@.len() ==> (#[trigger] keys@[j])@ == sorted@[j].1@,
        decreases all.len() - i,
    {
        assert(all.take(i + 1).drop_last() =~= all.take(i as int));
        let t = titles[i].0.as_str().to_owned();
        let f = titles[i].1.as_str().to_owned();
        let x = crate::text::chars_of(f.as_str());
        assert(all.take(i + 1).last() == (t@, f@));
        let ghost cur = pair_views(sorted@);
        let mut k = sorted.len();
        assert(cur.take(k as int) =~= cur);
        while k > 0 && !text_le_exec(&keys[k - 1], &x)
            invariant
                k <= sorted@.len(),
                cur == pair_views(sorted@),
                keys@.len() == sorted@.len(),
                forall|j: int| 0 <= j < keys@.len() ==> (#[trigger] keys@[j])@ == sorted@[j].1@,
                x@ == f@,
                toc_insert_position(cur, (t@, f@)) == toc_insert_position(cur.take(k as int), (t@, f@)),
            decreases k,
        {
            assert(cur.take(k as int).drop_last() =~= cur.take(k - 1));
            assert(cur.take(k as int).last() == cur[k - 1]);
            k = k - 1;
        }
        let ghost ks = keys@;
        sorted.insert(k, (t, f));
        keys.insert(k, x);
        assert(pair_views(sorted@) =~= cur.take(k as int) + seq![(t@, f@)] + cur.skip(k as int));
        assert forall|j: int| 0 <= j < keys@.len() implies (#[trigger] keys@[j])@ == sorted@[j].1@ by {
            if j < k {
                assert(keys@[j] == ks[j]);
            } else if j > k {
                assert(keys@[j] == ks[j - 1]);
            }
        }
        i = i + 1;
    }
    assert(all.take(all.len() as int) =~= all);
    sorted
}

/// The table of contents of a site: the documents' (title, file) entries ordered
/// by file, followed by the appendix when there are definitions.
pub open spec fn site_toc(titles: Seq<(Seq<char>, Seq<char>)>, with_appendix: bool) -> Seq<char> {
    toc(
        if with_appendix {
            sort_by_file(titles).push(("Appendix A"@, "appendix_a"@))
        } else {
            sort_by_file(titles)
        },
    )
}

/// The table of contents of a site (`site_toc`).
pub fn table_of_contents(toc_titles: Vec<(String, String)>, with_appendix: bool) -> (res: String)
    ensures
        res@ == site_toc(pair_views(toc_titles@), with_appendix),
{
    let mut sorted = sort_toc_titles(toc_titles);
    if with_appendix {
        let ghost before = pair_views(sorted@);
        let entry = ("Appendix A".to_owned(), "appendix_a".to_owned());
        sorted.push(entry);
        assert(pair_views(sorted@) =~= before.push(("Appendix A"@, "appendix_a"@)));
    }
    generate_toc(sorted)
}

/// The appendix of definitions: each defined word and its text.
pub open spec fn appendix_entries(defs: Seq<(Seq<char>, Seq<char>)>) -> Seq<char>
    decreases defs.len(),
{
    if defs.len() == 0 {
        seq![]
    } else {
        appendix_entries(defs.drop_last()) + "<span class=\"definition-word\"><b>"@ + defs.last().0 + ": "@
            + ":  </b></span><span class=\"definition-text\">"@ + defs.last().1 + "</span><br>"@
    }
}

/// The body of the appendix page.
pub open spec fn appendix(defs: Seq<(Seq<char>, Seq<char>)>) -> Seq<char> {
    "DEFINITIONS: <br>"@ + appendix_entries(defs)
}

/// The body of the appendix page for the definitions of a site (`appendix`).
pub fn appendix_html(defs: &Vec<DEFINITION>) -> (res: String)
    ensures
        res@ == appendix(definition_views(defs@)),
{
    let ghost d = definition_views(defs@);
    let mut out = String::new();
    out.append("DEFINITIONS: <br>");
    let mut i: usize = 0;
    while i < defs.len()
        invariant
            d == definition_views(defs@),
            i <= d.len(),
            out@ == "DEFINITIONS: <br>"@ + appendix_entries(d.take(i as int)),
        decreases d.len() - i,
    {
        assert(d.take(i + 1).drop_last() =~= d.take(i as int));
        assert(d.take(i + 1).last() == definition_view(defs@[i as int]));
        let ghost before = out@;
        out.append("<span class=\"definition-word\"><b>");
        out.append(defs[i].word.as_str());
        out.append(": ");
        out.append(":  </b></span><span class=\"definition-text\">");
        out.append(defs[i].text.as_str());
        out.append("</span><br>");
        assert(out@ =~= before + "<span class=\"definition-word\"><b>"@ + defs@[i as int].word@ + ": "@
            + ":  </b></span><span class=\"definition-text\">"@ + defs@[i as int].text@ + "</span><br>"@);
        i = i + 1;
    }
    assert(d.take(d.len() as int) =~= d);
    out
}

/// How deep in directories a file lies: the number of `/` in its path, or of
/// `\` when there are at least as many of those.
pub open spec fn dir_depth(file_name: Seq<char>) -> nat {
    if count_matches(file_name, "/"@) > count_matches(file_name, "\\"@) {
        count_matches(file_name, "/"@)
    } else {
        count_matches(file_name, "\\"@)
    }
}

/// How deep in directories a file lies (`dir_depth`).
pub fn get_dir_depth(file_name: &str) -> (res: usize)
    ensures
        res == dir_depth(file_name@),
{
    proof {
        reveal_strlit("/");
        reveal_strlit("\\");
    }
    let slashes = count_str(file_name, "/");
    let backslashes = count_str(file_name, "\\");
    if slashes > backslashes {
        slashes
    } else {
        backslashes
    }
}

/// A page at directory depth `depth` with its links to the style sheet and to
/// the table of contents' entries moved up `depth - 1` directories.
pub open spec fn relinked(html: Seq<char>, depth: nat) -> Seq<char>
    decreases depth,
{
    if depth <= 1 {
        html
    } else {
        let prev = relinked(html, (depth - 1) as nat);
        let s = replace_all(prev, "style.css"@, "../style.css"@);
        replace_all(s, "<li class=\"toc-content\"><a href=\""@, "<li class=\"toc-content\"><a href=\"../"@)
    }
}

/// Moves the links of a page at directory depth `depth` up (`relinked`).
pub fn relink(html: &str, depth: usize) -> (res: String)
    ensures
        res@ == relinked(html@, depth as nat),
{
    proof {
        reveal_strlit("style.css");
        reveal_strlit("<li class=\"toc-content\"><a href=\"");
    }
    let mut out = html.to_owned();
    if depth > 1 {
        let mut n: usize = 1;
        while n < depth
            invariant
                1 <= n <= depth,
                out@ == relinked(html@, n as nat),
            decreases depth - n,
        {
            proof {
                reveal_strlit("style.css");
                reveal_strlit("<li class=\"toc-content\"><a href=\"");
            }
            let s = replace_str(out.as_str(), "style.css", "../style.css");
            out = replace_str(
                s.as_str(),
                "<li class=\"toc-content\"><a href=\"",
                "<li class=\"toc-content\"><a href=\"../",
            );
            n = n + 1;
        }
    }
    out
}

} // verus!
