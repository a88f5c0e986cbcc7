//! A document of the markup, as it passes from text through tokens to HTML.
use vstd::prelude::*;

use crate::pattern::regex_is_match;
use crate::render::{
    code_block, code_block_ok, highlight_code, line_numbers_string, render_tokens, rendered,
};
use crate::text::{count_str, strip_leading_str};
use crate::tags::{patterns_compile, tag_argument, tag_source, Tag, TagPatterns};
use crate::text::{byte_slice, byte_substring, flatten, is_byte_range, utf8, views};
use crate::tokenize::{sorted_tag_bounds, split_at_bounds, tag_tokens, tokenizes};

verus! {

/// The files and titles of documents.
pub struct FMD_FILES_AND_TITLES {
    pub title: String,
    pub filename: String,
}

impl FMD_FILES_AND_TITLES {
    /// Clears the title and the file name of a value that is then dropped.
    pub fn new(self) {
        let mut cleared = self;
        cleared.title = String::new();
        cleared.filename = String::new();
    }
}

/// Resources that a page needs besides its own text.
#[derive(Clone)]
pub struct INCLUDED_RESOURCES {
    pub pyscript: bool,
}

impl INCLUDED_RESOURCES {
    /// No extra resources.
    pub fn new() -> (res: INCLUDED_RESOURCES)
        ensures
            !res.pyscript,
    {
        INCLUDED_RESOURCES { pyscript: false }
    }
}

/// How code in a code block is to be formatted.
pub enum CodeFormatting {
    html,
    css,
    javascript,
    python,
    rust,
    cpp,
    cs,
    java,
    go,
    gb,
    x86,
    arm,
    fortran,
    cobol,
    fs,
    vb,
}

/// A defined word and the HTML of its definition.
#[derive(Clone)]
pub struct DEFINITION {
    pub word: String,
    pub text: String,
}

impl DEFINITION {
    /// The empty definition.
    pub fn new() -> (res: DEFINITION)
        ensures
            res.word@ == Seq::<char>::empty(),
            res.text@ == Seq::<char>::empty(),
    {
        DEFINITION { word: String::new(), text: String::new() }
    }

    /// Whether no word is defined.
    pub fn is_empty(&self) -> (res: bool)
        ensures
            res == (self.word@.len() == 0),
    {
        self.word.as_str().is_empty()
    }
}

/// The word and the text of a definition.
pub open spec fn definition_view(d: DEFINITION) -> (Seq<char>, Seq<char>) {
    (d.word@, d.text@)
}

/// The words and texts of a sequence of definitions.
pub open spec fn definition_views(v: Seq<DEFINITION>) -> Seq<(Seq<char>, Seq<char>)> {
    v.map_values(|d: DEFINITION| definition_view(d))
}

/// The file a document comes from: its path and its file name.
#[derive(Clone)]
pub struct FmdFile {
    pub path: String,
    pub file_name: String,
}

/// What a document holds: its tokens, its resources, the definitions found in
/// it, the file it comes from, and its title.
pub struct FmdView {
    pub tokens: Seq<Seq<char>>,
    pub pyscript: bool,
    pub definitions: Seq<(Seq<char>, Seq<char>)>,
    pub file: Option<(Seq<char>, Seq<char>)>,
    pub title: Seq<char>,
}

/// A document of the markup.
#[derive(Clone)]
pub struct FMD {
    _tokens: Vec<String>,
    _incres: INCLUDED_RESOURCES,
    _definitions: Vec<DEFINITION>,
    _filename: Option<FmdFile>,
    _title: String,
}

impl View for FMD {
    type V = FmdView;

    closed spec fn view(&self) -> FmdView {
        FmdView {
            tokens: views(self._tokens@),
            pyscript: self._incres.pyscript,
            definitions: definition_views(self._definitions@),
            file: match self._filename {
                Some(f) => Some((f.path@, f.file_name@)),
                None => None,
            },
            title: self._title@,
        }
    }
}

/// The tokens after breaking `text` up at its tags; the old tokens when it is
/// not broken up (`tokenizes`: it is empty, or its tags overlap).
pub open spec fn pre_tokenized(old_tokens: Seq<Seq<char>>, text: Seq<char>) -> Seq<Seq<char>> {
    if tokenizes(text) {
        split_at_bounds(text, sorted_tag_bounds(text), 0)
    } else {
        old_tokens
    }
}

/// The tokens rendered as HTML; the tokens themselves when there are none or
/// one of them cannot be rendered.
pub open spec fn ibus_replaced(tokens: Seq<Seq<char>>) -> Seq<Seq<char>> {
    if tokens.len() > 0 && rendered(tokens) is Some {
        rendered(tokens).unwrap()
    } else {
        tokens
    }
}

/// Whether the expression of tag `t` matches somewhere in `token`.
pub open spec fn is_tag(t: Tag, token: Seq<char>) -> bool {
    regex_is_match(tag_source(t), token)
}

/// Scanning the first `n` tokens for titles: whether a `[title]` is open, where
/// the last one was, and the title text collected so far (the tokens between
/// each `[title]` and the `[/title]` that closes it).
pub open spec fn title_scan(tokens: Seq<Seq<char>>, n: nat) -> (bool, int, Seq<char>)
    decreases n,
{
    if n == 0 {
        (false, 0, seq![])
    } else {
        let prev = title_scan(tokens, (n - 1) as nat);
        let i = n - 1;
        if is_tag(Tag::TitleOpen, tokens[i]) {
            (true, i, prev.2)
        } else if is_tag(Tag::TitleClose, tokens[i]) {
            if prev.0 {
                (false, prev.1, prev.2 + flatten(tokens.subrange(prev.1 + 1, i)))
            } else {
                (false, prev.1, prev.2)
            }
        } else {
            prev
        }
    }
}

/// The title of a document with these tokens; the old title when there are no
/// tokens or the expressions do not compile.
pub open spec fn parsed_title(tokens: Seq<Seq<char>>, old_title: Seq<char>) -> Seq<char> {
    if tokens.len() > 0 && patterns_compile() {
        title_scan(tokens, tokens.len()).2
    } else {
        old_title
    }
}

/// The HTML text of a definition: its source text broken into tokens, rendered,
/// and put back together.
pub open spec fn definition_html(text: Seq<char>) -> Seq<char> {
    flatten(ibus_replaced(pre_tokenized(seq![], text)))
}

/// Scanning the first `n` tokens for definitions: whether a `[definition=..]`
/// is open, where the last one was, and the definitions found so far, each the
/// argument of its opening tag and the HTML of the tokens after it up to and
/// including the `[/definition]` that closes it. `None` when the word of a
/// definition cannot be extracted.
pub open spec fn definition_scan(tokens: Seq<Seq<char>>, n: nat) -> Option<(bool, int, Seq<(Seq<char>, Seq<char>)>)>
    decreases n,
{
    if n == 0 {
        Some((false, 0, seq![]))
    } else {
        match definition_scan(tokens, (n - 1) as nat) {
            None => None,
            Some(prev) => {
                let i = n - 1;
                if is_tag(Tag::DefinitionOpen, tokens[i]) {
                    Some((true, i, prev.2))
                } else if is_tag(Tag::DefinitionClose, tokens[i]) {
                    if prev.0 {
                        match tag_argument(Tag::DefinitionOpen, tokens[prev.1]) {
                            None => None,
                            Some(word) => Some(
                                (
                                    false,
                                    prev.1,
                                    prev.2.push(
                                        (word, definition_html(flatten(tokens.subrange(prev.1 + 1, i + 1)))),
                                    ),
                                ),
                            ),
                        }
                    } else {
                        Some((false, prev.1, prev.2))
                    }
                } else {
                    Some(prev)
                }
            },
        }
    }
}

/// The definitions of a document with these tokens: the old ones followed by
/// those found in the tokens; the old ones alone when there are no tokens, the
/// expressions do not compile, or the word of a definition cannot be extracted.
pub open spec fn parsed_definitions(tokens: Seq<Seq<char>>, old_defs: Seq<(Seq<char>, Seq<char>)>) -> Seq<(Seq<char>, Seq<char>)> {
    if tokens.len() > 0 && patterns_compile() && definition_scan(tokens, tokens.len()) is Some {
        old_defs + definition_scan(tokens, tokens.len()).unwrap().2
    } else {
        old_defs
    }
}

/// After the first `n` tokens: whether a `[definition=..]` is open, and how
/// many `[definition=..]`..`[/definition]` pairs have closed.
pub open spec fn definition_pairs(tokens: Seq<Seq<char>>, n: nat) -> (bool, nat)
    decreases n,
{
    if n == 0 {
        (false, 0)
    } else {
        let prev = definition_pairs(tokens, (n - 1) as nat);
        let t = tokens[n - 1];
        if is_tag(Tag::DefinitionOpen, t) {
            (true, prev.1)
        } else if is_tag(Tag::DefinitionClose, t) {
            (false, if prev.0 { prev.1 + 1 } else { prev.1 })
        } else {
            prev
        }
    }
}

/// Every closed definition pair yields one definition, and definitions found
/// earlier are kept when later ones are found: scanning more tokens only
/// appends, and the number found is the number of closed pairs.
pub proof fn law_each_closed_pair_defines_one_word(tokens: Seq<Seq<char>>, n: nat, m: nat)
    requires
        n <= m <= tokens.len(),
        definition_scan(tokens, m) is Some,
    ensures
        definition_scan(tokens, n) is Some,
        definition_scan(tokens, m).unwrap().2.len() == definition_pairs(tokens, m).1,
        definition_scan(tokens, m).unwrap().0 == definition_pairs(tokens, m).0,
        definition_scan(tokens, m).unwrap().2.take(definition_scan(tokens, n).unwrap().2.len() as int)
            == definition_scan(tokens, n).unwrap().2,
        definition_scan(tokens, n).unwrap().2.len() <= definition_scan(tokens, m).unwrap().2.len(),
    decreases m,
{
    if m > 0 {
        let prev = definition_scan(tokens, (m - 1) as nat);
        assert(prev is Some);
        law_each_closed_pair_defines_one_word(tokens, (m - 1) as nat, (m - 1) as nat);
        if n < m {
            law_each_closed_pair_defines_one_word(tokens, n, (m - 1) as nat);
            let a = definition_scan(tokens, n).unwrap().2;
            let b = prev.unwrap().2;
            let c = definition_scan(tokens, m).unwrap().2;
            assert(c == b || (c.len() == b.len() + 1 && c.drop_last() == b));
            if c.len() == b.len() + 1 {
                assert(c.take(a.len() as int) =~= b.take(a.len() as int));
            }
        } else {
            let c = definition_scan(tokens, m).unwrap().2;
            assert(c.take(c.len() as int) =~= c);
        }
    } else {
        let c = definition_scan(tokens, m).unwrap().2;
        assert(c.take(c.len() as int) =~= c);
    }
}

/// Collecting definitions keeps the definitions a document already had, in
/// front, and adds one for every closed definition pair of its tokens.
pub proof fn law_parsed_definitions_keep_and_count(tokens: Seq<Seq<char>>, old_defs: Seq<(Seq<char>, Seq<char>)>)
    ensures
        old_defs.len() <= parsed_definitions(tokens, old_defs).len(),
        parsed_definitions(tokens, old_defs).take(old_defs.len() as int) == old_defs,
        tokens.len() > 0 && patterns_compile() && definition_scan(tokens, tokens.len()) is Some
            ==> parsed_definitions(tokens, old_defs).len() == old_defs.len() + definition_pairs(
            tokens,
            tokens.len(),
        ).1,
{
    let r = parsed_definitions(tokens, old_defs);
    if tokens.len() > 0 && patterns_compile() && definition_scan(tokens, tokens.len()) is Some {
        law_each_closed_pair_defines_one_word(tokens, tokens.len(), tokens.len());
        assert(r.take(old_defs.len() as int) =~= old_defs);
    } else {
        assert(r.take(old_defs.len() as int) =~= old_defs);
    }
}

/// A path whose last four bytes can be cut off (a file extension such as `.fmd`).
pub open spec fn has_extension(s: Seq<char>) -> bool {
    utf8(s).len() >= 4 && is_byte_range(s, 0, utf8(s).len() - 4)
}

/// A path without its last four bytes.
pub open spec fn without_extension(s: Seq<char>) -> Seq<char> {
    byte_slice(s, 0, utf8(s).len() - 4)
}

/// `s` without its last four bytes.
fn cut_extension(s: &str) -> (res: String)
    requires
        has_extension(s@),
    ensures
        res@ == without_extension(s@),
{
    let l = s.as_bytes().len();
    byte_substring(s, 0, l - 4)
}

/// The definition that the tokens from `open_idx` to `close_idx` make: the
/// argument of the opening tag and the HTML of the tokens after it up to and
/// including the closing tag. `None` when the word cannot be extracted.
fn definition_at(patterns: &TagPatterns, tokens: &Vec<String>, open_idx: usize, close_idx: usize) -> (res: Option<DEFINITION>)
    requires
        open_idx < close_idx < tokens@.len(),
    ensures
        res is Some <==> tag_argument(Tag::DefinitionOpen, views(tokens@)[open_idx as int]) is Some,
        res matches Some(d) ==> definition_view(d) == (
            tag_argument(Tag::DefinitionOpen, views(tokens@)[open_idx as int]).unwrap(),
            definition_html(flatten(views(tokens@).subrange(open_idx + 1, close_idx + 1))),
        ),
{
    let ghost toks = views(tokens@);
    let opening = tokens[open_idx].as_str();
    assert(toks[open_idx as int] == opening@);
    let word = match patterns.argument(Tag::DefinitionOpen, opening) {
        Some(w) => w,
        None => {
            return None;
        },
    };
    let mut text = String::new();
    let mut j = open_idx + 1;
    assert(toks.subrange(open_idx + 1, j as int) =~= Seq::<Seq<char>>::empty());
    while j <= close_idx
        invariant
            toks == views(tokens@),
            open_idx + 1 <= j <= close_idx + 1,
            close_idx < toks.len(),
            close_idx < tokens.len(),
            text@ == flatten(toks.subrange(open_idx + 1, j as int)),
        decreases close_idx + 1 - j,
    {
        text.append(tokens[j].as_str());
        assert(toks.subrange(open_idx + 1, j + 1).drop_last() =~= toks.subrange(open_idx + 1, j as int));
        j = j + 1;
    }
    let fmd = FMD::new();
    let def_text = fmd.pre_tokenize(text.as_str()).replace_ibus().concat_tokens();
    Some(DEFINITION { word, text: def_text })
}

impl FMD {
    /// An empty document.
    pub fn new() -> (res: Self)
        ensures
            res@ == (FmdView {
                tokens: seq![],
                pyscript: false,
                definitions: seq![],
                file: None,
                title: seq![],
            }),
    {
        let res = Self {
            _tokens: Vec::new(),
            _incres: INCLUDED_RESOURCES::new(),
            _definitions: Vec::new(),
            _filename: None,
            _title: String::new(),
        };
        assert(res@.tokens =~= Seq::<Seq<char>>::empty());
        assert(res@.definitions =~= Seq::<(Seq<char>, Seq<char>)>::empty());
        res
    }

    /// Breaks `text` into tokens at its tags (`pre_tokenized`); the tokens put
    /// back together give `text` again.
    pub fn pre_tokenize(self, text: &str) -> (res: Self)
        ensures
            res@ == (FmdView { tokens: pre_tokenized(self@.tokens, text@), ..self@ }),
            tokenizes(text@) ==> flatten(res@.tokens) == text@,
    {
        match tag_tokens(text) {
            Some(tokens) => Self {
                _tokens: tokens,
                _incres: self._incres,
                _definitions: self._definitions,
                _filename: self._filename,
                _title: self._title,
            },
            None => self,
        }
    }

    /// Renders the tokens as HTML (`ibus_replaced`).
    pub fn replace_ibus(self) -> (res: Self)
        ensures
            res@ == (FmdView { tokens: ibus_replaced(self@.tokens), ..self@ }),
    {
        if self._tokens.len() == 0 {
            return self;
        }
        match render_tokens(&self._tokens) {
            Some(out) => Self {
                _tokens: out,
                _incres: self._incres,
                _definitions: self._definitions,
                _filename: self._filename,
                _title: self._title,
            },
            None => self,
        }
    }

    /// Collects the title of the document from its `[title]` tags (`parsed_title`).
    pub fn parse_title(self) -> (res: Self)
        ensures
            res@ == (FmdView { title: parsed_title(self@.tokens, self@.title), ..self@ }),
    {
        let ghost toks = self@.tokens;
        if self._tokens.len() == 0 {
            return self;
        }
        let patterns = match TagPatterns::compile() {
            Some(p) => p,
            None => {
                return self;
            },
        };
        let mut found_title_open = false;
        let mut found_title_open_idx: usize = 0;
        let mut title = String::new();
        let mut i: usize = 0;
        while i < self._tokens.len()
            invariant
                toks == views(self._tokens@),
                i <= toks.len(),
                found_title_open_idx < toks.len(),
                found_title_open ==> found_title_open_idx < i,
                title_scan(toks, i as nat) == (found_title_open, found_title_open_idx as int, title@),
            decreases toks.len() - i,
        {
            let t = self._tokens[i].as_str();
            assert(toks[i as int] == t@);
            if patterns.is_tag(Tag::TitleOpen, t) {
                found_title_open = true;
                found_title_open_idx = i;
            } else if patterns.is_tag(Tag::TitleClose, t) {
                if found_title_open {
                    let ghost before = title@;
                    let mut j = found_title_open_idx + 1;
                    assert(toks.subrange(found_title_open_idx + 1, j as int) =~= Seq::<Seq<char>>::empty());
                    while j < i
                        invariant
                            toks == views(self._tokens@),
                            found_title_open_idx + 1 <= j <= i,
                            i < toks.len(),
                            title@ == before + flatten(toks.subrange(found_title_open_idx + 1, j as int)),
                        decreases i - j,
                    {
                        title.append(self._tokens[j].as_str());
                        assert(toks.subrange(found_title_open_idx + 1, j + 1).drop_last() =~= toks.subrange(
                            found_title_open_idx + 1,
                            j as int,
                        ));
                        j = j + 1;
                    }
                }
                found_title_open = false;
            }
            i = i + 1;
        }
        Self {
            _tokens: self._tokens,
            _incres: self._incres,
            _definitions: self._definitions,
            _filename: self._filename,
            _title: title,
        }
    }

    /// The tokens put back together.
    pub fn concat_tokens(&self) -> (res: String)
        ensures
            res@ == flatten(self@.tokens),
    {
        let ghost toks = self@.tokens;
        let mut s = String::new();
        let mut i: usize = 0;
        while i < self._tokens.len()
            invariant
                toks == views(self._tokens@),
                i <= toks.len(),
                s@ == flatten(toks.take(i as int)),
            decreases toks.len() - i,
        {
            s.append(self._tokens[i].as_str());
            assert(toks.take(i + 1).drop_last() =~= toks.take(i as int));
            i = i + 1;
        }
        assert(toks.take(toks.len() as int) =~= toks);
        s
    }

    /// Collects the definitions of the document from its `[definition=..]` tags
    /// (`parsed_definitions`).
    pub fn parse_definitions(self) -> (res: Self)
        ensures
            res@ == (FmdView { definitions: parsed_definitions(self@.tokens, self@.definitions), ..self@ }),
    {
        let ghost toks = self@.tokens;
        if self._tokens.len() == 0 {
            return self;
        }
        let patterns = match TagPatterns::compile() {
            Some(p) => p,
            None => {
                return self;
            },
        };
        let mut found: Vec<DEFINITION> = Vec::new();
        let mut found_definition_open = false;
        let mut found_definition_open_idx: usize = 0;
        let mut i: usize = 0;
        assert(definition_views(found@) =~= Seq::<(Seq<char>, Seq<char>)>::empty());
        while i < self._tokens.len()
            invariant
                toks == views(self._tokens@),
                i <= toks.len(),
                found_definition_open_idx < toks.len(),
                found_definition_open ==> found_definition_open_idx < i,
                definition_scan(toks, i as nat) == Some(
                    (found_definition_open, found_definition_open_idx as int, definition_views(found@)),
                ),
            decreases toks.len() - i,
        {
            let t = self._tokens[i].as_str();
            assert(toks[i as int] == t@);
            if patterns.is_tag(Tag::DefinitionOpen, t) {
                found_definition_open = true;
                found_definition_open_idx = i;
            } else if patterns.is_tag(Tag::DefinitionClose, t) {
                if found_definition_open {
                    match definition_at(&patterns, &self._tokens, found_definition_open_idx, i) {
                        Some(d) => {
                            let ghost before = definition_views(found@);
                            found.push(d);
                            assert(definition_views(found@) =~= before.push(definition_view(d)));
                        },
                        None => {
                            proof {
                                lemma_definition_scan_none(toks, (i + 1) as nat, toks.len());
                            }
                            return self;
                        },
                    }
                }
                found_definition_open = false;
            }
            i = i + 1;
        }
        let ghost old_defs = definition_views(self._definitions@);
        let mut definitions = self._definitions;
        let mut k: usize = 0;
        while k < found.len()
            invariant
                k <= found@.len(),
                definition_views(definitions@) == old_defs + definition_views(found@).take(k as int),
            decreases found@.len() - k,
        {
            let d = DEFINITION { word: found[k].word.clone(), text: found[k].text.clone() };
            let ghost before = definition_views(definitions@);
            definitions.push(d);
            assert(definition_views(definitions@) =~= before.push(definition_view(d)));
            assert(definition_views(found@).take(k + 1) =~= definition_views(found@).take(k as int).push(
                definition_view(found@[k as int]),
            ));
            assert(definition_views(definitions@) =~= old_defs + definition_views(found@).take(k + 1));
            k = k + 1;
        }
        assert(definition_views(found@).take(found@.len() as int) =~= definition_views(found@));
        Self {
            _tokens: self._tokens,
            _incres: self._incres,
            _definitions: definitions,
            _filename: self._filename,
            _title: self._title,
        }
    }

    /// Copies of the definitions found in the document.
    pub fn get_definitions(&self) -> (res: Vec<DEFINITION>)
        ensures
            definition_views(res@) == self@.definitions,
    {
        let mut out_def: Vec<DEFINITION> = Vec::new();
        let mut i: usize = 0;
        while i < self._definitions.len()
            invariant
                i <= self._definitions@.len(),
                definition_views(out_def@) == definition_views(self._definitions@).take(i as int),
            decreases self._definitions@.len() - i,
        {
            let d = DEFINITION {
                word: self._definitions[i].word.as_str().to_owned(),
                text: self._definitions[i].text.as_str().to_owned(),
            };
            let ghost before = definition_views(out_def@);
            out_def.push(d);
            assert(definition_views(out_def@) =~= before.push(definition_view(d)));
            assert(definition_views(out_def@) =~= definition_views(self._definitions@).take(i + 1));
            i = i + 1;
        }
        assert(definition_views(self._definitions@).take(i as int) =~= definition_views(self._definitions@));
        out_def
    }

    /// Formats a block of escaped code as HTML (`code_block`).
    pub fn format_code_block(code: String, language: &str) -> (res: String)
        requires
            code_block_ok(code@, language@),
        ensures
            res@ == code_block(code@, language@),
    {
        let out = highlight_code(code.as_str(), language);
        proof {
            reveal_strlit("<br>");
        }
        let out = strip_leading_str(out.as_str(), "<br>");
        let br_count = count_str(out.as_str(), "<br>");
        let mut res = String::new();
        res.append(
            r##"<div class="code-block" style="height: 400px; width: 100%; background: lightgrey; overflow-x: scroll; overflow-y: scroll;"><div class="code-line-number-margin unselectable" style="top: 0px; left: 0px; width: 5%; float: left; font-size: 0.75em; white-space: nowrap;">"##,
        );
        let numbers = line_numbers_string(br_count);
        res.append(numbers.as_str());
        res.append(
            r##"</div><div class="code-block-code" style="background: lightgrey; width: 95%; float: left; font-size: 0.75em;white-space: nowrap;">"##,
        );
        res.append(out.as_str());
        res.append(r##"</div><div style="clear: both;"></div></div>"##);
        res
    }

    /// The path of the document's file, if it has one.
    pub fn file_path(&self) -> (res: Option<String>)
        ensures
            res is Some <==> self@.file is Some,
            res matches Some(p) ==> p@ == self@.file.unwrap().0,
    {
        match &self._filename {
            Some(f) => Some(f.path.as_str().to_owned()),
            None => None,
        }
    }

    /// The path of the document's file without its extension.
    pub fn get_file(&self) -> (res: String)
        requires
            self@.file is Some,
            has_extension(self@.file.unwrap().0),
        ensures
            res@ == without_extension(self@.file.unwrap().0),
    {
        match &self._filename {
            Some(f) => cut_extension(f.path.as_str()),
            None => String::new(),
        }
    }

    /// The file name of the document without its extension.
    pub fn get_filename(&self) -> (res: String)
        requires
            self@.file is Some,
            has_extension(self@.file.unwrap().1),
        ensures
            res@ == without_extension(self@.file.unwrap().1),
    {
        match &self._filename {
            Some(f) => cut_extension(f.file_name.as_str()),
            None => String::new(),
        }
    }

    /// The document, now coming from `filename`.
    pub fn set_filename(self, filename: FmdFile) -> (res: Self)
        ensures
            res@ == (FmdView { file: Some((filename.path@, filename.file_name@)), ..self@ }),
    {
        Self {
            _tokens: self._tokens,
            _incres: self._incres,
            _definitions: self._definitions,
            _filename: Some(filename),
            _title: self._title,
        }
    }

    /// The title of the document.
    pub fn get_title(&self) -> (res: String)
        ensures
            res@ == self@.title,
    {
        self._title.as_str().to_owned()
    }

    /// The tokens of the document.
    pub fn get_tokens(&self) -> (res: Vec<String>)
        ensures
            views(res@) == self@.tokens,
    {
        let mut out: Vec<String> = Vec::new();
        let mut i: usize = 0;
        while i < self._tokens.len()
            invariant
                i <= self._tokens@.len(),
                views(out@) == views(self._tokens@).take(i as int),
            decreases self._tokens@.len() - i,
        {
            let t = self._tokens[i].as_str().to_owned();
            let ghost before = views(out@);
            out.push(t);
            assert(views(out@) =~= before.push(t@));
            assert(views(out@) =~= views(self._tokens@).take(i + 1));
            i = i + 1;
        }
        assert(views(self._tokens@).take(i as int) =~= views(self._tokens@));
        out
    }
}

/// Once a prefix of the tokens cannot be scanned for definitions, no longer
/// prefix can.
proof fn lemma_definition_scan_none(tokens: Seq<Seq<char>>, n: nat, m: nat)
    requires
        n <= m,
        definition_scan(tokens, n) is None,
    ensures
        definition_scan(tokens, m) is None,
    decreases m - n,
{
    if n < m {
        lemma_definition_scan_none(tokens, n + 1, m);
    }
}

} // verus!
