//! Rendering tokens of the markup as HTML.
use vstd::prelude::*;

use crate::pattern::regex_is_match;
use crate::tags::{classify, has_argument, patterns_compile, tag_argument, tag_source, Tag, TagPatterns};
use crate::text::{
    contains, contains_str, count_matches, count_str, decimal, decimal_string, lowercase, replace_all, replace_str,
    lemma_replace_absent_pattern, lemma_replace_keeps_absent, lemma_replace_removes, no_char,
    strip_leading, strip_leading_str, to_lowercase, views,
};

verus! {

/// Text with the characters that HTML treats specially written as entities,
/// tabs as four non-breaking spaces and line breaks as `<br>`; the
/// replacements are made one after another, in this order.
pub open spec fn sanitize(s: Seq<char>) -> Seq<char> {
    let s = replace_all(s, "&"@, "&amp;"@);
    let s = replace_all(s, "<"@, "&lt;"@);
    let s = replace_all(s, ">"@, "&gt;"@);
    let s = replace_all(s, "\""@, "&quot;"@);
    let s = replace_all(s, "'"@, "&apos;"@);
    let s = replace_all(s, "\u{a2}"@, "&cent;"@);
    let s = replace_all(s, "\u{a3}"@, "&pound;"@);
    let s = replace_all(s, "\u{a5}"@, "&yen;"@);
    let s = replace_all(s, "\u{20ac}"@, "&euro;"@);
    let s = replace_all(s, "\u{a9}"@, "&copy;"@);
    let s = replace_all(s, "\u{ae}"@, "&reg;"@);
    let s = replace_all(s, "\t"@, "&nbsp;&nbsp;&nbsp;&nbsp;"@);
    let s = replace_all(s, "\r\n"@, "<br>"@);
    replace_all(s, "\n"@, "<br>"@)
}

/// Escapes text for HTML (`sanitize`).
pub fn sanitize_string(s: &str) -> (res: String)
    ensures
        res@ == sanitize(s@),
{
    proof {
        reveal_strlit("&");
        reveal_strlit("<");
        reveal_strlit(">");
        reveal_strlit("\"");
        reveal_strlit("'");
        reveal_strlit("\u{a2}");
        reveal_strlit("\u{a3}");
        reveal_strlit("\u{a5}");
        reveal_strlit("\u{20ac}");
        reveal_strlit("\u{a9}");
        reveal_strlit("\u{ae}");
        reveal_strlit("\t");
        reveal_strlit("\r\n");
        reveal_strlit("\n");
    }
    let s = replace_str(s, "&", "&amp;");
    let s = replace_str(s.as_str(), "<", "&lt;");
    let s = replace_str(s.as_str(), ">", "&gt;");
    let s = replace_str(s.as_str(), "\"", "&quot;");
    let s = replace_str(s.as_str(), "'", "&apos;");
    let s = replace_str(s.as_str(), "\u{a2}", "&cent;");
    let s = replace_str(s.as_str(), "\u{a3}", "&pound;");
    let s = replace_str(s.as_str(), "\u{a5}", "&yen;");
    let s = replace_str(s.as_str(), "\u{20ac}", "&euro;");
    let s = replace_str(s.as_str(), "\u{a9}", "&copy;");
    let s = replace_str(s.as_str(), "\u{ae}", "&reg;");
    let s = replace_str(s.as_str(), "\t", "&nbsp;&nbsp;&nbsp;&nbsp;");
    let s = replace_str(s.as_str(), "\r\n", "<br>");
    replace_str(s.as_str(), "\n", "<br>")
}

/// Code in a language named `html` (in any case) with its `&lt;html&gt;` marked up
/// as an HTML tag; other code unchanged.
pub open spec fn highlight(code: Seq<char>, language: Seq<char>) -> Seq<char> {
    if lowercase(language) == "html"@ {
        replace_all(code, "&lt;html&gt;"@, r##"<span class="code-html-tag">&lt;html&gt;</span>"##@)
    } else {
        code
    }
}

/// The line-number entries `<div>1</div>` to `<div>m</div>`.
pub open spec fn line_numbers(m: nat) -> Seq<char>
    decreases m,
{
    if m == 0 {
        seq![]
    } else {
        line_numbers((m - 1) as nat) + "<div>"@ + decimal(m) + "</div>"@
    }
}

/// What a code block is wrapped in: before the line numbers.
pub open spec fn code_block_head() -> Seq<char> {
    r##"<div class="code-block" style="height: 400px; width: 100%; background: lightgrey; overflow-x: scroll; overflow-y: scroll;"><div class="code-line-number-margin unselectable" style="top: 0px; left: 0px; width: 5%; float: left; font-size: 0.75em; white-space: nowrap;">"##@
}

/// What a code block is wrapped in: between the line numbers and the code.
pub open spec fn code_block_middle() -> Seq<char> {
    r##"</div><div class="code-block-code" style="background: lightgrey; width: 95%; float: left; font-size: 0.75em;white-space: nowrap;">"##@
}

/// What a code block is wrapped in: after the code.
pub open spec fn code_block_tail() -> Seq<char> {
    r##"</div><div style="clear: both;"></div></div>"##@
}

/// A block of (escaped) code as HTML: the highlighted code without its leading
/// line breaks, a line number for every line break left in it, all in a
/// scrolling frame.
pub open spec fn code_block(code: Seq<char>, language: Seq<char>) -> Seq<char> {
    let out = strip_leading(highlight(code, language), "<br>"@);
    code_block_head() + line_numbers(count_matches(out, "<br>"@)) + code_block_middle() + out
        + code_block_tail()
}

/// A code block can be framed: its highlighted code holds a line break.
pub open spec fn code_block_ok(code: Seq<char>, language: Seq<char>) -> bool {
    contains(highlight(code, language), "<br>"@)
}

/// Marks up `&lt;html&gt;` in code of the language `html` (`highlight`).
pub fn highlight_code(code: &str, language: &str) -> (res: String)
    ensures
        res@ == highlight(code@, language@),
{
    let lang = to_lowercase(language);
    proof {
        reveal_strlit("html");
        reveal_strlit("&lt;html&gt;");
    }
    if string_equals(lang.as_str(), "html") {
        replace_str(code, "&lt;html&gt;", r##"<span class="code-html-tag">&lt;html&gt;</span>"##)
    } else {
        code.to_owned()
    }
}

/// Whether two strings are equal.
pub fn string_equals(a: &str, b: &str) -> (res: bool)
    ensures
        res == (a@ == b@),
{
    let x = crate::text::chars_of(a);
    let y = crate::text::chars_of(b);
    if x.len() != y.len() {
        return false;
    }
    let mut i: usize = 0;
    while i < x.len()
        invariant
            x@ == a@,
            y@ == b@,
            x@.len() == y@.len(),
            i <= x@.len(),
            forall|j: int| 0 <= j < i ==> x@[j] == y@[j],
        decreases x@.len() - i,
    {
        if x[i] != y[i] {
            return false;
        }
        i = i + 1;
    }
    assert(x@ =~= y@);
    true
}

/// The line-number entries `<div>1</div>` to `<div>m</div>`.
pub fn line_numbers_string(m: usize) -> (res: String)
    ensures
        res@ == line_numbers(m as nat),
{
    let mut res = String::new();
    let mut k: usize = 0;
    while k < m
        invariant
            k <= m,
            res@ == line_numbers(k as nat),
        decreases m - k,
    {
        res.append("<div>");
        let digits = decimal_string(k + 1);
        res.append(digits.as_str());
        res.append("</div>");
        k = k + 1;
    }
    res
}

/// Where the renderer stands between tokens: inside a code block (and in which
/// language), and inside a `[noparse]` block.
pub struct RenderMode {
    pub code_block: bool,
    pub language: Seq<char>,
    pub noparse: bool,
}

/// The renderer's state between tokens.
pub struct RenderState {
    pub code_block: bool,
    pub language: String,
    pub noparse: bool,
}

impl View for RenderState {
    type V = RenderMode;

    open spec fn view(&self) -> RenderMode {
        RenderMode { code_block: self.code_block, language: self.language@, noparse: self.noparse }
    }
}

impl RenderState {
    /// The state before the first token: outside any block.
    pub fn new() -> (res: RenderState)
        ensures
            res@ == initial_mode(),
    {
        RenderState { code_block: false, language: String::new(), noparse: false }
    }
}

/// The state before the first token.
pub open spec fn initial_mode() -> RenderMode {
    RenderMode { code_block: false, language: seq![], noparse: false }
}

/// The HTML that a tag without an argument renders as.
pub open spec fn tag_html(t: Tag) -> Seq<char> {
    match t {
        Tag::ItalicsOpen => "<i>"@,
        Tag::ItalicsClose => "</i>"@,
        Tag::BoldOpen => "<b>"@,
        Tag::BoldClose => "</b>"@,
        Tag::UnderlineOpen => "<u>"@,
        Tag::UnderlineClose => "</u>"@,
        Tag::StrikethroughOpen => "<span style = \"text-decoration:line-through;\">"@,
        Tag::StrikethroughClose => "</span>"@,
        Tag::SuperscriptOpen => "<sup>"@,
        Tag::SuperscriptClose => "</sup>"@,
        Tag::SubscriptOpen => "<sub>"@,
        Tag::SubscriptClose => "</sub>"@,
        Tag::ColorClose => "</span>"@,
        Tag::DefinitionClose => "</span>"@,
        Tag::TitleOpen => "<span class=\"title\">"@,
        Tag::TitleClose => "</span>"@,
        Tag::CodeOpen => "<code>"@,
        Tag::CodeClose => "</code>"@,
        Tag::UrlClose => "</a>"@,
        Tag::ImgOpen => "<img src=\""@,
        Tag::ImgClose => "\" style=\"max-width: 100%;\"></img>"@,
        _ => seq![],
    }
}

/// The HTML that opens the element of a tag with an argument, before the argument.
pub open spec fn argument_prefix(t: Tag) -> Seq<char> {
    match t {
        Tag::ColorOpen => "<span style = \"color:"@,
        Tag::DefinitionOpen => "<span class=\"definition-word\"><b>"@,
        _ => "<a href=\""@,
    }
}

/// The HTML that follows the argument of a tag with an argument.
pub open spec fn argument_suffix(t: Tag) -> Seq<char> {
    match t {
        Tag::ColorOpen => ";\">"@,
        Tag::DefinitionOpen => ":  </b></span><span class=\"definition-text\">"@,
        _ => "\" target=\"_blank\" rel=\"noopener noreferrer\">"@,
    }
}

/// A token that is rendered as text: escaped, and inside a code block with its
/// spaces made non-breaking and framed as a code block.
pub open spec fn text_html(mode: RenderMode, token: Seq<char>) -> Seq<char> {
    if mode.code_block {
        code_block(replace_all(sanitize(token), " "@, "&nbsp;"@), mode.language)
    } else {
        sanitize(token)
    }
}

/// The token is rendered as text in `mode`.
pub open spec fn renders_as_text(mode: RenderMode, class: Option<Tag>) -> bool {
    if mode.noparse {
        class != Some(Tag::NoparseClose)
    } else {
        class is None || class == Some(Tag::NoparseClose)
    }
}

/// Rendering a token in `mode` as `class` can go through: a tag with an
/// argument has one, and text inside a code block has a line break to number.
pub open spec fn render_step_ok(mode: RenderMode, token: Seq<char>, class: Option<Tag>, argument: Option<Seq<char>>) -> bool {
    &&& (!mode.noparse && class is Some && has_argument(class.unwrap())) ==> argument is Some
    &&& (!mode.noparse && renders_as_text(mode, class) && mode.code_block) ==> code_block_ok(
        replace_all(sanitize(token), " "@, "&nbsp;"@),
        mode.language,
    )
}

/// The state after a token and the pieces of HTML it is rendered as.
///
/// Inside a `[noparse]` block a token is escaped text, except `[/noparse]`,
/// which ends the block and renders as nothing. Outside, `class` is the tag the
/// token was recognised as, if any: tags render as their HTML, `[code=..]` and
/// `[/code]` enter and leave a code block, `[noparse]` enters a noparse block,
/// and anything else is text.
pub open spec fn render_step(mode: RenderMode, token: Seq<char>, class: Option<Tag>, argument: Option<Seq<char>>) -> (RenderMode, Seq<Seq<char>>) {
    if renders_as_text(mode, class) {
        if mode.noparse {
            (mode, seq![sanitize(token)])
        } else {
            (mode, seq![text_html(mode, token)])
        }
    } else if mode.noparse {
        (RenderMode { noparse: false, ..mode }, seq![seq![]])
    } else {
        let t = class.unwrap();
        match t {
            Tag::ColorOpen | Tag::DefinitionOpen | Tag::UrlOpen => (
                mode,
                seq![argument_prefix(t), argument.unwrap(), argument_suffix(t)],
            ),
            Tag::CodeOpen => (
                RenderMode { code_block: true, language: argument.unwrap(), ..mode },
                seq![tag_html(t)],
            ),
            Tag::CodeClose => (RenderMode { code_block: false, ..mode }, seq![tag_html(t)]),
            Tag::NoparseOpen => (RenderMode { noparse: true, ..mode }, seq![seq![]]),
            _ => (mode, seq![tag_html(t)]),
        }
    }
}

/// The HTML of a tag without an argument (`tag_html`).
fn tag_html_string(t: Tag) -> (res: &'static str)
    ensures
        res@ == tag_html(t),
{
    match t {
        Tag::ItalicsOpen => "<i>",
        Tag::ItalicsClose => "</i>",
        Tag::BoldOpen => "<b>",
        Tag::BoldClose => "</b>",
        Tag::UnderlineOpen => "<u>",
        Tag::UnderlineClose => "</u>",
        Tag::StrikethroughOpen => "<span style = \"text-decoration:line-through;\">",
        Tag::StrikethroughClose => "</span>",
        Tag::SuperscriptOpen => "<sup>",
        Tag::SuperscriptClose => "</sup>",
        Tag::SubscriptOpen => "<sub>",
        Tag::SubscriptClose => "</sub>",
        Tag::ColorClose => "</span>",
        Tag::DefinitionClose => "</span>",
        Tag::TitleOpen => "<span class=\"title\">",
        Tag::TitleClose => "</span>",
        Tag::CodeOpen => "<code>",
        Tag::CodeClose => "</code>",
        Tag::UrlClose => "</a>",
        Tag::ImgOpen => "<img src=\"",
        Tag::ImgClose => "\" style=\"max-width: 100%;\"></img>",
        _ => {
            proof {
                reveal_strlit("");
            }
            ""
        },
    }
}

/// The character sequence of an optional string.
pub open spec fn option_view(a: Option<String>) -> Option<Seq<char>> {
    match a {
        Some(s) => Some(s@),
        None => None,
    }
}

/// Renders one token (`render_step`): updates the state and appends the pieces
/// of HTML to `out`.
pub fn render_token(state: &mut RenderState, out: &mut Vec<String>, token: &str, class: Option<Tag>, argument: Option<String>)
    requires
        render_step_ok(old(state)@, token@, class, option_view(argument)),
    ensures
        final(state)@ == render_step(old(state)@, token@, class, option_view(argument)).0,
        views(final(out)@) == views(old(out)@) + render_step(
            old(state)@,
            token@,
            class,
            option_view(argument),
        ).1,
{
    let ghost mode = state@;
    let ghost old_out = views(out@);
    let ghost arg = option_view(argument);
    let ghost step = render_step(mode, token@, class, arg);
    let text = if state.noparse {
        match class {
            Some(Tag::NoparseClose) => false,
            _ => true,
        }
    } else {
        match class {
            None => true,
            Some(Tag::NoparseClose) => true,
            _ => false,
        }
    };
    assert(text == renders_as_text(mode, class));
    if text {
        let escaped = sanitize_string(token);
        if !state.noparse && state.code_block {
            proof {
                reveal_strlit(" ");
            }
            let spaced = replace_str(escaped.as_str(), " ", "&nbsp;");
            out.push(crate::fmd::FMD::format_code_block(spaced, state.language.as_str()));
        } else {
            out.push(escaped);
        }
    } else if state.noparse {
        state.noparse = false;
        out.push(String::new());
    } else {
        let t = class.unwrap();
        match t {
            Tag::ColorOpen | Tag::DefinitionOpen | Tag::UrlOpen => {
                let a = argument.unwrap();
                let (prefix, suffix) = match t {
                    Tag::ColorOpen => ("<span style = \"color:", ";\">"),
                    Tag::DefinitionOpen => (
                        "<span class=\"definition-word\"><b>",
                        ":  </b></span><span class=\"definition-text\">",
                    ),
                    _ => ("<a href=\"", "\" target=\"_blank\" rel=\"noopener noreferrer\">"),
                };
                assert(prefix@ == argument_prefix(t));
                assert(suffix@ == argument_suffix(t));
                out.push(prefix.to_owned());
                out.push(a);
                out.push(suffix.to_owned());
            },
            Tag::CodeOpen => {
                state.language = argument.unwrap();
                state.code_block = true;
                out.push(tag_html_string(t).to_owned());
            },
            Tag::CodeClose => {
                state.code_block = false;
                out.push(tag_html_string(t).to_owned());
            },
            Tag::NoparseOpen => {
                state.noparse = true;
                out.push(String::new());
            },
            _ => {
                out.push(tag_html_string(t).to_owned());
            },
        }
    }
    assert(views(out@) =~= old_out + step.1);
}


/// What a token is recognised as in `mode`: inside a `[noparse]` block only
/// `[/noparse]` is looked for; outside, the first tag in render order that matches.
pub open spec fn token_class(mode: RenderMode, token: Seq<char>) -> Option<Tag> {
    if mode.noparse {
        if regex_is_match(tag_source(Tag::NoparseClose), token) {
            Some(Tag::NoparseClose)
        } else {
            None
        }
    } else {
        classify(token)
    }
}

/// The argument of a token recognised as a tag with an argument, outside a
/// `[noparse]` block.
pub open spec fn token_argument(mode: RenderMode, token: Seq<char>, class: Option<Tag>) -> Option<Seq<char>> {
    if !mode.noparse && class is Some && has_argument(class.unwrap()) {
        tag_argument(class.unwrap(), token)
    } else {
        None
    }
}

/// The state and the HTML pieces after rendering the first `n` tokens; `None`
/// when one of them cannot be rendered (`render_step_ok`).
pub open spec fn render_prefix(tokens: Seq<Seq<char>>, n: nat) -> Option<(RenderMode, Seq<Seq<char>>)>
    decreases n,
{
    if n == 0 {
        Some((initial_mode(), seq![]))
    } else {
        match render_prefix(tokens, (n - 1) as nat) {
            None => None,
            Some(prev) => {
                let mode = prev.0;
                let t = tokens[n - 1];
                let class = token_class(mode, t);
                let arg = token_argument(mode, t, class);
                if render_step_ok(mode, t, class, arg) {
                    let step = render_step(mode, t, class, arg);
                    Some((step.0, prev.1 + step.1))
                } else {
                    None
                }
            },
        }
    }
}

/// The HTML pieces that a sequence of tokens renders as; `None` when the
/// expressions do not compile or a token cannot be rendered.
pub open spec fn rendered(tokens: Seq<Seq<char>>) -> Option<Seq<Seq<char>>> {
    if patterns_compile() {
        match render_prefix(tokens, tokens.len()) {
            Some(r) => Some(r.1),
            None => None,
        }
    } else {
        None
    }
}

/// Renders a sequence of tokens as HTML pieces (`rendered`).
pub fn render_tokens(tokens: &Vec<String>) -> (res: Option<Vec<String>>)
    ensures
        res is Some <==> rendered(views(tokens@)) is Some,
        res matches Some(v) ==> Some(views(v@)) == rendered(views(tokens@)),
{
    let ghost toks = views(tokens@);
    let patterns = match TagPatterns::compile() {
        Some(p) => p,
        None => {
            return None;
        },
    };
    let mut state = RenderState::new();
    let mut out: Vec<String> = Vec::new();
    let mut i: usize = 0;
    while i < tokens.len()
        invariant
            toks == views(tokens@),
            i <= tokens@.len(),
            render_prefix(toks, i as nat) == Some((state@, views(out@))),
        decreases tokens@.len() - i,
    {
        let t = tokens[i].as_str();
        assert(toks[i as int] == t@);
        let class = if state.noparse {
            if patterns.is_tag(Tag::NoparseClose, t) {
                Some(Tag::NoparseClose)
            } else {
                None
            }
        } else {
            patterns.classify(t)
        };
        let needs_argument = match class {
            Some(Tag::ColorOpen) | Some(Tag::DefinitionOpen) | Some(Tag::CodeOpen) | Some(Tag::UrlOpen) => true,
            _ => false,
        };
        assert(needs_argument == (class is Some && has_argument(class.unwrap())));
        let argument = if !state.noparse && needs_argument {
            match patterns.argument(class.unwrap(), t) {
                Some(a) => Some(a),
                None => {
                    assert(render_prefix(toks, (i + 1) as nat) is None);
                    proof {
                        lemma_render_prefix_none(toks, (i + 1) as nat, tokens@.len() as nat);
                    }
                    return None;
                },
            }
        } else {
            None
        };
        let text = match class {
            None => true,
            Some(Tag::NoparseClose) => !state.noparse,
            _ => state.noparse,
        };
        assert(text == renders_as_text(state@, class));
        if text && !state.noparse && state.code_block {
            proof {
                reveal_strlit(" ");
                reveal_strlit("<br>");
            }
            let escaped = sanitize_string(t);
            let spaced = replace_str(escaped.as_str(), " ", "&nbsp;");
            let highlighted = highlight_code(spaced.as_str(), state.language.as_str());
            if !contains_str(highlighted.as_str(), "<br>") {
                assert(render_prefix(toks, (i + 1) as nat) is None);
                proof {
                    lemma_render_prefix_none(toks, (i + 1) as nat, tokens@.len() as nat);
                }
                return None;
            }
        }
        render_token(&mut state, &mut out, t, class, argument);
        i = i + 1;
    }
    assert(toks.len() == tokens@.len());
    Some(out)
}

/// Once a prefix of the tokens cannot be rendered, no longer prefix can.
pub proof fn lemma_render_prefix_none(tokens: Seq<Seq<char>>, n: nat, m: nat)
    requires
        n <= m,
        render_prefix(tokens, n) is None,
    ensures
        render_prefix(tokens, m) is None,
    decreases m - n,
{
    if n < m {
        lemma_render_prefix_none(tokens, n + 1, m);
    }
}


/// Text without line breaks, once sanitized, holds none of the characters
/// that HTML gives a meaning to: `<`, `>`, `"` and `'`.
pub proof fn law_sanitized_text_has_no_markup_characters(s: Seq<char>)
    requires
        no_char(s, '\n'),
    ensures
        no_char(sanitize(s), '<'),
        no_char(sanitize(s), '>'),
        no_char(sanitize(s), '"'),
        no_char(sanitize(s), '\''),
{
    reveal_strlit("&");
    reveal_strlit("&amp;");
    reveal_strlit("&apos;");
    reveal_strlit("&cent;");
    reveal_strlit("&copy;");
    reveal_strlit("&euro;");
    reveal_strlit("&gt;");
    reveal_strlit("&lt;");
    reveal_strlit("&nbsp;&nbsp;&nbsp;&nbsp;");
    reveal_strlit("&pound;");
    reveal_strlit("&quot;");
    reveal_strlit("&reg;");
    reveal_strlit("&yen;");
    reveal_strlit("'");
    reveal_strlit("<");
    reveal_strlit("<br>");
    reveal_strlit(">");
    reveal_strlit("\"");
    reveal_strlit("\n");
    reveal_strlit("\r\n");
    reveal_strlit("\t");
    reveal_strlit("\u{20ac}");
    reveal_strlit("\u{a2}");
    reveal_strlit("\u{a3}");
    reveal_strlit("\u{a5}");
    reveal_strlit("\u{a9}");
    reveal_strlit("\u{ae}");
    let s0 = s;
    let s1 = replace_all(s0, "&"@, "&amp;"@);
    let s2 = replace_all(s1, "<"@, "&lt;"@);
    let s3 = replace_all(s2, ">"@, "&gt;"@);
    let s4 = replace_all(s3, "\""@, "&quot;"@);
    let s5 = replace_all(s4, "'"@, "&apos;"@);
    let s6 = replace_all(s5, "\u{a2}"@, "&cent;"@);
    let s7 = replace_all(s6, "\u{a3}"@, "&pound;"@);
    let s8 = replace_all(s7, "\u{a5}"@, "&yen;"@);
    let s9 = replace_all(s8, "\u{20ac}"@, "&euro;"@);
    let s10 = replace_all(s9, "\u{a9}"@, "&copy;"@);
    let s11 = replace_all(s10, "\u{ae}"@, "&reg;"@);
    let s12 = replace_all(s11, "\t"@, "&nbsp;&nbsp;&nbsp;&nbsp;"@);
    let s13 = replace_all(s12, "\r\n"@, "<br>"@);
    let s14 = replace_all(s13, "\n"@, "<br>"@);
    assert(sanitize(s) == s14);
    lemma_replace_keeps_absent(s0, "&"@, "&amp;"@, '\n');
    lemma_replace_keeps_absent(s1, "<"@, "&lt;"@, '\n');
    lemma_replace_keeps_absent(s2, ">"@, "&gt;"@, '\n');
    lemma_replace_keeps_absent(s3, "\""@, "&quot;"@, '\n');
    lemma_replace_keeps_absent(s4, "'"@, "&apos;"@, '\n');
    lemma_replace_keeps_absent(s5, "\u{a2}"@, "&cent;"@, '\n');
    lemma_replace_keeps_absent(s6, "\u{a3}"@, "&pound;"@, '\n');
    lemma_replace_keeps_absent(s7, "\u{a5}"@, "&yen;"@, '\n');
    lemma_replace_keeps_absent(s8, "\u{20ac}"@, "&euro;"@, '\n');
    lemma_replace_keeps_absent(s9, "\u{a9}"@, "&copy;"@, '\n');
    lemma_replace_keeps_absent(s10, "\u{ae}"@, "&reg;"@, '\n');
    lemma_replace_keeps_absent(s11, "\t"@, "&nbsp;&nbsp;&nbsp;&nbsp;"@, '\n');
    lemma_replace_absent_pattern(s12, "\r\n"@, "<br>"@, 1);
    lemma_replace_absent_pattern(s13, "\n"@, "<br>"@, 0);
    assert("<"@ =~= seq!['<']);
    lemma_replace_removes(s1, '<', "&lt;"@);
    lemma_replace_keeps_absent(s2, ">"@, "&gt;"@, '<');
    lemma_replace_keeps_absent(s3, "\""@, "&quot;"@, '<');
    lemma_replace_keeps_absent(s4, "'"@, "&apos;"@, '<');
    lemma_replace_keeps_absent(s5, "\u{a2}"@, "&cent;"@, '<');
    lemma_replace_keeps_absent(s6, "\u{a3}"@, "&pound;"@, '<');
    lemma_replace_keeps_absent(s7, "\u{a5}"@, "&yen;"@, '<');
    lemma_replace_keeps_absent(s8, "\u{20ac}"@, "&euro;"@, '<');
    lemma_replace_keeps_absent(s9, "\u{a9}"@, "&copy;"@, '<');
    lemma_replace_keeps_absent(s10, "\u{ae}"@, "&reg;"@, '<');
    lemma_replace_keeps_absent(s11, "\t"@, "&nbsp;&nbsp;&nbsp;&nbsp;"@, '<');
    assert(">"@ =~= seq!['>']);
    lemma_replace_removes(s2, '>', "&gt;"@);
    lemma_replace_keeps_absent(s3, "\""@, "&quot;"@, '>');
    lemma_replace_keeps_absent(s4, "'"@, "&apos;"@, '>');
    lemma_replace_keeps_absent(s5, "\u{a2}"@, "&cent;"@, '>');
    lemma_replace_keeps_absent(s6, "\u{a3}"@, "&pound;"@, '>');
    lemma_replace_keeps_absent(s7, "\u{a5}"@, "&yen;"@, '>');
    lemma_replace_keeps_absent(s8, "\u{20ac}"@, "&euro;"@, '>');
    lemma_replace_keeps_absent(s9, "\u{a9}"@, "&copy;"@, '>');
    lemma_replace_keeps_absent(s10, "\u{ae}"@, "&reg;"@, '>');
    lemma_replace_keeps_absent(s11, "\t"@, "&nbsp;&nbsp;&nbsp;&nbsp;"@, '>');
    assert("\""@ =~= seq!['"']);
    lemma_replace_removes(s3, '"', "&quot;"@);
    lemma_replace_keeps_absent(s4, "'"@, "&apos;"@, '"');
    lemma_replace_keeps_absent(s5, "\u{a2}"@, "&cent;"@, '"');
    lemma_replace_keeps_absent(s6, "\u{a3}"@, "&pound;"@, '"');
    lemma_replace_keeps_absent(s7, "\u{a5}"@, "&yen;"@, '"');
    lemma_replace_keeps_absent(s8, "\u{20ac}"@, "&euro;"@, '"');
    lemma_replace_keeps_absent(s9, "\u{a9}"@, "&copy;"@, '"');
    lemma_replace_keeps_absent(s10, "\u{ae}"@, "&reg;"@, '"');
    lemma_replace_keeps_absent(s11, "\t"@, "&nbsp;&nbsp;&nbsp;&nbsp;"@, '"');
    assert("'"@ =~= seq!['\'']);
    lemma_replace_removes(s4, '\'', "&apos;"@);
    lemma_replace_keeps_absent(s5, "\u{a2}"@, "&cent;"@, '\'');
    lemma_replace_keeps_absent(s6, "\u{a3}"@, "&pound;"@, '\'');
    lemma_replace_keeps_absent(s7, "\u{a5}"@, "&yen;"@, '\'');
    lemma_replace_keeps_absent(s8, "\u{20ac}"@, "&euro;"@, '\'');
    lemma_replace_keeps_absent(s9, "\u{a9}"@, "&copy;"@, '\'');
    lemma_replace_keeps_absent(s10, "\u{ae}"@, "&reg;"@, '\'');
    lemma_replace_keeps_absent(s11, "\t"@, "&nbsp;&nbsp;&nbsp;&nbsp;"@, '\'');
}

/// Outside a `[noparse]` block, a tag without an argument renders as the HTML
/// element it stands for (`[sup]` as `<sup>`, `[/sub]` as `</sub>`, ...), and
/// leaves the state as it was.
pub proof fn law_tags_render_as_their_elements(mode: RenderMode, token: Seq<char>, argument: Option<Seq<char>>)
    requires
        !mode.noparse,
    ensures
        render_step(mode, token, Some(Tag::ItalicsOpen), argument) == (mode, seq!["<i>"@]),
        render_step(mode, token, Some(Tag::ItalicsClose), argument) == (mode, seq!["</i>"@]),
        render_step(mode, token, Some(Tag::BoldOpen), argument) == (mode, seq!["<b>"@]),
        render_step(mode, token, Some(Tag::BoldClose), argument) == (mode, seq!["</b>"@]),
        render_step(mode, token, Some(Tag::UnderlineOpen), argument) == (mode, seq!["<u>"@]),
        render_step(mode, token, Some(Tag::UnderlineClose), argument) == (mode, seq!["</u>"@]),
        render_step(mode, token, Some(Tag::StrikethroughOpen), argument) == (mode, seq!["<span style = \"text-decoration:line-through;\">"@]),
        render_step(mode, token, Some(Tag::StrikethroughClose), argument) == (mode, seq!["</span>"@]),
        render_step(mode, token, Some(Tag::SuperscriptOpen), argument) == (mode, seq!["<sup>"@]),
        render_step(mode, token, Some(Tag::SuperscriptClose), argument) == (mode, seq!["</sup>"@]),
        render_step(mode, token, Some(Tag::SubscriptOpen), argument) == (mode, seq!["<sub>"@]),
        render_step(mode, token, Some(Tag::SubscriptClose), argument) == (mode, seq!["</sub>"@]),
        render_step(mode, token, Some(Tag::ColorClose), argument) == (mode, seq!["</span>"@]),
        render_step(mode, token, Some(Tag::DefinitionClose), argument) == (mode, seq!["</span>"@]),
        render_step(mode, token, Some(Tag::TitleOpen), argument) == (mode, seq!["<span class=\"title\">"@]),
        render_step(mode, token, Some(Tag::TitleClose), argument) == (mode, seq!["</span>"@]),
        render_step(mode, token, Some(Tag::UrlClose), argument) == (mode, seq!["</a>"@]),
        render_step(mode, token, Some(Tag::ImgOpen), argument) == (mode, seq!["<img src=\""@]),
        render_step(mode, token, Some(Tag::ImgClose), argument) == (mode, seq!["\" style=\"max-width: 100%;\"></img>"@]),
{
}

proof fn lemma_three_tokens(tokens: Seq<Seq<char>>, first: Seq<char>, second: Seq<char>, third: Seq<char>, t1: Tag, t3: Tag)
    requires
        patterns_compile(),
        tokens == seq![first, second, third],
        classify(first) == Some(t1),
        !has_argument(t1),
        render_step(initial_mode(), first, Some(t1), None) == (initial_mode(), seq![tag_html(t1)]),
        classify(second) is None,
        classify(third) == Some(t3),
        !has_argument(t3),
        render_step(initial_mode(), third, Some(t3), None) == (initial_mode(), seq![tag_html(t3)]),
    ensures
        rendered(tokens) == Some(seq![tag_html(t1), sanitize(second), tag_html(t3)]),
{
    let m = initial_mode();
    assert(tokens[0] == first && tokens[1] == second && tokens[2] == third);
    assert(render_prefix(tokens, 0) == Some((m, Seq::<Seq<char>>::empty())));
    assert(render_step(m, first, Some(t1), None) == (m, seq![tag_html(t1)]));
    assert(Seq::<Seq<char>>::empty() + seq![tag_html(t1)] =~= seq![tag_html(t1)]);
    assert(render_prefix(tokens, 1) == Some((m, seq![tag_html(t1)])));
    assert(seq![tag_html(t1)] + seq![sanitize(second)] =~= seq![tag_html(t1), sanitize(second)]);
    assert(render_prefix(tokens, 2) == Some((m, seq![tag_html(t1), sanitize(second)])));
    assert(render_step(m, third, Some(t3), None) == (m, seq![tag_html(t3)]));
    assert(seq![tag_html(t1), sanitize(second)] + seq![tag_html(t3)] =~= seq![
        tag_html(t1),
        sanitize(second),
        tag_html(t3),
    ]);
    assert(render_prefix(tokens, 3) == Some((m, seq![tag_html(t1), sanitize(second), tag_html(t3)])));
}

/// A superscript `[sup]..[/sup]` renders as `<sup>..</sup>` around the escaped text.
pub proof fn law_superscript_renders_as_sup(open: Seq<char>, text: Seq<char>, close: Seq<char>)
    requires
        patterns_compile(),
        classify(open) == Some(Tag::SuperscriptOpen),
        classify(text) is None,
        classify(close) == Some(Tag::SuperscriptClose),
    ensures
        rendered(seq![open, text, close]) == Some(seq!["<sup>"@, sanitize(text), "</sup>"@]),
{
    lemma_three_tokens(seq![open, text, close], open, text, close, Tag::SuperscriptOpen, Tag::SuperscriptClose);
}

/// A subscript `[sub]..[/sub]` renders as `<sub>..</sub>` around the escaped text.
pub proof fn law_subscript_renders_as_sub(open: Seq<char>, text: Seq<char>, close: Seq<char>)
    requires
        patterns_compile(),
        classify(open) == Some(Tag::SubscriptOpen),
        classify(text) is None,
        classify(close) == Some(Tag::SubscriptClose),
    ensures
        rendered(seq![open, text, close]) == Some(seq!["<sub>"@, sanitize(text), "</sub>"@]),
{
    lemma_three_tokens(seq![open, text, close], open, text, close, Tag::SubscriptOpen, Tag::SubscriptClose);
}

/// The line-number margin for `m` line breaks lists the numbers 1 to `m` in
/// increasing order: the margin for fewer breaks is a prefix of it, and the
/// `k`-th entry is `<div>k</div>`.
pub proof fn law_line_numbers_count_up(m: nat, k: nat)
    requires
        1 <= k <= m,
    ensures
        line_numbers(k).len() <= line_numbers(m).len(),
        line_numbers(m).take(line_numbers(k).len() as int) == line_numbers(k),
        line_numbers(k).skip(line_numbers((k - 1) as nat).len() as int) == "<div>"@ + decimal(k) + "</div>"@,
        line_numbers(0) == Seq::<char>::empty(),
    decreases m,
{
    if m > k {
        law_line_numbers_count_up((m - 1) as nat, k);
        let lk = line_numbers(k);
        let prev = line_numbers((m - 1) as nat);
        assert(line_numbers(m) == prev + "<div>"@ + decimal(m) + "</div>"@);
        assert(line_numbers(m).take(lk.len() as int) =~= prev.take(lk.len() as int));
    } else {
        assert(line_numbers(m).take(line_numbers(k).len() as int) =~= line_numbers(k));
    }
    let prev = line_numbers((k - 1) as nat);
    assert(line_numbers(k).skip(prev.len() as int) =~= "<div>"@ + decimal(k) + "</div>"@);
}

proof fn lemma_untagged_prefix(tokens: Seq<Seq<char>>, n: nat)
    requires
        n <= tokens.len(),
        forall|i: int| 0 <= i < tokens.len() ==> classify(#[trigger] tokens[i]) is None,
    ensures
        render_prefix(tokens, n) == Some(
            (initial_mode(), tokens.take(n as int).map_values(|t: Seq<char>| sanitize(t))),
        ),
    decreases n,
{
    if n == 0 {
        assert(tokens.take(0).map_values(|t: Seq<char>| sanitize(t)) =~= Seq::<Seq<char>>::empty());
    } else {
        lemma_untagged_prefix(tokens, (n - 1) as nat);
        let t = tokens[n - 1];
        assert(classify(t) is None);
        assert(tokens.take(n as int).map_values(|t: Seq<char>| sanitize(t)) =~= tokens.take(
            n - 1,
        ).map_values(|t: Seq<char>| sanitize(t)) + seq![sanitize(t)]);
    }
}

/// Text in which no tag is recognised is only escaped: every token renders as
/// its sanitized text.
pub proof fn law_untagged_tokens_are_escaped(tokens: Seq<Seq<char>>)
    requires
        patterns_compile(),
        forall|i: int| 0 <= i < tokens.len() ==> classify(#[trigger] tokens[i]) is None,
    ensures
        rendered(tokens) == Some(tokens.map_values(|t: Seq<char>| sanitize(t))),
{
    lemma_untagged_prefix(tokens, tokens.len());
    assert(tokens.take(tokens.len() as int) =~= tokens);
}

} // verus!
