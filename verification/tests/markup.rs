use foxmd::render::{render_token, render_tokens, sanitize_string, RenderState};
use foxmd::tags::{Tag, TagPatterns};
use foxmd::text::{
    contains_str, count_str, decimal_string, ends_with_str, replace_str, strip_leading_str,
};
use foxmd::tokenize::{is_chained, sort_bounds, split_text, tag_tokens};
use foxmd::{FmdFile, MDBounds, DEFINITION, FMD, INCLUDED_RESOURCES};

fn tokens_of(text: &str) -> Vec<String> {
    FMD::new().pre_tokenize(text).get_tokens()
}

#[test]
fn match_ranges_are_bytes() {
    // The tokens are cut at byte offsets, after a two-byte character here.
    assert_eq!(tokens_of("é[b]"), vec!["é".to_string(), "[b]".to_string()]);
    assert_eq!(tokens_of("[b]é"), vec!["[b]".to_string(), "é".to_string()]);
}

#[test]
fn tag_patterns_compile() {
    assert!(TagPatterns::compile().is_some());
}

#[test]
fn classify_takes_first_tag_in_order() {
    let p = TagPatterns::compile().unwrap();
    assert_eq!(p.classify("[b]"), Some(Tag::BoldOpen));
    assert_eq!(p.classify("[ /SUP ]"), Some(Tag::SuperscriptClose));
    assert_eq!(p.classify("[color=red]"), Some(Tag::ColorOpen));
    assert_eq!(p.classify("[/noparse]"), None);
    assert_eq!(p.classify("plain text"), None);
    assert!(p.is_tag(Tag::NoparseClose, "[/noparse]"));
}

#[test]
fn tag_arguments() {
    let p = TagPatterns::compile().unwrap();
    assert_eq!(p.argument(Tag::ColorOpen, "[color=red]"), Some("red".to_string()));
    assert_eq!(p.argument(Tag::ColorOpen, "[color=\"#ff0000\"]"), Some("#ff0000".to_string()));
    assert_eq!(
        p.argument(Tag::UrlOpen, "[url=\"https://example.com\"]"),
        Some("https://example.com".to_string())
    );
    assert_eq!(p.argument(Tag::CodeOpen, "[code=rust]"), Some("rust".to_string()));
    assert_eq!(p.argument(Tag::DefinitionOpen, "[definition=fox]"), Some("fox".to_string()));
    // The argument expressions are case-sensitive.
    assert_eq!(p.argument(Tag::ColorOpen, "[COLOR=red]"), None);
}

#[test]
fn tokens_of_plain_text() {
    assert_eq!(tokens_of("no tags here"), vec!["no tags here".to_string()]);
}

#[test]
fn tokens_around_tags() {
    assert_eq!(
        tokens_of("a[b]b[/b]c"),
        vec!["a", "[b]", "b", "[/b]", "c"]
            .into_iter()
            .map(String::from)
            .collect::<Vec<_>>()
    );
    assert_eq!(
        tokens_of("[i][u]x"),
        vec!["[i]", "[u]", "x"].into_iter().map(String::from).collect::<Vec<_>>()
    );
}

#[test]
fn tokens_concatenate_to_text() {
    let text = "Über [b]fett[/b] und [color=\"#00ff00\"]grün[/color] ünd [url=x]l[/url].\n";
    let fmd = FMD::new().pre_tokenize(text);
    assert_eq!(fmd.concat_tokens(), text);
    assert_eq!(fmd.get_tokens().len(), 13);
}

#[test]
fn empty_text_keeps_tokens() {
    let fmd = FMD::new().pre_tokenize("x[b]");
    let again = fmd.pre_tokenize("");
    assert_eq!(again.get_tokens(), vec!["x".to_string(), "[b]".to_string()]);
}

#[test]
fn overlapping_tags_keep_tokens() {
    // `[url=[b]` is a url tag with `[b]` inside it: the matches overlap.
    assert!(tag_tokens("[url=[b]").is_none());
    let fmd = FMD::new().pre_tokenize("x").pre_tokenize("[url=[b]");
    assert_eq!(fmd.get_tokens(), vec!["x".to_string()]);
}

#[test]
fn split_text_cuts_at_bounds() {
    let bounds = vec![MDBounds::new(1, 2), MDBounds::new(2, 4), MDBounds::new(5, 6)];
    assert_eq!(
        split_text("abcdefg", &bounds),
        vec!["a", "b", "cd", "e", "f", "g"]
            .into_iter()
            .map(String::from)
            .collect::<Vec<_>>()
    );
    let whole = vec![MDBounds::new(0, 3)];
    assert_eq!(split_text("abc", &whole), vec!["abc".to_string()]);
}

#[test]
fn bounds_sort_stably_by_start() {
    let v = vec![MDBounds::new(5, 6), MDBounds::new(1, 2), MDBounds::new(5, 5), MDBounds::new(0, 1)];
    let s = sort_bounds(&v);
    let pairs: Vec<(usize, usize)> = s.iter().map(|b| (b.start, b.end)).collect();
    assert_eq!(pairs, vec![(0, 1), (1, 2), (5, 6), (5, 5)]);
    assert!(!is_chained(&s));
    assert!(is_chained(&vec![MDBounds::new(0, 1), MDBounds::new(1, 3)]));
}

#[test]
fn sanitize_escapes_html() {
    assert_eq!(sanitize_string("<a href='x'>&\"</a>"), "&lt;a href=&apos;x&apos;&gt;&amp;&quot;&lt;/a&gt;");
    assert_eq!(sanitize_string("a\r\nb\nc\rd"), "a<br>b<br>c\rd");
    assert_eq!(sanitize_string("\t"), "&nbsp;&nbsp;&nbsp;&nbsp;");
    assert_eq!(sanitize_string("\u{a9}\u{20ac}"), "&copy;&euro;");
}

#[test]
fn sanitized_text_has_no_markup_characters() {
    let out = sanitize_string("<script>alert('x' > \"y\")</script>\t\u{a3}");
    assert!(!out.contains('<'));
    assert!(!out.contains('>'));
    assert!(!out.contains('"'));
    assert!(!out.contains('\''));
    assert_eq!(
        out,
        "&lt;script&gt;alert(&apos;x&apos; &gt; &quot;y&quot;)&lt;/script&gt;&nbsp;&nbsp;&nbsp;&nbsp;&pound;"
    );
}

#[test]
fn replace_ibus_renders_tags() {
    let html = FMD::new()
        .pre_tokenize("[b]bold[/b] [i]it[/i] [s]x[/s]")
        .replace_ibus()
        .concat_tokens();
    assert_eq!(
        html,
        "<b>bold</b> <i>it</i> <span style = \"text-decoration:line-through;\">x</span>"
    );
}

#[test]
fn replace_ibus_renders_arguments() {
    let html = FMD::new()
        .pre_tokenize("[color=red]r[/color][url=\"http://a.b\"]l[/url][img]p.png[/img]")
        .replace_ibus()
        .concat_tokens();
    assert_eq!(
        html,
        "<span style = \"color:red;\">r</span><a href=\"http://a.b\" target=\"_blank\" rel=\"noopener noreferrer\">l</a><img src=\"p.png\" style=\"max-width: 100%;\"></img>"
    );
}

#[test]
fn replace_ibus_noparse_keeps_tags_as_text() {
    let tokens = FMD::new()
        .pre_tokenize("[noparse][b]<x>[/noparse][b]")
        .replace_ibus()
        .get_tokens();
    assert_eq!(
        tokens,
        vec!["", "[b]", "&lt;x&gt;", "", "<b>"]
            .into_iter()
            .map(String::from)
            .collect::<Vec<_>>()
    );
}

#[test]
fn replace_ibus_stray_noparse_close_is_text() {
    let html = FMD::new().pre_tokenize("[/noparse]").replace_ibus().concat_tokens();
    assert_eq!(html, "[/noparse]");
}

#[test]
fn replace_ibus_code_block() {
    let tokens = FMD::new()
        .pre_tokenize("[code=rust]\nlet x;\nlet y;[/code]")
        .replace_ibus()
        .get_tokens();
    assert_eq!(tokens.len(), 3);
    assert_eq!(tokens[0], "<code>");
    assert_eq!(tokens[2], "</code>");
    assert!(tokens[1].contains("<div>1</div>"));
    assert!(tokens[1].contains("let&nbsp;x;"));
}

#[test]
fn replace_ibus_code_without_line_break_keeps_tokens() {
    let fmd = FMD::new().pre_tokenize("[code=rust]x[/code]");
    let before = fmd.get_tokens();
    assert_eq!(fmd.replace_ibus().get_tokens(), before);
}

#[test]
fn replace_ibus_unreadable_argument_keeps_tokens() {
    let fmd = FMD::new().pre_tokenize("[COLOR=red]x");
    let before = fmd.get_tokens();
    assert_eq!(fmd.replace_ibus().get_tokens(), before);
}

#[test]
fn render_token_steps() {
    let mut state = RenderState::new();
    let mut out = Vec::new();
    render_token(&mut state, &mut out, "[code=py]", Some(Tag::CodeOpen), Some("py".to_string()));
    assert!(state.code_block);
    assert_eq!(state.language, "py");
    render_token(&mut state, &mut out, "[noparse]", Some(Tag::NoparseOpen), None);
    assert!(state.noparse);
    render_token(&mut state, &mut out, "a b", None, None);
    render_token(&mut state, &mut out, "[/noparse]", Some(Tag::NoparseClose), None);
    assert!(!state.noparse);
    assert_eq!(out, vec!["<code>".to_string(), String::new(), "a b".to_string(), String::new()]);
}

#[test]
fn render_tokens_plain_text_is_escaped() {
    let tokens = vec!["a<b".to_string(), "c&d".to_string()];
    assert_eq!(
        render_tokens(&tokens),
        Some(vec!["a&lt;b".to_string(), "c&amp;d".to_string()])
    );
}

#[test]
fn format_code_block_frames_code() {
    let out = FMD::format_code_block("<br><br>a<br>b".to_string(), "rust");
    let expected = format!(
        "{}{}{}{}{}",
        r##"<div class="code-block" style="height: 400px; width: 100%; background: lightgrey; overflow-x: scroll; overflow-y: scroll;"><div class="code-line-number-margin unselectable" style="top: 0px; left: 0px; width: 5%; float: left; font-size: 0.75em; white-space: nowrap;">"##,
        "<div>1</div>",
        r##"</div><div class="code-block-code" style="background: lightgrey; width: 95%; float: left; font-size: 0.75em;white-space: nowrap;">"##,
        "a<br>b",
        r##"</div><div style="clear: both;"></div></div>"##
    );
    assert_eq!(out, expected);
}

#[test]
fn format_code_block_highlights_html() {
    let out = FMD::format_code_block("&lt;html&gt;<br>".to_string(), "HTML");
    assert!(out.contains(r##"<span class="code-html-tag">&lt;html&gt;</span><br>"##));
    let plain = FMD::format_code_block("&lt;html&gt;<br>".to_string(), "rust");
    assert!(!plain.contains("code-html-tag"));
}

#[test]
fn parse_title_collects_title() {
    let fmd = FMD::new()
        .pre_tokenize("x[title]My [b]Doc[/b][/title]y[title]2[/title]")
        .parse_title();
    assert_eq!(fmd.get_title(), "My [b]Doc[/b]2");
}

#[test]
fn parse_title_without_title_is_empty() {
    assert_eq!(FMD::new().pre_tokenize("abc").parse_title().get_title(), "");
}

#[test]
fn parse_definitions_collects_definitions() {
    let fmd = FMD::new()
        .pre_tokenize("See [definition=fox]A [b]quick[/b] animal[/definition].")
        .parse_definitions();
    let defs = fmd.get_definitions();
    assert_eq!(defs.len(), 1);
    assert_eq!(defs[0].word, "fox");
    assert_eq!(defs[0].text, "A <b>quick</b> animal</span>");
}

#[test]
fn parse_definitions_unclosed_is_ignored() {
    let defs = FMD::new()
        .pre_tokenize("[definition=fox]A")
        .parse_definitions()
        .get_definitions();
    assert!(defs.is_empty());
    let defs = FMD::new()
        .pre_tokenize("A[/definition]")
        .parse_definitions()
        .get_definitions();
    assert!(defs.is_empty());
}

#[test]
fn file_name_without_extension() {
    let fmd = FMD::new().set_filename(FmdFile {
        path: "./docs/ch1_intro.fmd".to_string(),
        file_name: "ch1_intro.fmd".to_string(),
    });
    assert_eq!(fmd.get_file(), "./docs/ch1_intro");
    assert_eq!(fmd.get_filename(), "ch1_intro");
    assert_eq!(fmd.file_path(), Some("./docs/ch1_intro.fmd".to_string()));
    assert_eq!(FMD::new().file_path(), None);
}

#[test]
fn definitions_and_resources_start_empty() {
    let d = DEFINITION::new();
    assert!(d.is_empty());
    assert!(d.text.is_empty());
    let d = DEFINITION { word: "w".to_string(), text: String::new() };
    assert!(!d.is_empty());
    assert!(!INCLUDED_RESOURCES::new().pyscript);
    let fmd = FMD::new();
    assert!(fmd.get_tokens().is_empty());
    assert_eq!(fmd.get_title(), "");
    assert!(fmd.get_definitions().is_empty());
}

#[test]
fn text_helpers() {
    assert_eq!(replace_str("aaa", "aa", "b"), "ba");
    assert_eq!(count_str("<br><br>x<br>", "<br>"), 3);
    assert_eq!(strip_leading_str("<br><br>x<br>", "<br>"), "x<br>");
    assert!(contains_str("abc", "bc"));
    assert!(!contains_str("abc", "cb"));
    assert!(contains_str("abc", ""));
    assert!(ends_with_str("A.FMD", ".FMD"));
    assert!(!ends_with_str("md", ".fmd"));
    assert_eq!(decimal_string(0), "0");
    assert_eq!(decimal_string(1207), "1207");
}
