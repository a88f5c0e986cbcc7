//! The markup's tags and the regular expressions that recognise them.
use vstd::prelude::*;

use crate::pattern::{
    regex_compiles, regex_find, regex_find_iter, regex_is_match, valid_match_range, Pattern,
};
use crate::text::{byte_slice, byte_substring};

verus! {

/// A tag of the markup language, such as `[b]` (bold, opening) or `[/url]`.
#[derive(Clone, Copy, PartialEq, Eq, Structural, Debug)]
pub enum Tag {
    ItalicsOpen,
    ItalicsClose,
    BoldOpen,
    BoldClose,
    UnderlineOpen,
    UnderlineClose,
    StrikethroughOpen,
    StrikethroughClose,
    SuperscriptOpen,
    SuperscriptClose,
    SubscriptOpen,
    SubscriptClose,
    ColorOpen,
    ColorClose,
    DefinitionOpen,
    DefinitionClose,
    TitleOpen,
    TitleClose,
    CodeOpen,
    CodeClose,
    UrlOpen,
    UrlClose,
    NoparseOpen,
    ImgOpen,
    ImgClose,
    NoparseClose,
}

/// The regular expression that recognises a tag.
pub open spec fn tag_source(t: Tag) -> Seq<char> {
    match t {
        Tag::ItalicsOpen => r"(?i)\[\s*i\s*]"@,
        Tag::ItalicsClose => r"(?i)\[\s*/\s*i\s*]"@,
        Tag::BoldOpen => r"(?i)\[\s*b\s*]"@,
        Tag::BoldClose => r"(?i)\[\s*/\s*b\s*]"@,
        Tag::UnderlineOpen => r"(?i)\[\s*u\s*]"@,
        Tag::UnderlineClose => r"(?i)\[\s*/\s*u\s*]"@,
        Tag::StrikethroughOpen => r"(?i)\[\s*s\s*]"@,
        Tag::StrikethroughClose => r"(?i)\[\s*/\s*s\s*]"@,
        Tag::SuperscriptOpen => r"(?i)\[\s*sup\s*]"@,
        Tag::SuperscriptClose => r"(?i)\[\s*/\s*sup\s*]"@,
        Tag::SubscriptOpen => r"(?i)\[\s*sub\s*]"@,
        Tag::SubscriptClose => r"(?i)\[\s*/\s*sub\s*]"@,
        Tag::ColorOpen => r##"(?i)\[\s*color\s*=\s*"??((\w+)|(#(\d|\w){6}))"??]"##@,
        Tag::ColorClose => r"(?i)\[\s*/\s*color\s*]"@,
        Tag::DefinitionOpen => r##"(?i)\[\s*definition\s*=\s*"??(\w+)"??]"##@,
        Tag::DefinitionClose => r"(?i)\[\s*/\s*definition\s*]"@,
        Tag::TitleOpen => r"(?i)\[\s*title\s*]"@,
        Tag::TitleClose => r"(?i)\[\s*/\s*title\s*]"@,
        Tag::CodeOpen => r##"(?i)\[\s*code\s*=\s*"??(\w+)"??]"##@,
        Tag::CodeClose => r"(?i)\[\s*/\s*code\s*]"@,
        Tag::UrlOpen => r##"(?i)\[\s*url\s*=\s*"??(\S+?)"??]"##@,
        Tag::UrlClose => r"(?i)\[\s*/\s*url\s*]"@,
        Tag::NoparseOpen => r"(?i)\[\s*noparse\s*]"@,
        Tag::ImgOpen => r"(?i)\[\s*img\s*]"@,
        Tag::ImgClose => r"(?i)\[\s*/\s*img\s*]"@,
        Tag::NoparseClose => r"(?i)\[\s*/\s*noparse\s*]"@,
    }
}

/// The regular expression that recognises a tag (`tag_source`).
pub fn tag_pattern(t: Tag) -> (res: &'static str)
    ensures
        res@ == tag_source(t),
{
    match t {
        Tag::ItalicsOpen => r"(?i)\[\s*i\s*]",
        Tag::ItalicsClose => r"(?i)\[\s*/\s*i\s*]",
        Tag::BoldOpen => r"(?i)\[\s*b\s*]",
        Tag::BoldClose => r"(?i)\[\s*/\s*b\s*]",
        Tag::UnderlineOpen => r"(?i)\[\s*u\s*]",
        Tag::UnderlineClose => r"(?i)\[\s*/\s*u\s*]",
        Tag::StrikethroughOpen => r"(?i)\[\s*s\s*]",
        Tag::StrikethroughClose => r"(?i)\[\s*/\s*s\s*]",
        Tag::SuperscriptOpen => r"(?i)\[\s*sup\s*]",
        Tag::SuperscriptClose => r"(?i)\[\s*/\s*sup\s*]",
        Tag::SubscriptOpen => r"(?i)\[\s*sub\s*]",
        Tag::SubscriptClose => r"(?i)\[\s*/\s*sub\s*]",
        Tag::ColorOpen => r##"(?i)\[\s*color\s*=\s*"??((\w+)|(#(\d|\w){6}))"??]"##,
        Tag::ColorClose => r"(?i)\[\s*/\s*color\s*]",
        Tag::DefinitionOpen => r##"(?i)\[\s*definition\s*=\s*"??(\w+)"??]"##,
        Tag::DefinitionClose => r"(?i)\[\s*/\s*definition\s*]",
        Tag::TitleOpen => r"(?i)\[\s*title\s*]",
        Tag::TitleClose => r"(?i)\[\s*/\s*title\s*]",
        Tag::CodeOpen => r##"(?i)\[\s*code\s*=\s*"??(\w+)"??]"##,
        Tag::CodeClose => r"(?i)\[\s*/\s*code\s*]",
        Tag::UrlOpen => r##"(?i)\[\s*url\s*=\s*"??(\S+?)"??]"##,
        Tag::UrlClose => r"(?i)\[\s*/\s*url\s*]",
        Tag::NoparseOpen => r"(?i)\[\s*noparse\s*]",
        Tag::ImgOpen => r"(?i)\[\s*img\s*]",
        Tag::ImgClose => r"(?i)\[\s*/\s*img\s*]",
        Tag::NoparseClose => r"(?i)\[\s*/\s*noparse\s*]",
    }
}

/// Every tag, in the order in which a token is tested against them when it is
/// rendered; `[/noparse]` comes last, since it is only looked for inside a
/// `[noparse]` block.
pub open spec fn all_tags() -> Seq<Tag> {
    seq![
        Tag::ItalicsOpen,
        Tag::ItalicsClose,
        Tag::BoldOpen,
        Tag::BoldClose,
        Tag::UnderlineOpen,
        Tag::UnderlineClose,
        Tag::StrikethroughOpen,
        Tag::StrikethroughClose,
        Tag::SuperscriptOpen,
        Tag::SuperscriptClose,
        Tag::SubscriptOpen,
        Tag::SubscriptClose,
        Tag::ColorOpen,
        Tag::ColorClose,
        Tag::DefinitionOpen,
        Tag::DefinitionClose,
        Tag::TitleOpen,
        Tag::TitleClose,
        Tag::CodeOpen,
        Tag::CodeClose,
        Tag::UrlOpen,
        Tag::UrlClose,
        Tag::NoparseOpen,
        Tag::ImgOpen,
        Tag::ImgClose,
        Tag::NoparseClose,
    ]
}

/// The number of tags.
pub open spec fn num_tags() -> nat {
    26
}

/// The tags tested, in order, against a token outside a `[noparse]` block.
pub open spec fn render_order() -> Seq<Tag> {
    all_tags().take(25)
}

/// Every tag, in the order of `all_tags`.
pub fn all_tags_vec() -> (res: Vec<Tag>)
    ensures
        res@ == all_tags(),
{
    let res = vec![
        Tag::ItalicsOpen,
        Tag::ItalicsClose,
        Tag::BoldOpen,
        Tag::BoldClose,
        Tag::UnderlineOpen,
        Tag::UnderlineClose,
        Tag::StrikethroughOpen,
        Tag::StrikethroughClose,
        Tag::SuperscriptOpen,
        Tag::SuperscriptClose,
        Tag::SubscriptOpen,
        Tag::SubscriptClose,
        Tag::ColorOpen,
        Tag::ColorClose,
        Tag::DefinitionOpen,
        Tag::DefinitionClose,
        Tag::TitleOpen,
        Tag::TitleClose,
        Tag::CodeOpen,
        Tag::CodeClose,
        Tag::UrlOpen,
        Tag::UrlClose,
        Tag::NoparseOpen,
        Tag::ImgOpen,
        Tag::ImgClose,
        Tag::NoparseClose,
    ];
    assert(res@ =~= all_tags());
    res
}

/// The position of a tag in `all_tags`.
pub open spec fn tag_index(t: Tag) -> int {
    match t {
        Tag::ItalicsOpen => 0,
        Tag::ItalicsClose => 1,
        Tag::BoldOpen => 2,
        Tag::BoldClose => 3,
        Tag::UnderlineOpen => 4,
        Tag::UnderlineClose => 5,
        Tag::StrikethroughOpen => 6,
        Tag::StrikethroughClose => 7,
        Tag::SuperscriptOpen => 8,
        Tag::SuperscriptClose => 9,
        Tag::SubscriptOpen => 10,
        Tag::SubscriptClose => 11,
        Tag::ColorOpen => 12,
        Tag::ColorClose => 13,
        Tag::DefinitionOpen => 14,
        Tag::DefinitionClose => 15,
        Tag::TitleOpen => 16,
        Tag::TitleClose => 17,
        Tag::CodeOpen => 18,
        Tag::CodeClose => 19,
        Tag::UrlOpen => 20,
        Tag::UrlClose => 21,
        Tag::NoparseOpen => 22,
        Tag::ImgOpen => 23,
        Tag::ImgClose => 24,
        Tag::NoparseClose => 25,
    }
}

/// The position of a tag in `all_tags`.
pub fn tag_position(t: Tag) -> (res: usize)
    ensures
        res == tag_index(t),
        res < num_tags(),
        all_tags()[res as int] == t,
{
    match t {
        Tag::ItalicsOpen => 0,
        Tag::ItalicsClose => 1,
        Tag::BoldOpen => 2,
        Tag::BoldClose => 3,
        Tag::UnderlineOpen => 4,
        Tag::UnderlineClose => 5,
        Tag::StrikethroughOpen => 6,
        Tag::StrikethroughClose => 7,
        Tag::SuperscriptOpen => 8,
        Tag::SuperscriptClose => 9,
        Tag::SubscriptOpen => 10,
        Tag::SubscriptClose => 11,
        Tag::ColorOpen => 12,
        Tag::ColorClose => 13,
        Tag::DefinitionOpen => 14,
        Tag::DefinitionClose => 15,
        Tag::TitleOpen => 16,
        Tag::TitleClose => 17,
        Tag::CodeOpen => 18,
        Tag::CodeClose => 19,
        Tag::UrlOpen => 20,
        Tag::UrlClose => 21,
        Tag::NoparseOpen => 22,
        Tag::ImgOpen => 23,
        Tag::ImgClose => 24,
        Tag::NoparseClose => 25,
    }
}

/// The regular expression that finds where the argument of a tag such as
/// `[color=red]` begins: its match ends right before the argument.
pub open spec fn argument_start_source(t: Tag) -> Option<Seq<char>> {
    match t {
        Tag::ColorOpen => Some(r##"\[\s*color\s*=\s*"?"##@),
        Tag::DefinitionOpen => Some(r##"\[\s*definition\s*=\s*"?"##@),
        Tag::CodeOpen => Some(r##"\[\s*code\s*=\s*"?"##@),
        Tag::UrlOpen => Some(r##"\[\s*url\s*=\s*"?"##@),
        _ => None,
    }
}

/// The regular expression whose match begins right after a tag's argument.
pub open spec fn argument_end_source() -> Seq<char> {
    r##""?]"##@
}

/// Tags that carry an argument: `[color=..]`, `[definition=..]`, `[code=..]`, `[url=..]`.
pub open spec fn has_argument(t: Tag) -> bool {
    argument_start_source(t) is Some
}

/// The argument of a tag token: the text between the match of the tag's
/// argument-start expression and the match of the argument-end expression.
/// `None` when either expression does not match, or the matches are out of order.
pub open spec fn tag_argument(t: Tag, token: Seq<char>) -> Option<Seq<char>>
    recommends
        has_argument(t),
{
    match (regex_find(argument_start_source(t).unwrap(), token), regex_find(argument_end_source(), token)) {
        (Some(start), Some(end)) => if start.1 <= end.0 {
            Some(byte_slice(token, start.1 as int, end.0 as int))
        } else {
            None
        },
        _ => None,
    }
}

/// The first tag of `tags` whose expression matches somewhere in `token`.
pub open spec fn first_match(token: Seq<char>, tags: Seq<Tag>) -> Option<Tag>
    decreases tags.len(),
{
    if tags.len() == 0 {
        None
    } else if regex_is_match(tag_source(tags[0]), token) {
        Some(tags[0])
    } else {
        first_match(token, tags.drop_first())
    }
}

/// The tag that a token is rendered as, outside a `[noparse]` block.
pub open spec fn classify(token: Seq<char>) -> Option<Tag> {
    first_match(token, render_order())
}

/// Every expression that the markup uses compiles.
pub open spec fn patterns_compile() -> bool {
    &&& forall|i: int| 0 <= i < num_tags() ==> regex_compiles(#[trigger] tag_source(all_tags()[i]))
    &&& regex_compiles(argument_start_source(Tag::ColorOpen).unwrap())
    &&& regex_compiles(argument_start_source(Tag::DefinitionOpen).unwrap())
    &&& regex_compiles(argument_start_source(Tag::CodeOpen).unwrap())
    &&& regex_compiles(argument_start_source(Tag::UrlOpen).unwrap())
    &&& regex_compiles(argument_end_source())
}

/// The compiled expressions of the markup.
pub struct TagPatterns {
    tags: Vec<Pattern>,
    color: Pattern,
    definition: Pattern,
    code: Pattern,
    url: Pattern,
    argument_end: Pattern,
}

impl TagPatterns {
    #[verifier::type_invariant]
    closed spec fn wf(self) -> bool {
        &&& self.tags@.len() == num_tags()
        &&& forall|i: int| 0 <= i < num_tags() ==> (#[trigger] self.tags@[i]).source() == tag_source(all_tags()[i])
        &&& Some(self.color.source()) == argument_start_source(Tag::ColorOpen)
        &&& Some(self.definition.source()) == argument_start_source(Tag::DefinitionOpen)
        &&& Some(self.code.source()) == argument_start_source(Tag::CodeOpen)
        &&& Some(self.url.source()) == argument_start_source(Tag::UrlOpen)
        &&& self.argument_end.source() == argument_end_source()
    }

    /// Compiles every expression of the markup; `None` when one does not compile.
    pub fn compile() -> (res: Option<TagPatterns>)
        ensures
            res is Some <==> patterns_compile(),
    {
        let all = all_tags_vec();
        let mut tags: Vec<Pattern> = Vec::new();
        let mut i: usize = 0;
        while i < all.len()
            invariant
                all@ == all_tags(),
                i <= all@.len(),
                tags@.len() == i,
                forall|j: int| 0 <= j < i ==> (#[trigger] tags@[j]).source() == tag_source(all_tags()[j]),
                forall|j: int| 0 <= j < i ==> regex_compiles(#[trigger] tag_source(all_tags()[j])),
            decreases all@.len() - i,
        {
            match Pattern::new(tag_pattern(all[i])) {
                Some(p) => {
                    tags.push(p);
                },
                None => {
                    return None;
                },
            }
            i = i + 1;
        }
        let color = match Pattern::new(r##"\[\s*color\s*=\s*"?"##) {
            Some(p) => p,
            None => {
                return None;
            },
        };
        let definition = match Pattern::new(r##"\[\s*definition\s*=\s*"?"##) {
            Some(p) => p,
            None => {
                return None;
            },
        };
        let code = match Pattern::new(r##"\[\s*code\s*=\s*"?"##) {
            Some(p) => p,
            None => {
                return None;
            },
        };
        let url = match Pattern::new(r##"\[\s*url\s*=\s*"?"##) {
            Some(p) => p,
            None => {
                return None;
            },
        };
        let argument_end = match Pattern::new(r##""?]"##) {
            Some(p) => p,
            None => {
                return None;
            },
        };
        Some(TagPatterns { tags, color, definition, code, url, argument_end })
    }

    /// Whether the expression of `t` matches somewhere in `token`.
    pub fn is_tag(&self, t: Tag, token: &str) -> (res: bool)
        ensures
            res == regex_is_match(tag_source(t), token@),
    {
        proof {
            use_type_invariant(self);
        }
        let k = tag_position(t);
        self.tags[k].is_match(token)
    }

    /// The byte ranges of the matches of `t`'s expression in `text`.
    pub fn find_tags(&self, t: Tag, text: &str) -> (res: Vec<(usize, usize)>)
        ensures
            res@ == regex_find_iter(tag_source(t), text@),
            forall|i: int| 0 <= i < res@.len() ==> valid_match_range(text@, #[trigger] res@[i]),
    {
        proof {
            use_type_invariant(self);
        }
        let k = tag_position(t);
        self.tags[k].find_iter(text)
    }

    /// The tag that `token` is rendered as outside a `[noparse]` block: the first
    /// tag, in render order, whose expression matches somewhere in it.
    pub fn classify(&self, token: &str) -> (res: Option<Tag>)
        ensures
            res == classify(token@),
    {
        proof {
            use_type_invariant(self);
        }
        let all = all_tags_vec();
        let mut i: usize = 0;
        assert(render_order().skip(0) =~= render_order());
        while i < 25
            invariant
                all@ == all_tags(),
                i <= 25,
                self.tags@.len() == num_tags(),
                forall|j: int| 0 <= j < num_tags() ==> (#[trigger] self.tags@[j]).source() == tag_source(all_tags()[j]),
                classify(token@) == first_match(token@, render_order().skip(i as int)),
            decreases 25 - i,
        {
            let ghost rest = render_order().skip(i as int);
            assert(rest[0] == all_tags()[i as int]);
            assert(rest.drop_first() =~= render_order().skip(i + 1));
            if self.tags[i].is_match(token) {
                return Some(all[i]);
            }
            i = i + 1;
        }
        assert(render_order().skip(25) =~= Seq::<Tag>::empty());
        None
    }

    /// The argument of a tag token such as `[url=..]`; `None` when it cannot be
    /// extracted (see `tag_argument`).
    pub fn argument(&self, t: Tag, token: &str) -> (res: Option<String>)
        requires
            has_argument(t),
        ensures
            res matches Some(a) ==> tag_argument(t, token@) == Some(a@),
            res is None ==> tag_argument(t, token@) is None,
    {
        proof {
            use_type_invariant(self);
        }
        let start = match t {
            Tag::ColorOpen => self.color.find(token),
            Tag::DefinitionOpen => self.definition.find(token),
            Tag::CodeOpen => self.code.find(token),
            _ => self.url.find(token),
        };
        let end = self.argument_end.find(token);
        match (start, end) {
            (Some(s), Some(e)) => {
                if s.1 <= e.0 {
                    Some(byte_substring(token, s.1, e.0))
                } else {
                    None
                }
            },
            _ => None,
        }
    }
}

} // verus!
