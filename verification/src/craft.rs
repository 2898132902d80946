use vstd::prelude::*;
use crate::ids::{id_form, new_id};
use crate::json::{Json, JsonV, lemma_object_view, object_from};
use crate::text::{chars_of, contains, find_from, find_from_exec, lemma_find_from, occurs_at, occurs_at_exec, push_str, starts_with, string_of, string_of_range, trim, trim_bounds};
use pulldown_cmark::{CodeBlockKind, Event, Tag, TagEnd};

verus! {

/// What an import of a Markdown document into the database gives back.
#[derive(Debug)]
pub struct ImportedDocument {
    pub document_id: String,
    pub title: String,
}

/// The kind of a block that Markdown opens.
#[derive(Debug, Clone, PartialEq)]
pub enum BlockKind {
    Heading(u8),
    Paragraph,
    Code(String),
    Quote,
    List(bool),
    Item,
}

/// A Markdown event as blocks read it: a block opens or closes, text or a
/// line break comes, or something else happens.
#[derive(Debug, Clone, PartialEq)]
pub enum MdEvent {
    Start(BlockKind),
    End,
    Text(String),
    Break,
    Other,
}

/// The model of a block kind.
pub enum BlockKindV {
    Heading(u8),
    Paragraph,
    Code(Seq<char>),
    Quote,
    List(bool),
    Item,
}

/// The model of a Markdown event.
pub enum MdEventV {
    Start(BlockKindV),
    End,
    Text(Seq<char>),
    Break,
    Other,
}

pub open spec fn kind_view(k: BlockKind) -> BlockKindV {
    match k {
        BlockKind::Heading(l) => BlockKindV::Heading(l),
        BlockKind::Paragraph => BlockKindV::Paragraph,
        BlockKind::Code(l) => BlockKindV::Code(l@),
        BlockKind::Quote => BlockKindV::Quote,
        BlockKind::List(n) => BlockKindV::List(n),
        BlockKind::Item => BlockKindV::Item,
    }
}

impl View for MdEvent {
    type V = MdEventV;

    open spec fn view(&self) -> MdEventV {
        match self {
            MdEvent::Start(k) => MdEventV::Start(kind_view(*k)),
            MdEvent::End => MdEventV::End,
            MdEvent::Text(t) => MdEventV::Text(t@),
            MdEvent::Break => MdEventV::Break,
            MdEvent::Other => MdEventV::Other,
        }
    }
}

/// An opening tag of pulldown-cmark, one variant for each kind that blocks
/// are made of, and one for every other tag.
#[derive(Debug, Clone, PartialEq)]
pub enum MdTag {
    Heading(u8),
    Paragraph,
    CodeFenced(String),
    CodeIndented,
    BlockQuote,
    List(Option<u64>),
    Item,
    OtherTag,
}

/// A closing tag of pulldown-cmark, one variant for each kind that blocks are
/// made of, and one for every other tag.
#[derive(Debug, Clone, Copy, PartialEq, Eq, Structural)]
pub enum MdTagEnd {
    Heading,
    Paragraph,
    CodeBlock,
    BlockQuote,
    List,
    Item,
    OtherEnd,
}

/// An event of pulldown-cmark, with the variants that blocks read.
#[derive(Debug, Clone, PartialEq)]
pub enum MdRawEvent {
    Start(MdTag),
    End(MdTagEnd),
    Text(String),
    Code(String),
    SoftBreak,
    HardBreak,
    Other,
}

/// The model of an opening tag.
pub enum MdTagV {
    Heading(u8),
    Paragraph,
    CodeFenced(Seq<char>),
    CodeIndented,
    BlockQuote,
    List(Option<u64>),
    Item,
    OtherTag,
}

/// The model of a pulldown-cmark event.
pub enum MdRawEventV {
    Start(MdTagV),
    End(MdTagEnd),
    Text(Seq<char>),
    Code(Seq<char>),
    SoftBreak,
    HardBreak,
    Other,
}

pub open spec fn tag_view(t: MdTag) -> MdTagV {
    match t {
        MdTag::Heading(l) => MdTagV::Heading(l),
        MdTag::Paragraph => MdTagV::Paragraph,
        MdTag::CodeFenced(l) => MdTagV::CodeFenced(l@),
        MdTag::CodeIndented => MdTagV::CodeIndented,
        MdTag::BlockQuote => MdTagV::BlockQuote,
        MdTag::List(f) => MdTagV::List(f),
        MdTag::Item => MdTagV::Item,
        MdTag::OtherTag => MdTagV::OtherTag,
    }
}

impl View for MdRawEvent {
    type V = MdRawEventV;

    open spec fn view(&self) -> MdRawEventV {
        match self {
            MdRawEvent::Start(t) => MdRawEventV::Start(tag_view(*t)),
            MdRawEvent::End(e) => MdRawEventV::End(*e),
            MdRawEvent::Text(t) => MdRawEventV::Text(t@),
            MdRawEvent::Code(t) => MdRawEventV::Code(t@),
            MdRawEvent::SoftBreak => MdRawEventV::SoftBreak,
            MdRawEvent::HardBreak => MdRawEventV::HardBreak,
            MdRawEvent::Other => MdRawEventV::Other,
        }
    }
}

/// How blocks read a pulldown-cmark event: headings, paragraphs, code blocks
/// (indented ones without a language), quotes, lists (numbered when they
/// have a first number) and items open blocks, and their six closing tags
/// close one; text and inline code are text; a soft or hard line break is a
/// line break; every other event is dropped.
pub open spec fn classify_spec(e: MdRawEventV) -> MdEventV {
    match e {
        MdRawEventV::Start(t) => match t {
            MdTagV::Heading(l) => MdEventV::Start(BlockKindV::Heading(l)),
            MdTagV::Paragraph => MdEventV::Start(BlockKindV::Paragraph),
            MdTagV::CodeFenced(l) => MdEventV::Start(BlockKindV::Code(l)),
            MdTagV::CodeIndented => MdEventV::Start(BlockKindV::Code(Seq::empty())),
            MdTagV::BlockQuote => MdEventV::Start(BlockKindV::Quote),
            MdTagV::List(first) => MdEventV::Start(BlockKindV::List(first is Some)),
            MdTagV::Item => MdEventV::Start(BlockKindV::Item),
            MdTagV::OtherTag => MdEventV::Other,
        },
        MdRawEventV::End(t) => match t {
            MdTagEnd::OtherEnd => MdEventV::Other,
            _ => MdEventV::End,
        },
        MdRawEventV::Text(t) => MdEventV::Text(t),
        MdRawEventV::Code(t) => MdEventV::Text(t),
        MdRawEventV::SoftBreak => MdEventV::Break,
        MdRawEventV::HardBreak => MdEventV::Break,
        MdRawEventV::Other => MdEventV::Other,
    }
}

/// How blocks read one pulldown-cmark event (see `classify_spec`).
pub fn classify(e: &MdRawEvent) -> (r: MdEvent)
    ensures
        r@ == classify_spec(e@),
{
    match e {
        MdRawEvent::Start(t) => match t {
            MdTag::Heading(l) => MdEvent::Start(BlockKind::Heading(*l)),
            MdTag::Paragraph => MdEvent::Start(BlockKind::Paragraph),
            MdTag::CodeFenced(l) => MdEvent::Start(BlockKind::Code(l.clone())),
            MdTag::CodeIndented => MdEvent::Start(BlockKind::Code(String::new())),
            MdTag::BlockQuote => MdEvent::Start(BlockKind::Quote),
            MdTag::List(first) => MdEvent::Start(BlockKind::List(first.is_some())),
            MdTag::Item => MdEvent::Start(BlockKind::Item),
            MdTag::OtherTag => MdEvent::Other,
        },
        MdRawEvent::End(t) => match t {
            MdTagEnd::OtherEnd => MdEvent::Other,
            _ => MdEvent::End,
        },
        MdRawEvent::Text(t) => MdEvent::Text(t.clone()),
        MdRawEvent::Code(t) => MdEvent::Text(t.clone()),
        MdRawEvent::SoftBreak => MdEvent::Break,
        MdRawEvent::HardBreak => MdEvent::Break,
        MdRawEvent::Other => MdEvent::Other,
    }
}

/// The events that pulldown-cmark's parser, with all its options, reads
/// from a Markdown text.
pub uninterp spec fn md_events_of(text: Seq<char>) -> Seq<MdRawEventV>;

/// What serde_json's `Number::from` makes of an unsigned integer.
pub uninterp spec fn number_of_u64(n: u64) -> serde_json::Number;

/// pulldown-cmark's event: only converted in `raw_event`.
#[verifier::external_type_specification]
#[verifier::external_body]
pub struct ExMarkdownEvent<'a>(pulldown_cmark::Event<'a>);

/// pulldown-cmark's opening tag: only converted in `raw_tag`.
#[verifier::external_type_specification]
#[verifier::external_body]
pub struct ExMarkdownTag<'a>(pulldown_cmark::Tag<'a>);

/// pulldown-cmark's closing tag: only converted in `raw_end`.
#[verifier::external_type_specification]
#[verifier::external_body]
pub struct ExMarkdownTagEnd(pulldown_cmark::TagEnd);

/// Converts a pulldown-cmark opening tag, variant for variant.
#[verifier::external_body]
fn raw_tag(tag: Tag<'_>) -> MdTag {
    match tag {
        Tag::Heading { level, .. } => MdTag::Heading(level as u8),
        Tag::Paragraph => MdTag::Paragraph,
        Tag::CodeBlock(CodeBlockKind::Fenced(l)) => MdTag::CodeFenced(l.to_string()),
        Tag::CodeBlock(CodeBlockKind::Indented) => MdTag::CodeIndented,
        Tag::BlockQuote(_) => MdTag::BlockQuote,
        Tag::List(first) => MdTag::List(first),
        Tag::Item => MdTag::Item,
        _ => MdTag::OtherTag,
    }
}

/// Converts a pulldown-cmark closing tag, variant for variant.
#[verifier::external_body]
fn raw_end(t: TagEnd) -> MdTagEnd {
    match t {
        TagEnd::Heading(_) => MdTagEnd::Heading,
        TagEnd::Paragraph => MdTagEnd::Paragraph,
        TagEnd::CodeBlock => MdTagEnd::CodeBlock,
        TagEnd::BlockQuote => MdTagEnd::BlockQuote,
        TagEnd::List(_) => MdTagEnd::List,
        TagEnd::Item => MdTagEnd::Item,
        _ => MdTagEnd::OtherEnd,
    }
}

/// Converts a pulldown-cmark event, variant for variant.
#[verifier::external_body]
fn raw_event(e: Event) -> MdRawEvent {
    match e {
        Event::Start(tag) => MdRawEvent::Start(raw_tag(tag)),
        Event::End(t) => MdRawEvent::End(raw_end(t)),
        Event::Text(t) => MdRawEvent::Text(t.to_string()),
        Event::Code(t) => MdRawEvent::Code(t.to_string()),
        Event::SoftBreak => MdRawEvent::SoftBreak,
        Event::HardBreak => MdRawEvent::HardBreak,
        _ => MdRawEvent::Other,
    }
}

/// Reads a Markdown text with `pulldown_cmark::Parser::new_ext` and
/// `Options::all()`; the events are the ones that `md_events_of` names.
#[verifier::external_body]
fn markdown_events(text: &str) -> (r: Vec<MdRawEvent>)
    ensures
        r@.map_values(|e: MdRawEvent| e@) == md_events_of(text@),
{
    pulldown_cmark::Parser::new_ext(text, pulldown_cmark::Options::all()).map(raw_event).collect()
}

/// How blocks read a sequence of pulldown-cmark events, one by one.
fn classify_all(evs: &Vec<MdRawEvent>) -> (r: Vec<MdEvent>)
    ensures
        r@.map_values(|e: MdEvent| e@) == evs@.map_values(|e: MdRawEvent| e@).map_values(
            |e: MdRawEventV| classify_spec(e),
        ),
{
    let mut out: Vec<MdEvent> = Vec::new();
    let mut i: usize = 0;
    while i < evs.len()
        invariant
            i <= evs@.len(),
            out@.len() == i,
            forall|j: int| 0 <= j < i ==> (#[trigger] out@[j])@ == classify_spec(evs@[j]@),
        decreases evs.len() - i,
    {
        out.push(classify(&evs[i]));
        i = i + 1;
    }
    assert(out@.map_values(|e: MdEvent| e@) =~= evs@.map_values(|e: MdRawEvent| e@).map_values(
        |e: MdRawEventV| classify_spec(e),
    ));
    out
}

/// Makes a JSON number of an unsigned integer with serde_json's
/// `Number::from`; the number is the one that `number_of_u64` names.
#[verifier::external_body]
fn json_u64(n: u64) -> (r: Json)
    ensures
        r@ == JsonV::Number(number_of_u64(n)),
{
    Json::Number(serde_json::Number::from(n))
}

/// A block read from Markdown, not yet stored.
pub struct RawBlock {
    pub id: String,
    pub block_type: String,
    pub content: String,
    pub extra: Json,
    pub children: Vec<RawBlock>,
}

/// The model of a block: all but its random id.
pub struct BlockV {
    pub block_type: Seq<char>,
    pub content: Seq<char>,
    pub extra: JsonV,
    pub children: Seq<BlockV>,
}

pub open spec fn block_view(b: RawBlock) -> BlockV
    decreases b,
{
    BlockV {
        block_type: b.block_type@,
        content: b.content@,
        extra: b.extra@,
        children: Seq::new(
            b.children@.len(),
            |i: int|
                if 0 <= i < b.children@.len() {
                    block_view(b.children@[i])
                } else {
                    BlockV { block_type: Seq::empty(), content: Seq::empty(), extra: JsonV::Null, children: Seq::empty() }
                },
        ),
    }
}

/// Every block of a tree has an id of the library's form (32 lowercase hex
/// digits), its own and its children's at every depth.
pub open spec fn block_ids_ok(b: RawBlock) -> bool
    decreases b,
{
    &&& id_form(b.id@)
    &&& forall|i: int| 0 <= i < b.children@.len() ==> block_ids_ok(#[trigger] b.children@[i])
}

/// A child of a block whose ids have the form has ids of the form.
proof fn lemma_child_ids(b: RawBlock, i: int)
    requires
        block_ids_ok(b),
        0 <= i < b.children@.len(),
    ensures
        block_ids_ok(b.children@[i]),
{
    assert(decreases_to!(b => b.children));
    assert(decreases_to!(b.children => b.children@));
    assert(decreases_to!(b.children@ => b.children@[i]));
}

pub open spec fn blocks_view(v: Seq<RawBlock>) -> Seq<BlockV> {
    v.map_values(|b: RawBlock| block_view(b))
}

pub proof fn lemma_block_view(b: RawBlock)
    ensures
        block_view(b).children == blocks_view(b.children@),
        block_view(b).block_type == b.block_type@,
        block_view(b).content == b.content@,
        block_view(b).extra == b.extra@,
{
    assert(block_view(b).children =~= blocks_view(b.children@));
}

/// The type name and the extra data of a new block of a kind.
pub open spec fn block_type_of(k: BlockKindV) -> Seq<char> {
    match k {
        BlockKindV::Heading(_) => "heading"@,
        BlockKindV::Paragraph => "text"@,
        BlockKindV::Code(_) => "code"@,
        BlockKindV::Quote => "quote"@,
        BlockKindV::List(numbered) => if numbered {
            "numbered_list"@
        } else {
            "bulleted_list"@
        },
        BlockKindV::Item => "list_item"@,
    }
}

pub open spec fn block_extra_of(k: BlockKindV) -> JsonV {
    match k {
        BlockKindV::Heading(l) => JsonV::Object(seq![("level"@, JsonV::Number(number_of_u64(l as u64)))]),
        BlockKindV::Code(lang) => JsonV::Object(seq![("language"@, JsonV::Str(lang))]),
        _ => JsonV::Object(Seq::empty()),
    }
}

/// What the block builder holds between events: the finished top-level
/// blocks, the open blocks (innermost last) and the text read since the last
/// block closed.
pub struct BuildV {
    pub roots: Seq<BlockV>,
    pub stack: Seq<BlockV>,
    pub text: Seq<char>,
}

/// One event: a block opens on the stack; a closing takes the innermost open
/// block, gives it the text read so far, and hands it to its parent (or to
/// the top level); text and line breaks are gathered.
pub open spec fn build_step(st: BuildV, e: MdEventV) -> BuildV {
    match e {
        MdEventV::Start(k) => BuildV {
            stack: st.stack.push(
                BlockV { block_type: block_type_of(k), content: Seq::empty(), extra: block_extra_of(k), children: Seq::empty() },
            ),
            ..st
        },
        MdEventV::End => if st.stack.len() == 0 {
            st
        } else {
            let b = BlockV { content: st.text, ..st.stack.last() };
            let rest = st.stack.drop_last();
            if rest.len() == 0 {
                BuildV { roots: st.roots.push(b), stack: rest, text: Seq::empty() }
            } else {
                let p = rest.last();
                BuildV {
                    roots: st.roots,
                    stack: rest.drop_last().push(BlockV { children: p.children.push(b), ..p }),
                    text: Seq::empty(),
                }
            }
        },
        MdEventV::Text(t) => BuildV { text: st.text + t, ..st },
        MdEventV::Break => BuildV { text: st.text.push('\n'), ..st },
        MdEventV::Other => st,
    }
}

/// The builder after the first `n` events.
pub open spec fn build_prefix(evs: Seq<MdEventV>, n: nat) -> BuildV
    decreases n,
{
    if n == 0 || n > evs.len() {
        BuildV { roots: Seq::empty(), stack: Seq::empty(), text: Seq::empty() }
    } else {
        build_step(build_prefix(evs, (n - 1) as nat), evs[n - 1])
    }
}

/// The top-level blocks that a sequence of events builds.
pub open spec fn blocks_of(evs: Seq<MdEventV>) -> Seq<BlockV> {
    build_prefix(evs, evs.len()).roots
}

/// An event that can stand inside a block's text: text, inline code, a line
/// break, or an event that blocks do not read.
pub open spec fn is_inline(e: MdRawEventV) -> bool {
    e is Text || e is Code || e is SoftBreak || e is HardBreak || e is Other
}

/// The text that inline events make: text and inline code as they are, a
/// newline for each line break.
pub open spec fn inline_text(es: Seq<MdRawEventV>) -> Seq<char>
    decreases es.len(),
{
    if es.len() == 0 {
        Seq::empty()
    } else {
        inline_text(es.drop_last()) + match es.last() {
            MdRawEventV::Text(t) => t,
            MdRawEventV::Code(t) => t,
            MdRawEventV::SoftBreak => seq!['\n'],
            MdRawEventV::HardBreak => seq!['\n'],
            _ => Seq::empty(),
        }
    }
}

proof fn lemma_one_block_prefix(t: MdTagV, es: Seq<MdRawEventV>, e: MdTagEnd, n: nat)
    requires
        !(t is OtherTag),
        forall|i: int| 0 <= i < es.len() ==> is_inline(#[trigger] es[i]),
        1 <= n <= es.len() + 1,
    ensures
        ({
            let evs = (seq![MdRawEventV::Start(t)] + es + seq![MdRawEventV::End(e)]).map_values(
                |x: MdRawEventV| classify_spec(x),
            );
            let k = classify_spec(MdRawEventV::Start(t))->Start_0;
            build_prefix(evs, n) == BuildV {
                roots: Seq::empty(),
                stack: seq![
                    BlockV {
                        block_type: block_type_of(k),
                        content: Seq::empty(),
                        extra: block_extra_of(k),
                        children: Seq::empty(),
                    },
                ],
                text: inline_text(es.take(n - 1)),
            }
        }),
    decreases n,
{
    let raw = seq![MdRawEventV::Start(t)] + es + seq![MdRawEventV::End(e)];
    let evs = raw.map_values(|x: MdRawEventV| classify_spec(x));
    if n == 1 {
        assert(es.take(0) =~= Seq::<MdRawEventV>::empty());
        assert(raw[0] == MdRawEventV::Start(t));
        assert(build_prefix(evs, 0) == BuildV { roots: Seq::empty(), stack: Seq::empty(), text: Seq::empty() });
        assert(Seq::<BlockV>::empty().push(
            BlockV {
                block_type: block_type_of(classify_spec(MdRawEventV::Start(t))->Start_0),
                content: Seq::empty(),
                extra: block_extra_of(classify_spec(MdRawEventV::Start(t))->Start_0),
                children: Seq::empty(),
            },
        ) =~= seq![
            BlockV {
                block_type: block_type_of(classify_spec(MdRawEventV::Start(t))->Start_0),
                content: Seq::empty(),
                extra: block_extra_of(classify_spec(MdRawEventV::Start(t))->Start_0),
                children: Seq::empty(),
            },
        ]);
    } else {
        lemma_one_block_prefix(t, es, e, (n - 1) as nat);
        let x = es[n - 2];
        assert(raw[n - 1] == x);
        assert(is_inline(x));
        assert(es.take(n - 1).drop_last() =~= es.take(n - 2));
        assert(es.take(n - 1).last() == x);
        assert(evs[n - 1] == classify_spec(x));
        let prev = inline_text(es.take(n - 2));
        assert(build_prefix(evs, n) == build_step(build_prefix(evs, (n - 1) as nat), evs[n - 1]));
        match x {
            MdRawEventV::SoftBreak => {
                assert(prev.push('\n') =~= prev + seq!['\n']);
            },
            MdRawEventV::HardBreak => {
                assert(prev.push('\n') =~= prev + seq!['\n']);
            },
            MdRawEventV::Other => {
                assert(prev =~= prev + Seq::<char>::empty());
            },
            _ => {},
        }
    }
}

/// The law of blocks: a block tag that holds only inline events gives one
/// block: a heading (with its level), a text block for a paragraph, a code
/// block (with its fence's language, or none when indented), a quote, a
/// numbered list where the list has a first number and a bulleted list
/// otherwise, a list item; its content is the text and inline code inside,
/// with a newline for each line break.
pub proof fn lemma_one_block(t: MdTagV, es: Seq<MdRawEventV>, e: MdTagEnd)
    requires
        !(t is OtherTag),
        !(e is OtherEnd),
        forall|i: int| 0 <= i < es.len() ==> is_inline(#[trigger] es[i]),
    ensures
        ({
            let bs = blocks_of(
                (seq![MdRawEventV::Start(t)] + es + seq![MdRawEventV::End(e)]).map_values(
                    |x: MdRawEventV| classify_spec(x),
                ),
            );
            &&& bs.len() == 1
            &&& bs[0].content == inline_text(es)
            &&& bs[0].children.len() == 0
            &&& bs[0].block_type == match t {
                MdTagV::Heading(_) => "heading"@,
                MdTagV::Paragraph => "text"@,
                MdTagV::CodeFenced(_) => "code"@,
                MdTagV::CodeIndented => "code"@,
                MdTagV::BlockQuote => "quote"@,
                MdTagV::List(Some(_)) => "numbered_list"@,
                MdTagV::List(None) => "bulleted_list"@,
                _ => "list_item"@,
            }
            &&& bs[0].extra == match t {
                MdTagV::Heading(l) => JsonV::Object(seq![("level"@, JsonV::Number(number_of_u64(l as u64)))]),
                MdTagV::CodeFenced(lang) => JsonV::Object(seq![("language"@, JsonV::Str(lang))]),
                MdTagV::CodeIndented => JsonV::Object(seq![("language"@, JsonV::Str(Seq::empty()))]),
                _ => JsonV::Object(Seq::empty()),
            }
        }),
{
    let raw = seq![MdRawEventV::Start(t)] + es + seq![MdRawEventV::End(e)];
    let evs = raw.map_values(|x: MdRawEventV| classify_spec(x));
    let n = es.len() + 1;
    lemma_one_block_prefix(t, es, e, n as nat);
    assert(es.take(es.len() as int) =~= es);
    assert(raw[n as int] == MdRawEventV::End(e));
    assert(evs[n as int] == MdEventV::End);
    assert(evs.len() == n + 1);
}

fn new_block(k: &BlockKind) -> (r: RawBlock)
    ensures
        block_view(r) == (BlockV {
            block_type: block_type_of(kind_view(*k)),
            content: Seq::empty(),
            extra: block_extra_of(kind_view(*k)),
            children: Seq::empty(),
        }),
        block_ids_ok(r),
{
    let (t, extra) = match k {
        BlockKind::Heading(l) => {
            let n = json_u64(*l as u64);
            let e = object_from(vec![("level".to_string(), n)]);
            ("heading", e)
        },
        BlockKind::Paragraph => ("text", object_from(Vec::new())),
        BlockKind::Code(lang) => ("code", object_from(vec![("language".to_string(), Json::Str(lang.clone()))])),
        BlockKind::Quote => ("quote", object_from(Vec::new())),
        BlockKind::List(numbered) => if *numbered {
            ("numbered_list", object_from(Vec::new()))
        } else {
            ("bulleted_list", object_from(Vec::new()))
        },
        BlockKind::Item => ("list_item", object_from(Vec::new())),
    };
    let r = RawBlock { id: new_id(), block_type: t.to_string(), content: String::new(), extra, children: Vec::new() };
    proof {
        lemma_block_view(r);
        match extra@ {
            JsonV::Object(o) => {
                assert(o =~= match block_extra_of(kind_view(*k)) {
                    JsonV::Object(x) => x,
                    _ => Seq::empty(),
                });
            },
            _ => {},
        }
    }
    assert(blocks_view(r.children@) =~= Seq::<BlockV>::empty());
    r
}

/// The top-level blocks that a sequence of Markdown events builds: each
/// heading, paragraph, code block, quote, list and list item becomes a block
/// holding the text read since the previous block closed, nested in the block
/// that was open around it.
pub fn blocks_from_events(evs: &Vec<MdEvent>) -> (r: Vec<RawBlock>)
    ensures
        blocks_view(r@) == blocks_of(evs@.map_values(|e: MdEvent| e@)),
        forall|i: int| 0 <= i < r@.len() ==> block_ids_ok(#[trigger] r@[i]),
{
    let ghost ev = evs@.map_values(|e: MdEvent| e@);
    let mut roots: Vec<RawBlock> = Vec::new();
    let mut stack: Vec<RawBlock> = Vec::new();
    let mut text: Vec<char> = Vec::new();
    let mut i: usize = 0;
    assert(blocks_view(roots@) =~= Seq::<BlockV>::empty());
    assert(blocks_view(stack@) =~= Seq::<BlockV>::empty());
    while i < evs.len()
        invariant
            i <= evs@.len(),
            ev == evs@.map_values(|e: MdEvent| e@),
            build_prefix(ev, i as nat) == (BuildV { roots: blocks_view(roots@), stack: blocks_view(stack@), text: text@ }),
            forall|j: int| 0 <= j < roots@.len() ==> block_ids_ok(#[trigger] roots@[j]),
            forall|j: int| 0 <= j < stack@.len() ==> block_ids_ok(#[trigger] stack@[j]),
        decreases evs.len() - i,
    {
        let ghost st = build_prefix(ev, i as nat);
        assert(ev[i as int] == evs@[i as int]@);
        match &evs[i] {
            MdEvent::Start(k) => {
                let b = new_block(k);
                let ghost sv = blocks_view(stack@);
                stack.push(b);
                assert(blocks_view(stack@) =~= sv.push(block_view(b)));
            },
            MdEvent::End => {
                if stack.len() > 0 {
                    let ghost sv = blocks_view(stack@);
                    let ghost st0 = stack@;
                    let mut b = stack.pop().unwrap();
                    assert(block_ids_ok(b)) by {
                        assert(b == st0[st0.len() - 1]);
                    }
                    let ghost b0 = b;
                    let ghost bv0 = block_view(b);
                    assert(sv.last() == bv0);
                    assert(blocks_view(stack@) =~= sv.drop_last());
                    b.content = string_of(&text);
                    text = Vec::new();
                    assert(block_ids_ok(b)) by {
                        assert forall|j: int| 0 <= j < b.children@.len() implies block_ids_ok(
                            #[trigger] b.children@[j],
                        ) by {
                            lemma_child_ids(b0, j);
                        }
                    }
                    proof {
                        lemma_block_view(b);
                        assert(block_view(b) == BlockV { content: st.text, ..bv0 }) by {
                            assert(block_view(b).children =~= bv0.children);
                        }
                    }
                    if stack.len() == 0 {
                        let ghost rv = blocks_view(roots@);
                        roots.push(b);
                        assert(blocks_view(roots@) =~= rv.push(block_view(b)));
                    } else {
                        let ghost rest = blocks_view(stack@);
                        let ghost st1 = stack@;
                        let mut p = stack.pop().unwrap();
                        assert(block_ids_ok(p)) by {
                            assert(p == st1[st1.len() - 1]);
                        }
                        let ghost p0 = p;
                        let ghost pv0 = block_view(p);
                        assert(rest.last() == pv0);
                        assert(blocks_view(stack@) =~= rest.drop_last());
                        let ghost bv = block_view(b);
                        let ghost cv = blocks_view(p.children@);
                        proof {
                            lemma_block_view(p);
                        }
                        p.children.push(b);
                        assert(block_ids_ok(p)) by {
                            assert forall|j: int| 0 <= j < p.children@.len() implies block_ids_ok(
                                #[trigger] p.children@[j],
                            ) by {
                                if j < p0.children@.len() {
                                    lemma_child_ids(p0, j);
                                    assert(p.children@[j] == p0.children@[j]);
                                }
                            }
                        }
                        proof {
                            lemma_block_view(p);
                            assert(blocks_view(p.children@) =~= cv.push(bv));
                            assert(block_view(p) == BlockV { children: pv0.children.push(bv), ..pv0 });
                        }
                        let ghost s2 = blocks_view(stack@);
                        stack.push(p);
                        assert(blocks_view(stack@) =~= s2.push(block_view(p)));
                    }
                }
            },
            MdEvent::Text(t) => {
                push_str(&mut text, t.as_str());
            },
            MdEvent::Break => {
                text.push('\n');
            },
            MdEvent::Other => {},
        }
        i = i + 1;
    }
    roots
}

/// Reads Markdown into a tree of blocks: each heading, paragraph, code block,
/// quote, list and list item becomes a block, with a fresh random id.
pub fn parse_markdown_to_blocks(markdown: &str) -> (r: Vec<RawBlock>)
    ensures
        blocks_view(r@) == blocks_of(md_events_of(markdown@).map_values(|e: MdRawEventV| classify_spec(e))),
        forall|i: int| 0 <= i < r@.len() ==> block_ids_ok(#[trigger] r@[i]),
{
    let raw = markdown_events(markdown);
    let evs = classify_all(&raw);
    blocks_from_events(&evs)
}

/// serde_yaml's value: carried through opaquely.
#[verifier::external_type_specification]
#[verifier::external_body]
pub struct ExYamlValue(serde_yaml::Value);

/// Whether `serde_yaml::from_str::<serde_yaml::Value>` accepts a text.
pub uninterp spec fn yaml_accepts(text: Seq<char>) -> bool;

/// The value that `serde_yaml::from_str::<serde_yaml::Value>` reads from a
/// text it accepts.
pub uninterp spec fn yaml_value(text: Seq<char>) -> serde_yaml::Value;

/// Parses a text with `serde_yaml::from_str::<serde_yaml::Value>`; it gives a
/// value exactly where `yaml_accepts` holds, the one that `yaml_value` names.
#[verifier::external_body]
fn parse_yaml(text: &str) -> (r: Option<serde_yaml::Value>)
    ensures
        r is Some == yaml_accepts(text@),
        r matches Some(v) ==> v == yaml_value(text@),
{
    serde_yaml::from_str::<serde_yaml::Value>(text).ok()
}

/// What `serde_json::to_string` writes for the value that serde_yaml reads
/// from a text, or the error message of the read or of the write.
pub uninterp spec fn yaml_json_text(text: Seq<char>) -> Result<Seq<char>, Seq<char>>;

/// Reads a YAML text with `serde_yaml::from_str::<serde_yaml::Value>` and
/// writes the value with `serde_json::to_string`; the result is the one that
/// `yaml_json_text` names.
#[verifier::external_body]
fn yaml_to_json_text(text: &str) -> (r: Result<String, String>)
    ensures
        match r {
            Ok(t) => yaml_json_text(text@) == Ok::<Seq<char>, Seq<char>>(t@),
            Err(e) => yaml_json_text(text@) == Err::<Seq<char>, Seq<char>>(e@),
        },
{
    match serde_yaml::from_str::<serde_yaml::Value>(text) {
        Ok(v) => serde_json::to_string(&v).map_err(|e| e.to_string()),
        Err(e) => Err(e.to_string()),
    }
}

/// Where the front matter of a Markdown text lies: after a leading `---` line
/// of the trimmed text, up to the next `---` line; the YAML text and the
/// Markdown after it.
pub open spec fn frontmatter_parts(input: Seq<char>) -> Option<(Seq<char>, Seq<char>)> {
    let t = trim(input);
    let open = "---\n"@;
    if starts_with(t, open) {
        let rest = t.subrange(4, t.len() as int);
        match find_from(rest, open, 0) {
            Some(i) => Some((rest.subrange(0, i), rest.subrange(i + 4, rest.len() as int))),
            None => None,
        }
    } else {
        None
    }
}

/// The front matter of a Markdown text, where it has one: the YAML text and
/// the Markdown after it (see `frontmatter_parts`).
fn frontmatter_split(input: &str) -> (r: Option<(String, String)>)
    ensures
        match r {
            Some((yaml, md)) => frontmatter_parts(input@) == Some((yaml@, md@)),
            None => frontmatter_parts(input@) is None,
        },
{
    let v = chars_of(input);
    let (a, b) = trim_bounds(&v, 0, v.len());
    assert(v@.subrange(0, v@.len() as int) =~= v@);
    let t = string_of_range(&v, a, b);
    let tv = chars_of(t.as_str());
    let open = vec!['-', '-', '-', '\n'];
    proof {
        reveal_strlit("---\n");
    }
    assert(open@ =~= "---\n"@);
    if occurs_at_exec(&tv, &open, 0) {
        let rest = string_of_range(&tv, 4, tv.len());
        let rv = chars_of(rest.as_str());
        proof {
            lemma_find_from(rv@, open@, 0);
        }
        match find_from_exec(&rv, &open, 0) {
            Some(i) => {
                let n = rv.len();
                assert(i + 4 <= n);
                let yaml = string_of_range(&rv, 0, i);
                let md = string_of_range(&rv, i + 4, n);
                return Some((yaml, md));
            },
            None => {},
        }
    }
    None
}

/// The law of front matter: a text that opens with a `---` line, holds a
/// YAML text `y` (in which no `---` line ends) and then a `---` line, and goes
/// on with a Markdown text `md` (ending in no white space), splits into `y`
/// and `md`; a text whose trimmed form does not open with a `---` line has no
/// front matter.
pub proof fn lemma_frontmatter_parts(y: Seq<char>, md: Seq<char>, other: Seq<char>)
    requires
        !contains(y, "---\n"@),
        md.len() > 0,
        !crate::text::is_ws(md.last()),
    ensures
        frontmatter_parts("---\n"@ + y + "---\n"@ + md) == Some((y, md)),
        !starts_with(trim(other), "---\n"@) ==> frontmatter_parts(other) is None,
{
    let open = "---\n"@;
    reveal_strlit("---\n");
    let input = open + y + open + md;
    assert(input[0] == '-');
    assert(!crate::text::is_ws('-'));
    assert(input.last() == md.last());
    assert(crate::text::trim_start(input) == input);
    assert(crate::text::trim_end(input) == input);
    assert(starts_with(input, open)) by {
        assert(input.subrange(0, 4) =~= open);
    }
    let rest = input.subrange(4, input.len() as int);
    assert(rest =~= y + open + md);
    let n = y.len() as int;
    assert(occurs_at(rest, open, n)) by {
        assert(rest.subrange(n, n + 4) =~= open);
    }
    assert forall|j: int| 0 <= j < n implies !occurs_at(rest, open, j) by {
        if occurs_at(rest, open, j) {
            assert(rest.subrange(j, j + 4)[3] == rest[j + 3]);
            assert(rest[j + 3] == '\n');
            if j + 3 < n {
                assert(rest.subrange(j, j + 4) =~= y.subrange(j, j + 4));
                assert(occurs_at(y, open, j));
                assert(contains(y, open));
            } else {
                assert(rest[j + 3] == open[j + 3 - n]);
            }
        }
    }
    lemma_find_from(rest, open, 0);
    let i = find_from(rest, open, 0)->Some_0;
    if i < n {
        assert(!occurs_at(rest, open, i));
    }
    assert(i == n);
    assert(rest.subrange(0, n) =~= y);
    assert(rest.subrange(n + 4, rest.len() as int) =~= md);
}

/// A Markdown text split into its YAML front matter, where there is one and
/// it parses, and the rest (trimmed); otherwise no front matter and the whole
/// text.
pub fn split_frontmatter(input: &str) -> (r: (Option<serde_yaml::Value>, String))
    ensures
        match frontmatter_parts(input@) {
            Some((yaml, md)) => if yaml_accepts(yaml) {
                r.0 == Some(yaml_value(yaml)) && r.1@ == trim(md)
            } else {
                r.0 is None && r.1@ == input@
            },
            None => r.0 is None && r.1@ == input@,
        },
{
    match frontmatter_split(input) {
        Some((yaml, md)) => {
            if let Some(meta) = parse_yaml(yaml.as_str()) {
                return (Some(meta), crate::text::str_trim(md.as_str()));
            }
        },
        None => {},
    }
    (None, input.to_string())
}

/// The string under `key` in the mapping that
/// `serde_yaml::from_str::<serde_yaml::Value>` reads from a text; none where
/// the text does not parse, has no such member, or the member is no string.
pub uninterp spec fn yaml_str_member(text: Seq<char>, key: Seq<char>) -> Option<Seq<char>>;

/// Reads a YAML text with serde_yaml and takes the string under `key`
/// (`Value::get`, `Value::as_str`); the result is the one that
/// `yaml_str_member` names for the text and the key.
#[verifier::external_body]
fn parse_yaml_str_member(text: &str, key: &str) -> (r: Option<String>)
    ensures
        match r {
            Some(t) => yaml_str_member(text@, key@) == Some(t@),
            None => yaml_str_member(text@, key@) is None,
        },
{
    match serde_yaml::from_str::<serde_yaml::Value>(text) {
        Ok(v) => v.get(key).and_then(serde_yaml::Value::as_str).map(String::from),
        Err(_) => None,
    }
}

/// The title that a Markdown document is imported under: the string `title`
/// of its front matter, where it has front matter that parses; else the title
/// that `document_title_spec` finds in the body (the trimmed text after the
/// front matter, or the whole text where there is none that parses).
pub open spec fn import_title_spec(input: Seq<char>) -> Seq<char> {
    match frontmatter_parts(input) {
        Some((yaml, md)) => if yaml_accepts(yaml) {
            document_title_spec(yaml_str_member(yaml, "title"@), trim(md))
        } else {
            document_title_spec(None, input)
        },
        None => document_title_spec(None, input),
    }
}

/// The title that a Markdown document is imported under (see
/// `import_title_spec`).
pub fn import_title(markdown: &str) -> (r: String)
    ensures
        r@ == import_title_spec(markdown@),
{
    match frontmatter_split(markdown) {
        Some((yaml, md)) => {
            if parse_yaml(yaml.as_str()).is_some() {
                let body = crate::text::str_trim(md.as_str());
                return document_title(parse_yaml_str_member(yaml.as_str(), "title"), body.as_str());
            }
        },
        None => {},
    }
    document_title(None, markdown)
}

/// The metadata that a Markdown document is imported with: its front matter
/// written as JSON, where it has front matter that parses; else `null`.
pub open spec fn import_metadata_spec(input: Seq<char>) -> Result<Seq<char>, Seq<char>> {
    match frontmatter_parts(input) {
        Some((yaml, md)) => if yaml_accepts(yaml) {
            yaml_json_text(yaml)
        } else {
            Ok("null"@)
        },
        None => Ok("null"@),
    }
}

/// The metadata that a Markdown document is imported with (see
/// `import_metadata_spec`), or the error of writing it as JSON.
pub fn import_metadata(markdown: &str) -> (r: Result<String, String>)
    ensures
        match r {
            Ok(t) => import_metadata_spec(markdown@) == Ok::<Seq<char>, Seq<char>>(t@),
            Err(e) => import_metadata_spec(markdown@) == Err::<Seq<char>, Seq<char>>(e@),
        },
{
    match frontmatter_split(markdown) {
        Some((yaml, _)) => {
            if parse_yaml(yaml.as_str()).is_some() {
                return yaml_to_json_text(yaml.as_str());
            }
        },
        None => {},
    }
    Ok("null".to_string())
}

/// `s` without every leading `"# "`.
pub open spec fn strip_heading_marks(s: Seq<char>) -> Seq<char>
    decreases s.len(),
{
    if s.len() >= 2 && s[0] == '#' && s[1] == ' ' {
        strip_heading_marks(s.subrange(2, s.len() as int))
    } else {
        s
    }
}

/// The first line of a text, as `str::lines` gives it: up to the first '\n',
/// without a '\r' before it; none for an empty text.
pub open spec fn first_line(s: Seq<char>) -> Option<Seq<char>> {
    if s.len() == 0 {
        None
    } else {
        let l = match find_from(s, seq!['\n'], 0) {
            Some(i) => s.subrange(0, i),
            None => s,
        };
        Some(if l.len() > 0 && l.last() == '\r' {
            l.drop_last()
        } else {
            l
        })
    }
}

/// The title of an imported document: the front matter's title where it has
/// one, else the first line of the body without its leading `"# "` marks,
/// else "Untitled".
pub open spec fn document_title_spec(front_title: Option<Seq<char>>, body: Seq<char>) -> Seq<char> {
    match front_title {
        Some(t) => t,
        None => strip_heading_marks(
            match first_line(body) {
                Some(l) => l,
                None => "Untitled"@,
            },
        ),
    }
}

/// The law of titles: a title from the front matter is the title; without
/// one, a body whose first line is a heading `# h` (a line without '\r' at its
/// end) has the title `h`, and an empty body is `Untitled`.
pub proof fn lemma_document_title(t: Seq<char>, h: Seq<char>, rest: Seq<char>)
    requires
        !h.contains('\n'),
        h.len() > 0 && h.last() != '\r',
        !(h.len() >= 2 && h[0] == '#' && h[1] == ' '),
    ensures
        document_title_spec(Some(t), rest) == t,
        document_title_spec(None, seq!['#', ' '] + h + seq!['\n'] + rest) == h,
        document_title_spec(None, Seq::empty()) == "Untitled"@,
{
    let b = seq!['#', ' '] + h + seq!['\n'] + rest;
    let n: int = h.len() + 2int;
    lemma_find_from(b, seq!['\n'], 0);
    assert(occurs_at(b, seq!['\n'], n)) by {
        assert(b.subrange(n, n + 1) =~= seq!['\n']);
    }
    let i = find_from(b, seq!['\n'], 0)->Some_0;
    if i < n {
        assert(b.subrange(i, i + 1)[0] == b[i]);
        if i >= 2 {
            assert(b[i] == h[i - 2]);
        }
    }
    assert(i == n);
    let l = b.subrange(0, n);
    assert(l =~= seq!['#', ' '] + h);
    assert(l.last() == h.last());
    assert(l.subrange(2, l.len() as int) =~= h);
    assert(first_line(b) == Some(l));
    assert(strip_heading_marks(h) == h);
    assert(strip_heading_marks(l) == strip_heading_marks(h));
    reveal_strlit("Untitled");
    assert(strip_heading_marks("Untitled"@) == "Untitled"@) by {
        assert("Untitled"@[0] != '#');
    }
}

/// The title of an imported document (see `document_title_spec`).
pub fn document_title(front_title: Option<String>, body: &str) -> (r: String)
    ensures
        r@ == document_title_spec(
            match front_title {
                Some(t) => Some(t@),
                None => None,
            },
            body@,
        ),
{
    match front_title {
        Some(t) => t,
        None => {
            let v = chars_of(body);
            let line: Vec<char> = if v.len() == 0 {
                chars_of("Untitled")
            } else {
                let nl = vec!['\n'];
                assert(nl@ =~= seq!['\n']);
                proof {
                    lemma_find_from(v@, nl@, 0);
                }
                let end = match find_from_exec(&v, &nl, 0) {
                    Some(i) => i,
                    None => v.len(),
                };
                assert(v@.subrange(0, v@.len() as int) =~= v@);
                let stop = if end > 0 && v[end - 1] == '\r' {
                    end - 1
                } else {
                    end
                };
                let l = string_of_range(&v, 0, stop);
                assert(l@ == match first_line(v@) {
                    Some(x) => x,
                    None => Seq::empty(),
                }) by {
                    if end > 0 && v@[end - 1] == '\r' {
                        assert(v@.subrange(0, end as int).drop_last() =~= v@.subrange(0, end - 1));
                    }
                }
                chars_of(l.as_str())
            };
            let mut k: usize = 0;
            assert(line@.subrange(0, line@.len() as int) =~= line@);
            while k < line.len() && line.len() - k >= 2 && line[k] == '#' && line[k + 1] == ' '
                invariant
                    k <= line@.len(),
                    strip_heading_marks(line@) == strip_heading_marks(line@.subrange(k as int, line@.len() as int)),
                decreases line.len() - k,
            {
                assert(line@.subrange(k as int, line@.len() as int).subrange(2, line@.len() - k) =~= line@.subrange(
                    k + 2,
                    line@.len() as int,
                ));
                k = k + 2;
            }
            string_of_range(&line, k, line.len())
        },
    }
}

} // verus!
