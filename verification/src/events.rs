//! The structural events of a markdown document, as the markdown parser
//! produces them, and what the rest of the library reads of each.

use vstd::prelude::*;

verus! {

/// The parser's event type. Nothing inside a value of it is visible to the
/// verifier; events are carried through to the HTML writer unchanged.
#[verifier::external_type_specification]
#[verifier::external_body]
pub struct ExEvent<'a>(pulldown_cmark::Event<'a>);

/// What the block extraction reads of one event.
#[derive(Debug)]
pub enum Token {
    /// A code block opens.
    CodeBlockStart,
    /// A code block closes.
    CodeBlockEnd,
    /// A run of text, inside or outside a code block.
    Text(String),
    /// Any other event.
    Other,
}

/// The mathematical content of a [`Token`].
pub enum TokenView {
    CodeBlockStart,
    CodeBlockEnd,
    Text(Seq<char>),
    Other,
}

impl View for Token {
    type V = TokenView;

    open spec fn view(&self) -> TokenView {
        match self {
            Token::CodeBlockStart => TokenView::CodeBlockStart,
            Token::CodeBlockEnd => TokenView::CodeBlockEnd,
            Token::Text(s) => TokenView::Text(s@),
            Token::Other => TokenView::Other,
        }
    }
}

/// The events that `pulldown_cmark::Parser` yields for a text, with every
/// parser option switched on.
pub uninterp spec fn markdown_events(text: Seq<char>) -> Seq<pulldown_cmark::Event<'static>>;

/// The token that stands for an event.
pub uninterp spec fn event_token(event: pulldown_cmark::Event<'static>) -> TokenView;

/// Runs `pulldown_cmark::Parser::new_ext` with all options over `markdown`
/// and collects the events it yields. The contract takes the parser to
/// come to an end on every text, and to yield the same events whenever it
/// is given the same text.
#[verifier::external_body]
pub(crate) fn parse_events<'a>(markdown: &'a str) -> (events: Vec<pulldown_cmark::Event<'a>>)
    ensures
        events@ == markdown_events(markdown@),
{
    pulldown_cmark::Parser::new_ext(markdown, pulldown_cmark::Options::all()).collect()
}

/// Tells the variants of `pulldown_cmark::Event` apart: the start and the end
/// of a code block, a text run with its text, or anything else.
#[verifier::external_body]
pub(crate) fn token_of<'a>(event: &pulldown_cmark::Event<'a>) -> (token: Token)
    ensures
        token@ == event_token(*event),
{
    match event {
        pulldown_cmark::Event::Start(pulldown_cmark::Tag::CodeBlock(_)) => Token::CodeBlockStart,
        pulldown_cmark::Event::End(pulldown_cmark::Tag::CodeBlock(_)) => Token::CodeBlockEnd,
        pulldown_cmark::Event::Text(text) => Token::Text(text.to_string()),
        _ => Token::Other,
    }
}

/// The event that carries an HTML fragment.
pub uninterp spec fn fragment_event(html: Seq<char>) -> pulldown_cmark::Event<'static>;

/// Makes the `pulldown_cmark::Event::Html` that holds `html`, which the
/// HTML writer copies to the page as it is.
#[verifier::external_body]
pub(crate) fn html_event<'a>(html: String) -> (event: pulldown_cmark::Event<'a>)
    ensures
        event == fragment_event(html@),
{
    pulldown_cmark::Event::Html(std::borrow::Cow::from(html))
}

/// The page that the HTML writer makes of a sequence of events.
pub uninterp spec fn events_html(events: Seq<pulldown_cmark::Event<'static>>) -> Seq<char>;

/// Hands the events to `pulldown_cmark::html::push_html` and returns the
/// text it wrote into an empty buffer. The page is a function of the
/// events. The events of this library come from the parser or carry a
/// fragment; the writer takes any sequence of those.
#[verifier::external_body]
pub(crate) fn write_html<'a>(events: Vec<pulldown_cmark::Event<'a>>) -> (html: String)
    ensures
        html@ == events_html(events@),
{
    let mut html = String::new();
    pulldown_cmark::html::push_html(&mut html, events.into_iter());
    html
}

/// The tokens that stand for a sequence of events.
pub open spec fn event_tokens(events: Seq<pulldown_cmark::Event<'static>>) -> Seq<TokenView> {
    Seq::new(events.len(), |i: int| event_token(events[i]))
}

/// The tokens of a list, as mathematical values.
pub open spec fn tokens_view(tokens: Seq<Token>) -> Seq<TokenView> {
    Seq::new(tokens.len(), |i: int| tokens[i]@)
}

/// Reads off each event what the block extraction needs of it.
pub(crate) fn tokens_of<'a>(events: &Vec<pulldown_cmark::Event<'a>>) -> (tokens: Vec<Token>)
    ensures
        tokens_view(tokens@) == event_tokens(events@),
{
    let mut tokens: Vec<Token> = Vec::new();
    let mut i: usize = 0;
    while i < events.len()
        invariant
            i <= events@.len(),
            tokens@.len() == i,
            forall|j: int| 0 <= j < i ==> (#[trigger] tokens@[j])@ == event_token(events@[j]),
        decreases events@.len() - i,
    {
        tokens.push(token_of(&events[i]));
        i += 1;
    }
    assert(tokens_view(tokens@) =~= event_tokens(events@));
    tokens
}

/// The tokens of a markdown text.
pub open spec fn markdown_tokens(text: Seq<char>) -> Seq<TokenView> {
    event_tokens(markdown_events(text))
}

/// Parses a markdown text and reads off each of its events what the block
/// extraction needs.
pub fn tokenize(markdown: &str) -> (tokens: Vec<Token>)
    ensures
        tokens_view(tokens@) == markdown_tokens(markdown@),
{
    let events = parse_events(markdown);
    tokens_of(&events)
}

} // verus!
