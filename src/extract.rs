use vstd::prelude::*;

use crate::error::Error;
use crate::lines::{ends_line, lemma_split_lines_append, lines_of, split_lines};

verus! {

/// What the command extractor reads of a markdown document's structure.
#[derive(Debug, Clone)]
pub enum MdEvent {
    /// A code block (fenced or indented) begins.
    CodeBlockStart,
    /// A code block ends.
    CodeBlockEnd,
    /// Literal text.
    Text(String),
    /// Any other structural event.
    Other,
}

/// Whether a code block is open after the events `es`.
pub open spec fn inside_after(es: Seq<MdEvent>) -> bool
    decreases es.len(),
{
    if es.len() == 0 {
        false
    } else {
        match es.last() {
            MdEvent::CodeBlockStart => true,
            MdEvent::CodeBlockEnd => false,
            _ => inside_after(es.drop_last()),
        }
    }
}

/// Some code block begins while another is still open.
pub open spec fn nested(es: Seq<MdEvent>) -> bool {
    exists|i: int|
        0 <= i < es.len() && es[i] is CodeBlockStart && #[trigger] inside_after(es.take(i))
}

/// The text of the code blocks among `es`, concatenated in order.
pub open spec fn code_text(es: Seq<MdEvent>) -> Seq<char>
    decreases es.len(),
{
    if es.len() == 0 {
        seq![]
    } else {
        match es.last() {
            MdEvent::Text(t) => if inside_after(es.drop_last()) {
                code_text(es.drop_last()) + t@
            } else {
                code_text(es.drop_last())
            },
            _ => code_text(es.drop_last()),
        }
    }
}

/// The commands held by the code blocks among `es`: one per line.
pub open spec fn code_lines(es: Seq<MdEvent>) -> Seq<Seq<char>> {
    split_lines(code_text(es))
}

/// The structure of the markdown document `text`, as pulldown-cmark reads it.
pub uninterp spec fn markdown_events(text: Seq<char>) -> Seq<MdEvent>;

/// Relies on pulldown_cmark::Parser: the events of a document, in order, which
/// depend on the document's text alone. Code block starts and ends and text
/// events are kept with their text; every other event becomes `Other`.
#[verifier::external_body]
fn parse_events(text: &str) -> (r: Vec<MdEvent>)
    ensures
        r@ == markdown_events(text@),
{
    pulldown_cmark::Parser::new(text).map(|e| match e {
        pulldown_cmark::Event::Start(pulldown_cmark::Tag::CodeBlock(_)) => MdEvent::CodeBlockStart,
        pulldown_cmark::Event::End(pulldown_cmark::Tag::CodeBlock(_)) => MdEvent::CodeBlockEnd,
        pulldown_cmark::Event::Text(t) => MdEvent::Text(t.into_string()),
        _ => MdEvent::Other,
    }).collect()
}

/// The commands in the code blocks of the event stream `events`: the text of
/// every code block, concatenated in order and split into lines (blank lines
/// included). Fails with a parse error when a code block starts inside
/// another.
pub fn commands_from_events(events: &Vec<MdEvent>) -> (r: Result<Vec<String>, Error>)
    ensures
        r is Err <==> nested(events@),
        r is Err ==> r->Err_0 is ParseMd,
        r is Ok ==> r->Ok_0@.map_values(|l: String| l@) == code_lines(events@),
{
    let mut code = String::new();
    let mut inside = false;
    let mut i: usize = 0;
    while i < events.len()
        invariant
            0 <= i <= events@.len(),
            inside == inside_after(events@.take(i as int)),
            code@ == code_text(events@.take(i as int)),
            !nested(events@.take(i as int)),
        decreases events@.len() - i,
    {
        let ghost pre = events@.take(i as int);
        let ghost next = events@.take(i + 1);
        proof {
            assert(next.drop_last() =~= pre);
            assert(next.last() == events@[i as int]);
        }
        match &events[i] {
            MdEvent::CodeBlockStart => {
                if inside {
                    proof {
                        assert(events@.take(i as int) =~= pre);
                        assert(inside_after(events@.take(i as int)));
                        assert(nested(events@));
                    }
                    return Err(Error::ParseMd(String::from_str("Nested codeblock")));
                }
                inside = true;
            },
            MdEvent::CodeBlockEnd => {
                inside = false;
            },
            MdEvent::Text(t) => {
                if inside {
                    code.append(t.as_str());
                }
            },
            MdEvent::Other => {},
        }
        proof {
            assert forall|j: int|
                0 <= j < next.len() && next[j] is CodeBlockStart implies !#[trigger] inside_after(
                next.take(j),
            ) by {
                if j < i {
                    assert(next.take(j) =~= pre.take(j));
                    assert(pre[j] == next[j]);
                } else {
                    assert(next.take(j) =~= pre);
                }
            }
        }
        i = i + 1;
    }
    proof {
        assert(events@.take(events@.len() as int) =~= events@);
    }
    Ok(lines_of(code.as_str()))
}

proof fn lemma_inside_concat(e1: Seq<MdEvent>, p: Seq<MdEvent>)
    requires
        !inside_after(e1),
    ensures
        inside_after(e1 + p) == inside_after(p),
    decreases p.len(),
{
    if p.len() == 0 {
        assert(e1 + p =~= e1);
    } else {
        assert((e1 + p).drop_last() =~= e1 + p.drop_last());
        assert((e1 + p).last() == p.last());
        lemma_inside_concat(e1, p.drop_last());
    }
}

proof fn lemma_code_text_concat(e1: Seq<MdEvent>, p: Seq<MdEvent>)
    requires
        !inside_after(e1),
    ensures
        code_text(e1 + p) == code_text(e1) + code_text(p),
    decreases p.len(),
{
    if p.len() == 0 {
        assert(e1 + p =~= e1);
        assert(code_text(e1) + code_text(p) =~= code_text(e1));
    } else {
        assert((e1 + p).drop_last() =~= e1 + p.drop_last());
        assert((e1 + p).last() == p.last());
        lemma_inside_concat(e1, p.drop_last());
        lemma_code_text_concat(e1, p.drop_last());
        if let MdEvent::Text(t) = p.last() {
            if inside_after(p.drop_last()) {
                assert(code_text(e1 + p) =~= code_text(e1) + code_text(p));
            }
        }
    }
}

/// Extraction keeps document order: when the first part of an event stream
/// leaves no code block open and its code text ends a line, the commands of
/// the whole stream are those of the first part followed by those of the
/// second, and the whole has a nested code block just when one of the parts
/// has.
pub proof fn lemma_extraction_order(e1: Seq<MdEvent>, e2: Seq<MdEvent>)
    requires
        !inside_after(e1),
        ends_line(code_text(e1)),
    ensures
        nested(e1 + e2) == (nested(e1) || nested(e2)),
        code_lines(e1 + e2) == code_lines(e1) + code_lines(e2),
{
    let e = e1 + e2;
    lemma_code_text_concat(e1, e2);
    lemma_split_lines_append(code_text(e1), code_text(e2));
    if nested(e) {
        let i = choose|i: int| 0 <= i < e.len() && e[i] is CodeBlockStart && #[trigger] inside_after(e.take(i));
        if i < e1.len() {
            assert(e.take(i) =~= e1.take(i));
            assert(e1[i] == e[i]);
        } else {
            let j = i - e1.len();
            assert(e.take(i) =~= e1 + e2.take(j));
            lemma_inside_concat(e1, e2.take(j));
            assert(e2[j] == e[i]);
        }
    }
    if nested(e1) {
        let i = choose|i: int| 0 <= i < e1.len() && e1[i] is CodeBlockStart && #[trigger] inside_after(e1.take(i));
        assert(e.take(i) =~= e1.take(i));
        assert(e1[i] == e[i]);
    }
    if nested(e2) {
        let j = choose|j: int| 0 <= j < e2.len() && e2[j] is CodeBlockStart && #[trigger] inside_after(e2.take(j));
        let i = j + e1.len();
        assert(e.take(i) =~= e1 + e2.take(j));
        lemma_inside_concat(e1, e2.take(j));
        assert(e2[j] == e[i]);
    }
}

proof fn lemma_no_code_block(es: Seq<MdEvent>)
    requires
        forall|i: int| 0 <= i < es.len() ==> !(es[i] is CodeBlockStart),
    ensures
        !inside_after(es),
        code_text(es) == Seq::<char>::empty(),
    decreases es.len(),
{
    if es.len() > 0 {
        lemma_no_code_block(es.drop_last());
    }
}

/// Text outside code blocks is ignored: an event stream in which no code
/// block starts holds no commands and no nesting.
pub proof fn lemma_prose_ignored(es: Seq<MdEvent>)
    requires
        forall|i: int| 0 <= i < es.len() ==> !(es[i] is CodeBlockStart),
    ensures
        !nested(es),
        code_lines(es) == Seq::<Seq<char>>::empty(),
{
    lemma_no_code_block(es);
    assert(split_lines(Seq::<char>::empty()) =~= Seq::<Seq<char>>::empty());
}

/// The commands in the code blocks of the markdown document `markdown`.
/// Fails with a parse error when a code block starts inside another.
pub fn parse_commands(markdown: &str) -> (r: Result<Vec<String>, Error>)
    ensures
        r is Err <==> nested(markdown_events(markdown@)),
        r is Err ==> r->Err_0 is ParseMd,
        r is Ok ==> r->Ok_0@.map_values(|l: String| l@) == code_lines(markdown_events(markdown@)),
{
    let events = parse_events(markdown);
    commands_from_events(&events)
}

} // verus!
