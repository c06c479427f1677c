//! Locating the reserved `cargo` fence inside the rendered doc comment.
//!
//! The markdown parsing itself is done by `pulldown_cmark`; everything it
//! reports is folded by a small verified state machine that tracks the
//! first reserved fence, the byte span of its content, and whether a second
//! reserved fence makes the file ambiguous.

use vstd::prelude::*;

use vstd::utf8::valid_utf8;

use pulldown_cmark::{CodeBlockKind, Event, Options, Parser, Tag, TagEnd};

verus! {

/// Why a transcoding step failed.
#[derive(Debug, Clone, Copy, PartialEq, Eq, Structural)]
pub enum ScriptError {
    /// The input bytes are not valid UTF-8.
    NonUtf8Source,
    /// The language grammar rejects the input, or the markdown surface
    /// disagrees with the line structure of the doc comment.
    MalformedSource,
    /// No reserved fence was found in the doc comment.
    FenceNotFound,
    /// More than one reserved fence was found; none is picked silently.
    MultipleFencesAmbiguous,
}

/// A block-level markdown event, reduced to what the fence scanner needs:
/// fence openings with their info string, fence closings, and text runs
/// with their byte span in the rendered doc.
pub enum MdEvent {
    /// A fenced code block opens; `tag` is its info string.
    FenceStart { tag: Vec<u8> },
    /// A fenced code block closes.
    FenceEnd,
    /// A text run, spanning bytes `start..end` of the rendered doc.
    Text { start: usize, end: usize },
    /// Any other event.
    Other,
}

/// The events that the markdown parser reports for a given text. Named
/// rather than written out: the result is a function of the text alone,
/// but stating it would mean writing out the markdown grammar.
pub uninterp spec fn md_events_of(s: Seq<u8>) -> Seq<MdEvent>;

/// Whether the language grammar accepts the text as a source file. Named
/// rather than written out for the same reason.
pub uninterp spec fn syn_accepts(s: Seq<u8>) -> bool;

/// Relies on `core::str::from_utf8`: it succeeds exactly on UTF-8 input,
/// which vstd's `valid_utf8` models.
#[verifier::external_body]
pub(crate) fn utf8_check(b: &Vec<u8>) -> (r: bool)
    ensures
        r == valid_utf8(b@),
{
    core::str::from_utf8(b).is_ok()
}

/// Relies on `syn::parse_file`: it accepts exactly the texts that parse as
/// a source file (an interpreter directive line is allowed).
#[verifier::external_body]
pub(crate) fn syn_check(b: &Vec<u8>) -> (r: bool)
    requires
        valid_utf8(b@),
    ensures
        r == syn_accepts(b@),
{
    syn::parse_file(core::str::from_utf8(b).unwrap()).is_ok()
}

/// Relies on `pulldown_cmark::Parser::new_ext` and `OffsetIter`: the
/// events of the markdown text in document order, each with its byte span;
/// only fence openings/closings and text runs are kept apart.
#[verifier::external_body]
pub(crate) fn md_events(doc: &Vec<u8>) -> (r: Vec<MdEvent>)
    requires
        valid_utf8(doc@),
    ensures
        r@ == md_events_of(doc@),
{
    let text = core::str::from_utf8(doc).unwrap();
    Parser::new_ext(text, Options::all())
        .into_offset_iter()
        .map(|(ev, sp)| match ev {
            Event::Start(Tag::CodeBlock(CodeBlockKind::Fenced(tag))) => {
                MdEvent::FenceStart { tag: tag.as_bytes().to_vec() }
            },
            Event::End(TagEnd::CodeBlock) => MdEvent::FenceEnd,
            Event::Text(_) => MdEvent::Text { start: sp.start, end: sp.end },
            _ => MdEvent::Other,
        })
        .collect()
}

/// The reserved info string: `cargo`.
pub open spec fn cargo_tag() -> Seq<u8> {
    seq![99u8, 97u8, 114u8, 103u8, 111u8]
}

/// Exact comparison of an info string against the reserved tag.
fn is_cargo_tag(tag: &Vec<u8>) -> (r: bool)
    ensures
        r == (tag@ == cargo_tag()),
{
    if tag.len() == 5 && tag[0] == 99 && tag[1] == 97 && tag[2] == 114 && tag[3] == 103 && tag[4]
        == 111 {
        assert(tag@ =~= cargo_tag());
        true
    } else {
        assert(tag@ != cargo_tag());
        false
    }
}

/// The scanner's state while folding over the markdown events.
pub enum ScanState {
    /// No reserved fence seen yet.
    Idle,
    /// Inside the first reserved fence, before any text.
    Open,
    /// Inside the first reserved fence; `start..end` covers the text seen.
    Content { start: usize, end: usize },
    /// The first reserved fence closed with content `start..end`.
    Closed { start: usize, end: usize },
    /// The first reserved fence closed without any text: there is no
    /// content span, and later events must not be mistaken for one.
    ClosedEmpty,
    /// A second reserved fence was seen.
    Several,
}

/// One step of the fence scanner.
pub open spec fn scan_step(st: ScanState, e: MdEvent) -> ScanState {
    match st {
        ScanState::Idle => match e {
            MdEvent::FenceStart { tag } => if tag@ == cargo_tag() {
                ScanState::Open
            } else {
                ScanState::Idle
            },
            _ => ScanState::Idle,
        },
        ScanState::Open => match e {
            MdEvent::Text { start, end } => ScanState::Content { start, end },
            MdEvent::FenceEnd => ScanState::ClosedEmpty,
            MdEvent::FenceStart { tag } => if tag@ == cargo_tag() {
                ScanState::Several
            } else {
                ScanState::Open
            },
            _ => ScanState::Open,
        },
        ScanState::Content { start, end } => match e {
            MdEvent::Text { start: s2, end: e2 } => ScanState::Content { start, end: e2 },
            MdEvent::FenceEnd => ScanState::Closed { start, end },
            MdEvent::FenceStart { tag } => if tag@ == cargo_tag() {
                ScanState::Several
            } else {
                ScanState::Content { start, end }
            },
            MdEvent::Other => ScanState::Content { start, end },
        },
        ScanState::Closed { start, end } => match e {
            MdEvent::FenceStart { tag } => if tag@ == cargo_tag() {
                ScanState::Several
            } else {
                ScanState::Closed { start, end }
            },
            _ => ScanState::Closed { start, end },
        },
        ScanState::ClosedEmpty => match e {
            MdEvent::FenceStart { tag } => if tag@ == cargo_tag() {
                ScanState::Several
            } else {
                ScanState::ClosedEmpty
            },
            _ => ScanState::ClosedEmpty,
        },
        ScanState::Several => ScanState::Several,
    }
}

/// The scanner folded over a whole event sequence, starting idle.
pub open spec fn scan(events: Seq<MdEvent>) -> ScanState
    decreases events.len(),
{
    if events.len() == 0 {
        ScanState::Idle
    } else {
        scan_step(scan(events.drop_last()), events.last())
    }
}

/// Runs the fence scanner over the events.
pub fn run_scan(events: &Vec<MdEvent>) -> (st: ScanState)
    ensures
        st == scan(events@),
{
    let mut st = ScanState::Idle;
    let mut i: usize = 0;
    proof {
        assert(events@.subrange(0, 0) =~= Seq::<MdEvent>::empty());
    }
    while i < events.len()
        invariant
            i <= events@.len(),
            st == scan(events@.subrange(0, i as int)),
        decreases events.len() - i,
    {
        let ghost pre = events@.subrange(0, i as int);
        let e = &events[i];
        let next = match (&st, e) {
            (ScanState::Idle, MdEvent::FenceStart { tag }) => {
                if is_cargo_tag(tag) {
                    ScanState::Open
                } else {
                    ScanState::Idle
                }
            },
            (ScanState::Idle, _) => ScanState::Idle,
            (ScanState::Open, MdEvent::Text { start, end }) => ScanState::Content {
                start: *start,
                end: *end,
            },
            (ScanState::Open, MdEvent::FenceEnd) => ScanState::ClosedEmpty,
            (ScanState::Open, MdEvent::FenceStart { tag }) => {
                if is_cargo_tag(tag) {
                    ScanState::Several
                } else {
                    ScanState::Open
                }
            },
            (ScanState::Open, _) => ScanState::Open,
            (ScanState::Content { start, end }, MdEvent::Text { start: _, end: e2 }) => {
                ScanState::Content { start: *start, end: *e2 }
            },
            (ScanState::Content { start, end }, MdEvent::FenceEnd) => ScanState::Closed {
                start: *start,
                end: *end,
            },
            (ScanState::Content { start, end }, MdEvent::FenceStart { tag }) => {
                if is_cargo_tag(tag) {
                    ScanState::Several
                } else {
                    ScanState::Content { start: *start, end: *end }
                }
            },
            (ScanState::Content { start, end }, MdEvent::Other) => ScanState::Content {
                start: *start,
                end: *end,
            },
            (ScanState::Closed { start, end }, MdEvent::FenceStart { tag }) => {
                if is_cargo_tag(tag) {
                    ScanState::Several
                } else {
                    ScanState::Closed { start: *start, end: *end }
                }
            },
            (ScanState::Closed { start, end }, _) => ScanState::Closed {
                start: *start,
                end: *end,
            },
            (ScanState::ClosedEmpty, MdEvent::FenceStart { tag }) => {
                if is_cargo_tag(tag) {
                    ScanState::Several
                } else {
                    ScanState::ClosedEmpty
                }
            },
            (ScanState::ClosedEmpty, _) => ScanState::ClosedEmpty,
            (ScanState::Several, _) => ScanState::Several,
        };
        proof {
            assert(events@.subrange(0, i + 1).drop_last() =~= pre);
            assert(events@.subrange(0, i + 1).last() == events@[i as int]);
            assert(next == scan_step(st, events@[i as int]));
        }
        st = next;
        i += 1;
    }
    proof {
        assert(events@.subrange(0, events@.len() as int) =~= events@);
    }
    st
}

/// How many reserved-fence openings an event sequence holds.
pub open spec fn cargo_start_count(events: Seq<MdEvent>) -> int
    decreases events.len(),
{
    if events.len() == 0 {
        0
    } else {
        cargo_start_count(events.drop_last()) + match events.last() {
            MdEvent::FenceStart { tag } => if tag@ == cargo_tag() {
                1int
            } else {
                0int
            },
            _ => 0int,
        }
    }
}

/// The scanner classifies event sequences by how many reserved fences they
/// open: none leaves it idle, exactly one never reports ambiguity, and two
/// or more always do.
pub proof fn lemma_scan_counts(events: Seq<MdEvent>)
    ensures
        cargo_start_count(events) >= 0,
        cargo_start_count(events) == 0 ==> scan(events) is Idle,
        cargo_start_count(events) == 1 ==> (scan(events) is Open || scan(events) is Content
            || scan(events) is Closed || scan(events) is ClosedEmpty),
        cargo_start_count(events) >= 2 ==> scan(events) is Several,
    decreases events.len(),
{
    if events.len() > 0 {
        lemma_scan_counts(events.drop_last());
        let pre = events.drop_last();
        let e = events.last();
        assert(scan(events) == scan_step(scan(pre), e));
        match e {
            MdEvent::FenceStart { tag } => {
                if tag@ == cargo_tag() {
                    assert(cargo_start_count(events) == cargo_start_count(pre) + 1);
                } else {
                    assert(cargo_start_count(events) == cargo_start_count(pre));
                }
            },
            MdEvent::FenceEnd => {
                assert(cargo_start_count(events) == cargo_start_count(pre));
            },
            MdEvent::Text { start, end } => {
                assert(cargo_start_count(events) == cargo_start_count(pre));
            },
            MdEvent::Other => {
                assert(cargo_start_count(events) == cargo_start_count(pre));
            },
        }
    }
}

} // verus!
