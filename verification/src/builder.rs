//! The Document Builder: a state machine that folds an ordered stream of
//! structural events (headings, paragraphs, text runs, soft breaks) into a
//! [`Document`].
//!
//! Policy: an issue is appended to the document only when its paragraph-end
//! event fires; a trailing heading with no following paragraph before the
//! end of input is silently dropped. Events that do not match an expected
//! transition are ignored, never an error.

use vstd::prelude::*;
use vstd::string::StringExecFns;
use crate::model::{Document, DocumentModel, Issue, IssueModel};

verus! {

/// One structural event of the source document. The set is closed for
/// extraction; any event kind outside it is carried as `Other` and ignored,
/// for forward compatibility with richer source documents.
#[derive(Debug, Clone)]
pub enum Event {
    HeadingStart,
    HeadingEnd,
    ParagraphStart,
    ParagraphEnd,
    Text(String),
    SoftBreak,
    Other,
}

/// The mathematical value of an [`Event`].
pub enum EventModel {
    HeadingStart,
    HeadingEnd,
    ParagraphStart,
    ParagraphEnd,
    Text(Seq<char>),
    SoftBreak,
    Other,
}

impl View for Event {
    type V = EventModel;

    open spec fn view(&self) -> EventModel {
        match self {
            Event::HeadingStart => EventModel::HeadingStart,
            Event::HeadingEnd => EventModel::HeadingEnd,
            Event::ParagraphStart => EventModel::ParagraphStart,
            Event::ParagraphEnd => EventModel::ParagraphEnd,
            Event::Text(t) => EventModel::Text(t@),
            Event::SoftBreak => EventModel::SoftBreak,
            Event::Other => EventModel::Other,
        }
    }
}

/// The builder's control state.
#[derive(Debug, Clone, Copy, PartialEq, Eq, Structural)]
pub enum BuilderState {
    AccumulatingNothing,
    InHeading,
    InParagraph,
}

/// The mathematical state of a [`Builder`]: control state, scratch text
/// accumulator, pending title, and the issues committed so far.
#[verifier::ext_equal]
pub struct BuilderModel {
    pub state: BuilderState,
    pub acc: Seq<char>,
    pub title: Seq<char>,
    pub issues: Seq<IssueModel>,
}

/// The initial builder state.
pub open spec fn init_builder() -> BuilderModel {
    BuilderModel {
        state: BuilderState::AccumulatingNothing,
        acc: Seq::empty(),
        title: Seq::empty(),
        issues: Seq::empty(),
    }
}

/// One transition of the builder: total over all events, with an explicit
/// ignore arm for every event that does not match an expected transition.
pub open spec fn step_spec(b: BuilderModel, e: EventModel) -> BuilderModel {
    match e {
        EventModel::HeadingStart => if !(b.state is InParagraph) {
            BuilderModel { state: BuilderState::InHeading, acc: Seq::empty(), title: Seq::empty(), ..b }
        } else {
            b
        },
        EventModel::HeadingEnd => if b.state is InHeading {
            BuilderModel { state: BuilderState::AccumulatingNothing, acc: Seq::empty(), title: b.acc, ..b }
        } else {
            b
        },
        EventModel::ParagraphStart => if b.state is AccumulatingNothing {
            BuilderModel { state: BuilderState::InParagraph, ..b }
        } else {
            b
        },
        EventModel::ParagraphEnd => if b.state is InParagraph {
            BuilderModel {
                state: BuilderState::AccumulatingNothing,
                acc: Seq::empty(),
                issues: b.issues.push(
                    IssueModel { title: b.title, description: b.acc, metadata: Option::None },
                ),
                ..b
            }
        } else {
            b
        },
        EventModel::Text(t) => if !(b.state is AccumulatingNothing) {
            BuilderModel { acc: b.acc + t, ..b }
        } else {
            b
        },
        EventModel::SoftBreak => if !(b.state is AccumulatingNothing) {
            BuilderModel { acc: b.acc + seq!['\n'], ..b }
        } else {
            b
        },
        EventModel::Other => b,
    }
}

/// The builder state after a whole event sequence.
pub open spec fn steps_spec(b: BuilderModel, es: Seq<EventModel>) -> BuilderModel
    decreases es.len(),
{
    if es.len() == 0 {
        b
    } else {
        steps_spec(step_spec(b, es[0]), es.drop_first())
    }
}

/// The document an event sequence describes: the issues committed by a run
/// of the builder from its initial state, and no document metadata (the
/// markdown mode has no construct for it).
pub open spec fn build_spec(es: Seq<EventModel>) -> DocumentModel {
    DocumentModel { metadata: Option::None, issues: steps_spec(init_builder(), es).issues }
}

/// The Document Builder. Owns its scratch accumulation exclusively for the
/// duration of one parse call.
pub struct Builder {
    state: BuilderState,
    acc: String,
    title: String,
    issues: Vec<Issue>,
}

impl View for Builder {
    type V = BuilderModel;

    closed spec fn view(&self) -> BuilderModel {
        BuilderModel {
            state: self.state,
            acc: self.acc@,
            title: self.title@,
            issues: self.issues@.map_values(|i: Issue| i@),
        }
    }
}

impl Builder {
    /// Issues committed so far carry well-formed metadata.
    pub closed spec fn wf(&self) -> bool {
        forall|i: int| 0 <= i < self.issues@.len() ==> (#[trigger] self.issues@[i]).wf()
    }

    /// A fresh builder.
    pub fn new() -> (r: Builder)
        ensures
            r@ == init_builder(),
            r.wf(),
    {
        let r = Builder {
            state: BuilderState::AccumulatingNothing,
            acc: String::new(),
            title: String::new(),
            issues: Vec::new(),
        };
        proof {
            assert(r@ =~= init_builder());
        }
        r
    }

    /// Feed one event to the builder.
    pub fn step(&mut self, e: &Event)
        requires
            old(self).wf(),
        ensures
            final(self)@ == step_spec(old(self)@, e@),
            final(self).wf(),
    {
        match e {
            Event::HeadingStart => {
                if !matches!(self.state, BuilderState::InParagraph) {
                    self.state = BuilderState::InHeading;
                    self.acc = String::new();
                    self.title = String::new();
                }
            },
            Event::HeadingEnd => {
                if matches!(self.state, BuilderState::InHeading) {
                    self.state = BuilderState::AccumulatingNothing;
                    self.title = self.acc.clone();
                    self.acc = String::new();
                }
            },
            Event::ParagraphStart => {
                if matches!(self.state, BuilderState::AccumulatingNothing) {
                    self.state = BuilderState::InParagraph;
                }
            },
            Event::ParagraphEnd => {
                if matches!(self.state, BuilderState::InParagraph) {
                    self.state = BuilderState::AccumulatingNothing;
                    let issue = Issue {
                        metadata: Option::None,
                        title: self.title.clone(),
                        description: self.acc.clone(),
                    };
                    self.issues.push(issue);
                    self.acc = String::new();
                    proof {
                        assert(self.issues@.map_values(|i: Issue| i@) =~= old(
                            self,
                        ).issues@.map_values(|i: Issue| i@).push(self.issues@.last()@));
                    }
                }
            },
            Event::Text(t) => {
                if !matches!(self.state, BuilderState::AccumulatingNothing) {
                    self.acc.append(t.as_str());
                }
            },
            Event::SoftBreak => {
                if !matches!(self.state, BuilderState::AccumulatingNothing) {
                    self.acc.append("\n");
                    proof {
                        reveal_strlit("\n");
                        assert(self.acc@ =~= old(self).acc@ + seq!['\n']);
                    }
                }
            },
            Event::Other => {},
        }
        proof {
            assert(final(self)@ =~= step_spec(old(self)@, e@));
        }
    }

    /// Hand the committed issues out as a document.
    pub fn into_document(self) -> (d: Document)
        requires
            self.wf(),
        ensures
            d@.metadata is None,
            d@.issues == self@.issues,
            d.wf(),
    {
        Document { metadata: Option::None, issues: self.issues }
    }
}

/// Folding one more event equals stepping the fold's result once.
proof fn lemma_steps_push(b: BuilderModel, es: Seq<EventModel>, e: EventModel)
    ensures
        steps_spec(b, es.push(e)) == step_spec(steps_spec(b, es), e),
    decreases es.len(),
{
    if es.len() == 0 {
        assert(es.push(e).drop_first() =~= Seq::<EventModel>::empty());
        assert(es.push(e)[0] == e);
        assert(steps_spec(step_spec(b, e), Seq::<EventModel>::empty()) == step_spec(b, e));
    } else {
        assert(es.push(e).drop_first() =~= es.drop_first().push(e));
        lemma_steps_push(step_spec(b, es[0]), es.drop_first(), e);
    }
}

/// Folding a concatenation equals folding the pieces in turn.
proof fn lemma_steps_append(b: BuilderModel, es1: Seq<EventModel>, es2: Seq<EventModel>)
    ensures
        steps_spec(b, es1 + es2) == steps_spec(steps_spec(b, es1), es2),
    decreases es1.len(),
{
    if es1.len() == 0 {
        assert(es1 + es2 =~= es2);
    } else {
        assert((es1 + es2)[0] == es1[0]);
        assert((es1 + es2).drop_first() =~= es1.drop_first() + es2);
        lemma_steps_append(step_spec(b, es1[0]), es1.drop_first(), es2);
    }
}

/// Build a document from a full event sequence.
pub fn build_document(events: &Vec<Event>) -> (d: Document)
    ensures
        d@ == build_spec(events@.map_values(|e: Event| e@)),
        d.wf(),
{
    let ghost es = events@.map_values(|e: Event| e@);
    let mut b = Builder::new();
    let mut i: usize = 0;
    while i < events.len()
        invariant
            0 <= i <= events@.len(),
            es == events@.map_values(|e: Event| e@),
            b.wf(),
            b@ == steps_spec(init_builder(), es.take(i as int)),
        decreases events@.len() - i,
    {
        b.step(&events[i]);
        proof {
            lemma_steps_push(init_builder(), es.take(i as int), es[i as int]);
            assert(es.take(i + 1) =~= es.take(i as int).push(es[i as int]));
        }
        i += 1;
    }
    proof {
        assert(es.take(es.len() as int) =~= es);
    }
    let d = b.into_document();
    proof {
        assert(d@ =~= build_spec(es));
    }
    d
}

/// A run of pure text content: text runs and soft breaks only.
pub open spec fn text_run(es: Seq<EventModel>) -> bool {
    forall|i: int| 0 <= i < es.len() ==> (es[i] is Text || es[i] is SoftBreak)
}

/// The text a run accumulates: text verbatim, each soft break one newline.
pub open spec fn accum(es: Seq<EventModel>) -> Seq<char>
    decreases es.len(),
{
    if es.len() == 0 {
        Seq::empty()
    } else {
        (match es[0] {
            EventModel::Text(t) => t,
            _ => seq!['\n'],
        }) + accum(es.drop_first())
    }
}

/// The events of one heading immediately followed by one paragraph.
pub open spec fn block_events(t: Seq<EventModel>, p: Seq<EventModel>) -> Seq<EventModel> {
    seq![EventModel::HeadingStart] + t + seq![EventModel::HeadingEnd, EventModel::ParagraphStart]
        + p + seq![EventModel::ParagraphEnd]
}

/// The events of a list of heading/paragraph blocks, in order.
pub open spec fn blocks_events(bs: Seq<(Seq<EventModel>, Seq<EventModel>)>) -> Seq<EventModel>
    decreases bs.len(),
{
    if bs.len() == 0 {
        Seq::empty()
    } else {
        block_events(bs[0].0, bs[0].1) + blocks_events(bs.drop_first())
    }
}

/// The issue one heading/paragraph block describes.
pub open spec fn block_issue(t: Seq<EventModel>, p: Seq<EventModel>) -> IssueModel {
    IssueModel { title: accum(t), description: accum(p), metadata: Option::None }
}

/// In an accumulating state, a text run only extends the accumulator.
proof fn lemma_text_run_steps(b: BuilderModel, es: Seq<EventModel>)
    requires
        b.state is InHeading || b.state is InParagraph,
        text_run(es),
    ensures
        steps_spec(b, es) == (BuilderModel { acc: b.acc + accum(es), ..b }),
    decreases es.len(),
{
    if es.len() == 0 {
        assert(b.acc + accum(es) =~= b.acc);
        assert(steps_spec(b, es) =~= (BuilderModel { acc: b.acc + accum(es), ..b }));
    } else {
        let b1 = step_spec(b, es[0]);
        lemma_text_run_steps(b1, es.drop_first());
        assert(b1.acc + accum(es.drop_first()) =~= b.acc + accum(es));
    }
}

/// The single transition a singleton sequence performs.
proof fn lemma_steps_one(b: BuilderModel, e: EventModel)
    ensures
        steps_spec(b, seq![e]) == step_spec(b, e),
{
    lemma_steps_push(b, Seq::empty(), e);
    assert(Seq::<EventModel>::empty().push(e) =~= seq![e]);
    assert(steps_spec(b, Seq::<EventModel>::empty()) == b);
}

/// One block, fed to an idle builder, commits exactly its issue.
proof fn lemma_block_steps(b: BuilderModel, t: Seq<EventModel>, p: Seq<EventModel>)
    requires
        b.state is AccumulatingNothing,
        text_run(t),
        text_run(p),
    ensures
        steps_spec(b, block_events(t, p)) == (BuilderModel {
            state: BuilderState::AccumulatingNothing,
            acc: Seq::empty(),
            title: accum(t),
            issues: b.issues.push(block_issue(t, p)),
        }),
{
    let hs = seq![EventModel::HeadingStart];
    let mid = seq![EventModel::HeadingEnd, EventModel::ParagraphStart];
    let pe = seq![EventModel::ParagraphEnd];
    let b1 = step_spec(b, EventModel::HeadingStart);
    lemma_steps_one(b, EventModel::HeadingStart);
    let b2 = steps_spec(b1, t);
    lemma_text_run_steps(b1, t);
    assert(b2.acc =~= accum(t));
    let b3 = steps_spec(b2, mid);
    assert(mid.drop_first() =~= seq![EventModel::ParagraphStart]);
    lemma_steps_one(step_spec(b2, EventModel::HeadingEnd), EventModel::ParagraphStart);
    let b4 = steps_spec(b3, p);
    lemma_text_run_steps(b3, p);
    assert(b4.acc =~= accum(p));
    let b5 = steps_spec(b4, pe);
    lemma_steps_one(b4, EventModel::ParagraphEnd);
    lemma_steps_append(b, hs, t);
    assert(hs + t =~= hs + t);
    lemma_steps_append(b, hs + t, mid);
    lemma_steps_append(b, hs + t + mid, p);
    lemma_steps_append(b, hs + t + mid + p, pe);
    assert(block_events(t, p) =~= hs + t + mid + p + pe);
    assert(steps_spec(b, hs) == b1);
    assert(b5 =~= (BuilderModel {
        state: BuilderState::AccumulatingNothing,
        acc: Seq::empty(),
        title: accum(t),
        issues: b.issues.push(block_issue(t, p)),
    }));
}

/// Blocks fed to an idle builder commit exactly their issues, in order.
proof fn lemma_blocks_steps(b: BuilderModel, bs: Seq<(Seq<EventModel>, Seq<EventModel>)>)
    requires
        b.state is AccumulatingNothing,
        forall|i: int| 0 <= i < bs.len() ==> text_run((#[trigger] bs[i]).0) && text_run(bs[i].1),
    ensures
        steps_spec(b, blocks_events(bs)).state is AccumulatingNothing,
        steps_spec(b, blocks_events(bs)).issues == b.issues + bs.map_values(
            |pr: (Seq<EventModel>, Seq<EventModel>)| block_issue(pr.0, pr.1),
        ),
    decreases bs.len(),
{
    let f = |pr: (Seq<EventModel>, Seq<EventModel>)| block_issue(pr.0, pr.1);
    if bs.len() == 0 {
        assert(b.issues + bs.map_values(f) =~= b.issues);
    } else {
        lemma_steps_append(b, block_events(bs[0].0, bs[0].1), blocks_events(bs.drop_first()));
        lemma_block_steps(b, bs[0].0, bs[0].1);
        let b1 = steps_spec(b, block_events(bs[0].0, bs[0].1));
        lemma_blocks_steps(b1, bs.drop_first());
        assert(b1.issues + bs.drop_first().map_values(f) =~= b.issues + bs.map_values(f)) by {
            assert(bs.map_values(f) =~= seq![f(bs[0])] + bs.drop_first().map_values(f));
            assert(b.issues.push(f(bs[0])) =~= b.issues + seq![f(bs[0])]);
        }
    }
}

/// LAW: for input made of heading/paragraph pairs — each heading immediately
/// followed by exactly one paragraph — building yields exactly one issue per
/// pair, in source order, the title and description being the concatenated
/// text of the pair's runs with soft breaks rendered as newline characters,
/// and no document metadata.
pub proof fn lemma_heading_paragraph_pairs(bs: Seq<(Seq<EventModel>, Seq<EventModel>)>)
    requires
        forall|i: int| 0 <= i < bs.len() ==> text_run((#[trigger] bs[i]).0) && text_run(bs[i].1),
    ensures
        build_spec(blocks_events(bs)).metadata is None,
        build_spec(blocks_events(bs)).issues == bs.map_values(
            |pr: (Seq<EventModel>, Seq<EventModel>)| block_issue(pr.0, pr.1),
        ),
{
    lemma_blocks_steps(init_builder(), bs);
    assert(Seq::<IssueModel>::empty() + bs.map_values(
        |pr: (Seq<EventModel>, Seq<EventModel>)| block_issue(pr.0, pr.1),
    ) =~= bs.map_values(|pr: (Seq<EventModel>, Seq<EventModel>)| block_issue(pr.0, pr.1)));
}

/// No transition but a paragraph end ever commits an issue.
proof fn lemma_no_paragraph_end_steps(b: BuilderModel, es: Seq<EventModel>)
    requires
        forall|i: int| 0 <= i < es.len() ==> !(es[i] is ParagraphEnd),
    ensures
        steps_spec(b, es).issues == b.issues,
    decreases es.len(),
{
    if es.len() > 0 {
        assert(step_spec(b, es[0]).issues == b.issues);
        lemma_no_paragraph_end_steps(step_spec(b, es[0]), es.drop_first());
    }
}

/// LAW: a trailing heading with no following paragraph before the end of
/// input — indeed any tail of events without a paragraph end — contributes
/// no issue to the document.
pub proof fn lemma_trailing_heading_dropped(es: Seq<EventModel>, tail: Seq<EventModel>)
    requires
        forall|i: int| 0 <= i < tail.len() ==> !(tail[i] is ParagraphEnd),
    ensures
        build_spec(es + tail).issues == build_spec(es).issues,
{
    lemma_steps_append(init_builder(), es, tail);
    lemma_no_paragraph_end_steps(steps_spec(init_builder(), es), tail);
}

} // verus!
