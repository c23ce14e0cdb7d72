//! A tokenizer for the narrow markdown grammar the extraction consumes:
//! a heading line (one or more hash marks, a space, the title) starts a new
//! issue; runs of non-blank lines form paragraphs; a blank line or a heading
//! ends an open paragraph; line breaks inside a paragraph are soft breaks.

use vstd::prelude::*;
use vstd::string::StrSliceExecFns;
use crate::builder::{build_document, build_spec, Event, EventModel};
use crate::model::Document;

verus! {

/// The lines of a text, split at each newline character.
pub open spec fn split_lines_spec(s: Seq<char>) -> Seq<Seq<char>>
    decreases s.len(),
{
    if s.len() == 0 {
        seq![Seq::empty()]
    } else if s.last() == '\n' {
        split_lines_spec(s.drop_last()).push(Seq::empty())
    } else {
        let r = split_lines_spec(s.drop_last());
        r.update(r.len() - 1, r.last().push(s.last()))
    }
}

/// Split a text into its lines.
fn split_lines(s: &str) -> (r: Vec<String>)
    ensures
        r@.map_values(|l: String| l@) == split_lines_spec(s@),
{
    let n = s.unicode_len();
    let mut lines: Vec<String> = Vec::new();
    let mut start: usize = 0;
    let mut i: usize = 0;
    proof {
        assert(s@.take(0) =~= Seq::<char>::empty());
        assert(split_lines_spec(s@.take(0)) =~~= lines@.map_values(|l: String| l@).push(
            s@.subrange(0, 0),
        ));
    }
    while i < n
        invariant
            0 <= start <= i <= n,
            n == s@.len(),
            split_lines_spec(s@.take(i as int)) =~~= lines@.map_values(|l: String| l@).push(
                s@.subrange(start as int, i as int),
            ),
        decreases n - i,
    {
        let ghost lm0 = lines@.map_values(|l: String| l@);
        let c = s.get_char(i);
        if c == '\n' {
            let line = s.substring_char(start, i).to_owned();
            lines.push(line);
            proof {
                assert(s@.take(i + 1).drop_last() =~= s@.take(i as int));
                assert(s@.take(i + 1).last() == s@[i as int]);
                assert(lines@.map_values(|l: String| l@) =~~= lm0.push(
                    s@.subrange(start as int, i as int),
                ));
                assert(split_lines_spec(s@.take(i + 1)) =~~= lines@.map_values(
                    |l: String| l@,
                ).push(s@.subrange(i + 1, i + 1)));
            }
            start = i + 1;
        } else {
            proof {
                assert(s@.take(i + 1).drop_last() =~= s@.take(i as int));
                assert(s@.take(i + 1).last() == s@[i as int]);
                let r0 = split_lines_spec(s@.take(i as int));
                assert(r0.update(r0.len() - 1, r0.last().push(s@[i as int])) =~~= lm0.push(
                    s@.subrange(start as int, i as int).push(s@[i as int]),
                ));
                assert(s@.subrange(start as int, i as int).push(s@[i as int]) =~= s@.subrange(
                    start as int,
                    i + 1,
                ));
                assert(split_lines_spec(s@.take(i + 1)) =~~= lm0.push(
                    s@.subrange(start as int, i + 1),
                ));
            }
        }
        i += 1;
    }
    let line = s.substring_char(start, n).to_owned();
    lines.push(line);
    proof {
        assert(s@.take(n as int) =~= s@);
        assert(lines@.map_values(|l: String| l@) =~~= split_lines_spec(s@));
    }
    lines
}

/// The line with its leading hash marks removed.
pub open spec fn after_hashes(line: Seq<char>) -> Seq<char>
    decreases line.len(),
{
    if line.len() > 0 && line[0] == '#' {
        after_hashes(line.drop_first())
    } else {
        line
    }
}

/// A heading line: one or more hash marks, then a space, then the title.
pub open spec fn is_heading(line: Seq<char>) -> bool {
    &&& after_hashes(line) != line
    &&& after_hashes(line).len() > 0
    &&& after_hashes(line)[0] == ' '
}

/// The title text of a heading line.
pub open spec fn title_of(line: Seq<char>) -> Seq<char> {
    after_hashes(line).drop_first()
}

/// Removing the leading hash marks skips exactly the leading hash run.
proof fn lemma_after_hashes_skip(line: Seq<char>, k: int)
    requires
        0 <= k <= line.len(),
        forall|j: int| 0 <= j < k ==> line[j] == '#',
        k == line.len() || line[k] != '#',
    ensures
        after_hashes(line) == line.skip(k),
    decreases k,
{
    if k == 0 {
        assert(line.skip(0) =~= line);
    } else {
        assert(line[0] == '#');
        assert(forall|j: int| 0 <= j < k - 1 ==> line.drop_first()[j] == '#');
        lemma_after_hashes_skip(line.drop_first(), k - 1);
        assert(line.drop_first().skip(k - 1) =~= line.skip(k));
    }
}

/// Length of the leading hash run of a line.
fn hash_run(line: &str, k: usize) -> (r: usize)
    requires
        k <= line@.len(),
        forall|j: int| 0 <= j < k ==> line@[j] == '#',
    ensures
        k <= r <= line@.len(),
        forall|j: int| 0 <= j < r ==> line@[j] == '#',
        r == line@.len() || line@[r as int] != '#',
    decreases line@.len() - k,
{
    if k < line.unicode_len() {
        if line.get_char(k) == '#' {
            return hash_run(line, k + 1);
        }
    }
    k
}

/// The title of a heading line, or nothing for any other line.
fn heading_title(line: &str) -> (r: Option<String>)
    ensures
        match r {
            Some(t) => is_heading(line@) && t@ == title_of(line@),
            None => !is_heading(line@),
        },
{
    let m = line.unicode_len();
    let k = hash_run(line, 0);
    proof {
        lemma_after_hashes_skip(line@, k as int);
        assert(line@.skip(k as int).len() == line@.len() - k);
    }
    if 1 <= k && k < m {
        if line.get_char(k) == ' ' {
            let t = line.substring_char(k + 1, m).to_owned();
            proof {
                assert(line@.skip(k as int)[0] == line@[k as int]);
                assert(line@.subrange(k + 1, m as int) =~= line@.skip(k as int).drop_first());
            }
            return Some(t);
        }
        proof {
            assert(line@.skip(k as int)[0] == line@[k as int]);
        }
        return None;
    }
    None
}

/// ASCII whitespace.
pub open spec fn is_space(c: char) -> bool {
    c == ' ' || c == '\t' || c == '\r' || c == '\n'
}

/// A blank line: no character other than whitespace.
pub open spec fn is_blank(line: Seq<char>) -> bool {
    forall|i: int| 0 <= i < line.len() ==> is_space(line[i])
}

/// Whether a line is blank.
fn is_blank_line(line: &str) -> (r: bool)
    ensures
        r == is_blank(line@),
{
    let m = line.unicode_len();
    let mut i: usize = 0;
    while i < m
        invariant
            0 <= i <= m,
            m == line@.len(),
            forall|j: int| 0 <= j < i ==> is_space(line@[j]),
        decreases m - i,
    {
        let c = line.get_char(i);
        if !(c == ' ' || c == '\t' || c == '\r' || c == '\n') {
            return false;
        }
        i += 1;
    }
    true
}

/// The events of a list of lines, given whether a paragraph is open.
pub open spec fn tokenize_lines(lines: Seq<Seq<char>>, in_para: bool) -> Seq<EventModel>
    decreases lines.len(),
{
    if lines.len() == 0 {
        if in_para {
            seq![EventModel::ParagraphEnd]
        } else {
            Seq::empty()
        }
    } else {
        let l = lines[0];
        let rest = lines.drop_first();
        if is_heading(l) {
            (if in_para {
                seq![EventModel::ParagraphEnd]
            } else {
                Seq::empty()
            }) + seq![
                EventModel::HeadingStart,
                EventModel::Text(title_of(l)),
                EventModel::HeadingEnd,
            ] + tokenize_lines(rest, false)
        } else if is_blank(l) {
            (if in_para {
                seq![EventModel::ParagraphEnd]
            } else {
                Seq::empty()
            }) + tokenize_lines(rest, false)
        } else if in_para {
            seq![EventModel::SoftBreak, EventModel::Text(l)] + tokenize_lines(rest, true)
        } else {
            seq![EventModel::ParagraphStart, EventModel::Text(l)] + tokenize_lines(rest, true)
        }
    }
}

/// The event stream of a markdown text.
pub open spec fn tokenize_spec(s: Seq<char>) -> Seq<EventModel> {
    tokenize_lines(split_lines_spec(s), false)
}

/// Turn markdown text into its stream of structural events.
pub fn tokenize(text: &str) -> (r: Vec<Event>)
    ensures
        r@.map_values(|e: Event| e@) == tokenize_spec(text@),
{
    let lines = split_lines(text);
    let ghost lv = lines@.map_values(|l: String| l@);
    let mut events: Vec<Event> = Vec::new();
    let mut in_para = false;
    let mut i: usize = 0;
    proof {
        assert(lv.skip(0) =~= lv);
        assert(events@.map_values(|e: Event| e@) =~= Seq::<EventModel>::empty());
        assert(Seq::<EventModel>::empty() + tokenize_lines(lv, false) =~= tokenize_lines(
            lv,
            false,
        ));
    }
    while i < lines.len()
        invariant
            0 <= i <= lines@.len(),
            lv == lines@.map_values(|l: String| l@),
            lv == split_lines_spec(text@),
            events@.map_values(|e: Event| e@) + tokenize_lines(lv.skip(i as int), in_para)
                =~= tokenize_lines(lv, false),
        decreases lines@.len() - i,
    {
        let ghost ev0 = events@.map_values(|e: Event| e@);
        let ghost ip0 = in_para;
        let ghost rest0 = lv.skip(i as int);
        proof {
            assert(rest0[0] == lv[i as int]);
            assert(rest0.drop_first() =~= lv.skip(i + 1));
        }
        let line = lines[i].clone();
        match heading_title(line.as_str()) {
            Some(t) => {
                if in_para {
                    events.push(Event::ParagraphEnd);
                }
                events.push(Event::HeadingStart);
                events.push(Event::Text(t));
                events.push(Event::HeadingEnd);
                in_para = false;
                proof {
                    let delta = (if ip0 {
                        seq![EventModel::ParagraphEnd]
                    } else {
                        Seq::<EventModel>::empty()
                    }) + seq![
                        EventModel::HeadingStart,
                        EventModel::Text(title_of(line@)),
                        EventModel::HeadingEnd,
                    ];
                    assert(events@.map_values(|e: Event| e@) =~= ev0 + delta);
                    assert(tokenize_lines(rest0, ip0) =~= delta + tokenize_lines(
                        lv.skip(i + 1),
                        false,
                    ));
                    assert(events@.map_values(|e: Event| e@) + tokenize_lines(
                        lv.skip(i + 1),
                        false,
                    ) =~= ev0 + tokenize_lines(rest0, ip0));
                }
            },
            None => {
                if is_blank_line(line.as_str()) {
                    if in_para {
                        events.push(Event::ParagraphEnd);
                    }
                    in_para = false;
                    proof {
                        let delta = if ip0 {
                            seq![EventModel::ParagraphEnd]
                        } else {
                            Seq::<EventModel>::empty()
                        };
                        assert(events@.map_values(|e: Event| e@) =~= ev0 + delta);
                        assert(tokenize_lines(rest0, ip0) =~= delta + tokenize_lines(
                            lv.skip(i + 1),
                            false,
                        ));
                        assert(events@.map_values(|e: Event| e@) + tokenize_lines(
                            lv.skip(i + 1),
                            false,
                        ) =~= ev0 + tokenize_lines(rest0, ip0));
                    }
                } else if in_para {
                    events.push(Event::SoftBreak);
                    events.push(Event::Text(line));
                    proof {
                        let delta = seq![
                            EventModel::SoftBreak,
                            EventModel::Text(lv[i as int]),
                        ];
                        assert(events@.map_values(|e: Event| e@) =~= ev0 + delta);
                        assert(tokenize_lines(rest0, ip0) =~= delta + tokenize_lines(
                            lv.skip(i + 1),
                            true,
                        ));
                        assert(events@.map_values(|e: Event| e@) + tokenize_lines(
                            lv.skip(i + 1),
                            true,
                        ) =~= ev0 + tokenize_lines(rest0, ip0));
                    }
                } else {
                    events.push(Event::ParagraphStart);
                    events.push(Event::Text(line));
                    in_para = true;
                    proof {
                        let delta = seq![
                            EventModel::ParagraphStart,
                            EventModel::Text(lv[i as int]),
                        ];
                        assert(events@.map_values(|e: Event| e@) =~= ev0 + delta);
                        assert(tokenize_lines(rest0, ip0) =~= delta + tokenize_lines(
                            lv.skip(i + 1),
                            true,
                        ));
                        assert(events@.map_values(|e: Event| e@) + tokenize_lines(
                            lv.skip(i + 1),
                            true,
                        ) =~= ev0 + tokenize_lines(rest0, ip0));
                    }
                }
            },
        }
        i += 1;
    }
    proof {
        assert(lv.skip(lv.len() as int) =~= Seq::<Seq<char>>::empty());
    }
    if in_para {
        let ghost ev0 = events@.map_values(|e: Event| e@);
        events.push(Event::ParagraphEnd);
        proof {
            assert(events@.map_values(|e: Event| e@) =~= ev0 + seq![EventModel::ParagraphEnd]);
        }
    } else {
        proof {
            assert(events@.map_values(|e: Event| e@) + Seq::<EventModel>::empty()
                =~= events@.map_values(|e: Event| e@));
        }
    }
    events
}

/// Parse markdown text in the narrow grammar: each heading starts a new
/// issue, and the first paragraph after it is that issue's description.
pub fn parse_markdown(text: &str) -> (d: Document)
    ensures
        d@ == build_spec(tokenize_spec(text@)),
        d.wf(),
{
    let events = tokenize(text);
    build_document(&events)
}

/// No newline character in the text.
pub open spec fn no_newline(s: Seq<char>) -> bool {
    forall|i: int| 0 <= i < s.len() ==> s[i] != '\n'
}

/// The canonical markdown text of heading/paragraph pairs: for each pair
/// one heading line and one paragraph line, a blank line after each pair.
pub open spec fn pairs_text(bs: Seq<(Seq<char>, Seq<char>)>) -> Seq<char>
    decreases bs.len(),
{
    if bs.len() == 0 {
        Seq::empty()
    } else {
        pairs_text(bs.drop_last()) + seq!['#', ' '] + bs.last().0 + seq!['\n'] + bs.last().1
            + seq!['\n', '\n']
    }
}

/// The lines of that text, short of the final empty line.
pub open spec fn pairs_lines(bs: Seq<(Seq<char>, Seq<char>)>) -> Seq<Seq<char>>
    decreases bs.len(),
{
    if bs.len() == 0 {
        Seq::empty()
    } else {
        pairs_lines(bs.drop_last()) + seq![
            seq!['#', ' '] + bs.last().0,
            bs.last().1,
            Seq::empty(),
        ]
    }
}

/// Splitting yields at least one line.
proof fn lemma_split_nonempty(s: Seq<char>)
    ensures
        split_lines_spec(s).len() >= 1,
    decreases s.len(),
{
    if s.len() > 0 {
        lemma_split_nonempty(s.drop_last());
    }
}

/// Appending newline-free text extends the last line.
proof fn lemma_split_append(s: Seq<char>, l: Seq<char>)
    requires
        no_newline(l),
    ensures
        split_lines_spec(s + l) == split_lines_spec(s).update(
            split_lines_spec(s).len() - 1,
            split_lines_spec(s).last() + l,
        ),
    decreases l.len(),
{
    let r0 = split_lines_spec(s);
    lemma_split_nonempty(s);
    if l.len() == 0 {
        assert(s + l =~= s);
        assert(r0.last() + l =~= r0.last());
        assert(r0.update(r0.len() - 1, r0.last()) =~~= r0);
    } else {
        assert(forall|i: int| 0 <= i < l.drop_last().len() ==> l.drop_last()[i] != '\n');
        lemma_split_append(s, l.drop_last());
        let r1 = split_lines_spec(s + l.drop_last());
        assert(s + l =~= (s + l.drop_last()).push(l.last()));
        assert((s + l).last() == l.last());
        assert((s + l).drop_last() =~= s + l.drop_last());
        assert(split_lines_spec(s + l) == r1.update(r1.len() - 1, r1.last().push(l.last())));
        assert(r1.len() == r0.len());
        assert(r1.last() == r0.last() + l.drop_last());
        assert((r0.last() + l.drop_last()).push(l.last()) =~= r0.last() + l);
        assert(r1.update(r1.len() - 1, r1.last().push(l.last())) =~~= r0.update(
            r0.len() - 1,
            r0.last() + l,
        ));
    }
}

/// Appending a newline opens a fresh empty line.
proof fn lemma_split_newline(s: Seq<char>)
    ensures
        split_lines_spec(s + seq!['\n']) == split_lines_spec(s).push(Seq::empty()),
{
    assert((s + seq!['\n']).last() == '\n');
    assert((s + seq!['\n']).drop_last() =~= s);
}

/// The canonical text splits into the pairs' lines plus the final empty one.
proof fn lemma_split_pairs_text(bs: Seq<(Seq<char>, Seq<char>)>)
    requires
        forall|i: int| 0 <= i < bs.len() ==> no_newline((#[trigger] bs[i]).0) && no_newline(
            bs[i].1,
        ),
    ensures
        split_lines_spec(pairs_text(bs)) == pairs_lines(bs).push(Seq::empty()),
    decreases bs.len(),
{
    if bs.len() == 0 {
        assert(split_lines_spec(pairs_text(bs)) =~~= pairs_lines(bs).push(Seq::empty()));
    } else {
        let dl = bs.drop_last();
        assert(forall|i: int| 0 <= i < dl.len() ==> no_newline((#[trigger] dl[i]).0)
            && no_newline(dl[i].1));
        lemma_split_pairs_text(dl);
        let t = pairs_text(dl);
        let hl = seq!['#', ' '] + bs.last().0;
        assert(bs[bs.len() - 1] == bs.last());
        assert(no_newline(bs.last().0) && no_newline(bs.last().1));
        assert(no_newline(hl));
        let s1 = t + hl;
        lemma_split_append(t, hl);
        assert(split_lines_spec(s1) =~~= pairs_lines(dl).push(Seq::empty() + hl));
        assert(Seq::empty() + hl =~= hl);
        assert(split_lines_spec(s1) =~~= pairs_lines(dl).push(hl));
        let s2 = s1 + seq!['\n'];
        lemma_split_newline(s1);
        let s3 = s2 + bs.last().1;
        lemma_split_append(s2, bs.last().1);
        assert(Seq::empty() + bs.last().1 =~= bs.last().1);
        assert(split_lines_spec(s3) =~~= pairs_lines(dl).push(hl).push(bs.last().1));
        let s4 = s3 + seq!['\n'];
        lemma_split_newline(s3);
        let s5 = s4 + seq!['\n'];
        lemma_split_newline(s4);
        assert(pairs_text(bs) =~= s5) by {
            assert(pairs_text(bs) == t + seq!['#', ' '] + bs.last().0 + seq!['\n'] + bs.last().1
                + seq!['\n', '\n']);
        }
        assert(split_lines_spec(s5) =~~= pairs_lines(dl).push(hl).push(bs.last().1).push(
            Seq::empty(),
        ).push(Seq::empty()));
        assert(pairs_lines(bs).push(Seq::empty()) =~~= pairs_lines(dl).push(hl).push(
            bs.last().1,
        ).push(Seq::empty()).push(Seq::empty()));
    }
}

/// A line of one or more hash marks and a space is a heading with the rest
/// as its title.
proof fn lemma_heading_line(t: Seq<char>)
    ensures
        is_heading(seq!['#', ' '] + t),
        title_of(seq!['#', ' '] + t) == t,
{
    let hl = seq!['#', ' '] + t;
    assert(hl[0] == '#');
    assert(hl.drop_first() =~= seq![' '] + t);
    assert((seq![' '] + t).len() > 0 && (seq![' '] + t)[0] == ' ');
    assert(after_hashes(seq![' '] + t) == seq![' '] + t);
    assert(after_hashes(hl) == seq![' '] + t);
    assert(after_hashes(hl).len() < hl.len());
    assert((seq![' '] + t).drop_first() =~= t);
}

/// The pair of text-run events one heading/paragraph pair contributes.
pub open spec fn pair_runs(pr: (Seq<char>, Seq<char>)) -> (Seq<EventModel>, Seq<EventModel>) {
    (seq![EventModel::Text(pr.0)], seq![EventModel::Text(pr.1)])
}

/// A single text run accumulates to its own text.
proof fn lemma_accum_one(t: Seq<char>)
    ensures
        crate::builder::accum(seq![EventModel::Text(t)]) == t,
{
    let es = seq![EventModel::Text(t)];
    assert(es[0] == EventModel::Text(t));
    assert(es.drop_first() =~= Seq::<EventModel>::empty());
    assert(crate::builder::accum(Seq::<EventModel>::empty()) == Seq::<char>::empty());
    assert(crate::builder::accum(es) == t + Seq::<char>::empty());
    assert(t + Seq::<char>::empty() =~= t);
}

/// The pairs' lines, cons-style: first pair's three lines, then the rest.
proof fn lemma_pairs_lines_cons(bs: Seq<(Seq<char>, Seq<char>)>)
    requires
        bs.len() > 0,
    ensures
        pairs_lines(bs) == seq![seq!['#', ' '] + bs[0].0, bs[0].1, Seq::<char>::empty()]
            + pairs_lines(bs.drop_first()),
    decreases bs.len(),
{
    if bs.len() == 1 {
        assert(bs.drop_last() =~= Seq::<(Seq<char>, Seq<char>)>::empty());
        assert(bs.drop_first() =~= Seq::<(Seq<char>, Seq<char>)>::empty());
        assert(bs.last() == bs[0]);
        assert(pairs_lines(bs) =~~= seq![
            seq!['#', ' '] + bs[0].0,
            bs[0].1,
            Seq::<char>::empty(),
        ] + pairs_lines(bs.drop_first()));
    } else {
        let dl = bs.drop_last();
        lemma_pairs_lines_cons(dl);
        assert(dl[0] == bs[0]);
        assert(bs.drop_first().drop_last() =~= dl.drop_first());
        assert(bs.drop_first().last() == bs.last());
        assert(pairs_lines(bs.drop_first()) == pairs_lines(dl.drop_first()) + seq![
            seq!['#', ' '] + bs.last().0,
            bs.last().1,
            Seq::<char>::empty(),
        ]);
        assert(pairs_lines(bs) =~~= seq![
            seq!['#', ' '] + bs[0].0,
            bs[0].1,
            Seq::<char>::empty(),
        ] + pairs_lines(bs.drop_first()));
    }
}

/// Tokenizing the pairs' lines followed by anything else yields the pairs'
/// blocks followed by the rest's events.
proof fn lemma_tokenize_pairs_lines(bs: Seq<(Seq<char>, Seq<char>)>, suffix: Seq<Seq<char>>)
    requires
        forall|i: int| 0 <= i < bs.len() ==> !is_heading((#[trigger] bs[i]).1) && !is_blank(
            bs[i].1,
        ),
    ensures
        tokenize_lines(pairs_lines(bs) + suffix, false) == crate::builder::blocks_events(
            bs.map_values(|pr: (Seq<char>, Seq<char>)| pair_runs(pr)),
        ) + tokenize_lines(suffix, false),
    decreases bs.len(),
{
    let f = |pr: (Seq<char>, Seq<char>)| pair_runs(pr);
    if bs.len() == 0 {
        assert(pairs_lines(bs) + suffix =~= suffix);
        assert(crate::builder::blocks_events(bs.map_values(f)) + tokenize_lines(suffix, false)
            =~= tokenize_lines(suffix, false));
    } else {
        let hl = seq!['#', ' '] + bs[0].0;
        lemma_pairs_lines_cons(bs);
        lemma_heading_line(bs[0].0);
        let rest = pairs_lines(bs.drop_first()) + suffix;
        let ls = pairs_lines(bs) + suffix;
        assert(ls =~= seq![hl, bs[0].1, Seq::<char>::empty()] + rest);
        assert(ls[0] == hl);
        assert(ls.drop_first() =~= seq![bs[0].1, Seq::<char>::empty()] + rest);
        let ls1 = ls.drop_first();
        assert(ls1[0] == bs[0].1);
        assert(ls1.drop_first() =~= seq![Seq::<char>::empty()] + rest);
        let ls2 = ls1.drop_first();
        assert(ls2[0] =~= Seq::<char>::empty());
        assert(ls2.drop_first() =~= rest);
        assert(!is_heading(Seq::<char>::empty()));
        assert(is_blank(Seq::<char>::empty()));
        assert(forall|i: int| 0 <= i < bs.drop_first().len() ==> !is_heading(
            (#[trigger] bs.drop_first()[i]).1,
        ) && !is_blank(bs.drop_first()[i].1));
        lemma_tokenize_pairs_lines(bs.drop_first(), suffix);
        let tail_events = crate::builder::blocks_events(bs.drop_first().map_values(f))
            + tokenize_lines(suffix, false);
        assert(tokenize_lines(ls2, true) == seq![EventModel::ParagraphEnd] + tokenize_lines(
            rest,
            false,
        ));
        assert(tokenize_lines(ls1, false) == seq![
            EventModel::ParagraphStart,
            EventModel::Text(bs[0].1),
        ] + tokenize_lines(ls2, true));
        assert(tokenize_lines(ls, false) == (Seq::<EventModel>::empty()) + seq![
            EventModel::HeadingStart,
            EventModel::Text(bs[0].0),
            EventModel::HeadingEnd,
        ] + tokenize_lines(ls1, false));
        assert(crate::builder::block_events(seq![EventModel::Text(bs[0].0)], seq![
            EventModel::Text(bs[0].1),
        ]) =~= seq![
            EventModel::HeadingStart,
            EventModel::Text(bs[0].0),
            EventModel::HeadingEnd,
            EventModel::ParagraphStart,
            EventModel::Text(bs[0].1),
            EventModel::ParagraphEnd,
        ]);
        assert(bs.map_values(f)[0] == f(bs[0]));
        assert(bs.map_values(f).drop_first() =~= bs.drop_first().map_values(f));
        assert(crate::builder::blocks_events(bs.map_values(f)) == crate::builder::block_events(
            seq![EventModel::Text(bs[0].0)],
            seq![EventModel::Text(bs[0].1)],
        ) + crate::builder::blocks_events(bs.drop_first().map_values(f)));
        assert(tokenize_lines(ls, false) =~= crate::builder::blocks_events(bs.map_values(f))
            + tokenize_lines(suffix, false));
    }
}

/// LAW: for canonical markdown text of heading/paragraph pairs — each
/// heading line immediately followed by exactly one paragraph line — the
/// parse yields exactly one issue per pair, in source order, with the
/// pair's texts as title and description and no metadata anywhere.
pub proof fn lemma_markdown_pairs(bs: Seq<(Seq<char>, Seq<char>)>)
    requires
        forall|i: int| 0 <= i < bs.len() ==> no_newline((#[trigger] bs[i]).0) && no_newline(
            bs[i].1,
        ) && !is_heading(bs[i].1) && !is_blank(bs[i].1),
    ensures
        build_spec(tokenize_spec(pairs_text(bs))).metadata is None,
        build_spec(tokenize_spec(pairs_text(bs))).issues == bs.map_values(
            |pr: (Seq<char>, Seq<char>)| (crate::model::IssueModel {
                title: pr.0,
                description: pr.1,
                metadata: Option::None,
            }),
        ),
{
    let f = |pr: (Seq<char>, Seq<char>)| pair_runs(pr);
    lemma_split_pairs_text(bs);
    assert(pairs_lines(bs).push(Seq::empty()) =~= pairs_lines(bs) + seq![Seq::<char>::empty()]);
    lemma_tokenize_pairs_lines(bs, seq![Seq::<char>::empty()]);
    assert(!is_heading(Seq::<char>::empty()));
    assert(is_blank(Seq::<char>::empty()));
    assert(seq![Seq::<char>::empty()].drop_first() =~= Seq::<Seq<char>>::empty());
    assert(seq![Seq::<char>::empty()][0] =~= Seq::<char>::empty());
    assert(tokenize_lines(Seq::<Seq<char>>::empty(), false) =~= Seq::<EventModel>::empty());
    assert(tokenize_lines(seq![Seq::<char>::empty()], false) == Seq::<EventModel>::empty()
        + tokenize_lines(Seq::<Seq<char>>::empty(), false));
    assert(Seq::<EventModel>::empty() + Seq::<EventModel>::empty() =~= Seq::<
        EventModel,
    >::empty());
    assert(tokenize_spec(pairs_text(bs)) =~= crate::builder::blocks_events(bs.map_values(f)));
    assert(forall|i: int| 0 <= i < bs.map_values(f).len() ==> crate::builder::text_run(
        (#[trigger] bs.map_values(f)[i]).0,
    ) && crate::builder::text_run(bs.map_values(f)[i].1));
    crate::builder::lemma_heading_paragraph_pairs(bs.map_values(f));
    assert(build_spec(crate::builder::blocks_events(bs.map_values(f))).issues =~= bs.map_values(
        |pr: (Seq<char>, Seq<char>)| (crate::model::IssueModel {
            title: pr.0,
            description: pr.1,
            metadata: Option::None,
        }),
    )) by {
        let lhs = bs.map_values(f).map_values(
            |pr: (Seq<EventModel>, Seq<EventModel>)| crate::builder::block_issue(pr.0, pr.1),
        );
        assert forall|i: int| 0 <= i < bs.len() implies lhs[i] == (crate::model::IssueModel {
            title: bs[i].0,
            description: bs[i].1,
            metadata: Option::None,
        }) by {
            lemma_accum_one(bs[i].0);
            lemma_accum_one(bs[i].1);
        }
    }
}

} // verus!
