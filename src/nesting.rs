//! The event stream is well nested: every `Start` is closed by a later `End`
//! of the same tag, ends come innermost first, and nothing is left open at
//! the end, whatever the input.

use vstd::prelude::*;
use crate::event::{EventModel, Tag};
use crate::generator::{
    close_all, document_events, events_from, finished, frame_tag, header_lines, header_step,
    initial, lemma_continuation, lemma_step_progress, lemma_header_lines, lines_left, step, Frame,
    GenState,
};
use crate::header::{attr_entry_of, opt_seq, DocumentAttrWrap, HeaderModel};
use crate::line_scanner::is_blank;
use crate::delimiter::{delimiter_of, Delimiter};
use crate::generator::{mode_of, tag_of, Mode};

verus! {

/// The tags still open after reading `evs` with the tags `open` already
/// open (innermost last); `None` where an `End` does not close the innermost
/// open tag.
pub open spec fn nest(evs: Seq<EventModel>, open: Seq<Tag>) -> Option<Seq<Tag>>
    decreases evs.len(),
{
    if evs.len() == 0 {
        Some(open)
    } else {
        match evs[0] {
            EventModel::Start(t) => nest(evs.drop_first(), open.push(t)),
            EventModel::End(t) => {
                if open.len() > 0 && open.last() == t {
                    nest(evs.drop_first(), open.drop_last())
                } else {
                    None
                }
            },
            _ => nest(evs.drop_first(), open),
        }
    }
}

/// The tags of the open blocks of a stack, innermost last.
pub open spec fn open_tags(stack: Seq<Frame>) -> Seq<Tag> {
    stack.map_values(|f: Frame| frame_tag(f))
}

/// No event of `evs` opens or closes anything.
pub open spec fn flat(evs: Seq<EventModel>) -> bool {
    forall|k: int| 0 <= k < evs.len() ==> !(#[trigger] evs[k] is Start) && !(evs[k] is End)
}

pub proof fn lemma_nest_append(a: Seq<EventModel>, b: Seq<EventModel>, open: Seq<Tag>)
    ensures
        nest(a + b, open) == match nest(a, open) {
            Some(o) => nest(b, o),
            None => None,
        },
    decreases a.len(),
{
    if a.len() == 0 {
        assert(a + b =~= b);
    } else {
        assert((a + b).drop_first() =~= a.drop_first() + b);
        assert((a + b)[0] == a[0]);
        match a[0] {
            EventModel::Start(t) => lemma_nest_append(a.drop_first(), b, open.push(t)),
            EventModel::End(t) => {
                if open.len() > 0 && open.last() == t {
                    lemma_nest_append(a.drop_first(), b, open.drop_last());
                }
            },
            _ => lemma_nest_append(a.drop_first(), b, open),
        }
    }
}

pub proof fn lemma_nest_flat(evs: Seq<EventModel>, open: Seq<Tag>)
    requires
        flat(evs),
    ensures
        nest(evs, open) == Some(open),
    decreases evs.len(),
{
    if evs.len() > 0 {
        assert(!(evs[0] is Start) && !(evs[0] is End));
        assert(flat(evs.drop_first())) by {
            assert forall|k: int| 0 <= k < evs.drop_first().len() implies !(
            #[trigger] evs.drop_first()[k] is Start) && !(evs.drop_first()[k] is End) by {
                assert(evs.drop_first()[k] == evs[k + 1]);
            }
        }
        lemma_nest_flat(evs.drop_first(), open);
    }
}

proof fn lemma_close_all_nest(stack: Seq<Frame>)
    ensures
        nest(close_all(stack), open_tags(stack)) == Some(Seq::<Tag>::empty()),
    decreases stack.len(),
{
    if stack.len() == 0 {
        assert(open_tags(stack) =~= seq![]);
    } else {
        let head = seq![
            EventModel::End(frame_tag(stack.last())),
            EventModel::Diagnostic(crate::event::DiagnosticKind::UnterminatedBlock),
        ];
        lemma_close_all_nest(stack.drop_last());
        lemma_nest_append(head, close_all(stack.drop_last()), open_tags(stack));
        assert(open_tags(stack).drop_last() =~= open_tags(stack.drop_last()));
        assert(head.drop_first().drop_first() =~= seq![]);
        reveal_with_fuel(nest, 3);
        assert(nest(head, open_tags(stack)) == Some(open_tags(stack.drop_last())));
    }
}

proof fn lemma_header_lines_flat(ls: Seq<Seq<char>>, i: int, acc: Seq<EventModel>)
    requires
        flat(acc),
    ensures
        flat(header_lines(ls, i, acc).0),
    decreases ls.len() - i,
{
    if !(i < 0 || i >= ls.len() || is_blank(ls[i])) {
        match attr_entry_of(ls[i]) {
            Some(HeaderModel::Attr { attr, unset, value, wrap }) => {
                lemma_continuation(ls, i + 1, opt_seq(value));
                let c = if wrap == DocumentAttrWrap::NoWrap {
                    (opt_seq(value), i + 1)
                } else {
                    crate::generator::continuation(ls, i + 1, opt_seq(value))
                };
                let a2 = acc.push(EventModel::DocAttribute { name: attr, unset, values: c.0, wraps: crate::generator::entry_wraps(ls, i + 1, value, wrap) });
                assert(flat(a2)) by {
                    assert forall|k: int| 0 <= k < a2.len() implies !(#[trigger] a2[k] is Start) && !(
                    a2[k] is End) by {
                        if k < acc.len() {
                            assert(a2[k] == acc[k]);
                        }
                    }
                }
                lemma_header_lines_flat(ls, c.1, a2);
            },
            _ => {
                let a2 = acc.push(EventModel::Text(crate::text::trim(ls[i]), crate::event::all_subs()));
                assert(flat(a2)) by {
                    assert forall|k: int| 0 <= k < a2.len() implies !(#[trigger] a2[k] is Start) && !(
                    a2[k] is End) by {
                        if k < acc.len() {
                            assert(a2[k] == acc[k]);
                        }
                    }
                }
                lemma_header_lines_flat(ls, i + 1, a2);
            },
        }
    }
}

proof fn lemma_header_nest(ls: Seq<Seq<char>>, p: nat, open: Seq<Tag>)
    ensures
        nest(header_step(ls, p).1, open) == Some(open),
{
    if p < ls.len() && crate::header::title_of(ls[p as int]) is Some {
        let h = header_lines(ls, (p + 1) as int, seq![]);
        lemma_header_lines_flat(ls, (p + 1) as int, seq![]);
        let head = seq![
            EventModel::Start(Tag::DocumentHeader),
            EventModel::Text(crate::header::title_of(ls[p as int])->0, crate::event::all_subs()),
        ];
        let tail = seq![EventModel::End(Tag::DocumentHeader)];
        assert(header_step(ls, p).1 == head + h.0 + tail);
        lemma_nest_append(head + h.0, tail, open);
        lemma_nest_append(head, h.0, open);
        assert(head.drop_first().drop_first() =~= seq![]);
        let o1 = open.push(Tag::DocumentHeader);
        reveal_with_fuel(nest, 3);
        assert(nest(head, open) == Some(o1));
        lemma_nest_flat(h.0, o1);
        assert(tail.drop_first() =~= seq![]);
        assert(o1.drop_last() =~= open);
    } else {
        assert(header_step(ls, p).1 =~= seq![]);
    }
}

proof fn lemma_single(e: EventModel, open: Seq<Tag>)
    ensures
        nest(seq![e], open) == match e {
            EventModel::Start(t) => Some(open.push(t)),
            EventModel::End(t) => if open.len() > 0 && open.last() == t {
                Some(open.drop_last())
            } else {
                None
            },
            _ => Some(open),
        },
{
    assert(seq![e].drop_first() =~= seq![]);
    reveal_with_fuel(nest, 2);
}

proof fn lemma_step_nest(ls: Seq<Seq<char>>, st: GenState)
    requires
        st.started,
        !finished(ls, st),
    ensures
        nest(step(ls, st).1, open_tags(st.stack)) == Some(open_tags(step(ls, st).0.stack)),
{
    let p = st.pos as int;
    let stack = st.stack;
    let s = step(ls, st);
    if p >= ls.len() {
        lemma_close_all_nest(stack);
        assert(open_tags(s.0.stack) =~= seq![]);
    } else if flat(s.1) {
        lemma_nest_flat(s.1, open_tags(stack));
    } else {
        if stack.len() > 0 {
            assert(open_tags(stack).drop_last() =~= open_tags(stack.drop_last()));
            assert(open_tags(stack).last() == frame_tag(stack.last()));
        }
        let f = crate::generator::Frame {
            delimiter: if crate::delimiter::delimiter_of(ls[p]) is Some {
                crate::delimiter::delimiter_of(ls[p])->0
            } else {
                crate::delimiter::Delimiter::Open
            },
            level: #[verifier::truncate] (stack.len() as usize),
        };
        assert(open_tags(stack.push(f)) =~= open_tags(stack).push(frame_tag(f)));
        if s.1.len() == 1 {
            lemma_single(s.1[0], open_tags(stack));
            assert(s.1 =~= seq![s.1[0]]);
        }
    }
}

proof fn lemma_events_nest(ls: Seq<Seq<char>>, st: GenState)
    ensures
        nest(events_from(ls, st), open_tags(st.stack)) == Some(Seq::<Tag>::empty()),
    decreases lines_left(ls, st), st.stack.len(), if st.started {
        0int
    } else {
        1int
    },
{
    if !st.started {
        let h = header_step(ls, st.pos);
        if st.pos < ls.len() {
            lemma_header_lines(ls, (st.pos + 1) as int, seq![]);
        }
        let st2 = GenState { pos: h.0, stack: st.stack, started: true };
        lemma_events_nest(ls, st2);
        lemma_header_nest(ls, st.pos, open_tags(st.stack));
        lemma_nest_append(h.1, events_from(ls, st2), open_tags(st.stack));
    } else if finished(ls, st) {
        assert(open_tags(st.stack) =~= seq![]);
    } else {
        let s = step(ls, st);
        lemma_step_progress(ls, st);
        lemma_events_nest(ls, s.0);
        lemma_step_nest(ls, st);
        lemma_nest_append(s.1, events_from(ls, s.0), open_tags(st.stack));
    }
}

proof fn lemma_fence_not_blank(l: Seq<char>)
    requires
        delimiter_of(l) is Some,
    ensures
        !is_blank(l),
{
    assert(!crate::text::is_ws(l[0]));
}

/// A fence line met where blocks are read, and that is not the fence of the
/// innermost open block, opens a block: the step emits exactly `Start` of
/// the fence's tag at the current depth and pushes that frame.
pub proof fn lemma_fence_opens(ls: Seq<Seq<char>>, st: GenState, d: Delimiter)
    requires
        st.started,
        st.pos < ls.len(),
        delimiter_of(ls[st.pos as int]) == Some(d),
        st.stack.len() == 0 || (st.stack.last().delimiter != d && mode_of(st.stack.last().delimiter)
            == Mode::Blocks),
    ensures
        ({
            let f = (Frame { delimiter: d, level: st.stack.len() as usize });
            &&& step(ls, st).1 == seq![EventModel::Start(tag_of(d, f.level))]
            &&& step(ls, st).0 == (GenState { pos: st.pos + 1, stack: st.stack.push(f), started: true })
        }),
{
    lemma_fence_not_blank(ls[st.pos as int]);
}

/// The fence of the innermost open block closes it: the step emits exactly
/// `End` of the tag that its `Start` carried and pops the frame, whatever
/// the block holds.
pub proof fn lemma_fence_closes(ls: Seq<Seq<char>>, st: GenState)
    requires
        st.started,
        st.pos < ls.len(),
        st.stack.len() > 0,
        delimiter_of(ls[st.pos as int]) == Some(st.stack.last().delimiter),
    ensures
        step(ls, st).1 == seq![EventModel::End(tag_of(st.stack.last().delimiter, st.stack.last().level))],
        step(ls, st).0 == (GenState { pos: st.pos + 1, stack: st.stack.drop_last(), started: true }),
{
    lemma_fence_not_blank(ls[st.pos as int]);
}

/// Whatever the document, its events are well nested: reading them with a
/// stack of open tags, every `End` closes the innermost open `Start` of the
/// same tag (so no two blocks interleave and each pair sits at one depth),
/// and no tag is left open at the end.
pub proof fn lemma_well_nested(s: Seq<char>)
    ensures
        nest(document_events(s), seq![]) == Some(Seq::<Tag>::empty()),
{
    assert(open_tags(initial().stack) =~= seq![]);
    lemma_events_nest(crate::line_scanner::split_lines(s), initial());
}

/// Reading the same text twice gives the same events: `parse_all` and
/// `BlockParser` are held to `document_events`, a function of the text
/// alone.
pub proof fn lemma_deterministic(a: Seq<char>, b: Seq<char>)
    requires
        a == b,
    ensures
        document_events(a) == document_events(b),
{
}

} // verus!
