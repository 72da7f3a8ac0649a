//! Which parts of a paragraph are code, and what styles the other parts have.
use crate::node::inline::{piece_of, InlineView, RangeMarkView};
use crate::node::marks::MarkView;
use crate::node::segments::{
    all_orderly, by_start, code_marks, code_ranges_of, cut_mark, cut_marks, deduped, flow_text,
    inserted, left_at, lemma_node_steps_total, moved_mark, moved_marks, segments_of, within,
    Collected, SegmentView,
};
use crate::text::{
    byte_len, index_at, lemma_clip, lemma_floor_index, lemma_floor_unique, lemma_measure_concat,
    Unit,
};
use core::ops::Range;
use vstd::prelude::*;

verus! {

// ---------------------------------------------------------------------------
// Code

/// Whether one of `marks` says that the bytes of `range` are code.
pub open spec fn marks_code(marks: Seq<RangeMarkView>, range: Range<usize>) -> bool {
    exists|j: int|
        0 <= j < marks.len() && (#[trigger] marks[j]).mark.code && marks[j].range == range
}

proof fn lemma_code_marks(marks: Seq<RangeMarkView>)
    ensures
        forall|k: int|
            0 <= k < code_marks(marks).len() ==> marks_code(marks, #[trigger] code_marks(marks)[k]),
        forall|j: int|
            0 <= j < marks.len() && (#[trigger] marks[j]).mark.code ==> code_marks(marks).contains(
                marks[j].range,
            ),
    decreases marks.len(),
{
    if marks.len() > 0 {
        let rest = marks.drop_last();
        lemma_code_marks(rest);
        let all = code_marks(marks);
        let few = code_marks(rest);
        assert forall|k: int| 0 <= k < all.len() implies marks_code(marks, #[trigger] all[k]) by {
            if k < few.len() {
                assert(all[k] == few[k]);
                assert(marks_code(rest, few[k]));
                let j = choose|j: int|
                    0 <= j < rest.len() && (#[trigger] rest[j]).mark.code && rest[j].range
                        == few[k];
                assert(marks[j] == rest[j]);
            } else {
                assert(marks[marks.len() - 1] == marks.last());
            }
        }
        assert forall|j: int| 0 <= j < marks.len() && (#[trigger] marks[j]).mark.code implies
            all.contains(marks[j].range) by {
            if j < rest.len() {
                assert(rest[j] == marks[j]);
                let k = choose|k: int| 0 <= k < few.len() && few[k] == marks[j].range;
                assert(all[k] == few[k]);
            } else {
                assert(all[all.len() - 1] == marks[j].range);
            }
        }
    }
}

spec fn ascending(s: Seq<Range<usize>>) -> bool {
    forall|i: int, j: int| 0 <= i <= j < s.len() ==> (#[trigger] s[i]).start <= (
    #[trigger] s[j]).start
}

spec fn same_members(a: Seq<Range<usize>>, b: Seq<Range<usize>>) -> bool {
    forall|r: Range<usize>| #[trigger] a.contains(r) <==> b.contains(r)
}

proof fn lemma_contains_push(s: Seq<Range<usize>>, x: Range<usize>)
    ensures
        forall|r: Range<usize>| #[trigger] s.push(x).contains(r) <==> (s.contains(r) || r == x),
{
    assert forall|r: Range<usize>| #[trigger] s.push(x).contains(r) <==> (s.contains(r) || r
        == x) by {
        if s.contains(r) {
            let k = choose|k: int| 0 <= k < s.len() && s[k] == r;
            assert(s.push(x)[k] == r);
        }
        if r == x {
            assert(s.push(x)[s.len() as int] == r);
        }
        if s.push(x).contains(r) {
            let k = choose|k: int| 0 <= k < s.len() + 1 && s.push(x)[k] == r;
            if k < s.len() {
                assert(s[k] == r);
            }
        }
    }
}

proof fn lemma_inserted(s: Seq<Range<usize>>, x: Range<usize>)
    requires
        ascending(s),
    ensures
        ascending(inserted(s, x)),
        same_members(inserted(s, x), s.push(x)),
        inserted(s, x).len() == s.len() + 1,
        inserted(s, x).last().start == if s.len() > 0 && s.last().start > x.start {
            s.last().start
        } else {
            x.start
        },
    decreases s.len(),
{
    lemma_contains_push(s, x);
    if s.len() == 0 || s.last().start <= x.start {
        assert forall|i: int, j: int| 0 <= i <= j < s.push(x).len() implies (
        #[trigger] s.push(x)[i]).start <= (#[trigger] s.push(x)[j]).start by {
            if j == s.len() && i < s.len() {
                assert(s[i].start <= s[s.len() - 1].start);
            }
        }
    } else {
        let rest = s.drop_last();
        assert forall|i: int, j: int| 0 <= i <= j < rest.len() implies (#[trigger] rest[i]).start
            <= (#[trigger] rest[j]).start by {
            assert(rest[i] == s[i] && rest[j] == s[j]);
        }
        lemma_inserted(rest, x);
        let most = inserted(rest, x);
        let all = inserted(s, x);
        lemma_contains_push(most, s.last());
        lemma_contains_push(rest, x);
        lemma_contains_push(rest, s.last());
        assert(rest.push(s.last()) =~= s);
        if rest.len() > 0 {
            assert(s[rest.len() - 1].start <= s[s.len() - 1].start);
        }
        assert forall|i: int, j: int| 0 <= i <= j < all.len() implies (#[trigger] all[i]).start <= (
        #[trigger] all[j]).start by {
            if j == most.len() && i < most.len() {
                assert(most[i].start <= most[most.len() - 1].start);
            }
        }
    }
}

proof fn lemma_by_start(s: Seq<Range<usize>>)
    ensures
        ascending(by_start(s)),
        same_members(by_start(s), s),
    decreases s.len(),
{
    if s.len() > 0 {
        let rest = s.drop_last();
        lemma_by_start(rest);
        lemma_inserted(by_start(rest), s.last());
        lemma_contains_push(by_start(rest), s.last());
        lemma_contains_push(rest, s.last());
        assert(rest.push(s.last()) =~= s);
    }
}

proof fn lemma_deduped(s: Seq<Range<usize>>)
    requires
        ascending(s),
    ensures
        ascending(deduped(s)),
        same_members(deduped(s), s),
        s.len() > 0 ==> deduped(s).len() > 0 && deduped(s).last() == s.last(),
        forall|k: int| 0 < k < deduped(s).len() ==> deduped(s)[k - 1] != #[trigger] deduped(s)[k],
    decreases s.len(),
{
    if s.len() > 1 {
        let rest = s.drop_last();
        assert forall|i: int, j: int| 0 <= i <= j < rest.len() implies (#[trigger] rest[i]).start
            <= (#[trigger] rest[j]).start by {
            assert(rest[i] == s[i] && rest[j] == s[j]);
        }
        lemma_deduped(rest);
        let few = deduped(rest);
        let all = deduped(s);
        lemma_contains_push(rest, s.last());
        lemma_contains_push(few, s.last());
        assert(rest.push(s.last()) =~= s);
        assert(rest.last() == s[s.len() - 2]);
        if s[s.len() - 2] == s.last() {
            assert(rest[rest.len() - 1] == s.last());
            assert(rest.contains(s.last()));
        } else {
            assert forall|i: int, j: int| 0 <= i <= j < all.len() implies (
            #[trigger] all[i]).start <= (#[trigger] all[j]).start by {
                if j == few.len() && i < few.len() {
                    assert(few[i].start <= few[few.len() - 1].start);
                    assert(s[s.len() - 2].start <= s[s.len() - 1].start);
                }
            }
            assert forall|k: int| 0 < k < all.len() implies all[k - 1] != #[trigger] all[k] by {
                if k < few.len() {
                    assert(few[k - 1] != few[k]);
                }
            }
        }
    }
}

/// The code of a text is where styles say so: each range of code is that of
/// a style, each style of code has its range among them, they are ordered by
/// where they start, and none follows itself.
pub proof fn law_code_is_where_it_is_marked(node: InlineView)
    ensures
        forall|k: int|
            0 <= k < code_ranges_of(node).len() ==> marks_code(
                node.marks,
                #[trigger] code_ranges_of(node)[k],
            ),
        forall|j: int|
            0 <= j < node.marks.len() && (#[trigger] node.marks[j]).mark.code ==> code_ranges_of(
                node,
            ).contains(node.marks[j].range),
        forall|i: int, j: int|
            0 <= i <= j < code_ranges_of(node).len() ==> (#[trigger] code_ranges_of(node)[i]).start
                <= (#[trigger] code_ranges_of(node)[j]).start,
        forall|k: int|
            0 < k < code_ranges_of(node).len() ==> code_ranges_of(node)[k - 1]
                != #[trigger] code_ranges_of(node)[k],
{
    let marked = code_marks(node.marks);
    let sorted = by_start(marked);
    let ranges = code_ranges_of(node);
    lemma_code_marks(node.marks);
    lemma_by_start(marked);
    lemma_deduped(sorted);
    assert forall|k: int| 0 <= k < ranges.len() implies marks_code(
        node.marks,
        #[trigger] ranges[k],
    ) by {
        assert(ranges.contains(ranges[k]));
        assert(sorted.contains(ranges[k]));
        assert(marked.contains(ranges[k]));
        let i = choose|i: int| 0 <= i < marked.len() && marked[i] == ranges[k];
        assert(marked[i] == ranges[k]);
    }
}

// ---------------------------------------------------------------------------
// Styles of a part

/// The styles of a part of a text are those that reach into it, in order,
/// each over the bytes that it covers there, counted from the start of the
/// part. Code is left out, unless it is asked for.
pub proof fn law_styles_are_cut(
    marks: Seq<RangeMarkView>,
    m: RangeMarkView,
    start: int,
    end: int,
    code: bool,
)
    requires
        0 <= start <= end <= usize::MAX,
    ensures
        ({
            let from = if m.range.start > start {
                m.range.start as int
            } else {
                start
            };
            let to = if m.range.end < end {
                m.range.end as int
            } else {
                end
            };
            let before = cut_marks(marks, start, end, code);
            let all = cut_marks(marks.push(m), start, end, code);
            &&& from < to && (code || !m.mark.code) ==> {
                &&& all.len() == before.len() + 1
                &&& all.drop_last() == before
                &&& all.last().mark == m.mark
                &&& all.last().range.start == from - start
                &&& all.last().range.end == to - start
            }
            &&& from >= to || (m.mark.code && !code) ==> all == before
        }),
{
    assert(marks.push(m).drop_last() =~= marks);
    let before = cut_marks(marks, start, end, code);
    let all = cut_marks(marks.push(m), start, end, code);
    if cut_mark(m, start, end, code) is Some {
        assert(all.drop_last() =~= before);
    }
}

// ---------------------------------------------------------------------------
// Styles of text that flows

proof fn lemma_index_prefix(t: Seq<char>, u: Seq<char>, o: int)
    requires
        0 <= o <= byte_len(t),
    ensures
        index_at(t + u, o) == index_at(t, o),
{
    let k = index_at(t, o);
    lemma_floor_index(Unit::Utf8, t, o);
    assert((t + u).take(k) =~= t.take(k));
    if k < t.len() {
        assert((t + u).take(k + 1) =~= t.take(k + 1));
    } else {
        assert(t.take(k) =~= t);
        if k < (t + u).len() {
            crate::text::lemma_measure_step(Unit::Utf8, t + u, k);
        }
    }
    lemma_floor_unique(Unit::Utf8, t + u, o, k);
}

proof fn lemma_index_shift(t: Seq<char>, u: Seq<char>, o: int)
    requires
        0 <= o,
    ensures
        index_at(t + u, byte_len(t) + o) == t.len() + index_at(u, o),
{
    let k = index_at(u, o);
    lemma_floor_index(Unit::Utf8, u, o);
    let n = t.len() as int;
    assert((t + u).take(n + k) =~= t + u.take(k));
    lemma_measure_concat(Unit::Utf8, t, u.take(k));
    if k < u.len() {
        assert((t + u).take(n + k + 1) =~= t + u.take(k + 1));
        lemma_measure_concat(Unit::Utf8, t, u.take(k + 1));
    }
    lemma_floor_unique(Unit::Utf8, t + u, byte_len(t) + o, n + k);
}

/// A part of a text is found again in longer texts, before and behind more text.
proof fn lemma_piece_within(t: Seq<char>, u: Seq<char>, w: Seq<char>, x: int, y: int)
    requires
        0 <= x <= y <= byte_len(u),
    ensures
        piece_of(t + u + w, byte_len(t) + x, byte_len(t) + y) == piece_of(u, x, y),
{
    let s = t + u + w;
    assert(s =~= t + (u + w));
    lemma_index_shift(t, u + w, x);
    lemma_index_shift(t, u + w, y);
    lemma_index_prefix(u, w, x);
    lemma_index_prefix(u, w, y);
    lemma_clip(s, byte_len(t) + x);
    lemma_clip(s, byte_len(t) + y);
    lemma_clip(u, x);
    lemma_clip(u, y);
    crate::text::lemma_clip_mono(u, x, y);
    let i = index_at(u, x);
    let j = index_at(u, y);
    let n = t.len() as int;
    assert(s.subrange(n + i, n + j) =~= u.subrange(i, j));
}

/// Whether a style `mark` is shown over the text `x` by one of `marks`.
pub open spec fn over_text(
    text: Seq<char>,
    marks: Seq<RangeMarkView>,
    x: Seq<char>,
    mark: MarkView,
) -> bool {
    exists|q: int|
        0 <= q < marks.len() && (#[trigger] marks[q]).mark == mark && marks[q].range.start
            <= marks[q].range.end && marks[q].range.end <= byte_len(text) && piece_of(
            text,
            marks[q].range.start as int,
            marks[q].range.end as int,
        ) == x
}

/// Whether one of `segments` is text that shows the style `mark` over `x`.
pub open spec fn some_text_shows(segments: Seq<SegmentView>, x: Seq<char>, mark: MarkView) -> bool {
    exists|k: int|
        0 <= k < segments.len() && ((#[trigger] segments[k]) matches SegmentView::Text {
            text,
            marks,
            ..
        } && over_text(text, marks, x, mark))
}

spec fn shown_so_far(c: Collected, x: Seq<char>, mark: MarkView) -> bool {
    some_text_shows(c.out, x, mark) || over_text(c.text, c.marks, x, mark)
}

proof fn lemma_shown_more(out: Seq<SegmentView>, s: SegmentView, x: Seq<char>, mark: MarkView)
    requires
        some_text_shows(out, x, mark),
    ensures
        some_text_shows(out.push(s), x, mark),
{
    let k = choose|k: int|
        0 <= k < out.len() && ((#[trigger] out[k]) matches SegmentView::Text { text, marks, .. }
            && over_text(text, marks, x, mark));
    assert(out.push(s)[k] == out[k]);
}

proof fn lemma_shown_flush(c: Collected, x: Seq<char>, mark: MarkView)
    requires
        shown_so_far(c, x, mark),
        x.len() > 0,
    ensures
        some_text_shows(c.flush().out, x, mark),
{
    if c.text.len() == 0 {
        if over_text(c.text, c.marks, x, mark) {
            let q = choose|q: int|
                0 <= q < c.marks.len() && (#[trigger] c.marks[q]).mark == mark
                    && c.marks[q].range.start <= c.marks[q].range.end && c.marks[q].range.end
                    <= byte_len(c.text) && piece_of(
                    c.text,
                    c.marks[q].range.start as int,
                    c.marks[q].range.end as int,
                ) == x;
            lemma_clip(c.text, c.marks[q].range.start as int);
            lemma_clip(c.text, c.marks[q].range.end as int);
            assert(false);
        }
    } else {
        let s = c.flush().out.last();
        if some_text_shows(c.out, x, mark) {
            lemma_shown_more(c.out, s, x, mark);
        } else {
            assert(c.flush().out[c.out.len() as int] == s);
        }
    }
}

proof fn lemma_shown_append(
    c: Collected,
    node: InlineView,
    i: int,
    start: int,
    end: int,
    x: Seq<char>,
    mark: MarkView,
)
    requires
        shown_so_far(c, x, mark),
    ensures
        shown_so_far(c.append(node, i, start, end), x, mark),
{
    let d = c.append(node, i, start, end);
    if over_text(c.text, c.marks, x, mark) && d != c {
        let q = choose|q: int|
            0 <= q < c.marks.len() && (#[trigger] c.marks[q]).mark == mark
                && c.marks[q].range.start <= c.marks[q].range.end && c.marks[q].range.end
                <= byte_len(c.text) && piece_of(
                c.text,
                c.marks[q].range.start as int,
                c.marks[q].range.end as int,
            ) == x;
        let part = piece_of(node.text, start, end);
        let none = Seq::<char>::empty();
        assert(none + c.text + part =~= d.text);
        assert(byte_len(none) == 0);
        lemma_piece_within(
            none,
            c.text,
            part,
            c.marks[q].range.start as int,
            c.marks[q].range.end as int,
        );
        lemma_measure_concat(Unit::Utf8, c.text, part);
        assert(d.marks[q] == c.marks[q]);
    }
}

proof fn lemma_shown_code_steps(
    c: Collected,
    node: InlineView,
    i: int,
    ranges: Seq<Range<usize>>,
    x: Seq<char>,
    mark: MarkView,
)
    requires
        shown_so_far(c, x, mark),
        x.len() > 0,
    ensures
        shown_so_far(c.code_steps(node, i, ranges), x, mark),
    decreases ranges.len(),
{
    if ranges.len() > 0 {
        let rest = ranges.drop_last();
        lemma_shown_code_steps(c, node, i, rest, x, mark);
        let p = c.code_steps(node, i, rest);
        let cursor = left_at(node, rest);
        let start = within(ranges.last().start as int, node.text);
        let end = within(ranges.last().end as int, node.text);
        lemma_shown_append(p, node, i, cursor, start, x, mark);
        let a = if cursor < start {
            p.append(node, i, cursor, start)
        } else {
            p
        };
        lemma_shown_flush(a, x, mark);
        if start < end {
            lemma_shown_more(
                a.flush().out,
                SegmentView::Code {
                    text: piece_of(node.text, start, end),
                    marks: cut_marks(node.marks, start, end, false),
                    state: i,
                },
                x,
                mark,
            );
        }
    }
}

proof fn lemma_shown_node(c: Collected, node: InlineView, i: int, x: Seq<char>, mark: MarkView)
    requires
        shown_so_far(c, x, mark),
        x.len() > 0,
    ensures
        shown_so_far(c.node_step(node, i), x, mark),
{
    match node.image {
        Some(image) => {
            lemma_shown_flush(c, x, mark);
            lemma_shown_more(c.flush().out, SegmentView::Image(image), x, mark);
        },
        None => {
            let ranges = code_ranges_of(node);
            lemma_shown_code_steps(c, node, i, ranges, x, mark);
            lemma_shown_append(
                c.code_steps(node, i, ranges),
                node,
                i,
                left_at(node, ranges),
                byte_len(node.text) as int,
                x,
                mark,
            );
        },
    }
}

/// Whether a child of a paragraph is text without code.
pub open spec fn codeless(node: InlineView) -> bool {
    node.image is None && forall|j: int|
        0 <= j < node.marks.len() ==> !(#[trigger] node.marks[j]).mark.code
}

proof fn lemma_no_code_ranges(node: InlineView)
    requires
        codeless(node),
    ensures
        code_ranges_of(node).len() == 0,
{
    law_code_is_where_it_is_marked(node);
    if code_ranges_of(node).len() > 0 {
        let r = code_ranges_of(node)[0];
        assert(marks_code(node.marks, r));
        let j = choose|j: int|
            0 <= j < node.marks.len() && (#[trigger] node.marks[j]).mark.code
                && node.marks[j].range == r;
        assert(false);
    }
}

proof fn lemma_cut_whole(marks: Seq<RangeMarkView>, n: int, j: int)
    requires
        0 <= j < marks.len(),
        !marks[j].mark.code,
        marks[j].range.start < marks[j].range.end <= n <= usize::MAX,
    ensures
        cut_marks(marks, 0, n, false).contains(marks[j]),
    decreases marks.len(),
{
    let rest = cut_marks(marks.drop_last(), 0, n, false);
    let all = cut_marks(marks, 0, n, false);
    if j == marks.len() - 1 {
        assert(cut_mark(marks.last(), 0, n, false) == Some(marks[j]));
        assert(all[all.len() - 1] == marks[j]);
    } else {
        lemma_cut_whole(marks.drop_last(), n, j);
        let k = choose|k: int| 0 <= k < rest.len() && rest[k] == marks[j];
        assert(all[k] == rest[k]);
    }
}

proof fn lemma_shown_own(c: Collected, node: InlineView, i: int, j: int)
    requires
        codeless(node),
        0 <= j < node.marks.len(),
        node.marks[j].range.start < node.marks[j].range.end <= byte_len(node.text),
        byte_len(c.text) + byte_len(node.text) <= usize::MAX,
    ensures
        shown_so_far(
            c.node_step(node, i),
            piece_of(
                node.text,
                node.marks[j].range.start as int,
                node.marks[j].range.end as int,
            ),
            node.marks[j].mark,
        ),
{
    lemma_no_code_ranges(node);
    let n = byte_len(node.text) as int;
    let m = node.marks[j];
    let part = piece_of(node.text, 0, n);
    crate::text::lemma_text_ends(node.text);
    lemma_clip(node.text, 0);
    lemma_clip(node.text, n);
    assert(part =~= node.text);
    let d = c.node_step(node, i);
    assert(d == c.append(node, i, 0, n));
    let cut = cut_marks(node.marks, 0, n, false);
    lemma_cut_whole(node.marks, n, j);
    let k = choose|k: int| 0 <= k < cut.len() && cut[k] == m;
    let q = c.marks.len() + k;
    let moved = moved_marks(cut, byte_len(c.text));
    assert(node.text.len() > 0);
    assert(d.marks[q] == moved[k]);
    assert(moved[k] == moved_mark(m, byte_len(c.text)));
    let none = Seq::<char>::empty();
    assert(c.text + node.text + none =~= d.text);
    lemma_piece_within(c.text, node.text, none, m.range.start as int, m.range.end as int);
    lemma_measure_concat(Unit::Utf8, c.text, node.text);
    assert(over_text(
        d.text,
        d.marks,
        piece_of(node.text, m.range.start as int, m.range.end as int),
        m.mark,
    ));
}

proof fn lemma_flow_len(children: Seq<InlineView>, i: int)
    requires
        0 <= i <= children.len(),
    ensures
        byte_len(flow_text(children.take(i))) <= byte_len(flow_text(children)),
    decreases children.len() - i,
{
    if i < children.len() {
        lemma_flow_len(children, i + 1);
        let more = children.take(i + 1);
        assert(more.drop_last() =~= children.take(i));
        if more.last().image is None {
            lemma_measure_concat(Unit::Utf8, flow_text(children.take(i)), more.last().text);
        }
    } else {
        assert(children.take(i) =~= children);
    }
}

proof fn lemma_collected_len(children: Seq<InlineView>, i: int)
    requires
        all_orderly(children),
        0 <= i < children.len(),
        children[i].image is None,
    ensures
        byte_len(Collected::none().node_steps(children.take(i)).text) + byte_len(children[i].text)
            <= byte_len(flow_text(children)),
{
    let before = children.take(i);
    let none = Collected::none();
    assert forall|k: int| 0 <= k < before.len() && (#[trigger] before[k]).image is None implies
        crate::node::segments::orderly(before[k].text, code_ranges_of(before[k])) by {
        assert(before[k] == children[k]);
    }
    lemma_node_steps_total(none, before);
    let c = none.node_steps(before);
    assert(none.total() + flow_text(before) =~= flow_text(before));
    lemma_measure_concat(Unit::Utf8, crate::node::segments::all_text(c.out), c.text);
    lemma_flow_len(children, i + 1);
    let more = children.take(i + 1);
    assert(more.drop_last() =~= before);
    lemma_measure_concat(Unit::Utf8, flow_text(before), children[i].text);
}

proof fn lemma_shown_steps(children: Seq<InlineView>, i: int, j: int, n: int)
    requires
        all_orderly(children),
        byte_len(flow_text(children)) <= usize::MAX,
        0 <= i < n <= children.len(),
        codeless(children[i]),
        0 <= j < children[i].marks.len(),
        children[i].marks[j].range.start < children[i].marks[j].range.end <= byte_len(
            children[i].text,
        ),
        piece_of(
            children[i].text,
            children[i].marks[j].range.start as int,
            children[i].marks[j].range.end as int,
        ).len() > 0,
    ensures
        shown_so_far(
            Collected::none().node_steps(children.take(n)),
            piece_of(
                children[i].text,
                children[i].marks[j].range.start as int,
                children[i].marks[j].range.end as int,
            ),
            children[i].marks[j].mark,
        ),
    decreases n,
{
    let all = children.take(n);
    assert(all.drop_last() =~= children.take(n - 1));
    let c = Collected::none().node_steps(children.take(n - 1));
    let x = piece_of(
        children[i].text,
        children[i].marks[j].range.start as int,
        children[i].marks[j].range.end as int,
    );
    if i == n - 1 {
        lemma_collected_len(children, i);
        lemma_shown_own(c, children[i], i, j);
    } else {
        lemma_shown_steps(children, i, j, n - 1);
        lemma_shown_node(c, all.last(), n - 1, x, children[i].marks[j].mark);
    }
}

/// In a paragraph that flows, each style of a text without code is shown over
/// the text that it is for: there is a stretch of text with that style over
/// just that text, wherever it stands in the stretch.
pub proof fn law_flowing_text_keeps_styles(children: Seq<InlineView>, i: int, j: int)
    requires
        all_orderly(children),
        byte_len(flow_text(children)) <= usize::MAX,
        0 <= i < children.len(),
        codeless(children[i]),
        0 <= j < children[i].marks.len(),
        children[i].marks[j].range.start < children[i].marks[j].range.end <= byte_len(
            children[i].text,
        ),
        piece_of(
            children[i].text,
            children[i].marks[j].range.start as int,
            children[i].marks[j].range.end as int,
        ).len() > 0,
    ensures
        some_text_shows(
            segments_of(children),
            piece_of(
                children[i].text,
                children[i].marks[j].range.start as int,
                children[i].marks[j].range.end as int,
            ),
            children[i].marks[j].mark,
        ),
{
    lemma_shown_steps(children, i, j, children.len() as int);
    assert(children.take(children.len() as int) =~= children);
    lemma_shown_flush(
        Collected::none().node_steps(children),
        piece_of(
            children[i].text,
            children[i].marks[j].range.start as int,
            children[i].marks[j].range.end as int,
        ),
        children[i].marks[j].mark,
    );
}

} // verus!
