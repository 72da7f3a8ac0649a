//! Splitting paragraphs, so that inline code is laid out as pieces of its own.
use crate::node::inline::{
    piece, piece_of, range_mark, range_marks, ImageNode, ImageView, InlineNode, InlineView,
    RangeMarkView,
};
use crate::node::marks::TextMark;
use crate::node::paragraph::{counted, inline_views};
use crate::strings::str_len;
use crate::text::{
    byte_len, is_boundary, lemma_clip, lemma_clip_mono, lemma_measure_concat, lemma_slice_len,
    lemma_text_ends, Unit,
};
use core::ops::Range;
use vstd::prelude::*;

verus! {

/// A piece of a paragraph. Text and code remember the child of the paragraph
/// that keeps what was painted of them.
#[derive(Debug)]
pub enum ParagraphSegment {
    Text { text: String, marks: Vec<(Range<usize>, TextMark)>, state: usize },
    Code { text: String, marks: Vec<(Range<usize>, TextMark)>, state: usize },
    Image(ImageNode),
}

pub enum SegmentView {
    Text { text: Seq<char>, marks: Seq<RangeMarkView>, state: int },
    Code { text: Seq<char>, marks: Seq<RangeMarkView>, state: int },
    Image(ImageView),
}

impl View for ParagraphSegment {
    type V = SegmentView;

    open spec fn view(&self) -> SegmentView {
        match *self {
            ParagraphSegment::Text { text, marks, state } => SegmentView::Text {
                text: text@,
                marks: range_marks(marks@),
                state: state as int,
            },
            ParagraphSegment::Code { text, marks, state } => SegmentView::Code {
                text: text@,
                marks: range_marks(marks@),
                state: state as int,
            },
            ParagraphSegment::Image(image) => SegmentView::Image(image@),
        }
    }
}

pub open spec fn segment_views(segments: Seq<ParagraphSegment>) -> Seq<SegmentView> {
    segments.map_values(|s: ParagraphSegment| s@)
}

// ---------------------------------------------------------------------------
// Where the code is

/// The ranges that are marked as code.
pub open spec fn code_marks(marks: Seq<RangeMarkView>) -> Seq<Range<usize>>
    decreases marks.len(),
{
    if marks.len() == 0 {
        Seq::empty()
    } else {
        let rest = code_marks(marks.drop_last());
        if marks.last().mark.code {
            rest.push(marks.last().range)
        } else {
            rest
        }
    }
}

/// `s`, ordered by where the ranges start, with `r` put behind those that start no later.
pub open spec fn inserted(s: Seq<Range<usize>>, r: Range<usize>) -> Seq<Range<usize>>
    decreases s.len(),
{
    if s.len() == 0 || s.last().start <= r.start {
        s.push(r)
    } else {
        inserted(s.drop_last(), r).push(s.last())
    }
}

/// `s` ordered by where the ranges start. Ranges that start alike keep their order.
pub open spec fn by_start(s: Seq<Range<usize>>) -> Seq<Range<usize>>
    decreases s.len(),
{
    if s.len() == 0 {
        s
    } else {
        inserted(by_start(s.drop_last()), s.last())
    }
}

/// `s` without the ranges that equal the one before them.
pub open spec fn deduped(s: Seq<Range<usize>>) -> Seq<Range<usize>>
    decreases s.len(),
{
    if s.len() <= 1 {
        s
    } else {
        let rest = deduped(s.drop_last());
        if s[s.len() - 2] == s.last() {
            rest
        } else {
            rest.push(s.last())
        }
    }
}

/// The ranges of a node that are code, in order.
pub open spec fn code_ranges_of(node: InlineView) -> Seq<Range<usize>> {
    deduped(by_start(code_marks(node.marks)))
}

fn insert_range(ranges: &mut Vec<Range<usize>>, range: Range<usize>)
    ensures
        final(ranges)@ == inserted(old(ranges)@, range),
{
    let ghost before = ranges@;
    let mut i: usize = ranges.len();
    let ghost mut tail: Seq<Range<usize>> = Seq::empty();
    assert(before.take(before.len() as int) =~= before);
    assert(before.skip(before.len() as int) =~= Seq::empty());
    assert(inserted(before, range) + Seq::<Range<usize>>::empty() =~= inserted(before, range));
    while i > 0 && ranges[i - 1].start > range.start
        invariant
            ranges@ == before,
            i <= before.len(),
            inserted(before, range) == inserted(before.take(i as int), range) + before.skip(
                i as int,
            ),
        decreases i,
    {
        let ghost t = before.take(i as int);
        assert(t.drop_last() =~= before.take(i as int - 1));
        assert(inserted(t.drop_last(), range).push(t.last()) + before.skip(i as int) =~= inserted(
            t.drop_last(),
            range,
        ) + before.skip(i as int - 1));
        i = i - 1;
    }
    ranges.insert(i, range);
    assert(ranges@ =~= before.take(i as int).push(range) + before.skip(i as int));
}

/// The ranges of a node that are code, in order.
pub fn code_ranges(node: &InlineNode) -> (ranges: Vec<Range<usize>>)
    ensures
        ranges@ == code_ranges_of(node@),
{
    let ghost marks = node@.marks;
    let mut sorted: Vec<Range<usize>> = Vec::new();
    assert(marks.take(0) =~= Seq::empty());
    assert(sorted@ =~= by_start(code_marks(marks.take(0))));
    for i in 0..node.marks.len()
        invariant
            marks == range_marks(node.marks@),
            sorted@ == by_start(code_marks(marks.take(i as int))),
    {
        assert(marks.take(i as int + 1).drop_last() =~= marks.take(i as int));
        assert(marks[i as int] == range_mark(node.marks@[i as int]));
        let ghost rest = code_marks(marks.take(i as int));
        if node.marks[i].1.code {
            let range = node.marks[i].0.start..node.marks[i].0.end;
            assert(rest.push(range).drop_last() =~= rest);
            insert_range(&mut sorted, range);
        }
    }
    assert(marks.take(marks.len() as int) =~= marks);
    let mut ranges: Vec<Range<usize>> = Vec::new();
    assert(ranges@ =~= deduped(sorted@.take(0)));
    for i in 0..sorted.len()
        invariant
            ranges@ == deduped(sorted@.take(i as int)),
    {
        let ghost t = sorted@.take(i as int + 1);
        assert(t.drop_last() =~= sorted@.take(i as int));
        if i == 0 {
            assert(t =~= seq![sorted@[0]]);
            assert(sorted@.take(0) =~= Seq::empty());
            ranges.push(sorted[i].start..sorted[i].end);
            assert(ranges@ =~= t);
        } else {
            assert(t[t.len() - 2] == sorted@[i as int - 1]);
            let same: bool = sorted[i - 1].start == sorted[i].start && sorted[i - 1].end
                == sorted[i].end;
            if !same {
                ranges.push(sorted[i].start..sorted[i].end);
            }
        }
    }
    assert(sorted@.take(sorted@.len() as int) =~= sorted@);
    ranges
}

// ---------------------------------------------------------------------------
// Styles of a part

/// The part of `m` between `start` and `end`, counted from `start`; nothing
/// for code, unless that is asked for.
pub open spec fn cut_mark(
    m: RangeMarkView,
    start: int,
    end: int,
    include_code: bool,
) -> Option<RangeMarkView> {
    let from = if m.range.start > start {
        m.range.start as int
    } else {
        start
    };
    let to = if m.range.end < end {
        m.range.end as int
    } else {
        end
    };
    if m.mark.code && !include_code || from >= to {
        None
    } else {
        Some(
            RangeMarkView {
                range: Range { start: (from - start) as usize, end: (to - start) as usize },
                mark: m.mark,
            },
        )
    }
}

/// The styles between `start` and `end`, counted from `start`; those of code
/// only where they are asked for.
pub open spec fn cut_marks(
    marks: Seq<RangeMarkView>,
    start: int,
    end: int,
    include_code: bool,
) -> Seq<RangeMarkView>
    decreases marks.len(),
{
    if marks.len() == 0 {
        Seq::empty()
    } else {
        let rest = cut_marks(marks.drop_last(), start, end, include_code);
        match cut_mark(marks.last(), start, end, include_code) {
            Some(m) => rest.push(m),
            None => rest,
        }
    }
}

/// The styles of a part of a node; those of code only where they are asked for.
pub fn marks_in_range(node: &InlineNode, range: &Range<usize>, include_code: bool) -> (marks: Vec<
    (Range<usize>, TextMark),
>)
    ensures
        range_marks(marks@) == cut_marks(
            node@.marks,
            range.start as int,
            range.end as int,
            include_code,
        ),
{
    let ghost views = node@.marks;
    let start: usize = range.start;
    let end: usize = range.end;
    let mut marks: Vec<(Range<usize>, TextMark)> = Vec::new();
    assert(range_marks(marks@) =~= cut_marks(
        views.take(0),
        start as int,
        end as int,
        include_code,
    ));
    for i in 0..node.marks.len()
        invariant
            views == range_marks(node.marks@),
            range_marks(marks@) == cut_marks(
                views.take(i as int),
                start as int,
                end as int,
                include_code,
            ),
    {
        assert(views.take(i as int + 1).drop_last() =~= views.take(i as int));
        assert(views[i as int] == range_mark(node.marks@[i as int]));
        let m = &node.marks[i];
        let from: usize = if m.0.start > start {
            m.0.start
        } else {
            start
        };
        let to: usize = if m.0.end < end {
            m.0.end
        } else {
            end
        };
        let ghost before = marks@;
        if (include_code || !m.1.code) && from < to {
            marks.push(((from - start)..(to - start), m.1.clone()));
            assert(range_marks(marks@) =~= range_marks(before).push(range_mark(marks@.last())));
        }
    }
    assert(views.take(views.len() as int) =~= views);
    marks
}

// ---------------------------------------------------------------------------
// Splitting

/// What was split so far: finished segments, and text that is being collected.
pub struct Collected {
    pub out: Seq<SegmentView>,
    pub text: Seq<char>,
    pub marks: Seq<RangeMarkView>,
    pub state: Option<int>,
}

/// `m` moved by `offset` bytes.
pub open spec fn moved_mark(m: RangeMarkView, offset: nat) -> RangeMarkView {
    RangeMarkView {
        range: Range {
            start: counted(offset + m.range.start as nat) as usize,
            end: counted(offset + m.range.end as nat) as usize,
        },
        mark: m.mark,
    }
}

pub open spec fn moved_marks(marks: Seq<RangeMarkView>, offset: nat) -> Seq<RangeMarkView> {
    marks.map_values(|m: RangeMarkView| moved_mark(m, offset))
}

impl Collected {
    pub open spec fn none() -> Collected {
        Collected { out: Seq::empty(), text: Seq::empty(), marks: Seq::empty(), state: None }
    }

    /// With the text of child `i` between `start` and `end` collected.
    pub open spec fn append(self, node: InlineView, i: int, start: int, end: int) -> Collected {
        let part = piece_of(node.text, start, end);
        if start >= end || part.len() == 0 {
            self
        } else {
            Collected {
                text: self.text + part,
                marks: self.marks + moved_marks(
                    cut_marks(node.marks, start, end, false),
                    byte_len(self.text),
                ),
                state: if self.state is Some {
                    self.state
                } else {
                    Some(i)
                },
                ..self
            }
        }
    }

    /// With the collected text finished.
    pub open spec fn flush(self) -> Collected {
        if self.text.len() == 0 {
            self
        } else {
            Collected {
                out: self.out.push(
                    SegmentView::Text {
                        text: self.text,
                        marks: self.marks,
                        state: match self.state {
                            Some(i) => i,
                            None => 0,
                        },
                    },
                ),
                ..Collected::none()
            }
        }
    }

    pub open spec fn with_segment(self, segment: SegmentView) -> Collected {
        Collected { out: self.out.push(segment), ..self }
    }

    /// With one range of code of child `i` split out; `cursor` is where the child was left.
    pub open spec fn code_step(
        self,
        node: InlineView,
        i: int,
        cursor: int,
        range: Range<usize>,
    ) -> Collected {
        let start = within(range.start as int, node.text);
        let end = within(range.end as int, node.text);
        let flushed = if cursor < start {
            self.append(node, i, cursor, start)
        } else {
            self
        }.flush();
        if start < end {
            flushed.with_segment(
                SegmentView::Code {
                    text: piece_of(node.text, start, end),
                    marks: cut_marks(node.marks, start, end, false),
                    state: i,
                },
            )
        } else {
            flushed
        }
    }

    /// With all `ranges` of code of child `i` split out.
    pub open spec fn code_steps(
        self,
        node: InlineView,
        i: int,
        ranges: Seq<Range<usize>>,
    ) -> Collected
        decreases ranges.len(),
    {
        if ranges.len() == 0 {
            self
        } else {
            self.code_steps(node, i, ranges.drop_last()).code_step(
                node,
                i,
                left_at(node, ranges.drop_last()),
                ranges.last(),
            )
        }
    }

    /// With child `i` split.
    pub open spec fn node_step(self, node: InlineView, i: int) -> Collected {
        match node.image {
            Some(image) => self.flush().with_segment(SegmentView::Image(image)),
            None => {
                let ranges = code_ranges_of(node);
                let steps = self.code_steps(node, i, ranges);
                let cursor = left_at(node, ranges);
                if cursor < byte_len(node.text) {
                    steps.append(node, i, cursor, byte_len(node.text) as int)
                } else {
                    steps
                }
            },
        }
    }

    /// With all `children` split.
    pub open spec fn node_steps(self, children: Seq<InlineView>) -> Collected
        decreases children.len(),
    {
        if children.len() == 0 {
            self
        } else {
            self.node_steps(children.drop_last()).node_step(
                children.last(),
                children.len() - 1,
            )
        }
    }
}

/// An offset, or the end of the text beyond it.
pub open spec fn within(o: int, text: Seq<char>) -> int {
    if o < byte_len(text) {
        o
    } else {
        byte_len(text) as int
    }
}

/// Where a node is left once `ranges` of code were split out.
pub open spec fn left_at(node: InlineView, ranges: Seq<Range<usize>>) -> int {
    if ranges.len() == 0 {
        0
    } else {
        within(ranges.last().end as int, node.text)
    }
}

/// The segments of a paragraph: each stretch of code by itself, each image by
/// itself, and the text between them, even where it comes from several children.
pub open spec fn segments_of(children: Seq<InlineView>) -> Seq<SegmentView> {
    Collected::none().node_steps(children).flush().out
}

struct Collector {
    out: Vec<ParagraphSegment>,
    text: String,
    marks: Vec<(Range<usize>, TextMark)>,
    state: Option<usize>,
}

impl View for Collector {
    type V = Collected;

    closed spec fn view(&self) -> Collected {
        Collected {
            out: segment_views(self.out@),
            text: self.text@,
            marks: range_marks(self.marks@),
            state: match self.state {
                Some(i) => Some(i as int),
                None => None,
            },
        }
    }
}

impl Collector {
    fn new() -> (c: Collector)
        ensures
            c@ == Collected::none(),
    {
        let c = Collector {
            out: Vec::new(),
            text: String::new(),
            marks: Vec::new(),
            state: None,
        };
        assert(c@.out =~= Seq::empty());
        assert(c@.text =~= Seq::empty());
        assert(c@.marks =~= Seq::empty());
        c
    }

    fn push_segment(&mut self, segment: ParagraphSegment)
        ensures
            final(self)@ == old(self)@.with_segment(segment@),
    {
        self.out.push(segment);
        assert(self@.out =~= old(self)@.out.push(segment@));
    }

    fn append_text_segment(&mut self, node: &InlineNode, i: usize, start: usize, end: usize)
        ensures
            final(self)@ == old(self)@.append(node@, i as int, start as int, end as int),
    {
        if start >= end {
            return;
        }
        let slice = piece(node.text.as_str(), start, end);
        if slice.as_str().unicode_len() == 0 {
            return;
        }
        let offset: usize = str_len(self.text.as_str());
        let ghost before = self@;
        let cut = marks_in_range(node, &(start..end), false);
        let ghost cuts = range_marks(cut@);
        let ghost text = self.text;
        let ghost out = self.out;
        let ghost state = self.state;
        assert(moved_marks(cuts.take(0), offset as nat) =~= Seq::empty());
        assert(self@.marks =~= before.marks + moved_marks(cuts.take(0), offset as nat));
        for k in 0..cut.len()
            invariant
                self.text == text,
                self.out == out,
                self.state == state,
                cuts == range_marks(cut@),
                self@.marks == before.marks + moved_marks(cuts.take(k as int), offset as nat),
        {
            let m = &cut[k];
            assert(cuts[k as int] == range_mark(*m));
            let from: usize = offset.saturating_add(m.0.start);
            let to: usize = offset.saturating_add(m.0.end);
            let ghost marks = self.marks@;
            self.marks.push((from..to, m.1.clone()));
            assert(range_marks(self.marks@) =~= range_marks(marks).push(
                moved_mark(cuts[k as int], offset as nat),
            ));
            assert(moved_marks(cuts.take(k as int + 1), offset as nat) =~= moved_marks(
                cuts.take(k as int),
                offset as nat,
            ).push(moved_mark(cuts[k as int], offset as nat)));
            assert(self@.marks =~= before.marks + moved_marks(
                cuts.take(k as int + 1),
                offset as nat,
            ));
        }
        assert(cuts.take(cuts.len() as int) =~= cuts);
        self.text.append(slice.as_str());
        if self.state.is_none() {
            self.state = Some(i);
        }
    }

    fn flush_text_segment(&mut self)
        ensures
            final(self)@ == old(self)@.flush(),
    {
        if self.text.as_str().unicode_len() == 0 {
            return;
        }
        let ghost before = self@;
        let mut text = String::new();
        let mut marks: Vec<(Range<usize>, TextMark)> = Vec::new();
        assert(text@ =~= Seq::<char>::empty());
        assert(range_marks(marks@) =~= Seq::empty());
        core::mem::swap(&mut text, &mut self.text);
        core::mem::swap(&mut marks, &mut self.marks);
        let state: usize = match self.state {
            Some(i) => i,
            None => 0,
        };
        self.state = None;
        self.push_segment(ParagraphSegment::Text { text, marks, state });
    }

    fn take_code(&mut self, node: &InlineNode, i: usize, cursor: usize, range: &Range<usize>) -> (end:
        usize)
        ensures
            final(self)@ == old(self)@.code_step(node@, i as int, cursor as int, *range),
            end == within(range.end as int, node@.text),
    {
        let len: usize = str_len(node.text.as_str());
        let start: usize = if range.start < len {
            range.start
        } else {
            len
        };
        let end: usize = if range.end < len {
            range.end
        } else {
            len
        };
        if cursor < start {
            self.append_text_segment(node, i, cursor, start);
        }
        self.flush_text_segment();
        if start < end {
            self.push_segment(
                ParagraphSegment::Code {
                    text: piece(node.text.as_str(), start, end),
                    marks: marks_in_range(node, &(start..end), false),
                    state: i,
                },
            );
        }
        end
    }

    fn take_node(&mut self, node: &InlineNode, i: usize)
        ensures
            final(self)@ == old(self)@.node_step(node@, i as int),
    {
        if let Some(image) = &node.image {
            self.flush_text_segment();
            self.push_segment(ParagraphSegment::Image(image.clone()));
            return;
        }
        let ghost before = self@;
        let ranges = code_ranges(node);
        let mut cursor: usize = 0;
        assert(ranges@.take(0) =~= Seq::empty());
        for k in 0..ranges.len()
            invariant
                self@ == before.code_steps(node@, i as int, ranges@.take(k as int)),
                cursor == left_at(node@, ranges@.take(k as int)),
        {
            assert(ranges@.take(k as int + 1).drop_last() =~= ranges@.take(k as int));
            cursor = self.take_code(node, i, cursor, &ranges[k]);
        }
        assert(ranges@.take(ranges@.len() as int) =~= ranges@);
        let len: usize = str_len(node.text.as_str());
        if cursor < len {
            self.append_text_segment(node, i, cursor, len);
        }
    }
}

/// Splits the children of a paragraph, so that code and images are segments of their own.
pub fn split_paragraph_segments(children: &Vec<InlineNode>) -> (segments: Vec<ParagraphSegment>)
    ensures
        segment_views(segments@) == segments_of(inline_views(children@)),
{
    let ghost views = inline_views(children@);
    let mut c = Collector::new();
    assert(views.take(0) =~= Seq::empty());
    for i in 0..children.len()
        invariant
            views == inline_views(children@),
            c@ == Collected::none().node_steps(views.take(i as int)),
    {
        assert(views.take(i as int + 1).drop_last() =~= views.take(i as int));
        c.take_node(&children[i], i);
    }
    assert(views.take(views.len() as int) =~= views);
    c.flush_text_segment();
    c.out
}

// ---------------------------------------------------------------------------
// Laws

/// The text of a segment.
pub open spec fn segment_text(segment: SegmentView) -> Seq<char> {
    match segment {
        SegmentView::Text { text, .. } => text,
        SegmentView::Code { text, .. } => text,
        SegmentView::Image(_) => Seq::empty(),
    }
}

/// The texts of segments, one after the other.
pub open spec fn all_text(segments: Seq<SegmentView>) -> Seq<char>
    decreases segments.len(),
{
    if segments.len() == 0 {
        Seq::empty()
    } else {
        all_text(segments.drop_last()) + segment_text(segments.last())
    }
}

/// The texts of the children that are no images, one after the other.
pub open spec fn flow_text(children: Seq<InlineView>) -> Seq<char>
    decreases children.len(),
{
    if children.len() == 0 {
        Seq::empty()
    } else if children.last().image is Some {
        flow_text(children.drop_last())
    } else {
        flow_text(children.drop_last()) + children.last().text
    }
}

/// Whether ranges of code lie at boundaries of the text or reach beyond its
/// end, and none reaches into the next.
pub open spec fn orderly(text: Seq<char>, ranges: Seq<Range<usize>>) -> bool {
    &&& forall|k: int|
        0 <= k < ranges.len() ==> {
            let r = #[trigger] ranges[k];
            r.start <= r.end && is_boundary(text, within(r.start as int, text)) && is_boundary(
                text,
                within(r.end as int, text),
            )
        }
    &&& forall|k: int|
        0 < k < ranges.len() ==> ranges[k - 1].end <= (#[trigger] ranges[k]).start
}

/// Whether the code of all `children` that are no images is orderly.
pub open spec fn all_orderly(children: Seq<InlineView>) -> bool {
    forall|k: int|
        0 <= k < children.len() && (#[trigger] children[k]).image is None ==> orderly(
            children[k].text,
            code_ranges_of(children[k]),
        )
}

impl Collected {
    /// All text so far.
    pub open spec fn total(self) -> Seq<char> {
        all_text(self.out) + self.text
    }
}

proof fn lemma_piece_join(s: Seq<char>, a: int, b: int, c: int)
    requires
        0 <= a <= b <= c,
        is_boundary(s, a),
        is_boundary(s, b),
        is_boundary(s, c),
    ensures
        piece_of(s, a, b) + piece_of(s, b, c) == piece_of(s, a, c),
        a == b ==> piece_of(s, a, b) == Seq::<char>::empty(),
{
    lemma_clip(s, a);
    lemma_clip(s, b);
    lemma_clip(s, c);
    lemma_clip_mono(s, a, b);
    lemma_clip_mono(s, b, c);
    assert(piece_of(s, a, b) + piece_of(s, b, c) =~= piece_of(s, a, c));
    if a == b {
        assert(piece_of(s, a, b) =~= Seq::<char>::empty());
    }
}

proof fn lemma_append_total(c: Collected, node: InlineView, i: int, start: int, end: int)
    requires
        start <= end,
        start == end ==> piece_of(node.text, start, end) == Seq::<char>::empty(),
    ensures
        c.append(node, i, start, end).total() == c.total() + piece_of(node.text, start, end),
{
    let p = piece_of(node.text, start, end);
    if p.len() == 0 {
        assert(c.total() + p =~= c.total());
    } else {
        assert(all_text(c.out) + (c.text + p) =~= c.total() + p);
    }
}

proof fn lemma_flush_total(c: Collected)
    ensures
        c.flush().total() == c.total(),
{
    if c.text.len() > 0 {
        let f = c.flush();
        assert(f.out.drop_last() =~= c.out);
        assert(f.total() =~= c.total());
    }
}

proof fn lemma_segment_total(c: Collected, segment: SegmentView)
    requires
        c.text.len() == 0,
    ensures
        c.with_segment(segment).total() == c.total() + segment_text(segment),
{
    let w = c.with_segment(segment);
    assert(w.out.drop_last() =~= c.out);
    assert(w.total() =~= c.total() + segment_text(segment));
}

proof fn lemma_code_steps_total(
    c: Collected,
    node: InlineView,
    i: int,
    ranges: Seq<Range<usize>>,
)
    requires
        orderly(node.text, ranges),
    ensures
        c.code_steps(node, i, ranges).total() == c.total() + piece_of(
            node.text,
            0,
            left_at(node, ranges),
        ),
        is_boundary(node.text, left_at(node, ranges)),
    decreases ranges.len(),
{
    lemma_text_ends(node.text);
    if ranges.len() == 0 {
        lemma_piece_join(node.text, 0, 0, 0);
        assert(c.total() + piece_of(node.text, 0, 0) =~= c.total());
    } else {
        let rest = ranges.drop_last();
        assert forall|k: int| 0 <= k < rest.len() implies {
            let r = #[trigger] rest[k];
            r.start <= r.end && is_boundary(node.text, within(r.start as int, node.text))
                && is_boundary(node.text, within(r.end as int, node.text))
        } by {
            assert(rest[k] == ranges[k]);
        }
        assert forall|k: int| 0 < k < rest.len() implies rest[k - 1].end <= (#[trigger] rest[k]).start by {
            assert(ranges[k - 1].end <= ranges[k].start);
        }
        lemma_code_steps_total(c, node, i, rest);
        let last = ranges[ranges.len() - 1];
        let cursor = left_at(node, rest);
        let start = within(last.start as int, node.text);
        let end = within(last.end as int, node.text);
        if rest.len() > 0 {
            assert(ranges[ranges.len() - 2].end <= ranges[ranges.len() - 1].start);
            assert(rest.last() == ranges[ranges.len() - 2]);
            assert(rest[rest.len() - 1].start <= rest[rest.len() - 1].end);
        }
        let p = c.code_steps(node, i, rest);
        lemma_piece_join(node.text, 0, cursor, start);
        lemma_piece_join(node.text, 0, start, end);
        lemma_piece_join(node.text, cursor, start, end);
        lemma_append_total(p, node, i, cursor, start);
        let a = if cursor < start {
            p.append(node, i, cursor, start)
        } else {
            p
        };
        assert(a.total() == p.total() + piece_of(node.text, cursor, start)) by {
            if cursor >= start {
                assert(p.total() + piece_of(node.text, cursor, start) =~= p.total());
            }
        }
        lemma_flush_total(a);
        let f = a.flush();
        if start < end {
            lemma_segment_total(
                f,
                SegmentView::Code {
                    text: piece_of(node.text, start, end),
                    marks: cut_marks(node.marks, start, end, false),
                    state: i,
                },
            );
        } else {
            lemma_piece_join(node.text, start, end, end);
            assert(f.total() + piece_of(node.text, start, end) =~= f.total());
        }
        let base = c.total();
        assert(base + piece_of(node.text, 0, cursor) + piece_of(node.text, cursor, start)
            + piece_of(node.text, start, end) =~= base + (piece_of(node.text, 0, cursor)
            + piece_of(node.text, cursor, start) + piece_of(node.text, start, end)));
    }
}

pub proof fn lemma_node_steps_total(c: Collected, children: Seq<InlineView>)
    requires
        all_orderly(children),
    ensures
        c.node_steps(children).total() == c.total() + flow_text(children),
    decreases children.len(),
{
    if children.len() == 0 {
        assert(c.total() + Seq::<char>::empty() =~= c.total());
    } else {
        let rest = children.drop_last();
        assert forall|k: int| 0 <= k < rest.len() && (#[trigger] rest[k]).image is None implies orderly(
            rest[k].text,
            code_ranges_of(rest[k]),
        ) by {
            assert(rest[k] == children[k]);
        }
        lemma_node_steps_total(c, rest);
        let p = c.node_steps(rest);
        let node = children[children.len() - 1];
        let i = children.len() - 1;
        match node.image {
            Some(image) => {
                lemma_flush_total(p);
                lemma_segment_total(p.flush(), SegmentView::Image(image));
                assert(p.total() + Seq::<char>::empty() =~= p.total());
            },
            None => {
                let ranges = code_ranges_of(node);
                lemma_code_steps_total(p, node, i, ranges);
                lemma_text_ends(node.text);
                let cursor = left_at(node, ranges);
                let n = byte_len(node.text) as int;
                lemma_piece_join(node.text, 0, cursor, n);
                lemma_piece_join(node.text, cursor, n, n);
                lemma_append_total(p.code_steps(node, i, ranges), node, i, cursor, n);
                lemma_clip(node.text, 0);
                lemma_clip(node.text, n);
                assert(piece_of(node.text, 0, n) =~= node.text);
                let q = p.code_steps(node, i, ranges);
                if cursor >= n {
                    assert(q.total() + piece_of(node.text, cursor, n) =~= q.total());
                }
                assert(p.total() + piece_of(node.text, 0, cursor) + piece_of(node.text, cursor, n)
                    =~= p.total() + node.text);
                assert(c.total() + flow_text(rest) + node.text =~= c.total() + (flow_text(rest)
                    + node.text));
            },
        }
    }
}

/// Splitting a paragraph neither loses text nor repeats it.
pub proof fn law_segments_keep_text(children: Seq<InlineView>)
    requires
        all_orderly(children),
    ensures
        all_text(segments_of(children)) == flow_text(children),
{
    let none = Collected::none();
    lemma_node_steps_total(none, children);
    let c = none.node_steps(children);
    lemma_flush_total(c);
    assert(c.flush().total() =~= all_text(c.flush().out));
    assert(none.total() + flow_text(children) =~= flow_text(children));
}

/// Whether `marks` hold no code.
pub open spec fn code_free(marks: Seq<RangeMarkView>) -> bool {
    forall|k: int| 0 <= k < marks.len() ==> !(#[trigger] marks[k]).mark.code
}

/// Whether a segment has no code among its styles, and text that is no code is not empty.
pub open spec fn tidy(segment: SegmentView) -> bool {
    match segment {
        SegmentView::Text { text, marks, .. } => text.len() > 0 && code_free(marks),
        SegmentView::Code { marks, .. } => code_free(marks),
        SegmentView::Image(_) => true,
    }
}

impl Collected {
    pub open spec fn all_tidy(self) -> bool {
        &&& code_free(self.marks)
        &&& forall|k: int| 0 <= k < self.out.len() ==> tidy(#[trigger] self.out[k])
    }
}

proof fn lemma_cut_code_free(marks: Seq<RangeMarkView>, start: int, end: int)
    ensures
        code_free(cut_marks(marks, start, end, false)),
    decreases marks.len(),
{
    if marks.len() > 0 {
        lemma_cut_code_free(marks.drop_last(), start, end);
    }
}

proof fn lemma_append_tidy(c: Collected, node: InlineView, i: int, start: int, end: int)
    requires
        c.all_tidy(),
    ensures
        c.append(node, i, start, end).all_tidy(),
{
    lemma_cut_code_free(node.marks, start, end);
    let cut = cut_marks(node.marks, start, end, false);
    let moved = moved_marks(cut, byte_len(c.text));
    assert forall|k: int| 0 <= k < (c.marks + moved).len() implies !(#[trigger] (c.marks
        + moved)[k]).mark.code by {
        if k >= c.marks.len() {
            assert((c.marks + moved)[k] == moved_mark(cut[k - c.marks.len()], byte_len(c.text)));
        }
    }
}

proof fn lemma_code_steps_tidy(
    c: Collected,
    node: InlineView,
    i: int,
    ranges: Seq<Range<usize>>,
)
    requires
        c.all_tidy(),
    ensures
        c.code_steps(node, i, ranges).all_tidy(),
    decreases ranges.len(),
{
    if ranges.len() > 0 {
        let rest = ranges.drop_last();
        lemma_code_steps_tidy(c, node, i, rest);
        let start = within(ranges.last().start as int, node.text);
        let end = within(ranges.last().end as int, node.text);
        lemma_append_tidy(c.code_steps(node, i, rest), node, i, left_at(node, rest), start);
        lemma_cut_code_free(node.marks, start, end);
    }
}

proof fn lemma_node_steps_tidy(children: Seq<InlineView>)
    ensures
        Collected::none().node_steps(children).all_tidy(),
    decreases children.len(),
{
    if children.len() > 0 {
        let rest = children.drop_last();
        lemma_node_steps_tidy(rest);
        let c = Collected::none().node_steps(rest);
        let node = children.last();
        let i = children.len() - 1;
        if node.image is None {
            let ranges = code_ranges_of(node);
            lemma_code_steps_tidy(c, node, i, ranges);
            lemma_append_tidy(
                c.code_steps(node, i, ranges),
                node,
                i,
                left_at(node, ranges),
                byte_len(node.text) as int,
            );
        }
    }
}

/// Whether all `marks` cover something of a text of `len` bytes and lie in it.
/// No text is longer than a `usize` can say.
pub open spec fn marks_inside(marks: Seq<RangeMarkView>, len: nat) -> bool {
    len <= usize::MAX ==> forall|k: int|
        0 <= k < marks.len() ==> (#[trigger] marks[k]).range.start < marks[k].range.end
            && marks[k].range.end <= len
}

/// Whether code is not empty, and the styles of a segment lie in its text.
pub open spec fn filled(segment: SegmentView) -> bool {
    match segment {
        SegmentView::Text { text, marks, .. } => marks_inside(marks, byte_len(text)),
        SegmentView::Code { text, marks, .. } => text.len() > 0 && marks_inside(
            marks,
            byte_len(text),
        ),
        SegmentView::Image(_) => true,
    }
}

impl Collected {
    pub open spec fn all_filled(self) -> bool {
        &&& marks_inside(self.marks, byte_len(self.text))
        &&& forall|k: int| 0 <= k < self.out.len() ==> filled(#[trigger] self.out[k])
    }
}

/// Whether ranges of code lie at boundaries of the text, or reach beyond its end.
pub open spec fn at_boundaries(text: Seq<char>, ranges: Seq<Range<usize>>) -> bool {
    forall|k: int|
        0 <= k < ranges.len() ==> is_boundary(
            text,
            within((#[trigger] ranges[k]).start as int, text),
        ) && is_boundary(text, within(ranges[k].end as int, text))
}

/// Whether the code of all `children` that are no images lies at boundaries of their texts.
pub open spec fn all_at_boundaries(children: Seq<InlineView>) -> bool {
    forall|k: int|
        0 <= k < children.len() && (#[trigger] children[k]).image is None ==> at_boundaries(
            children[k].text,
            code_ranges_of(children[k]),
        )
}

proof fn lemma_cut_inside(marks: Seq<RangeMarkView>, start: int, end: int)
    requires
        0 <= start <= end,
    ensures
        marks_inside(cut_marks(marks, start, end, false), (end - start) as nat),
    decreases marks.len(),
{
    if marks.len() > 0 {
        lemma_cut_inside(marks.drop_last(), start, end);
    }
}

proof fn lemma_part_len(text: Seq<char>, start: int, end: int)
    requires
        0 <= start <= end,
        is_boundary(text, start),
        is_boundary(text, end),
    ensures
        byte_len(piece_of(text, start, end)) == end - start,
        start < end ==> piece_of(text, start, end).len() > 0,
{
    lemma_clip(text, start);
    lemma_clip(text, end);
    lemma_slice_len(text, start, end);
}

proof fn lemma_append_filled(c: Collected, node: InlineView, i: int, start: int, end: int)
    requires
        c.all_filled(),
        0 <= start <= end,
        is_boundary(node.text, start),
        is_boundary(node.text, end),
    ensures
        c.append(node, i, start, end).all_filled(),
{
    let part = piece_of(node.text, start, end);
    let cut = cut_marks(node.marks, start, end, false);
    let moved = moved_marks(cut, byte_len(c.text));
    lemma_part_len(node.text, start, end);
    lemma_cut_inside(node.marks, start, end);
    lemma_measure_concat(Unit::Utf8, c.text, part);
    let all = c.marks + moved;
    if byte_len(c.text + part) <= usize::MAX {
        assert forall|k: int| 0 <= k < all.len() implies (#[trigger] all[k]).range.start
            < all[k].range.end && all[k].range.end <= byte_len(c.text + part) by {
            if k < c.marks.len() {
                assert(all[k] == c.marks[k]);
            } else {
                assert(all[k] == moved_mark(cut[k - c.marks.len()], byte_len(c.text)));
            }
        }
    }
}

proof fn lemma_flush_filled(c: Collected)
    requires
        c.all_filled(),
    ensures
        c.flush().all_filled(),
{
}

proof fn lemma_code_steps_filled(
    c: Collected,
    node: InlineView,
    i: int,
    ranges: Seq<Range<usize>>,
)
    requires
        c.all_filled(),
        at_boundaries(node.text, ranges),
    ensures
        c.code_steps(node, i, ranges).all_filled(),
        0 <= left_at(node, ranges) <= byte_len(node.text),
        is_boundary(node.text, left_at(node, ranges)),
    decreases ranges.len(),
{
    lemma_text_ends(node.text);
    if ranges.len() > 0 {
        let rest = ranges.drop_last();
        assert forall|k: int| 0 <= k < rest.len() implies is_boundary(
            node.text,
            within((#[trigger] rest[k]).start as int, node.text),
        ) && is_boundary(node.text, within(rest[k].end as int, node.text)) by {
            assert(rest[k] == ranges[k]);
        }
        lemma_code_steps_filled(c, node, i, rest);
        let r = ranges[ranges.len() - 1];
        let start = within(r.start as int, node.text);
        let end = within(r.end as int, node.text);
        let cursor = left_at(node, rest);
        let p = c.code_steps(node, i, rest);
        if cursor < start {
            lemma_append_filled(p, node, i, cursor, start);
        }
        let a = if cursor < start {
            p.append(node, i, cursor, start)
        } else {
            p
        };
        lemma_flush_filled(a);
        if start < end {
            lemma_part_len(node.text, start, end);
            lemma_cut_inside(node.marks, start, end);
        }
    }
}

proof fn lemma_node_steps_filled(children: Seq<InlineView>)
    requires
        all_at_boundaries(children),
    ensures
        Collected::none().node_steps(children).all_filled(),
    decreases children.len(),
{
    if children.len() > 0 {
        let rest = children.drop_last();
        assert forall|k: int|
            0 <= k < rest.len() && (#[trigger] rest[k]).image is None implies at_boundaries(
            rest[k].text,
            code_ranges_of(rest[k]),
        ) by {
            assert(rest[k] == children[k]);
        }
        lemma_node_steps_filled(rest);
        let c = Collected::none().node_steps(rest);
        let node = children[children.len() - 1];
        let i = children.len() - 1;
        lemma_flush_filled(c);
        if node.image is None {
            let ranges = code_ranges_of(node);
            lemma_code_steps_filled(c, node, i, ranges);
            lemma_text_ends(node.text);
            lemma_append_filled(
                c.code_steps(node, i, ranges),
                node,
                i,
                left_at(node, ranges),
                byte_len(node.text) as int,
            );
        }
    }
}

/// The images of segments, in order.
pub open spec fn segment_images(segments: Seq<SegmentView>) -> Seq<ImageView>
    decreases segments.len(),
{
    if segments.len() == 0 {
        Seq::empty()
    } else {
        let rest = segment_images(segments.drop_last());
        match segments.last() {
            SegmentView::Image(image) => rest.push(image),
            _ => rest,
        }
    }
}

/// The images of children, in order.
pub open spec fn child_images(children: Seq<InlineView>) -> Seq<ImageView>
    decreases children.len(),
{
    if children.len() == 0 {
        Seq::empty()
    } else {
        let rest = child_images(children.drop_last());
        match children.last().image {
            Some(image) => rest.push(image),
            None => rest,
        }
    }
}

proof fn lemma_flush_images(c: Collected)
    ensures
        segment_images(c.flush().out) == segment_images(c.out),
{
    if c.text.len() > 0 {
        assert(c.flush().out.drop_last() =~= c.out);
    }
}

proof fn lemma_code_steps_images(
    c: Collected,
    node: InlineView,
    i: int,
    ranges: Seq<Range<usize>>,
)
    ensures
        segment_images(c.code_steps(node, i, ranges).out) == segment_images(c.out),
    decreases ranges.len(),
{
    if ranges.len() > 0 {
        let rest = ranges.drop_last();
        lemma_code_steps_images(c, node, i, rest);
        let p = c.code_steps(node, i, rest);
        let start = within(ranges.last().start as int, node.text);
        let end = within(ranges.last().end as int, node.text);
        let cursor = left_at(node, rest);
        let a = if cursor < start {
            p.append(node, i, cursor, start)
        } else {
            p
        };
        assert(a.out == p.out);
        lemma_flush_images(a);
        if start < end {
            assert(c.code_steps(node, i, ranges).out.drop_last() =~= a.flush().out);
        }
    }
}

proof fn lemma_node_steps_images(children: Seq<InlineView>)
    ensures
        segment_images(Collected::none().node_steps(children).out) == child_images(children),
    decreases children.len(),
{
    if children.len() > 0 {
        let rest = children.drop_last();
        lemma_node_steps_images(rest);
        let c = Collected::none().node_steps(rest);
        let node = children.last();
        match node.image {
            Some(image) => {
                lemma_flush_images(c);
                let f = c.flush();
                assert(f.with_segment(SegmentView::Image(image)).out.drop_last() =~= f.out);
            },
            None => {
                lemma_code_steps_images(c, node, children.len() - 1, code_ranges_of(node));
            },
        }
    }
}

/// The segments of code among segments, in order.
pub open spec fn segment_codes(segments: Seq<SegmentView>) -> Seq<SegmentView>
    decreases segments.len(),
{
    if segments.len() == 0 {
        Seq::empty()
    } else {
        let rest = segment_codes(segments.drop_last());
        if segments.last() is Code {
            rest.push(segments.last())
        } else {
            rest
        }
    }
}

/// The code in `ranges` of child `i`, each with its styles. Ranges that hold
/// nothing of the text are left out.
pub open spec fn node_codes(node: InlineView, i: int, ranges: Seq<Range<usize>>) -> Seq<
    SegmentView,
>
    decreases ranges.len(),
{
    if ranges.len() == 0 {
        Seq::empty()
    } else {
        let rest = node_codes(node, i, ranges.drop_last());
        let start = within(ranges.last().start as int, node.text);
        let end = within(ranges.last().end as int, node.text);
        if start < end {
            rest.push(
                SegmentView::Code {
                    text: piece_of(node.text, start, end),
                    marks: cut_marks(node.marks, start, end, false),
                    state: i,
                },
            )
        } else {
            rest
        }
    }
}

/// The code of the children that are no images, in order.
pub open spec fn child_codes(children: Seq<InlineView>) -> Seq<SegmentView>
    decreases children.len(),
{
    if children.len() == 0 {
        Seq::empty()
    } else {
        let rest = child_codes(children.drop_last());
        let node = children.last();
        if node.image is Some {
            rest
        } else {
            rest + node_codes(node, children.len() - 1, code_ranges_of(node))
        }
    }
}

proof fn lemma_flush_codes(c: Collected)
    ensures
        segment_codes(c.flush().out) == segment_codes(c.out),
{
    if c.text.len() > 0 {
        assert(c.flush().out.drop_last() =~= c.out);
    }
}

proof fn lemma_code_steps_codes(
    c: Collected,
    node: InlineView,
    i: int,
    ranges: Seq<Range<usize>>,
)
    ensures
        segment_codes(c.code_steps(node, i, ranges).out) == segment_codes(c.out) + node_codes(
            node,
            i,
            ranges,
        ),
    decreases ranges.len(),
{
    if ranges.len() == 0 {
        assert(segment_codes(c.out) + Seq::<SegmentView>::empty() =~= segment_codes(c.out));
    } else {
        let rest = ranges.drop_last();
        lemma_code_steps_codes(c, node, i, rest);
        let p = c.code_steps(node, i, rest);
        let start = within(ranges.last().start as int, node.text);
        let end = within(ranges.last().end as int, node.text);
        let cursor = left_at(node, rest);
        let a = if cursor < start {
            p.append(node, i, cursor, start)
        } else {
            p
        };
        assert(a.out == p.out);
        lemma_flush_codes(a);
        let q = c.code_steps(node, i, ranges);
        if start < end {
            assert(q.out.drop_last() =~= a.flush().out);
            assert(segment_codes(q.out) =~= segment_codes(c.out) + node_codes(node, i, ranges));
        }
    }
}

proof fn lemma_node_steps_codes(children: Seq<InlineView>)
    ensures
        segment_codes(Collected::none().node_steps(children).out) == child_codes(children),
    decreases children.len(),
{
    if children.len() > 0 {
        let rest = children.drop_last();
        lemma_node_steps_codes(rest);
        let c = Collected::none().node_steps(rest);
        let node = children.last();
        match node.image {
            Some(image) => {
                lemma_flush_codes(c);
                let f = c.flush();
                assert(f.with_segment(SegmentView::Image(image)).out.drop_last() =~= f.out);
            },
            None => {
                lemma_code_steps_codes(c, node, children.len() - 1, code_ranges_of(node));
            },
        }
    }
}

/// The segments of code are the ranges of code of the children, one for each
/// that holds something of the text, in order and with their styles.
pub proof fn law_segments_hold_code(children: Seq<InlineView>)
    ensures
        segment_codes(segments_of(children)) == child_codes(children),
{
    lemma_node_steps_codes(children);
    lemma_flush_codes(Collected::none().node_steps(children));
}

/// Whether no stretch of text follows another.
pub open spec fn texts_apart(segments: Seq<SegmentView>) -> bool {
    forall|k: int|
        0 < k < segments.len() ==> !((#[trigger] segments[k]) is Text && segments[k - 1] is Text)
}

/// Whether there is code in each range of code of all `children` that are no images.
pub open spec fn codes_filled(children: Seq<InlineView>) -> bool {
    forall|k: int|
        0 <= k < children.len() && (#[trigger] children[k]).image is None ==> ranges_filled(
            children[k].text,
            code_ranges_of(children[k]),
        )
}

pub open spec fn ranges_filled(text: Seq<char>, ranges: Seq<Range<usize>>) -> bool {
    forall|k: int|
        0 <= k < ranges.len() ==> within((#[trigger] ranges[k]).start as int, text) < within(
            ranges[k].end as int,
            text,
        )
}

impl Collected {
    /// Whether no stretch of text follows another, now and once the collected text is finished.
    pub open spec fn apart(self) -> bool {
        texts_apart(self.out) && (self.out.len() > 0 ==> !(self.out.last() is Text))
    }
}

proof fn lemma_code_steps_apart(
    c: Collected,
    node: InlineView,
    i: int,
    ranges: Seq<Range<usize>>,
)
    requires
        c.apart(),
        ranges_filled(node.text, ranges),
    ensures
        c.code_steps(node, i, ranges).apart(),
    decreases ranges.len(),
{
    if ranges.len() > 0 {
        let rest = ranges.drop_last();
        assert forall|k: int| 0 <= k < rest.len() implies within(
            (#[trigger] rest[k]).start as int,
            node.text,
        ) < within(rest[k].end as int, node.text) by {
            assert(rest[k] == ranges[k]);
        }
        lemma_code_steps_apart(c, node, i, rest);
        let r = ranges[ranges.len() - 1];
        assert(within(r.start as int, node.text) < within(r.end as int, node.text));
    }
}

proof fn lemma_node_steps_apart(children: Seq<InlineView>)
    requires
        codes_filled(children),
    ensures
        Collected::none().node_steps(children).apart(),
    decreases children.len(),
{
    if children.len() > 0 {
        let rest = children.drop_last();
        assert forall|k: int|
            0 <= k < rest.len() && (#[trigger] rest[k]).image is None implies ranges_filled(
            rest[k].text,
            code_ranges_of(rest[k]),
        ) by {
            assert(rest[k] == children[k]);
        }
        lemma_node_steps_apart(rest);
        let node = children[children.len() - 1];
        if node.image is None {
            lemma_code_steps_apart(
                Collected::none().node_steps(rest),
                node,
                children.len() - 1,
                code_ranges_of(node),
            );
        }
    }
}

/// Code is shown by the segment alone: no style of a segment is one of code.
/// Stretches of other text are never empty, and images keep their order.
/// Where code lies at boundaries, no stretch of it is empty and each style
/// covers a part of the text of its segment. Where no range of code is empty, no stretch of
/// text follows another.
pub proof fn law_segments_are_tidy(children: Seq<InlineView>)
    ensures
        forall|k: int|
            0 <= k < segments_of(children).len() ==> tidy(#[trigger] segments_of(children)[k]),
        segment_images(segments_of(children)) == child_images(children),
        all_at_boundaries(children) ==> forall|k: int|
            0 <= k < segments_of(children).len() ==> filled(#[trigger] segments_of(children)[k]),
        codes_filled(children) ==> texts_apart(segments_of(children)),
{
    let c = Collected::none().node_steps(children);
    lemma_node_steps_tidy(children);
    lemma_node_steps_images(children);
    lemma_flush_images(c);
    if all_at_boundaries(children) {
        lemma_node_steps_filled(children);
        lemma_flush_filled(c);
    }
    if codes_filled(children) {
        lemma_node_steps_apart(children);
    }
}

} // verus!
