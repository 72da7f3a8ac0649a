//! What edits come to.
use crate::edit::{min, Verdicts};
use crate::selection::Selection;
use crate::state::StateView;
use crate::text::{
    byte_len, clip_left, index_at, is_boundary, lemma_clip, lemma_spliced, lemma_utf16_round_trip,
    spliced,
};
use core::ops::Range;
use vstd::prelude::*;

verus! {

/// An edit that is turned down, or that the user may not make, changes neither
/// the text nor the selection nor the history.
pub proof fn law_refused_edit_changes_nothing(
    s: StateView,
    range: Option<Range<usize>>,
    t: Seq<char>,
    v: Verdicts,
)
    requires
        !s.editable() || s.rejects(range, t, v),
    ensures
        s.replaced(range, t, v) == s.intent_taken(),
        s.replaced(range, t, v).text == s.text,
        s.replaced(range, t, v).selected == s.selected,
        s.replaced(range, t, v).undo.undos == s.undo.undos,
        s.replaced(range, t, v).undo.redos == s.undo.redos,
{
    reveal(StateView::replaced);
}

/// An edit of an input without a mask and without checks replaces what it says.
proof fn lemma_plain_edit(
    s: StateView,
    range: Option<Range<usize>>,
    t: Seq<char>,
    v: Verdicts,
)
    requires
        s.editable(),
        s.mask is Plain,
        s.single_line() ==> s.validate is None && s.pattern is None,
        s.fits(t),
    ensures
        ({
            let (a, b) = s.edit_range(range);
            let new = s.normalized(t);
            let after = s.replaced(range, t, v);
            &&& after.text == spliced(s.text, a, b, new)
            &&& after.selected == Selection::at(
                min(a + byte_len(new), byte_len(after.text) as int) as usize,
            )
            &&& after.options == s.options
            &&& after.ime is None
        }),
{
    reveal(StateView::replaced);
}

/// What a program's edit leaves besides the text and the selection.
proof fn lemma_finished(s: StateView, p: StateView)
    requires
        p.options == s.announced().options,
    ensures
        p.silenced(false).collapsed().restored(s).text == p.text,
        p.silenced(false).collapsed().restored(s).selected == Selection::at(p.selected.end),
        p.silenced(false).collapsed().restored(s).options == s.options,
        p.silenced(false).collapsed().restored(s).ime == p.ime,
{
}

/// What a program's edit of such an input comes to.
proof fn lemma_programmed(s: StateView, range: Option<Range<usize>>, t: Seq<char>, v: Verdicts)
    requires
        s.mask is Plain,
        s.single_line() ==> s.validate is None && s.pattern is None,
        s.fits(t),
    ensures
        ({
            let p = s.announced().silenced(true).replaced(range, t, v);
            &&& p.text == spliced(
                s.text,
                s.edit_range(range).0,
                s.edit_range(range).1,
                s.normalized(t),
            )
            &&& p.selected == Selection::at(
                min(
                    s.edit_range(range).0 + byte_len(s.normalized(t)),
                    byte_len(p.text) as int,
                ) as usize,
            )
            &&& p.options == s.announced().options
            &&& p.ime is None
        }),
{
    let q = s.announced().silenced(true);
    lemma_announced(s, range, t);
    lemma_plain_edit(q, range, t, v);
}

proof fn lemma_announced(s: StateView, range: Option<Range<usize>>, t: Seq<char>)
    ensures
        s.announced().silenced(true).edit_range(range) == s.edit_range(range),
        s.announced().silenced(true).normalized(t) == s.normalized(t),
        s.announced().silenced(true).text == s.text,
        s.announced().silenced(true).editable(),
        s.announced().silenced(true).mask == s.mask,
        s.announced().silenced(true).single_line() == s.single_line(),
        s.announced().silenced(true).validate == s.validate,
        s.announced().silenced(true).pattern == s.pattern,
        s.announced().silenced(true).options == s.announced().options,
{
}

/// Where text is inserted.
proof fn lemma_cursor_place(s: StateView)
    requires
        byte_len(s.text) <= usize::MAX,
    ensures
        ({
            let at = clip_left(s.text, s.cursor() as int);
            s.edit_range(Some(s.cursor_utf16())) == (at, at)
        }),
{
    let o = s.cursor() as int;
    lemma_clip(s.text, o);
    lemma_utf16_round_trip(s.text, o);
    crate::text::lemma_utf16_narrower(s.text.take(index_at(s.text, o)));
    crate::text::lemma_offset_of(s.text, index_at(s.text, o));
}

/// The cursor behind text that was put in at boundaries is in the text.
proof fn lemma_behind(s: Seq<char>, a: int, b: int, new: Seq<char>)
    requires
        0 <= a <= b,
        is_boundary(s, a),
        is_boundary(s, b),
    ensures
        min(a + byte_len(new), byte_len(spliced(s, a, b, new)) as int) == a + byte_len(new),
        a + byte_len(new) <= byte_len(s) + byte_len(new),
{
    lemma_clip(s, a);
    lemma_clip(s, b);
    lemma_spliced(s, a, b, new);
}

/// What a program inserts into an input without a mask and without checks
/// stands at the cursor, and the cursor is behind it; it does not matter
/// whether the user may edit.
pub proof fn law_insert_lands(s: StateView, t: Seq<char>, v: Verdicts)
    requires
        s.mask is Plain,
        s.single_line() ==> s.validate is None && s.pattern is None,
        s.fits(t),
    ensures
        ({
            let after = s.inserted(t, v);
            let at = clip_left(s.text, s.cursor() as int);
            let new = s.normalized(t);
            &&& after.text == spliced(s.text, at, at, new)
            &&& after.selected == Selection::at((at + byte_len(new)) as usize)
            &&& after.cursor() == at + byte_len(new)
            &&& after.options == s.options
        }),
{
    let at = clip_left(s.text, s.cursor() as int);
    lemma_cursor_place(s);
    lemma_clip(s.text, s.cursor() as int);
    lemma_behind(s.text, at, at, s.normalized(t));
    let range = Some(s.cursor_utf16());
    lemma_programmed(s, range, t, v);
    lemma_finished(s, s.announced().silenced(true).replaced(range, t, v));
}

proof fn lemma_replaced_freely(s: StateView, t: Seq<char>, v: Verdicts)
    requires
        s.mask is Plain,
        s.single_line() ==> s.validate is None && s.pattern is None,
        s.fits(t),
    ensures
        s.replaced_freely(t, v).text == spliced(
            s.text,
            s.edit_range(None).0,
            s.edit_range(None).1,
            s.normalized(t),
        ),
        s.replaced_freely(t, v).selected == Selection::at(
            min(
                s.edit_range(None).0 + byte_len(s.normalized(t)),
                byte_len(s.replaced_freely(t, v).text) as int,
            ) as usize,
        ),
        s.replaced_freely(t, v).options == s.options,
{
    reveal(StateView::replaced_freely);
    lemma_programmed(s, None, t, v);
    lemma_finished(s, s.announced().silenced(true).replaced(None, t, v));
}

proof fn lemma_lands(s: StateView, after: StateView, new: Seq<char>)
    requires
        s.ime is None,
        s.selected.ordered(),
        is_boundary(s.text, s.selected.start as int),
        is_boundary(s.text, s.selected.end as int),
        after.text == spliced(s.text, s.edit_range(None).0, s.edit_range(None).1, new),
        after.selected == Selection::at(
            min(s.edit_range(None).0 + byte_len(new), byte_len(after.text) as int) as usize,
        ),
    ensures
        after.text == spliced(s.text, s.selected.start as int, s.selected.end as int, new),
        after.selected == Selection::at((s.selected.start + byte_len(new)) as usize),
{
    lemma_behind(s.text, s.selected.start as int, s.selected.end as int, new);
}

/// What a program replaces the selection of such an input by stands in its
/// place, and the cursor is behind it.
pub proof fn law_replace_lands(s: StateView, t: Seq<char>, v: Verdicts)
    requires
        s.mask is Plain,
        s.single_line() ==> s.validate is None && s.pattern is None,
        s.fits(t),
        s.ime is None,
        s.selected.ordered(),
        is_boundary(s.text, s.selected.start as int),
        is_boundary(s.text, s.selected.end as int),
    ensures
        s.replaced_freely(t, v).text == spliced(
            s.text,
            s.selected.start as int,
            s.selected.end as int,
            s.normalized(t),
        ),
        s.replaced_freely(t, v).selected == Selection::at(
            (s.selected.start + byte_len(s.normalized(t))) as usize,
        ),
        s.replaced_freely(t, v).options == s.options,
{
    lemma_replaced_freely(s, t, v);
    lemma_lands(s, s.replaced_freely(t, v), s.normalized(t));
}

} // verus!
