//! The undo and redo history of an input.
//!
//! Changes are kept in transactions, each of which is undone and redone as a
//! whole. Adjacent typing and adjacent deletes in one direction coalesce into
//! one transaction; a composition is collected in a transaction that is begun
//! and committed explicitly.
use crate::change::{change_views, law_change_merges, law_change_reverts, Change, ChangeView};
use crate::text::{index_at, lemma_clip, lemma_clip_mono, spliced};
use vstd::prelude::*;

verus! {

/// What kind of edit a change came from.
#[derive(Clone, Copy, PartialEq, Eq, Structural, Debug)]
pub enum EditIntent {
    Typing,
    Backspace,
    DeleteForward,
    Atomic,
}

/// Changes that are undone and redone together.
pub struct Transaction {
    pub changes: Vec<Change>,
    pub intent: EditIntent,
}

pub struct TransactionView {
    pub changes: Seq<ChangeView>,
    pub intent: EditIntent,
}

impl View for Transaction {
    type V = TransactionView;

    open spec fn view(&self) -> TransactionView {
        TransactionView { changes: change_views(self.changes@), intent: self.intent }
    }
}

pub open spec fn transaction_views(ts: Seq<Transaction>) -> Seq<TransactionView> {
    ts.map_values(|t: Transaction| t@)
}

pub struct UndoManager {
    pub undos: Vec<Transaction>,
    pub redos: Vec<Transaction>,
    /// The changes of the transaction that was begun and not yet committed.
    pub open: Option<Vec<Change>>,
    /// The intent that the next edit was announced with.
    pub pending_intent: Option<EditIntent>,
    pub ignoring: bool,
    /// Whether the next change may join the last transaction.
    pub coalescing: bool,
}

pub struct UndoView {
    pub undos: Seq<TransactionView>,
    pub redos: Seq<TransactionView>,
    pub open: Option<Seq<ChangeView>>,
    pub pending_intent: Option<EditIntent>,
    pub ignoring: bool,
    pub coalescing: bool,
}

impl View for UndoManager {
    type V = UndoView;

    open spec fn view(&self) -> UndoView {
        UndoView {
            undos: transaction_views(self.undos@),
            redos: transaction_views(self.redos@),
            open: match self.open {
                Some(changes) => Some(change_views(changes@)),
                None => None,
            },
            pending_intent: self.pending_intent,
            ignoring: self.ignoring,
            coalescing: self.coalescing,
        }
    }
}

/// Whether `next` carries on where `last` stopped.
pub open spec fn adjacent(last: ChangeView, next: ChangeView, intent: EditIntent) -> bool {
    match intent {
        EditIntent::Typing => last.new_range.end == next.old_range.start && next.old_range.start
            == next.old_range.end,
        EditIntent::Backspace => next.old_range.end == last.old_range.start,
        EditIntent::DeleteForward => next.old_range.start == last.old_range.start,
        EditIntent::Atomic => false,
    }
}

/// `changes` with `c` taken in: merged into the last change where it
/// replaced what that one had put in, appended otherwise.
pub open spec fn appended(changes: Seq<ChangeView>, c: ChangeView) -> Seq<ChangeView> {
    if changes.len() > 0 && changes.last().extended_by(c) {
        changes.drop_last().push(changes.last().merged(c))
    } else {
        changes.push(c)
    }
}

impl UndoView {
    pub open spec fn empty() -> UndoView {
        UndoView {
            undos: Seq::empty(),
            redos: Seq::empty(),
            open: None,
            pending_intent: None,
            ignoring: false,
            coalescing: false,
        }
    }

    pub open spec fn wf(self) -> bool {
        &&& forall|i: int| 0 <= i < self.undos.len() ==> (#[trigger] self.undos[i]).wf()
        &&& forall|i: int| 0 <= i < self.redos.len() ==> (#[trigger] self.redos[i]).wf()
        &&& self.open matches Some(changes) ==> changes_wf(changes)
    }

    /// Whether a change with `intent` joins the last transaction.
    pub open spec fn coalesces(self, c: ChangeView, intent: EditIntent) -> bool {
        &&& self.coalescing
        &&& self.undos.len() > 0
        &&& self.undos.last().intent == intent
        &&& self.undos.last().changes.len() > 0
        &&& adjacent(self.undos.last().changes.last(), c, intent)
    }

    /// The history after `c` was recorded. A change that changed nothing
    /// leaves the history, the redo stack included, as it is, and only keeps
    /// the next change from joining the last transaction.
    pub open spec fn recorded(self, c: ChangeView, intent: EditIntent) -> UndoView {
        if c.is_noop() {
            UndoView { coalescing: false, ..self }
        } else if let Some(changes) = self.open {
            UndoView { open: Some(appended(changes, c)), redos: Seq::empty(), ..self }
        } else if self.coalesces(c, intent) {
            let last = self.undos.last();
            UndoView {
                undos: self.undos.drop_last().push(
                    TransactionView { changes: last.changes.push(c), intent },
                ),
                redos: Seq::empty(),
                ..self
            }
        } else {
            UndoView {
                undos: self.undos.push(TransactionView { changes: seq![c], intent }),
                redos: Seq::empty(),
                coalescing: true,
                ..self
            }
        }
    }

    /// The history after the open transaction was closed. One that changed nothing is dropped.
    pub open spec fn committed(self) -> UndoView {
        match self.open {
            None => self,
            Some(changes) => if changes.len() == 0 || (changes.len() == 1
                && changes[0].is_noop()) {
                UndoView { open: None, coalescing: false, ..self }
            } else {
                UndoView {
                    undos: self.undos.push(
                        TransactionView { changes, intent: EditIntent::Atomic },
                    ),
                    open: None,
                    coalescing: false,
                    ..self
                }
            },
        }
    }

    /// The history after a transaction was opened.
    pub open spec fn begun(self) -> UndoView {
        UndoView { open: Some(Seq::empty()), coalescing: false, ..self.committed() }
    }

    /// The history after the last transaction was moved to the redo stack.
    pub open spec fn undone(self) -> UndoView {
        let h = self.committed();
        if h.undos.len() == 0 {
            UndoView { coalescing: false, ..h }
        } else {
            UndoView {
                undos: h.undos.drop_last(),
                redos: h.redos.push(h.undos.last()),
                coalescing: false,
                ..h
            }
        }
    }

    /// The history after the last undone transaction was moved back.
    pub open spec fn redone(self) -> UndoView {
        let h = self.committed();
        if h.redos.len() == 0 {
            UndoView { coalescing: false, ..h }
        } else {
            UndoView {
                undos: h.undos.push(h.redos.last()),
                redos: h.redos.drop_last(),
                coalescing: false,
                ..h
            }
        }
    }

    /// The changes to take back, the latest first.
    pub open spec fn to_undo(self) -> Option<Seq<ChangeView>> {
        let h = self.committed();
        if h.undos.len() == 0 {
            None
        } else {
            Some(h.undos.last().changes.reverse())
        }
    }

    /// The changes to make again, the earliest first.
    pub open spec fn to_redo(self) -> Option<Seq<ChangeView>> {
        let h = self.committed();
        if h.redos.len() == 0 {
            None
        } else {
            Some(h.redos.last().changes)
        }
    }

    /// Whether there is anything to undo.
    pub open spec fn any_undos(self) -> bool {
        self.committed().undos.len() > 0
    }
}

pub open spec fn changes_wf(changes: Seq<ChangeView>) -> bool {
    forall|i: int| 0 <= i < changes.len() ==> (#[trigger] changes[i]).wf()
}

impl TransactionView {
    pub open spec fn wf(self) -> bool {
        self.changes.len() > 0 && changes_wf(self.changes)
    }
}

fn clone_changes(changes: &Vec<Change>) -> (copy: Vec<Change>)
    ensures
        change_views(copy@) == change_views(changes@),
{
    let mut copy: Vec<Change> = Vec::new();
    for i in 0..changes.len()
        invariant
            copy@.len() == i,
            forall|k: int| 0 <= k < i ==> copy@[k]@ == changes@[k]@,
    {
        copy.push(changes[i].clone());
    }
    assert(change_views(copy@) =~= change_views(changes@));
    copy
}

fn reversed_changes(changes: &Vec<Change>) -> (copy: Vec<Change>)
    ensures
        change_views(copy@) == change_views(changes@).reverse(),
{
    let mut copy: Vec<Change> = Vec::new();
    let n: usize = changes.len();
    for i in 0..n
        invariant
            n == changes@.len(),
            copy@.len() == i,
            forall|k: int| 0 <= k < i ==> copy@[k]@ == changes@[n - 1 - k]@,
    {
        copy.push(changes[n - 1 - i].clone());
    }
    assert(change_views(copy@) =~= change_views(changes@).reverse());
    copy
}

/// Takes `change` into a list of changes.
fn append_change(changes: &mut Vec<Change>, change: Change)
    ensures
        change_views(final(changes)@) == appended(change_views(old(changes)@), change@),
{
    let ghost before = change_views(changes@);
    let n: usize = changes.len();
    let merges: bool = n > 0 && changes[n - 1].is_extended_by(&change);
    assert(n > 0 ==> before.last() == changes@[n - 1]@);
    if merges {
        let mut last = changes.pop().unwrap();
        last.merge(change);
        changes.push(last);
    } else {
        changes.push(change);
    }
    assert(change_views(changes@) =~= appended(before, change@));
}

impl UndoManager {
    pub fn new() -> (m: UndoManager)
        ensures
            m@ == UndoView::empty(),
    {
        let m = UndoManager {
            undos: Vec::new(),
            redos: Vec::new(),
            open: None,
            pending_intent: None,
            ignoring: false,
            coalescing: false,
        };
        assert(m@.undos =~= Seq::empty());
        assert(m@.redos =~= Seq::empty());
        m
    }

    pub fn is_ignoring(&self) -> (r: bool)
        ensures
            r == self@.ignoring,
    {
        self.ignoring
    }

    /// While the history ignores edits, callers do not record any.
    pub fn set_ignoring(&mut self, ignoring: bool)
        ensures
            final(self)@ == (UndoView { ignoring, ..old(self)@ }),
    {
        self.ignoring = ignoring;
    }

    /// Keeps the next change from joining the last transaction.
    pub fn break_transaction_coalescing(&mut self)
        ensures
            final(self)@ == (UndoView { coalescing: false, ..old(self)@ }),
    {
        self.coalescing = false;
    }

    /// Forgets all changes.
    pub fn clear(&mut self)
        ensures
            final(self)@ == (UndoView {
                undos: Seq::empty(),
                redos: Seq::empty(),
                open: None,
                coalescing: false,
                ..old(self)@
            }),
    {
        self.undos = Vec::new();
        self.redos = Vec::new();
        self.open = None;
        self.coalescing = false;
        assert(self@.undos =~= Seq::empty());
        assert(self@.redos =~= Seq::empty());
    }

    /// Whether there is anything to undo.
    pub fn has_undos(&self) -> (r: bool)
        ensures
            r == self@.any_undos(),
    {
        if self.undos.len() > 0 {
            return true;
        }
        match &self.open {
            None => false,
            Some(changes) => changes.len() > 1 || (changes.len() == 1 && !changes[0].is_noop()),
        }
    }

    /// Opens a transaction that collects the changes up to the next commit.
    pub fn begin_transaction(&mut self)
        ensures
            final(self)@ == old(self)@.begun(),
    {
        self.commit_transaction();
        let changes: Vec<Change> = Vec::new();
        assert(change_views(changes@) =~= Seq::empty());
        self.open = Some(changes);
        self.coalescing = false;
    }

    /// Closes the open transaction, if there is one.
    pub fn commit_transaction(&mut self)
        ensures
            final(self)@ == old(self)@.committed(),
    {
        let ghost before = self@;
        match self.open.take() {
            None => {},
            Some(changes) => {
                let empty: bool = changes.len() == 0 || (changes.len() == 1
                    && changes[0].is_noop());
                self.coalescing = false;
                if !empty {
                    self.undos.push(Transaction { changes, intent: EditIntent::Atomic });
                    assert(self@.undos =~= before.committed().undos);
                }
            },
        }
    }

    /// Records a change.
    pub fn record_transaction(&mut self, change: Change, intent: EditIntent)
        ensures
            final(self)@ == old(self)@.recorded(change@, intent),
    {
        let ghost before = self@;
        let ghost c = change@;
        if change.is_noop() {
            self.coalescing = false;
            return;
        }
        self.redos = Vec::new();
        assert(self@.redos =~= Seq::empty());
        match self.open.take() {
            Some(changes) => {
                let mut changes = changes;
                append_change(&mut changes, change);
                self.open = Some(changes);
            },
            None => {
                if self.joins_last(&change, intent) {
                    let mut last = self.undos.pop().unwrap();
                    last.changes.push(change);
                    self.undos.push(last);
                    assert(last@.changes =~= before.undos.last().changes.push(c));
                } else {
                    let mut changes: Vec<Change> = Vec::new();
                    changes.push(change);
                    assert(change_views(changes@) =~= seq![c]);
                    self.undos.push(Transaction { changes, intent });
                    self.coalescing = true;
                }
                assert(self@.undos =~= before.recorded(c, intent).undos);
            },
        }
    }

    fn joins_last(&self, change: &Change, intent: EditIntent) -> (r: bool)
        ensures
            r == self@.coalesces(change@, intent),
    {
        let n: usize = self.undos.len();
        if !self.coalescing || n == 0 {
            return false;
        }
        let last = &self.undos[n - 1];
        assert(self@.undos.last() == last@);
        let k: usize = last.changes.len();
        if last.intent != intent || k == 0 {
            return false;
        }
        let c = &last.changes[k - 1];
        assert(last@.changes.last() == c@);
        match intent {
            EditIntent::Typing => c.new_range.end == change.old_range.start
                && change.old_range.start == change.old_range.end,
            EditIntent::Backspace => change.old_range.end == c.old_range.start,
            EditIntent::DeleteForward => change.old_range.start == c.old_range.start,
            EditIntent::Atomic => false,
        }
    }

    /// Moves the last transaction to the redo stack and hands out its
    /// changes, the latest first.
    pub fn undo(&mut self) -> (changes: Option<Vec<Change>>)
        ensures
            final(self)@ == old(self)@.undone(),
            match changes {
                Some(v) => old(self)@.to_undo() == Some(change_views(v@)),
                None => old(self)@.to_undo() is None,
            },
    {
        self.commit_transaction();
        self.coalescing = false;
        let ghost h = self@;
        match self.undos.pop() {
            None => None,
            Some(transaction) => {
                let changes = reversed_changes(&transaction.changes);
                assert(h.undos.last() == transaction@);
                self.redos.push(transaction);
                assert(self@.undos =~= h.undos.drop_last());
                assert(self@.redos =~= h.redos.push(transaction@));
                Some(changes)
            },
        }
    }

    /// Moves the last undone transaction back and hands out its changes, the
    /// earliest first.
    pub fn redo(&mut self) -> (changes: Option<Vec<Change>>)
        ensures
            final(self)@ == old(self)@.redone(),
            match changes {
                Some(v) => old(self)@.to_redo() == Some(change_views(v@)),
                None => old(self)@.to_redo() is None,
            },
    {
        self.commit_transaction();
        self.coalescing = false;
        let ghost h = self@;
        match self.redos.pop() {
            None => None,
            Some(transaction) => {
                let changes = clone_changes(&transaction.changes);
                assert(h.redos.last() == transaction@);
                self.undos.push(transaction);
                assert(self@.redos =~= h.redos.drop_last());
                assert(self@.undos =~= h.undos.push(transaction@));
                Some(changes)
            },
        }
    }
}

// ---------------------------------------------------------------------------
// What the history says about the text

/// The text before `c`, when `after` is the text after it.
pub open spec fn reverted(c: ChangeView, after: Seq<char>) -> Seq<char> {
    spliced(after, c.new_range.start as int, c.new_range.end as int, c.old_text)
}

/// The text after `c`, when `before` is the text before it.
pub open spec fn applied(c: ChangeView, before: Seq<char>) -> Seq<char> {
    spliced(before, c.old_range.start as int, c.old_range.end as int, c.new_text)
}

/// The text before all of `changes`, when `after` is the text after them.
pub open spec fn all_reverted(changes: Seq<ChangeView>, after: Seq<char>) -> Seq<char>
    decreases changes.len(),
{
    if changes.len() == 0 {
        after
    } else {
        all_reverted(changes.drop_last(), reverted(changes.last(), after))
    }
}

/// The text after all of `changes`, when `before` is the text before them.
pub open spec fn all_applied(changes: Seq<ChangeView>, before: Seq<char>) -> Seq<char>
    decreases changes.len(),
{
    if changes.len() == 0 {
        before
    } else {
        applied(changes.last(), all_applied(changes.drop_last(), before))
    }
}

/// Whether `changes` can have led to the text `after`.
pub open spec fn led_to(changes: Seq<ChangeView>, after: Seq<char>) -> bool
    decreases changes.len(),
{
    changes.len() == 0 || {
        let before = reverted(changes.last(), after);
        changes.last().connects(before, after) && led_to(changes.drop_last(), before)
    }
}

/// Whether `changes` can be made to the text `before`.
pub open spec fn lead_from(changes: Seq<ChangeView>, before: Seq<char>) -> bool
    decreases changes.len(),
{
    changes.len() == 0 || {
        let mid = all_applied(changes.drop_last(), before);
        changes.last().connects(mid, applied(changes.last(), mid)) && lead_from(
            changes.drop_last(),
            before,
        )
    }
}

/// Whether each transaction of an undo stack fits the text that the later ones leave.
pub open spec fn undos_fit(undos: Seq<TransactionView>, text: Seq<char>) -> bool
    decreases undos.len(),
{
    undos.len() == 0 || {
        led_to(undos.last().changes, text) && undos_fit(
            undos.drop_last(),
            all_reverted(undos.last().changes, text),
        )
    }
}

/// Whether each transaction of a redo stack fits the text that the ones above it leave.
pub open spec fn redos_fit(redos: Seq<TransactionView>, text: Seq<char>) -> bool
    decreases redos.len(),
{
    redos.len() == 0 || {
        lead_from(redos.last().changes, text) && redos_fit(
            redos.drop_last(),
            all_applied(redos.last().changes, text),
        )
    }
}

impl UndoView {
    /// Whether the history tells how `text` came about and what was undone of it.
    pub open spec fn tells(self, text: Seq<char>) -> bool {
        &&& redos_fit(self.redos, text)
        &&& match self.open {
            None => undos_fit(self.undos, text),
            Some(changes) => {
                &&& led_to(changes, text)
                &&& undos_fit(self.undos, all_reverted(changes, text))
            },
        }
    }
}

/// Undoing changes leaves a text to which they can be made again, with the same outcome.
pub proof fn lemma_led_to(changes: Seq<ChangeView>, after: Seq<char>)
    requires
        led_to(changes, after),
    ensures
        lead_from(changes, all_reverted(changes, after)),
        all_applied(changes, all_reverted(changes, after)) == after,
    decreases changes.len(),
{
    if changes.len() > 0 {
        let mid = reverted(changes.last(), after);
        lemma_led_to(changes.drop_last(), mid);
    }
}

/// Making changes leaves a text that they led to, and undoing them gives back the first text.
pub proof fn lemma_lead_from(changes: Seq<ChangeView>, before: Seq<char>)
    requires
        lead_from(changes, before),
    ensures
        led_to(changes, all_applied(changes, before)),
        all_reverted(changes, all_applied(changes, before)) == before,
    decreases changes.len(),
{
    if changes.len() > 0 {
        let mid = all_applied(changes.drop_last(), before);
        lemma_lead_from(changes.drop_last(), before);
        law_change_reverts(changes.last(), mid, applied(changes.last(), mid));
    }
}

/// A change that puts back what was there leaves the text as it was.
pub proof fn lemma_noop(c: ChangeView, before: Seq<char>, after: Seq<char>)
    requires
        c.connects(before, after),
        c.is_noop(),
    ensures
        before == after,
{
    let a = c.old_range.start as int;
    let b = c.old_range.end as int;
    lemma_clip(before, a);
    lemma_clip(before, b);
    lemma_clip_mono(before, a, b);
    let i = index_at(before, a);
    let j = index_at(before, b);
    assert(before.take(i) + before.subrange(i, j) + before.skip(j) =~= before);
}

proof fn lemma_push_change(changes: Seq<ChangeView>, c: ChangeView, before: Seq<char>, after: Seq<char>)
    requires
        led_to(changes, before),
        c.connects(before, after),
    ensures
        led_to(changes.push(c), after),
        all_reverted(changes.push(c), after) == all_reverted(changes, before),
{
    law_change_reverts(c, before, after);
    assert(changes.push(c).drop_last() =~= changes);
}

proof fn lemma_append_change(
    changes: Seq<ChangeView>,
    c: ChangeView,
    before: Seq<char>,
    after: Seq<char>,
)
    requires
        led_to(changes, before),
        c.connects(before, after),
    ensures
        led_to(appended(changes, c), after),
        all_reverted(appended(changes, c), after) == all_reverted(changes, before),
{
    if changes.len() > 0 && changes.last().extended_by(c) {
        let first = reverted(changes.last(), before);
        law_change_merges(changes.last(), c, first, before, after);
        lemma_push_change(changes.drop_last(), changes.last().merged(c), first, after);
    } else {
        lemma_push_change(changes, c, before, after);
    }
}

/// Recording what happened to the text keeps the history true of it.
pub proof fn law_recording_tells(
    h: UndoView,
    c: ChangeView,
    intent: EditIntent,
    before: Seq<char>,
    after: Seq<char>,
)
    requires
        h.tells(before),
        c.connects(before, after),
    ensures
        h.recorded(c, intent).tells(after),
{
    if c.is_noop() {
        lemma_noop(c, before, after);
    } else if let Some(changes) = h.open {
        lemma_append_change(changes, c, before, after);
    } else if h.coalesces(c, intent) {
        let last = h.undos.last();
        lemma_push_change(last.changes, c, before, after);
        let g = TransactionView { changes: last.changes.push(c), intent };
        assert(h.undos.drop_last().push(g).drop_last() =~= h.undos.drop_last());
    } else {
        let none = Seq::<ChangeView>::empty();
        lemma_push_change(none, c, before, after);
        assert(none.push(c) =~= seq![c]);
        let g = TransactionView { changes: seq![c], intent };
        assert(h.undos.push(g).drop_last() =~= h.undos);
    }
}

/// Opening and closing transactions keeps the history true of the text.
pub proof fn law_transactions_tell(h: UndoView, text: Seq<char>)
    requires
        h.tells(text),
    ensures
        h.committed().tells(text),
        h.begun().tells(text),
{
    if let Some(changes) = h.open {
        if changes.len() == 0 {
        } else if changes.len() == 1 && changes[0].is_noop() {
            lemma_noop(changes[0], reverted(changes[0], text), text);
            assert(changes.drop_last() =~= Seq::empty());
            assert(all_reverted(changes.drop_last(), text) == text);
        } else {
            let g = TransactionView { changes, intent: EditIntent::Atomic };
            assert(h.undos.push(g).drop_last() =~= h.undos);
        }
    }
}

/// Undo goes back to the text before the last transaction, and redo then
/// gives back the text and the history that undo started from.
pub proof fn law_undo_then_redo(h: UndoView, text: Seq<char>)
    requires
        h.tells(text),
        h.committed().undos.len() > 0,
    ensures
        ({
            let changes = h.committed().undos.last().changes;
            let before = all_reverted(changes, text);
            &&& h.to_undo() == Some(changes.reverse())
            &&& h.undone().tells(before)
            &&& h.undone().to_redo() == Some(changes)
            &&& all_applied(changes, before) == text
            &&& h.undone().redone().tells(text)
            &&& h.undone().redone() == (UndoView { coalescing: false, ..h.committed() })
        }),
{
    let c = h.committed();
    let changes = c.undos.last().changes;
    let before = all_reverted(changes, text);
    law_transactions_tell(h, text);
    lemma_led_to(changes, text);
    let u = h.undone();
    assert(u.redos.drop_last() =~= c.redos);
    assert(u.committed() == u);
    let r = u.redone();
    assert(r.undos =~= c.undos);
    assert(r.redos =~= c.redos);
}

/// Redo goes forward to the text after the last undone transaction, and undo
/// then gives back the text and the history that redo started from.
pub proof fn law_redo_then_undo(h: UndoView, text: Seq<char>)
    requires
        h.tells(text),
        h.committed().redos.len() > 0,
    ensures
        ({
            let changes = h.committed().redos.last().changes;
            let after = all_applied(changes, text);
            &&& h.to_redo() == Some(changes)
            &&& h.redone().tells(after)
            &&& h.redone().to_undo() == Some(changes.reverse())
            &&& all_reverted(changes, after) == text
            &&& h.redone().undone() == (UndoView { coalescing: false, ..h.committed() })
        }),
{
    let c = h.committed();
    let changes = c.redos.last().changes;
    law_transactions_tell(h, text);
    lemma_lead_from(changes, text);
    let r = h.redone();
    assert(r.undos.drop_last() =~= c.undos);
    assert(r.committed() == r);
    let u = r.undone();
    assert(u.undos =~= c.undos);
    assert(u.redos =~= c.redos);
}

/// Every operation of the history keeps its transactions well-formed.
pub proof fn law_history_wf(h: UndoView, c: ChangeView, intent: EditIntent)
    requires
        h.wf(),
        c.wf(),
    ensures
        h.recorded(c, intent).wf(),
        h.committed().wf(),
        h.begun().wf(),
        h.undone().wf(),
        h.redone().wf(),
        h.to_undo() matches Some(changes) ==> changes.len() > 0 && changes_wf(changes),
        h.to_redo() matches Some(changes) ==> changes.len() > 0 && changes_wf(changes),
{
    let r = h.recorded(c, intent);
    if !c.is_noop() && h.open is None && h.coalesces(c, intent) {
        assert(h.undos[h.undos.len() - 1].wf());
    }
    let k = h.committed();
    assert(k.wf());
    if k.undos.len() > 0 {
        assert(k.undos[k.undos.len() - 1].wf());
    }
    if k.redos.len() > 0 {
        assert(k.redos[k.redos.len() - 1].wf());
    }
}

/// Whatever is recorded while a transaction is open joins it, and closing it
/// adds at most one transaction to the history.
pub proof fn law_open_transaction_collects(h: UndoView, c: ChangeView, intent: EditIntent)
    requires
        h.open is Some,
    ensures
        h.recorded(c, intent).open is Some,
        h.recorded(c, intent).undos == h.undos,
        h.committed().open is None,
        h.committed().undos == h.undos || (h.committed().undos.len() == h.undos.len() + 1
            && h.committed().undos.drop_last() == h.undos),
{
    if h.committed().undos.len() == h.undos.len() + 1 {
        assert(h.committed().undos.drop_last() =~= h.undos);
    }
}

/// A composition that is given up leaves nothing in the history.
pub proof fn law_cancelled_composition_leaves_nothing(
    h: UndoView,
    c: ChangeView,
    d: ChangeView,
    first: EditIntent,
    second: EditIntent,
)
    requires
        c.extended_by(d),
        d.new_text == c.old_text,
        !c.is_noop(),
        !d.is_noop(),
    ensures
        h.begun().recorded(c, first).recorded(d, second).committed().undos == h.committed().undos,
{
    let none = Seq::<ChangeView>::empty();
    assert(appended(none, c) =~= seq![c]);
    assert(seq![c].drop_last() =~= none);
    assert(appended(seq![c], d) =~= seq![c.merged(d)]);
}

} // verus!
