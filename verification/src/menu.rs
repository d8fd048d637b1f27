//! The selection menu: a blocking, full-screen picker over a fixed list
//! of rows, narrowed live by a typed filter and navigated with arrow
//! keys.  The state machine here decides everything; the surrounding
//! program only draws the rows it is handed and feeds key events back.

use vstd::prelude::*;
use crate::order::views_of;
use crate::text::is_prefix;
use crate::text::prefix_pred;
use vstd::string::StrSliceExecFns;

verus! {

/// A key event the menu reacts to.
#[derive(Clone, Copy)]
pub enum MenuKey {
    Up,
    Down,
    Char(char),
    Backspace,
    Enter,
    Esc,
    Other,
}

/// What one key event decides.
pub enum MenuStep {
    Continue,
    Confirmed(String),
    Cancelled,
}

/// The rows of `items` whose text starts with `filter`, in order.
pub open spec fn menu_filtered(items: Seq<Seq<char>>, filter: Seq<char>) -> Seq<Seq<char>> {
    items.filter(prefix_pred(filter))
}

/// The filter and selection after one key event.  Items never change.
pub open spec fn menu_step_state(
    items: Seq<Seq<char>>,
    filter: Seq<char>,
    selected: int,
    key: MenuKey,
) -> (Seq<char>, int) {
    let len = menu_filtered(items, filter).len() as int;
    match key {
        MenuKey::Up => (filter, if selected > 0 { selected - 1 } else { 0 }),
        MenuKey::Down => (filter, if len > 0 && selected < len - 1 { selected + 1 } else { selected }),
        MenuKey::Char(c) => (filter.push(c), 0),
        MenuKey::Backspace => (if filter.len() > 0 { filter.drop_last() } else { filter }, 0),
        MenuKey::Enter => (filter, selected),
        MenuKey::Esc => (filter, selected),
        MenuKey::Other => (filter, selected),
    }
}

/// The selection is in range whenever the filtered view is non-empty.
pub open spec fn menu_selection_ok(items: Seq<Seq<char>>, filter: Seq<char>, selected: int) -> bool {
    menu_filtered(items, filter).len() > 0 ==> 0 <= selected < menu_filtered(items, filter).len()
}

/// Prefix test against a filter held as characters.
fn starts_with_chars(s: &str, p: &Vec<char>) -> (r: bool)
    ensures
        r == is_prefix(p@, s@),
{
    let sl = s.unicode_len();
    let pl = p.len();
    if pl > sl {
        return false;
    }
    let mut i: usize = 0;
    while i < pl
        invariant
            i <= pl,
            pl == p@.len(),
            sl == s@.len(),
            pl <= sl,
            forall|j: int| 0 <= j < i ==> s@[j] == p@[j],
        decreases pl - i,
    {
        if s.get_char(i) != p[i] {
            proof {
                if is_prefix(p@, s@) {
                    assert(p@[i as int] == s@.subrange(0, p@.len() as int)[i as int]);
                }
            }
            return false;
        }
        i += 1;
    }
    proof {
        assert(s@.subrange(0, pl as int) =~= p@);
    }
    true
}

/// What the menu draws on one pass: the filtered rows, which row is
/// highlighted, and the filter text for the header.
pub struct MenuView {
    pub rows: Vec<String>,
    pub selected: usize,
    pub filter: Vec<char>,
}

/// The menu's state: the fixed rows, the highlighted index into the
/// filtered view, and the typed filter.
pub struct CompletionMenu {
    pub items: Vec<String>,
    pub selected: usize,
    pub filter: Vec<char>,
}

impl CompletionMenu {
    /// The current filtered view of the rows.
    pub open spec fn filtered_view(&self) -> Seq<Seq<char>> {
        menu_filtered(views_of(self.items@), self.filter@)
    }

    /// The selection is in range whenever the filtered view is non-empty.
    pub open spec fn wf(&self) -> bool {
        menu_selection_ok(views_of(self.items@), self.filter@, self.selected as int)
    }

    /// A fresh menu over the given rows: empty filter, first row selected.
    pub fn new(items: Vec<String>) -> (r: Self)
        ensures
            r.items@ == items@,
            r.selected == 0,
            r.filter@ == Seq::<char>::empty(),
            r.wf(),
    {
        Self { items, selected: 0, filter: Vec::new() }
    }

    /// The rows that currently pass the filter, in order.
    pub fn filtered_items(&self) -> (r: Vec<String>)
        ensures
            views_of(r@) == self.filtered_view(),
    {
        let ghost pred = prefix_pred(self.filter@);
        let n = self.items.len();
        let mut out: Vec<String> = Vec::new();
        let mut i: usize = 0;
        proof {
            assert(views_of(self.items@).take(0) =~= Seq::<Seq<char>>::empty());
            assert(views_of(out@) =~= Seq::<Seq<char>>::empty());
            assert(Seq::<Seq<char>>::empty().filter(pred) == Seq::<Seq<char>>::empty()) by {
                reveal(Seq::filter);
            }
        }
        while i < n
            invariant
                i <= n,
                n == self.items@.len(),
                pred == prefix_pred(self.filter@),
                views_of(out@) == views_of(self.items@).take(i as int).filter(pred),
            decreases n - i,
        {
            let ghost elem = views_of(self.items@)[i as int];
            let ghost tk = views_of(self.items@).take(i as int);
            let ghost tn = views_of(self.items@).take(i as int + 1);
            proof {
                assert(tn =~= tk.push(elem));
                tk.lemma_filter_push(elem, pred);
            }
            let it = &self.items[i];
            if starts_with_chars(it.as_str(), &self.filter) {
                out.push(it.clone());
                proof {
                    assert(it@ == elem);
                    assert(pred(elem));
                    assert(views_of(out@) =~= tk.filter(pred).push(elem));
                }
            } else {
                proof {
                    assert(it@ == elem);
                    assert(!pred(elem));
                }
            }
            i += 1;
        }
        proof {
            assert(views_of(self.items@).take(n as int) =~= views_of(self.items@));
        }
        out
    }

    /// One render pass: recompute the filtered view; if it is empty the
    /// menu is over (the caller cancels); otherwise clamp the selection
    /// into range and hand back what to draw.
    pub fn render_view(&mut self) -> (r: Option<MenuView>)
        ensures
            final(self).items@ == old(self).items@,
            final(self).filter@ == old(self).filter@,
            old(self).filtered_view().len() == 0 ==> r is None && final(self).selected == old(
                self,
            ).selected,
            old(self).filtered_view().len() > 0 ==> match r {
                Option::Some(view) => {
                    &&& views_of(view.rows@) == old(self).filtered_view()
                    &&& view.filter@ == old(self).filter@
                    &&& view.selected == final(self).selected
                    &&& final(self).selected as int == if (old(self).selected as int) < old(
                        self,
                    ).filtered_view().len() {
                        old(self).selected as int
                    } else {
                        old(self).filtered_view().len() - 1
                    }
                },
                Option::None => false,
            },
            final(self).wf(),
    {
        let rows = self.filtered_items();
        let n = rows.len();
        if n == 0 {
            return None;
        }
        if self.selected >= n {
            self.selected = n - 1;
        }
        Some(MenuView { rows, selected: self.selected, filter: self.filter.clone() })
    }

    /// React to one key event, as the menu loop does between renders.
    pub fn on_key(&mut self, key: MenuKey) -> (r: MenuStep)
        ensures
            final(self).items@ == old(self).items@,
            (final(self).filter@, final(self).selected as int) == menu_step_state(
                views_of(old(self).items@),
                old(self).filter@,
                old(self).selected as int,
                key,
            ),
            match r {
                MenuStep::Confirmed(s) => key is Enter && (old(self).selected as int) < old(
                    self,
                ).filtered_view().len() && s@ == old(self).filtered_view()[
                    old(self).selected as int
                ],
                MenuStep::Cancelled => key is Esc,
                MenuStep::Continue => !(key is Esc) && !(key is Enter && (old(self).selected
                    as int) < old(self).filtered_view().len()),
            },
            old(self).wf() ==> final(self).wf(),
    {
        match key {
            MenuKey::Up => {
                if self.selected > 0 {
                    self.selected = self.selected - 1;
                }
                MenuStep::Continue
            },
            MenuKey::Down => {
                let rows = self.filtered_items();
                let n = rows.len();
                if n > 0 && self.selected < n - 1 {
                    self.selected = self.selected + 1;
                }
                MenuStep::Continue
            },
            MenuKey::Char(c) => {
                self.filter.push(c);
                self.selected = 0;
                MenuStep::Continue
            },
            MenuKey::Backspace => {
                if self.filter.len() > 0 {
                    self.filter.pop();
                    proof {
                        assert(self.filter@ =~= old(self).filter@.drop_last());
                    }
                }
                self.selected = 0;
                MenuStep::Continue
            },
            MenuKey::Enter => {
                let rows = self.filtered_items();
                if self.selected < rows.len() {
                    let chosen = rows[self.selected].clone();
                    MenuStep::Confirmed(chosen)
                } else {
                    MenuStep::Continue
                }
            },
            MenuKey::Esc => MenuStep::Cancelled,
            MenuKey::Other => MenuStep::Continue,
        }
    }
}

/// A pointwise-stronger predicate filters to a list that is no longer.
proof fn lemma_filter_len_mono(
    items: Seq<Seq<char>>,
    p1: spec_fn(Seq<char>) -> bool,
    p2: spec_fn(Seq<char>) -> bool,
)
    requires
        forall|it: Seq<char>| #[trigger] p2(it) ==> p1(it),
    ensures
        items.filter(p2).len() <= items.filter(p1).len(),
    decreases items.len(),
{
    reveal(Seq::filter);
    if items.len() > 0 {
        lemma_filter_len_mono(items.drop_last(), p1, p2);
    }
}

/// A one-character-longer filter admits no row the shorter one refuses.
proof fn lemma_prefix_pred_tightens(filter: Seq<char>, c: char)
    ensures
        forall|it: Seq<char>| #[trigger] prefix_pred(filter.push(c))(it) ==> prefix_pred(filter)(
            it,
        ),
{
    assert forall|it: Seq<char>| #[trigger] prefix_pred(filter.push(c))(it) implies prefix_pred(
        filter,
    )(it) by {
        let ext = filter.push(c);
        assert(it.subrange(0, ext.len() as int) == ext);
        assert(it.subrange(0, filter.len() as int) =~= filter) by {
            assert forall|k: int| 0 <= k < filter.len() implies it.subrange(
                0,
                filter.len() as int,
            )[k] == filter[k] by {
                assert(it.subrange(0, ext.len() as int)[k] == ext[k]);
            }
        }
    }
}

/// Monotonic narrowing: appending a character to the filter never
/// grows the filtered view.
pub proof fn lemma_narrowing_append(items: Seq<Seq<char>>, filter: Seq<char>, c: char)
    ensures
        menu_filtered(items, filter.push(c)).len() <= menu_filtered(items, filter).len(),
{
    lemma_prefix_pred_tightens(filter, c);
    lemma_filter_len_mono(items, prefix_pred(filter), prefix_pred(filter.push(c)));
}

/// Monotonic widening: removing the last filter character never
/// shrinks the filtered view below its earlier size.
pub proof fn lemma_widening_remove(items: Seq<Seq<char>>, filter: Seq<char>)
    requires
        filter.len() > 0,
    ensures
        menu_filtered(items, filter.drop_last()).len() >= menu_filtered(items, filter).len(),
{
    let short = filter.drop_last();
    assert(filter =~= short.push(filter.last()));
    lemma_narrowing_append(items, short, filter.last());
}

/// Run the menu state machine over a whole sequence of key events.
pub open spec fn menu_run(
    items: Seq<Seq<char>>,
    filter: Seq<char>,
    selected: int,
    keys: Seq<MenuKey>,
) -> (Seq<char>, int)
    decreases keys.len(),
{
    if keys.len() == 0 {
        (filter, selected)
    } else {
        let next = menu_step_state(items, filter, selected, keys[0]);
        menu_run(items, next.0, next.1, keys.skip(1))
    }
}

/// One key event keeps the selection non-negative and in range.
proof fn lemma_step_selection_ok(
    items: Seq<Seq<char>>,
    filter: Seq<char>,
    selected: int,
    key: MenuKey,
)
    requires
        0 <= selected,
        menu_selection_ok(items, filter, selected),
    ensures
        ({
            let next = menu_step_state(items, filter, selected, key);
            0 <= next.1 && menu_selection_ok(items, next.0, next.1)
        }),
{
}

/// Menu invariant: after any sequence of key events the selection is
/// in range whenever the filtered view is non-empty, so the menu never
/// renders an out-of-range selection.
pub proof fn lemma_menu_invariant(
    items: Seq<Seq<char>>,
    filter: Seq<char>,
    selected: int,
    keys: Seq<MenuKey>,
)
    requires
        0 <= selected,
        menu_selection_ok(items, filter, selected),
    ensures
        ({
            let end = menu_run(items, filter, selected, keys);
            0 <= end.1 && menu_selection_ok(items, end.0, end.1)
        }),
    decreases keys.len(),
{
    if keys.len() > 0 {
        let next = menu_step_state(items, filter, selected, keys[0]);
        lemma_step_selection_ok(items, filter, selected, keys[0]);
        lemma_menu_invariant(items, next.0, next.1, keys.skip(1));
    }
}

/// Lifecycle phases of one menu invocation over the shared terminal.
pub enum SessionPhase {
    Ready,
    Active,
    Done,
}

/// One invocation of the selection menu, together with a ledger of the
/// terminal-mode transitions it performs.  The terminal is a single
/// exclusive resource: the session enters the alternate full-screen
/// mode at most once and must record the matching leave on every exit
/// path before it is done.
pub struct MenuSession {
    pub menu: CompletionMenu,
    pub phase: SessionPhase,
    pub enters: u64,
    pub leaves: u64,
    pub outcome: Option<String>,
}

impl MenuSession {
    /// The ledger is balanced except while the screen is held.
    pub open spec fn wf(&self) -> bool {
        &&& (self.phase is Active ==> self.enters == self.leaves + 1)
        &&& (!(self.phase is Active) ==> self.enters == self.leaves)
    }

    /// A session about to run the given menu; nothing acquired yet.
    pub fn start(menu: CompletionMenu) -> (r: Self)
        ensures
            r.phase is Ready,
            r.enters == 0,
            r.leaves == 0,
            r.menu == menu,
            r.outcome is None,
            r.wf(),
    {
        Self { menu, phase: SessionPhase::Ready, enters: 0, leaves: 0, outcome: None }
    }

    /// Record the attempt to take the terminal: on success the session
    /// is active and owes exactly one leave; on failure it is over with
    /// no selection and nothing to restore.
    pub fn open_screen(&mut self, ok: bool)
        requires
            old(self).phase is Ready,
            old(self).wf(),
            old(self).enters < u64::MAX,
        ensures
            final(self).wf(),
            final(self).menu == old(self).menu,
            final(self).leaves == old(self).leaves,
            ok ==> final(self).phase is Active && final(self).enters == old(self).enters + 1,
            !ok ==> final(self).phase is Done && final(self).enters == old(self).enters
                && (final(self).outcome is None),
    {
        if ok {
            self.enters = self.enters + 1;
            self.phase = SessionPhase::Active;
        } else {
            self.phase = SessionPhase::Done;
            self.outcome = None;
        }
    }

    /// Record giving the terminal back, with the session's outcome.
    /// Every exit path of the menu loop ends here, whatever happened.
    pub fn close_screen(&mut self, outcome: Option<String>)
        requires
            old(self).phase is Active,
            old(self).wf(),
        ensures
            final(self).wf(),
            final(self).menu == old(self).menu,
            final(self).phase is Done,
            final(self).enters == old(self).enters,
            final(self).leaves == old(self).leaves + 1,
            final(self).outcome == outcome,
    {
        self.leaves = self.leaves + 1;
        self.phase = SessionPhase::Done;
        self.outcome = outcome;
    }

    /// One render pass while the screen is held.
    pub fn render(&mut self) -> (r: Option<MenuView>)
        requires
            old(self).phase is Active,
            old(self).wf(),
        ensures
            final(self).wf(),
            final(self).phase is Active,
            final(self).enters == old(self).enters,
            final(self).leaves == old(self).leaves,
            final(self).menu.items@ == old(self).menu.items@,
            final(self).menu.filter@ == old(self).menu.filter@,
            old(self).menu.filtered_view().len() == 0 ==> r is None,
            old(self).menu.filtered_view().len() > 0 ==> match r {
                Option::Some(view) => {
                    &&& views_of(view.rows@) == old(self).menu.filtered_view()
                    &&& view.filter@ == old(self).menu.filter@
                    &&& view.selected == final(self).menu.selected
                    &&& (view.selected as int) < old(self).menu.filtered_view().len()
                },
                Option::None => false,
            },
            final(self).menu.wf(),
    {
        self.menu.render_view()
    }

    /// One key event while the screen is held.
    pub fn on_key(&mut self, key: MenuKey) -> (r: MenuStep)
        requires
            old(self).phase is Active,
            old(self).wf(),
        ensures
            final(self).wf(),
            final(self).phase is Active,
            final(self).enters == old(self).enters,
            final(self).leaves == old(self).leaves,
            final(self).menu.items@ == old(self).menu.items@,
            (final(self).menu.filter@, final(self).menu.selected as int) == menu_step_state(
                views_of(old(self).menu.items@),
                old(self).menu.filter@,
                old(self).menu.selected as int,
                key,
            ),
            match r {
                MenuStep::Confirmed(s) => key is Enter && (old(self).menu.selected as int) < old(
                    self,
                ).menu.filtered_view().len() && s@ == old(self).menu.filtered_view()[
                    old(self).menu.selected as int
                ],
                MenuStep::Cancelled => key is Esc,
                MenuStep::Continue => !(key is Esc) && !(key is Enter && (old(self).menu.selected
                    as int) < old(self).menu.filtered_view().len()),
            },
            old(self).menu.wf() ==> final(self).menu.wf(),
    {
        self.menu.on_key(key)
    }

    /// Terminal symmetry: whenever the session is not holding the
    /// screen — before it starts, and however it finished — the number
    /// of enters equals the number of leaves.
    pub proof fn lemma_terminal_symmetry(&self)
        requires
            self.wf(),
            !(self.phase is Active),
        ensures
            self.enters == self.leaves,
    {
    }
}

} // verus!
