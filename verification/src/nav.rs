use vstd::prelude::*;

verus! {

/// A key press, as far as the monitor tells keys apart.
#[derive(Clone, Copy, Debug, PartialEq, Eq)]
pub enum Key {
    Char(char),
    Up,
    Down,
    Esc,
    Other,
}

/// What the caller has to do after a key press.
#[derive(Clone, Copy, Debug, PartialEq, Eq)]
pub struct KeyOutcome {
    /// Leave the program.
    pub quit: bool,
    /// Refresh the system data now.
    pub refresh: bool,
    /// Play the effect that marks a newly selected row.
    pub selection_effect: bool,
    /// Rebuild the cached panel texts (the mode shown in the summary changed).
    pub cache_update: bool,
}

/// The row after `selected` among `count` rows, wrapping to the first.
pub open spec fn next_index(selected: int, count: int) -> int {
    (selected + 1) % count
}

/// The row before `selected` among `count` rows, wrapping to the last.
pub open spec fn prev_index(selected: int, count: int) -> int {
    if selected == 0 {
        count - 1
    } else {
        selected - 1
    }
}

/// Navigation mode after `key` when it was `nav`: `/` toggles it, Esc turns it
/// off, every other key leaves it.
pub open spec fn nav_after(nav: bool, key: Key) -> bool {
    if key == Key::Char('/') {
        !nav
    } else if key == Key::Esc {
        false
    } else {
        nav
    }
}

/// The selection in the process table: the selected row, whether navigation
/// mode is on, and the row the table highlights.
pub struct Navigation {
    selected: usize,
    nav_mode: bool,
    highlighted: Option<usize>,
}

impl Navigation {
    #[verifier::type_invariant]
    spec fn inv(self) -> bool {
        self.selected < usize::MAX
    }

    /// The selected row.
    pub closed spec fn row(&self) -> nat {
        self.selected as nat
    }

    /// Whether navigation mode is on.
    pub closed spec fn nav(&self) -> bool {
        self.nav_mode
    }

    /// The row the table highlights, if any.
    pub closed spec fn highlight(&self) -> Option<usize> {
        self.highlighted
    }

    /// Viewing mode with the first row selected and highlighted.
    pub fn new() -> (r: Self)
        ensures
            r.row() == 0,
            !r.nav(),
            r.highlight() == Some(0usize),
    {
        Navigation { selected: 0, nav_mode: false, highlighted: Some(0) }
    }

    /// The selected row.
    pub fn selected(&self) -> (r: usize)
        ensures
            r == self.row(),
    {
        self.selected
    }

    /// Whether navigation mode is on.
    pub fn nav_mode(&self) -> (r: bool)
        ensures
            r == self.nav(),
    {
        self.nav_mode
    }

    /// The row the table highlights, if any.
    pub fn highlighted(&self) -> (r: Option<usize>)
        ensures
            r == self.highlight(),
    {
        self.highlighted
    }

    /// Moves the selection one row down among `count` rows, wrapping to the
    /// first, and highlights it; returns whether it moved (not when there are
    /// no rows).
    pub fn select_next(&mut self, count: usize) -> (moved: bool)
        ensures
            moved == (count > 0),
            final(self).nav() == old(self).nav(),
            count == 0 ==> final(self).row() == old(self).row() && final(self).highlight()
                == old(self).highlight(),
            count > 0 ==> final(self).row() == next_index(old(self).row() as int, count as int)
                && final(self).highlight() == Some(final(self).row() as usize),
    {
        proof {
            use_type_invariant(&*self);
        }
        if count == 0 {
            return false;
        }
        let next = (self.selected + 1) % count;
        self.selected = next;
        self.highlighted = Some(next);
        true
    }

    /// Moves the selection one row up among `count` rows, wrapping to the
    /// last, and highlights it; returns whether it moved (not when there are
    /// no rows).
    pub fn select_prev(&mut self, count: usize) -> (moved: bool)
        ensures
            moved == (count > 0),
            final(self).nav() == old(self).nav(),
            count == 0 ==> final(self).row() == old(self).row() && final(self).highlight()
                == old(self).highlight(),
            count > 0 ==> final(self).row() == prev_index(old(self).row() as int, count as int)
                && final(self).highlight() == Some(final(self).row() as usize),
    {
        proof {
            use_type_invariant(&*self);
        }
        if count == 0 {
            return false;
        }
        let prev = if self.selected == 0 {
            count - 1
        } else {
            self.selected - 1
        };
        self.selected = prev;
        self.highlighted = Some(prev);
        true
    }

    /// Keeps the selection inside the `count` rows of fresh data: no rows
    /// clears it, and a selection past the end moves to the last row
    /// (highlighted in navigation mode).
    pub fn on_data(&mut self, count: usize)
        ensures
            final(self).nav() == old(self).nav(),
            count == 0 ==> final(self).row() == 0 && final(self).highlight() is None,
            count > 0 && old(self).row() < count ==> final(self).row() == old(self).row()
                && final(self).highlight() == old(self).highlight(),
            count > 0 && old(self).row() >= count ==> final(self).row() == count - 1 && (if old(
                self,
            ).nav() {
                final(self).highlight() == Some((count - 1) as usize)
            } else {
                final(self).highlight() == old(self).highlight()
            }),
    {
        if count == 0 {
            self.selected = 0;
            self.highlighted = None;
        } else if self.selected >= count {
            self.selected = count - 1;
            if self.nav_mode {
                self.highlighted = Some(self.selected);
            }
        }
    }

    /// Handles one key press with `count` rows in the table: `q` quits, `r`
    /// asks for a refresh, `/` toggles navigation mode, the arrows and `k`/`j`
    /// move the selection in navigation mode, Esc leaves navigation mode.
    pub fn handle_key(&mut self, key: Key, count: usize) -> (r: KeyOutcome)
        ensures
            final(self).nav() == nav_after(old(self).nav(), key),
            r.quit == (key == Key::Char('q')),
            r.refresh == (key == Key::Char('r')),
            r.cache_update == (key == Key::Char('/') || key == Key::Esc),
            key == Key::Char('/') ==> {
                &&& final(self).nav() == !old(self).nav()
                &&& final(self).row() == old(self).row()
                &&& (final(self).nav() && count > 0 ==> final(self).highlight() == Some(
                    old(self).row() as usize,
                ) && r.selection_effect)
                &&& (!(final(self).nav() && count > 0) ==> final(self).highlight() is None
                    && !r.selection_effect)
            },
            key == Key::Esc ==> !final(self).nav() && final(self).row() == old(self).row()
                && final(self).highlight() is None && !r.selection_effect,
            (key == Key::Up || key == Key::Char('k')) ==> {
                &&& final(self).nav() == old(self).nav()
                &&& r.selection_effect == (old(self).nav() && count > 0)
                &&& (r.selection_effect ==> final(self).row() == prev_index(
                    old(self).row() as int,
                    count as int,
                ) && final(self).highlight() == Some(final(self).row() as usize))
                &&& (!r.selection_effect ==> final(self).row() == old(self).row()
                    && final(self).highlight() == old(self).highlight())
            },
            (key == Key::Down || key == Key::Char('j')) ==> {
                &&& final(self).nav() == old(self).nav()
                &&& r.selection_effect == (old(self).nav() && count > 0)
                &&& (r.selection_effect ==> final(self).row() == next_index(
                    old(self).row() as int,
                    count as int,
                ) && final(self).highlight() == Some(final(self).row() as usize))
                &&& (!r.selection_effect ==> final(self).row() == old(self).row()
                    && final(self).highlight() == old(self).highlight())
            },
            !(key == Key::Char('/') || key == Key::Esc || key == Key::Up || key == Key::Down
                || key == Key::Char('k') || key == Key::Char('j')) ==> {
                &&& final(self).nav() == old(self).nav()
                &&& final(self).row() == old(self).row()
                &&& final(self).highlight() == old(self).highlight()
                &&& !r.selection_effect
            },
    {
        proof {
            use_type_invariant(&*self);
        }
        let mut outcome = KeyOutcome {
            quit: false,
            refresh: false,
            selection_effect: false,
            cache_update: false,
        };
        match key {
            Key::Char('q') => {
                outcome.quit = true;
            },
            Key::Char('r') => {
                outcome.refresh = true;
            },
            Key::Char('/') => {
                self.nav_mode = !self.nav_mode;
                if self.nav_mode && count > 0 {
                    self.highlighted = Some(self.selected);
                    outcome.selection_effect = true;
                } else {
                    self.highlighted = None;
                }
                outcome.cache_update = true;
            },
            Key::Up | Key::Char('k') => {
                if self.nav_mode {
                    outcome.selection_effect = self.select_prev(count);
                }
            },
            Key::Down | Key::Char('j') => {
                if self.nav_mode {
                    outcome.selection_effect = self.select_next(count);
                }
            },
            Key::Esc => {
                self.nav_mode = false;
                self.highlighted = None;
                outcome.cache_update = true;
            },
            _ => {},
        }
        outcome
    }
}

/// Pressing `/` twice returns to the mode before; Esc always ends in viewing mode.
pub proof fn lemma_toggle_twice(nav: bool)
    ensures
        nav_after(nav_after(nav, Key::Char('/')), Key::Char('/')) == nav,
        !nav_after(nav, Key::Esc),
{
}

/// Moving down then up, or up then down, returns to the row selected before.
/// Down goes to the next row and from the last row to the first; up goes to
/// the row before and from the first row to the last.
pub proof fn lemma_next_prev_inverse(selected: int, count: int)
    requires
        0 <= selected < count,
    ensures
        selected + 1 < count ==> next_index(selected, count) == selected + 1,
        selected + 1 == count ==> next_index(selected, count) == 0,
        selected > 0 ==> prev_index(selected, count) == selected - 1,
        selected == 0 ==> prev_index(selected, count) == count - 1,
        prev_index(next_index(selected, count), count) == selected,
        next_index(prev_index(selected, count), count) == selected,
        0 <= next_index(selected, count) < count,
        0 <= prev_index(selected, count) < count,
{
    if selected + 1 < count {
        assert((selected + 1) % count == selected + 1) by (nonlinear_arith)
            requires
                0 <= selected + 1 < count,
        ;
    } else {
        assert((selected + 1) % count == 0) by (nonlinear_arith)
            requires
                selected + 1 == count,
                count > 0,
        ;
    }
    if selected == 0 {
        assert((count - 1 + 1) % count == 0) by (nonlinear_arith)
            requires
                count > 0,
        ;
    } else {
        assert((selected - 1 + 1) % count == selected) by (nonlinear_arith)
            requires
                0 <= selected < count,
        ;
    }
}

} // verus!
