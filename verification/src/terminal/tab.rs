//! Tab management: each tab owns the session it shows (its terminal state
//! and the shell behind it).

use vstd::prelude::*;

use crate::text::{dec, push_decimal};

verus! {

/// Represents a single terminal tab with its own session.
pub struct Tab<S> {
    pub id: usize,
    pub title: String,
    pub session: S,
}

/// The title of the tab with this id: `Tab <id + 1>`.
pub open spec fn tab_title(id: usize) -> Seq<char> {
    "Tab "@ + dec((id + 1) as nat)
}

/// The value of a [`TabManager`].
pub struct TabManagerView<S> {
    pub tabs: Seq<Tab<S>>,
    pub active: usize,
    pub next_id: usize,
}

/// A sound tab list: the active index points at a tab (or is 0 when there
/// is none), ids increase along the list and stay below the next id, and
/// each tab is titled after its id.
pub open spec fn tabs_ok<S>(v: TabManagerView<S>) -> bool {
    &&& (v.active < v.tabs.len() || (v.tabs.len() == 0 && v.active == 0))
    &&& forall|i: int, j: int| 0 <= i < j < v.tabs.len() ==> v.tabs[i].id < v.tabs[j].id
    &&& forall|i: int| 0 <= i < v.tabs.len() ==> #[trigger] v.tabs[i].id < v.next_id
    &&& forall|i: int| 0 <= i < v.tabs.len() ==> #[trigger] v.tabs[i].title@ == tab_title(v.tabs[i].id)
}

/// The active index after closing the tab at `index` of `len` tabs.
pub open spec fn active_after_close(active: usize, index: usize, len: nat) -> usize {
    if index >= len || len == 1 {
        if index >= len { active } else { 0 }
    } else if active >= len - 1 {
        (len - 2) as usize
    } else if active > index {
        (active - 1) as usize
    } else {
        active
    }
}

/// Manages multiple tabs with one active tab at a time.
pub struct TabManager<S> {
    tabs: Vec<Tab<S>>,
    active_index: usize,
    next_id: usize,
}

impl<S> View for TabManager<S> {
    type V = TabManagerView<S>;

    closed spec fn view(&self) -> TabManagerView<S> {
        TabManagerView { tabs: self.tabs@, active: self.active_index, next_id: self.next_id }
    }
}

impl<S> TabManager<S> {
    /// The tab list is sound.
    pub open spec fn wf(&self) -> bool {
        tabs_ok(self@)
    }

    pub fn new() -> (m: Self)
        ensures
            m.wf(),
            m@.tabs == Seq::<Tab<S>>::empty(),
            m@.active == 0,
            m@.next_id == 0,
    {
        Self { tabs: Vec::new(), active_index: 0, next_id: 0 }
    }

    /// Add a tab for a freshly started session, or report the error of
    /// starting one. Returns the id of the newly created tab, which becomes
    /// the active one. An id is used up either way.
    pub fn new_tab<E>(&mut self, session: Result<S, E>) -> (r: Result<usize, E>)
        requires
            old(self).wf(),
            old(self)@.next_id < usize::MAX,
        ensures
            final(self).wf(),
            final(self)@.next_id == old(self)@.next_id + 1,
            r matches Err(e) ==> session == Err::<S, E>(e) && final(self)@.tabs == old(self)@.tabs
                && final(self)@.active == old(self)@.active,
            r matches Ok(id) ==> id == old(self)@.next_id && final(self)@.tabs.len()
                == old(self)@.tabs.len() + 1 && final(self)@.tabs.drop_last() == old(self)@.tabs
                && final(self)@.tabs.last().id == id && final(self)@.tabs.last().title@ == tab_title(
                id,
            ) && (session matches Ok(s) && final(self)@.tabs.last().session == s)
                && final(self)@.active == old(self)@.tabs.len(),
    {
        let id = self.next_id;
        self.next_id += 1;
        let session = match session {
            Ok(s) => s,
            Err(e) => {
                return Err(e);
            },
        };
        let mut title = String::from_str("Tab ");
        push_decimal(&mut title, (id + 1) as u64);
        let tab = Tab { id, title, session };
        self.tabs.push(tab);
        // Switch to the newly created tab.
        self.active_index = self.tabs.len() - 1;
        proof {
            reveal_strlit("Tab ");
            assert(self@.tabs.drop_last() =~= old(self)@.tabs);
        }
        Ok(id)
    }

    /// Close tab at the given index. Returns true if there are still tabs left.
    pub fn close_tab(&mut self, index: usize) -> (left: bool)
        requires
            old(self).wf(),
        ensures
            final(self).wf(),
            left == (final(self)@.tabs.len() > 0),
            final(self)@.next_id == old(self)@.next_id,
            index >= old(self)@.tabs.len() ==> final(self)@ == old(self)@,
            index < old(self)@.tabs.len() ==> final(self)@.tabs == old(self)@.tabs.remove(
                index as int,
            ),
            final(self)@.active == active_after_close(
                old(self)@.active,
                index,
                old(self)@.tabs.len(),
            ),
    {
        if index >= self.tabs.len() {
            return self.tabs.len() > 0;
        }
        let ghost before = self@.tabs;
        let _removed = self.tabs.remove(index);
        proof {
            assert forall|k: int| 0 <= k < self@.tabs.len() implies #[trigger] self@.tabs[k] == (
            if k < index {
                before[k]
            } else {
                before[k + 1]
            }) by {}
        }
        if self.tabs.len() == 0 {
            self.active_index = 0;
            return false;
        }
        // Adjust active index if needed.
        if self.active_index >= self.tabs.len() {
            self.active_index = self.tabs.len() - 1;
        } else if self.active_index > index {
            self.active_index -= 1;
        }
        true
    }

    /// Get the active tab.
    pub fn active(&self) -> (r: Option<&Tab<S>>)
        ensures
            r matches Some(t) ==> self@.active < self@.tabs.len() && *t == self@.tabs[self@.active as int],
            r is None ==> self@.active >= self@.tabs.len(),
    {
        if self.active_index < self.tabs.len() {
            Some(&self.tabs[self.active_index])
        } else {
            None
        }
    }

    /// Get the active tab mutably.
    pub fn active_mut(&mut self) -> (r: Option<&mut Tab<S>>)
        ensures
            old(self)@.active >= old(self)@.tabs.len() ==> r is None && final(self)@ == old(self)@,
            old(self)@.active < old(self)@.tabs.len() ==> r is Some && *r.unwrap() == old(
                self,
            )@.tabs[old(self)@.active as int] && final(self)@.tabs == old(self)@.tabs.update(
                old(self)@.active as int,
                *final(r.unwrap()),
            ) && final(self)@.active == old(self)@.active && final(self)@.next_id == old(
                self,
            )@.next_id,
    {
        let i = self.active_index;
        self.get_mut(i)
    }

    /// The tab at `index`, mutably (for resize operations over all tabs).
    pub fn get_mut(&mut self, index: usize) -> (r: Option<&mut Tab<S>>)
        ensures
            index >= old(self)@.tabs.len() ==> r is None && final(self)@ == old(self)@,
            index < old(self)@.tabs.len() ==> r is Some && *r.unwrap() == old(self)@.tabs[index as int]
                && final(self)@.tabs == old(self)@.tabs.update(index as int, *final(r.unwrap()))
                && final(self)@.active == old(self)@.active && final(self)@.next_id == old(
                self,
            )@.next_id,
    {
        if index < self.tabs.len() {
            Some(&mut self.tabs[index])
        } else {
            None
        }
    }

    /// Switch to the next tab (wraps around).
    pub fn next_tab(&mut self)
        requires
            old(self).wf(),
        ensures
            final(self).wf(),
            final(self)@.tabs == old(self)@.tabs,
            final(self)@.next_id == old(self)@.next_id,
            final(self)@.active == (if old(self)@.tabs.len() > 1 {
                ((old(self)@.active + 1) % (old(self)@.tabs.len() as int)) as usize
            } else {
                old(self)@.active
            }),
    {
        if self.tabs.len() > 1 {
            self.active_index = (self.active_index + 1) % self.tabs.len();
        }
    }

    /// Switch to the previous tab (wraps around).
    pub fn prev_tab(&mut self)
        requires
            old(self).wf(),
        ensures
            final(self).wf(),
            final(self)@.tabs == old(self)@.tabs,
            final(self)@.next_id == old(self)@.next_id,
            final(self)@.active == (if old(self)@.tabs.len() > 1 {
                if old(self)@.active == 0 {
                    (old(self)@.tabs.len() - 1) as usize
                } else {
                    (old(self)@.active - 1) as usize
                }
            } else {
                old(self)@.active
            }),
    {
        if self.tabs.len() > 1 {
            if self.active_index == 0 {
                self.active_index = self.tabs.len() - 1;
            } else {
                self.active_index -= 1;
            }
        }
    }

    /// Switch to a specific tab by index.
    pub fn switch_to(&mut self, index: usize)
        requires
            old(self).wf(),
        ensures
            final(self).wf(),
            final(self)@.tabs == old(self)@.tabs,
            final(self)@.next_id == old(self)@.next_id,
            final(self)@.active == (if index < old(self)@.tabs.len() {
                index
            } else {
                old(self)@.active
            }),
    {
        if index < self.tabs.len() {
            self.active_index = index;
        }
    }

    /// Get tab count.
    pub fn count(&self) -> (n: usize)
        ensures
            n == self@.tabs.len(),
    {
        self.tabs.len()
    }

    /// Get active tab index.
    pub fn active_index(&self) -> (i: usize)
        ensures
            i == self@.active,
    {
        self.active_index
    }

    /// Get tab titles for display.
    /// Returns (id, title, is_active) for each tab.
    pub fn tab_titles(&self) -> (r: Vec<(usize, &str, bool)>)
        ensures
            r@.len() == self@.tabs.len(),
            forall|i: int|
                0 <= i < r@.len() ==> (#[trigger] r@[i]).0 == self@.tabs[i].id && r@[i].1@
                    == self@.tabs[i].title@ && r@[i].2 == (i == self@.active),
    {
        let mut out: Vec<(usize, &str, bool)> = Vec::new();
        for i in 0..self.tabs.len()
            invariant
                out@.len() == i,
                forall|k: int|
                    0 <= k < i ==> (#[trigger] out@[k]).0 == self@.tabs[k].id && out@[k].1@
                        == self@.tabs[k].title@ && out@[k].2 == (k == self@.active),
        {
            out.push((self.tabs[i].id, self.tabs[i].title.as_str(), i == self.active_index));
        }
        out
    }
}

impl<S> Default for TabManager<S> {
    fn default() -> (m: Self)
        ensures
            m.wf(),
            m@.tabs == Seq::<Tab<S>>::empty(),
            m@.active == 0,
            m@.next_id == 0,
    {
        Self::new()
    }
}

// ---------------------------------------------------------------------------
// Laws
// ---------------------------------------------------------------------------

/// Closing a tab other than the active one leaves the same tab active.
pub proof fn lemma_close_keeps_active_tab<S>(tabs: Seq<Tab<S>>, active: usize, index: usize)
    requires
        active < tabs.len(),
        index < tabs.len(),
        index != active,
    ensures
        tabs.remove(index as int)[active_after_close(active, index, tabs.len()) as int]
            == tabs[active as int],
{
}

/// Moving to the previous tab undoes moving to the next one, and the other
/// way round.
pub proof fn lemma_prev_tab_undoes_next(active: usize, len: nat)
    requires
        active < len,
        1 < len <= usize::MAX,
    ensures
        ({
            let n = ((active + 1) % (len as int)) as usize;
            (if n == 0 { (len - 1) as usize } else { (n - 1) as usize }) == active
        }),
        ({
            let p = if active == 0 { (len - 1) as usize } else { (active - 1) as usize };
            ((p + 1) % (len as int)) as usize == active
        }),
{
    let n = (active + 1) % (len as int);
    assert(n == (if active + 1 == len { 0 } else { active + 1 })) by (nonlinear_arith)
        requires
            0 <= active < len,
            n == (active + 1) % (len as int),
    ;
    let p = if active == 0 { len - 1 } else { active - 1 };
    assert((p + 1) % (len as int) == active) by (nonlinear_arith)
        requires
            0 <= active < len,
            p == (if active == 0 { len - 1 } else { active - 1 }),
    ;
}

/// In a sound tab list no two tabs share an id, nor a title.
pub proof fn lemma_tab_ids_distinct<S>(v: TabManagerView<S>, i: int, j: int)
    requires
        tabs_ok(v),
        0 <= i < v.tabs.len(),
        0 <= j < v.tabs.len(),
        i != j,
    ensures
        v.tabs[i].id != v.tabs[j].id,
        v.tabs[i].title@ != v.tabs[j].title@,
{
    let a = v.tabs[i].id;
    let b = v.tabs[j].id;
    assert(a != b);
    crate::text::lemma_dec_injective((a + 1) as nat, (b + 1) as nat);
    if v.tabs[i].title@ == v.tabs[j].title@ {
        reveal_strlit("Tab ");
        assert(tab_title(a).skip(4) =~= dec((a + 1) as nat));
        assert(tab_title(b).skip(4) =~= dec((b + 1) as nat));
    }
}

} // verus!
